use runcher::enrichment::{
    conversion_for, mod_from_query, move_to_destination, populate_mods_with_online_data,
    request_mods_data, Conversion, PendingConversion, QueryResultDerive, SavedCopy,
};
use runcher::frontend_types::{
    get_available_date_formats, get_available_languages, item_for_mod, load_mods, load_packs,
    Folders, ListItem,
};
use runcher::game_config::{Category, GameConfig, DEFAULT_CATEGORY};
use runcher::games::GameTraits;
use runcher::load_order::LoadOrder;
use runcher::map_pack::{
    describe_battle, describe_texts, generate_map_pack, parse_i32, read_map_files,
    read_map_info, unpack_map, MapError, MapFile, MapInfo,
};
use runcher::mods::{Mod, PackFileType};
use runcher::secondary::{
    change_extension, copy_to_secondary, files_to_mask, masks_needed, move_to_secondary,
    secondary_mods_packs_paths, secondary_mods_path, SecondaryPathError, Transfer,
    SECONDARY_FOLDER_NAME,
};
use runcher::settings::{put_setting, AppSettings, Setting};
use runcher::steam::{
    app_manifest_path, details_command, encode_text, launch_command, start_command,
    upload_command, upload_mod_to_integration, user_id, user_id_command,
};
use runcher::store::{PublishedFileVisibilityDerive, RemoteMetadata, StoreId};
use std::io::Write;

fn strings(items: &[&str]) -> Vec<String> {
    items.iter().map(|s| s.to_string()).collect()
}

fn game(key: &str) -> GameTraits {
    GameTraits::for_key(key).unwrap()
}

fn installed(id: &str, paths: &[&str], kind: PackFileType, enabled: bool) -> Mod {
    let mut m = Mod::default();
    m.id = id.to_string();
    m.name = id.to_string();
    m.paths = strings(paths);
    m.pack_type = kind;
    m.enabled = enabled;
    m
}

fn query() -> QueryResultDerive {
    QueryResultDerive {
        published_file_id: 2789857593,
        title: "Better Camera".to_string(),
        description: "Zoom out".to_string(),
        owner: 76561197960265728,
        time_created: 1650000000,
        time_updated: 1660000000,
        visibility: PublishedFileVisibilityDerive::Public,
        tags: strings(&["mod", "ui"]),
        file_name: "mods/better_camera.pack".to_string(),
        file_size: 4096,
    }
}

#[test]
fn store_descriptions_become_mods() {
    let m = mod_from_query(&query());
    assert_eq!(m.store_id, StoreId::Steam("2789857593".to_string()));
    assert_eq!(m.name, "Better Camera");
    assert_eq!(m.creator, "76561197960265728");
    assert_eq!(m.file_name, "mods/better_camera.pack");
    assert_eq!(m.file_size, 4096);
    assert_eq!(m.description, "Zoom out");
    assert_eq!(m.time_created, 1650000000);
    assert_eq!(m.time_updated, 1660000000);
    assert_eq!(m.id, "");
    assert!(m.paths.is_empty());
    assert_eq!(request_mods_data(&vec![]).len(), 0);
    assert_eq!(request_mods_data(&vec![query(), query()]).len(), 2);

    let metadata = RemoteMetadata::from_query(&query());
    assert_eq!(
        metadata,
        RemoteMetadata {
            remote_id: 2789857593,
            title: "Better Camera".to_string(),
            description: "Zoom out".to_string(),
            visibility: PublishedFileVisibilityDerive::Public,
            tags: strings(&["mod", "ui"]),
        }
    );
}

#[test]
fn store_data_goes_to_the_mod_with_the_store_id() {
    let mut local = vec![
        installed("none.pack", &["/d/none.pack"], PackFileType::Mod, true),
        installed("first.pack", &["/c/2789857593/first.pack"], PackFileType::Movie, true),
        installed("second.pack", &["/c/2789857593/second.pack"], PackFileType::Mod, false),
        installed("epic.pack", &["/d/epic.pack"], PackFileType::Mod, false),
    ];
    local[1].store_id = StoreId::Steam("2789857593".to_string());
    local[2].store_id = StoreId::Steam("2789857593".to_string());
    local[3].store_id = StoreId::Epic("2789857593".to_string());
    let mut unknown = mod_from_query(&query());
    unknown.store_id = StoreId::Steam("1".to_string());
    let mut nowhere = mod_from_query(&query());
    nowhere.store_id = StoreId::Local;
    populate_mods_with_online_data(&mut local, &vec![unknown, mod_from_query(&query()), nowhere]);
    assert_eq!(local[0].name, "none.pack");
    assert_eq!(local[1].name, "Better Camera");
    assert_eq!(local[1].id, "first.pack");
    assert_eq!(local[1].creator, "76561197960265728");
    assert_eq!(local[1].file_name, "mods/better_camera.pack");
    assert_eq!(local[1].file_size, 4096);
    assert_eq!(local[1].description, "Zoom out");
    assert_eq!(local[1].time_created, 1650000000);
    assert_eq!(local[1].time_updated, 1660000000);
    assert_eq!(local[1].pack_type, PackFileType::Movie);
    assert!(local[1].enabled);
    assert_eq!(local[1].paths, strings(&["/c/2789857593/first.pack"]));
    assert_eq!(local[2].name, "second.pack");
    assert_eq!(local[3].name, "epic.pack");
}

#[test]
fn legacy_files_are_converted_by_their_kind() {
    let shogun = game("shogun_2");
    let rome = game("rome_2");
    let mut m = installed("1.bin", &["/d/1.pack", "/c/1/1.bin"], PackFileType::Mod, true);
    assert_eq!(conversion_for(&m, &shogun), Conversion::Keep);
    m.file_name = "mods/thing.pack".to_string();
    assert_eq!(conversion_for(&m, &shogun), Conversion::Repack { name: "thing.pack".to_string() });
    assert_eq!(conversion_for(&m, &rome), Conversion::Repack { name: "thing.pack".to_string() });
    m.file_name = "maps/My Map".to_string();
    assert_eq!(
        conversion_for(&m, &shogun),
        Conversion::MapPack { pack_name: "My_Map.pack".to_string(), map_name: "My_Map".to_string() }
    );
    assert_eq!(conversion_for(&m, &rome), Conversion::Keep);
    m.id = "1.pack".to_string();
    assert_eq!(conversion_for(&m, &shogun), Conversion::Keep);
    m.id = "1.bin".to_string();
    m.paths.clear();
    assert_eq!(conversion_for(&m, &shogun), Conversion::Keep);
}

#[test]
fn converted_packs_go_to_secondary_before_data() {
    let mut m = Mod::default();
    m.creator = "me".to_string();
    let secondary = Some("/s".to_string());
    assert_eq!(
        move_to_destination("/d", &secondary, "you", &m, "a.pack", false, false),
        strings(&["/s/a.pack", "/d/a.pack"])
    );
    assert_eq!(
        move_to_destination("/d", &secondary, "me", &m, "a.pack", false, true),
        strings(&["/d/a.pack"])
    );
    assert_eq!(
        move_to_destination("/d", &secondary, "you", &m, "a.pack", false, true),
        strings(&["/s/a.pack", "/d/a.pack"])
    );
    assert_eq!(
        move_to_destination("/d", &secondary, "you", &m, "a.pack", true, false),
        strings(&["/d/a.pack"])
    );
    assert_eq!(
        move_to_destination("/d", &secondary, "me", &m, "a.pack", true, false),
        Vec::<String>::new()
    );
    assert_eq!(
        move_to_destination("/d", &None, "me", &m, "a.pack", false, false),
        strings(&["/d/a.pack"])
    );
}

#[test]
fn enrichment_finds_the_conversions_and_drops_the_doubles() {
    let mut config = GameConfig::new("shogun_2");
    let mut bin = installed("123.bin", &["/c/123/123.bin"], PackFileType::Mod, true);
    bin.store_id = StoreId::Steam("123".to_string());
    config.mods.push(bin);
    config.mods.push(installed("My_Map.pack", &["/d/My_Map.pack"], PackFileType::Mod, true));
    config.mods.push(installed("other.pack", &["/d/other.pack"], PackFileType::Mod, true));
    config.categories[0].mods = strings(&["123.bin", "My_Map.pack", "other.pack"]);
    config.categories.push(Category { name: "Maps".to_string(), mods: strings(&["My_Map.pack"]) });

    let mut remote = mod_from_query(&query());
    remote.store_id = StoreId::Steam("123".to_string());
    remote.file_name = "maps/My Map".to_string();
    let pending = config.update_mod_list_with_online_data(&vec![remote], &game("shogun_2"));
    assert_eq!(
        pending,
        vec![PendingConversion {
            mod_id: "123.bin".to_string(),
            source: "/c/123/123.bin".to_string(),
            conversion: Conversion::MapPack {
                pack_name: "My_Map.pack".to_string(),
                map_name: "My_Map".to_string()
            },
        }]
    );
    assert_eq!(config.mods.len(), 3);
    assert_eq!(config.mods[0].name, "Better Camera");

    config.conclude_conversions(&vec![
        SavedCopy { mod_id: "123.bin".to_string(), path: "/s/My_Map.pack".to_string(), pack_type: None },
        SavedCopy {
            mod_id: "unknown".to_string(),
            path: "/s/x.pack".to_string(),
            pack_type: Some(PackFileType::Movie),
        },
    ]);
    assert_eq!(config.mods.len(), 2);
    assert_eq!(config.mods[0].id, "123.bin");
    assert_eq!(config.mods[0].paths, strings(&["/s/My_Map.pack", "/c/123/123.bin"]));
    assert_eq!(config.mods[0].pack_type, PackFileType::Mod);
    assert_eq!(config.mods[1].id, "other.pack");
    assert_eq!(config.categories[0].mods, strings(&["123.bin", "other.pack"]));
    assert!(config.categories[1].mods.is_empty());
    assert_eq!(config.categories_order, strings(&[DEFAULT_CATEGORY]));

    let mut m = Mod::default();
    m.record_copy("/a", Some(PackFileType::Movie));
    m.record_copy("/b", None);
    m.record_copy("/a", None);
    assert_eq!(m.paths, strings(&["/b", "/a"]));
    assert_eq!(m.pack_type, PackFileType::Movie);
}

#[test]
fn helper_commands_are_spelled_out() {
    assert_eq!(encode_text("hello"), "aGVsbG8=");
    assert_eq!(encode_text(""), "");
    assert_eq!(encode_text("Zoom out ✓"), "Wm9vbSBvdXQg4pyT");
    assert_eq!(launch_command("workshopper", 1142710, "Y21k"), "workshopper launch -b -s 1142710 -c Y21k");
    assert_eq!(
        user_id_command("./workshopper", 594570, "42"),
        "./workshopper user-id -s 594570 -i 42 & exit"
    );
    assert_eq!(
        details_command("w", 0, &strings(&["1", "22"]), "7"),
        "w get-published-file-details -s 0 -p 1,22 -i 7 & exit"
    );
    let texts = upload_mod_to_integration("Title", "Text", &strings(&["mod", "ui"]), "", &Some(2));
    assert_eq!(texts.title, "VGl0bGU=");
    assert_eq!(texts.description, Some("VGV4dA==".to_string()));
    assert_eq!(texts.changelog, None);
    assert_eq!(
        upload_command("w", 1142710, "/d/a.pack", &StoreId::Steam("99".to_string()), &texts),
        "w update --published-file-id 99 -b -s 1142710 -f \"/d/a.pack\" -t VGl0bGU= --tags mod,ui \
         -d VGV4dA== --visibility 2 & exit"
    );
    let bare = upload_mod_to_integration("T", "", &vec![], "c", &None);
    assert_eq!(
        upload_command("w", 5, "p", &StoreId::Local, &bare),
        "w upload -b -s 5 -f \"p\" -t VA== --tags  -c Yw== & exit"
    );
    assert_eq!(user_id(&vec![1, 0, 0, 0, 0, 0, 0, 0]), Some("1".to_string()));
    assert_eq!(user_id(&vec![0, 1, 0, 0, 0, 0, 0, 0]), Some("256".to_string()));
    assert_eq!(
        user_id(&76561197960265728u64.to_le_bytes().to_vec()),
        Some("76561197960265728".to_string())
    );
    assert_eq!(user_id(&vec![255; 8]), Some("18446744073709551615".to_string()));
    assert_eq!(user_id(&vec![1, 2, 3]), None);
    assert_eq!(user_id(&vec![0; 9]), None);
    assert_eq!(
        app_manifest_path(1142710, "/steam/steamapps/common/Total War WARHAMMER III"),
        "/steam/steamapps/appmanifest_1142710.acf"
    );
    assert_eq!(
        start_command(
            &game("warhammer_3"),
            "C:\\Games\\wh3",
            "C:\\Games\\wh3\\Warhammer3.exe",
            "C:\\Games\\wh3\\mod_list.txt",
            &strings(&["game_startup_mode", "campaign_load"])
        ),
        "cmd /C start /W /d \"C:/Games/wh3\" \"C:\\Games\\wh3\\Warhammer3.exe\" \"mod_list.txt\"; \
         game_startup_mode campaign_load"
    );
    assert_eq!(
        start_command(&game("empire"), "/g/e", "/g/e/Empire.exe", "C:\\cfg\\u.txt", &strings(&["x"])),
        "cmd /C start /W /d \"/g/e\" \"Empire.exe\" \"C:/cfg/u.txt\";"
    );
}

fn utf16(text: &str) -> Vec<u8> {
    let mut out = vec![];
    for unit in text.encode_utf16() {
        out.extend_from_slice(&unit.to_le_bytes());
    }
    out.extend_from_slice(&[0, 0]);
    out
}

fn map_data(files: &[(&str, &[u8])]) -> Vec<u8> {
    let mut out = vec![];
    for (name, data) in files {
        out.extend_from_slice(&utf16(name));
        out.extend_from_slice(&(data.len() as u64).to_le_bytes());
        out.extend_from_slice(data);
    }
    out.extend_from_slice(&[0x0A, 0, 0, 0]);
    out
}

const MAP_INFO: &str = "<map>\n<display_name>Green Hills</display_name>\n\
<description>Hills, green.</description>\n<type>land</type>\n<team_size_1>4</team_size_1>\n\
<team_size_2>x</team_size_2>\n<defender_funds_ratio>1.5</defender_funds_ratio>\n\
<has_key_buildings>true</has_key_buildings>\n</map>";

#[test]
fn map_files_are_read_one_after_the_other() {
    let data = map_data(&[("a.txt", b"hello"), ("b/c.bin", b""), ("a.txt", b"again")]);
    let files = read_map_files(&data).unwrap();
    assert_eq!(
        files,
        vec![
            MapFile { name: "a.txt".to_string(), data: b"again".to_vec() },
            MapFile { name: "b/c.bin".to_string(), data: vec![] },
        ]
    );
    assert_eq!(read_map_files(&[]), Ok(vec![]));
    assert_eq!(read_map_files(&[1, 2, 3, 4]), Ok(vec![]));
    assert_eq!(read_map_files(&[1, 2, 3]), Ok(vec![]));
    assert_eq!(read_map_files(&[97, 0, 98, 0, 99]), Err(MapError::BadName));
    assert_eq!(read_map_files(&[97, 0, 0, 0, 1, 0, 0]), Err(MapError::Truncated));
    let mut short = utf16("a");
    short.extend_from_slice(&5u64.to_le_bytes());
    short.extend_from_slice(b"abc");
    assert_eq!(read_map_files(&short), Err(MapError::Truncated));
    let mut exact = utf16("a");
    exact.extend_from_slice(&3u64.to_le_bytes());
    exact.extend_from_slice(b"abc");
    assert_eq!(
        read_map_files(&exact),
        Ok(vec![MapFile { name: "a".to_string(), data: b"abc".to_vec() }])
    );
    assert_eq!(MapError::BadName.message(), "The name of a file of the map has no end.");
    assert_eq!(MapError::Truncated.message(), "The data of the map ends in the middle of a file.");
}

#[test]
fn maps_become_packs_with_their_tables() {
    let data = map_data(&[("map_info.xml", MAP_INFO.as_bytes()), ("icon.tga", &[1, 2, 3])]);
    let pack = generate_map_pack(&data, "Green_Hills.pack", "Green_Hills", true).unwrap();
    assert_eq!(pack.pack_name, "Green_Hills.pack");
    assert_eq!(pack.files.len(), 2);
    assert_eq!(pack.files[0].name, "battleterrain/presets/Green_Hills/map_info.xml");
    assert_eq!(pack.files[1].name, "battleterrain/presets/Green_Hills/icon.tga");
    assert_eq!(pack.files[1].data, vec![1, 2, 3]);
    let tables = pack.tables.unwrap();
    assert_eq!(tables.battle_path, "db/battles_tables/Green_Hills");
    assert_eq!(tables.texts_path, "text/db/Green_Hills.loc");
    let row = tables.battle;
    assert_eq!(row.key, "Green_Hills");
    assert_eq!(row.battle_type, Some("classic".to_string()));
    assert_eq!(row.specification, "battleterrain/presets/Green_Hills/");
    assert_eq!(row.screenshot_path, "battleterrain/presets/Green_Hills/icon.tga");
    assert_eq!(row.team_size_1, Some(4));
    assert_eq!(row.team_size_2, None);
    assert_eq!(row.defender_funds_ratio, Some("1.5".to_string()));
    assert_eq!(row.has_key_buildings, Some(true));
    assert!(row.release && row.multiplayer && row.singleplayer && row.matchmaking);
    assert_eq!(
        tables.texts,
        vec![
            Setting {
                key: "battles_localised_name_Green_Hills".to_string(),
                value: "Green Hills".to_string()
            },
            Setting {
                key: "battles_description_Green_Hills".to_string(),
                value: "Hills, green.".to_string()
            },
        ]
    );

    assert!(generate_map_pack(&data, "p", "m", false).unwrap().tables.is_none());
    let no_info = map_data(&[("icon.tga", &[1])]);
    assert!(generate_map_pack(&no_info, "p", "m", true).unwrap().tables.is_none());
    let not_text = map_data(&[("map_info.xml", &[0xFF, 0xFE, 0xFD])]);
    assert!(generate_map_pack(&not_text, "p", "m", true).unwrap().tables.is_none());
    assert_eq!(generate_map_pack(&[9, 9, 9, 9, 9, 9], "p", "m", true), Err(MapError::BadName));
}

#[test]
fn map_descriptions_are_read_tag_by_tag() {
    let info = read_map_info(MAP_INFO);
    assert_eq!(info.display_name, Some("Green Hills".to_string()));
    assert_eq!(info.battle_type, Some("land".to_string()));
    assert_eq!(info.team_size_2, Some("x".to_string()));
    let empty = read_map_info("<type>siege</type><display_name></display_name>");
    assert_eq!(
        empty,
        MapInfo {
            display_name: Some(String::new()),
            description: None,
            battle_type: Some("siege".to_string()),
            team_size_1: None,
            team_size_2: None,
            defender_funds_ratio: None,
            has_key_buildings: None,
        }
    );
    let row = describe_battle("m", &empty);
    assert_eq!(row.battle_type, Some("siege".to_string()));
    assert_eq!(row.team_size_1, None);
    assert_eq!(row.has_key_buildings, None);
    assert_eq!(row.defender_funds_ratio, None);
    assert_eq!(
        describe_texts("m", &empty),
        vec![Setting { key: "battles_localised_name_m".to_string(), value: String::new() }]
    );
    assert_eq!(describe_texts("m", &read_map_info("")), vec![]);
}

#[test]
fn numbers_are_read_as_the_language_reads_them() {
    for text in [
        "0", "7", "-7", "+7", "007", "2147483647", "-2147483648", "2147483648", "-2147483649",
        "99999999999999999999", "", "-", "+", "1.5", " 1", "1 ", "--1", "+-1", "1e3", "１",
    ] {
        assert_eq!(parse_i32(text), text.parse::<i32>().ok(), "{text:?}");
    }
}

#[test]
fn map_files_are_zlib_streams() {
    let mut encoder = flate2::write::ZlibEncoder::new(Vec::new(), flate2::Compression::default());
    encoder.write_all(b"the data of a map").unwrap();
    let packed = encoder.finish().unwrap();
    assert_eq!(unpack_map(&packed), Some(b"the data of a map".to_vec()));
    assert_eq!(unpack_map(b"the data of a map"), None);
    assert_eq!(unpack_map(&[]), None);
}

fn folders() -> Folders {
    Folders {
        data: "/game/data".to_string(),
        secondary: "/secondary/game".to_string(),
        content: "/content".to_string(),
    }
}

#[test]
fn the_tree_shows_the_installed_mods_by_category() {
    let mut config = GameConfig::new("warhammer_3");
    let mut titled = installed(
        "a.pack",
        &["/game/data/a.pack", "/secondary/game/a.pack", "/content/1/a.pack"],
        PackFileType::Mod,
        true,
    );
    titled.name = "A Title".to_string();
    titled.store_id = StoreId::Steam("1".to_string());
    titled.creator_name = "Someone".to_string();
    titled.description = "About".to_string();
    titled.file_size = 2048;
    titled.time_created = 5;
    titled.time_updated = 6;
    let mut legacy = installed("9.bin", &["/content/9/9.bin"], PackFileType::Movie, false);
    legacy.name = "Old Map".to_string();
    legacy.file_name = "maps/Old Map".to_string();
    let mut repacked = installed("8.bin", &["/content/8/8.bin"], PackFileType::Mod, false);
    repacked.name = "Old Mod".to_string();
    repacked.file_name = "mods/old.pack".to_string();
    let gone = installed("gone.pack", &[], PackFileType::Mod, true);
    config.mods = vec![
        titled,
        legacy,
        repacked,
        gone,
        installed("plain.pack", &["/elsewhere/plain.pack"], PackFileType::Mod, false),
    ];
    config.categories = vec![
        Category {
            name: DEFAULT_CATEGORY.to_string(),
            mods: strings(&["plain.pack", "gone.pack", "unknown.pack"]),
        },
        Category { name: "Mine".to_string(), mods: strings(&["9.bin", "a.pack", "8.bin"]) },
    ];
    config.categories_order = strings(&["Mine", "Missing", DEFAULT_CATEGORY]);

    let tree = load_mods(&config, &game("warhammer_3"), &folders());
    assert_eq!(tree.len(), 3);
    assert_eq!(tree[0].id, "cat:Mine");
    assert_eq!(tree[0].name, "Mine");
    assert_eq!(tree[1].id, "cat:Missing");
    assert!(tree[1].children.is_empty());
    assert_eq!(tree[2].id, "cat:Unassigned");
    assert_eq!(tree[2].children.len(), 1);
    assert_eq!(tree[2].children[0].name, "<i>plain.pack</i>");
    assert_eq!(tree[2].children[0].location, "");
    assert!(!tree[2].children[0].is_checked);

    let mine = &tree[0].children;
    assert_eq!(mine.len(), 3);
    assert_eq!(mine[0].id, "mod:9.bin");
    assert_eq!(mine[0].name, "<b>Old Map</b> <i>(Old_Map.pack - 9.bin)</i>");
    assert_eq!(mine[0].pack_type, "Movie");
    assert_eq!(mine[0].location, "");
    assert_eq!(mine[1].id, "mod:a.pack");
    assert_eq!(mine[1].name, "<b>A Title</b> <i>(a.pack)</i>");
    assert_eq!(mine[1].location, "Data,Secondary,Content (1)");
    assert_eq!(mine[1].creator, "Someone");
    assert_eq!(mine[1].description, "About");
    assert_eq!(mine[1].pack_type, "Mod");
    assert_eq!(mine[1].size, 2048);
    assert_eq!(mine[1].created, 5);
    assert_eq!(mine[1].updated, 6);
    assert_eq!(mine[1].flags, "");
    assert!(mine[1].is_checked);
    assert_eq!(mine[2].name, "<b>Old Mod</b> <i>(old.pack - 8.bin)</i>");
    assert_eq!(item_for_mod(&config.mods[0], &game("warhammer_3"), &folders()), mine[1]);
}

#[test]
fn the_list_shows_the_packs_of_the_load_order() {
    let mut config = GameConfig::new("warhammer_3");
    let mut in_secondary = installed("s.pack", &["/secondary/game/s.pack"], PackFileType::Mod, true);
    in_secondary.store_id = StoreId::Steam("7".to_string());
    let mut in_content = installed("c.pack", &["/content/3/c.pack"], PackFileType::Mod, true);
    in_content.store_id = StoreId::Nexus("3".to_string());
    config.mods = vec![
        installed("d.pack", &["/game/data/d.pack"], PackFileType::Mod, true),
        in_secondary,
        installed("local.pack", &["/secondary/game/local.pack"], PackFileType::Mod, true),
        in_content,
        installed("lost.pack", &["/elsewhere/lost.pack"], PackFileType::Mod, true),
        installed("map.bin", &["/content/5/map.bin"], PackFileType::Mod, true),
        installed("m.pack", &["/game/data/m.pack"], PackFileType::Movie, true),
    ];
    let order = LoadOrder {
        automatic: false,
        mods: strings(&["d.pack", "s.pack", "nobody.pack", "local.pack", "c.pack", "lost.pack", "map.bin"]),
        movies: strings(&["m.pack"]),
    };
    let list = load_packs(&config, &order, "/game/data", "/secondary/game");
    let item = |id: &str, kind: &str, order: i32, location: &str| ListItem {
        id: id.to_string(),
        pack: id.to_string(),
        pack_type: kind.to_string(),
        order,
        location: location.to_string(),
        steam_id: String::new(),
    };
    assert_eq!(
        list,
        vec![
            item("d.pack", "Mod", 0, "Data"),
            item("s.pack", "Mod", 1, "Secondary (7)"),
            item("local.pack", "Mod", 3, "Secondary (Local)"),
            item("c.pack", "Mod", 4, "Content (3)"),
            item("lost.pack", "Mod", 5, "Where the fuck is this pack?"),
            item("m.pack", "Movie", 7, "Data"),
        ]
    );
    let mut stale = order.clone();
    stale.mods.insert(0, "gone.pack".to_string());
    config.mods.push(installed("gone.pack", &[], PackFileType::Mod, true));
    let shifted = load_packs(&config, &stale, "/game/data", "/secondary/game");
    assert_eq!(shifted.len(), list.len());
    assert_eq!(shifted[0], item("d.pack", "Mod", 1, "Data"));
    config.mods.pop();
    let without_secondary = load_packs(&config, &order, "/game/data", "");
    assert_eq!(without_secondary[1].location, "Content (7)");
    assert_eq!(
        get_available_languages(),
        strings(&["English", "Español", "Français", "Deutsch", "Italiano"])
    );
    assert_eq!(
        get_available_date_formats(),
        strings(&["DD/MM/YYYY", "MM/DD/YYYY", "YYYY-MM-DD", "DD.MM.YYYY", "YYYY/MM/DD"])
    );
}

#[test]
fn the_secondary_folder_is_for_the_later_games() {
    let mut settings = AppSettings::default();
    assert_eq!(secondary_mods_path(&settings, "nonsense"), Err(SecondaryPathError::UnknownGame));
    assert_eq!(secondary_mods_path(&settings, "empire"), Err(SecondaryPathError::Unsupported));
    assert_eq!(secondary_mods_path(&settings, "arena"), Err(SecondaryPathError::Unsupported));
    assert_eq!(secondary_mods_path(&settings, "shogun_2"), Err(SecondaryPathError::NotFound));
    put_setting(&mut settings.paths, "secondary_mods_path", "");
    assert_eq!(secondary_mods_path(&settings, "shogun_2"), Err(SecondaryPathError::NotSet));
    put_setting(&mut settings.paths, "secondary_mods_path", "/secondary");
    assert_eq!(secondary_mods_path(&settings, "shogun_2"), Ok("/secondary".to_string()));
    assert_eq!(secondary_mods_path(&settings, "warhammer_3"), Ok("/secondary".to_string()));
    assert_eq!(secondary_mods_path(&settings, "empire"), Err(SecondaryPathError::Unsupported));
    assert_eq!(SecondaryPathError::UnknownGame.message("x"), "What kind of game is x?");
    assert_eq!(
        SecondaryPathError::Unsupported.message("empire"),
        "This game (empire) doesn't support secondary mod folders."
    );
    assert_eq!(SecondaryPathError::NotFound.message("x"), "Secondary mods path not found");
    assert_eq!(SecondaryPathError::NotSet.message("x"), "Secondary Mods Path not set.");
    assert_eq!(SECONDARY_FOLDER_NAME, "masks");
    assert_eq!(
        secondary_mods_packs_paths(&strings(&[
            "/s/b.pack", "/s/a.bin", "/s/readme.txt", "/s/pack", "/s/.pack", "/s/a.pack", "/s/c.PACK"
        ])),
        strings(&["/s/a.bin", "/s/a.pack", "/s/b.pack"])
    );
}

#[test]
fn mods_are_copied_to_the_secondary_folder() {
    assert_eq!(change_extension("/a/b.pack", "png"), "/a/b.png");
    assert_eq!(change_extension("/a.b/c", "png"), "/a.b/c.png");
    assert_eq!(change_extension("/a/.hidden", "png"), "/a/.hidden.png");
    assert_eq!(change_extension("/a/b.tar.gz", "png"), "/a/b.tar.png");

    let content = installed("a.pack", &["/content/1/a.pack"], PackFileType::Mod, true);
    assert_eq!(
        copy_to_secondary(&content, "/secondary/game", "/content"),
        Transfer::Copy {
            from: "/content/1/a.pack".to_string(),
            to: "/secondary/game/a.pack".to_string(),
            image_from: "/content/1/a.png".to_string(),
            image_to: "/secondary/game/a.png".to_string(),
        }
    );
    let both = installed("a.pack", &["/secondary/game/a.pack", "/content/1/a.pack"], PackFileType::Mod, true);
    assert_eq!(
        copy_to_secondary(&both, "/secondary/game", "/content"),
        Transfer::Copy {
            from: "/content/1/a.pack".to_string(),
            to: "/secondary/game/a.pack".to_string(),
            image_from: "/content/1/a.png".to_string(),
            image_to: "/secondary/game/a.png".to_string(),
        }
    );
    let in_data = installed("a.pack", &["/game/data/a.pack"], PackFileType::Mod, true);
    assert_eq!(copy_to_secondary(&in_data, "/secondary/game", "/content"), Transfer::Refuse);
    let data_and_content =
        installed("a.pack", &["/game/data/a.pack", "/content/1/a.pack"], PackFileType::Mod, true);
    assert_eq!(copy_to_secondary(&data_and_content, "/secondary/game", "/content"), Transfer::Refuse);
    let gone = installed("a.pack", &[], PackFileType::Mod, true);
    assert_eq!(copy_to_secondary(&gone, "/secondary/game", "/content"), Transfer::Refuse);
    let three = installed("a.pack", &["/x", "/y", "/z"], PackFileType::Mod, true);
    assert_eq!(copy_to_secondary(&three, "/secondary/game", "/content"), Transfer::Skip);

    assert_eq!(
        move_to_secondary(&in_data, "/secondary", "/game/data"),
        Transfer::Copy {
            from: "/game/data/a.pack".to_string(),
            to: "/secondary/a.pack".to_string(),
            image_from: "/game/data/a.png".to_string(),
            image_to: "/secondary/a.png".to_string(),
        }
    );
    assert_eq!(move_to_secondary(&content, "/secondary", "/game/data"), Transfer::Refuse);
    assert_eq!(move_to_secondary(&gone, "/secondary", "/game/data"), Transfer::Refuse);
}

#[test]
fn disabled_movies_are_masked_for_the_older_games() {
    let attila = game("attila");
    let wh3 = game("warhammer_3");
    let folders = "add_working_directory \"/secondary/attila\";\n";
    assert!(masks_needed(&attila, "/secondary/attila", true, folders));
    assert!(!masks_needed(&attila, "/secondary/attila", false, folders));
    assert!(!masks_needed(&attila, "/secondary/rome_2", true, folders));
    assert!(!masks_needed(&wh3, "/secondary/attila", true, folders));
    assert!(masks_needed(&game("empire"), "/secondary/attila", true, folders));

    let mut config = GameConfig::new("attila");
    config.mods = vec![
        installed("off.pack", &["/secondary/attila/off.pack"], PackFileType::Movie, false),
        installed("on.pack", &["/secondary/attila/on.pack"], PackFileType::Movie, true),
        installed("mod.pack", &["/secondary/attila/mod.pack"], PackFileType::Mod, false),
        installed("data.pack", &["/game/data/data.pack"], PackFileType::Movie, false),
    ];
    let names = strings(&["on.pack", "off.pack", "masks", "mod.pack", "data.pack", "stray.pack"]);
    assert_eq!(files_to_mask(&config, &attila, "/game/data", &names), strings(&["off.pack"]));
    assert_eq!(
        files_to_mask(&config, &wh3, "/game/data", &names),
        strings(&["off.pack", "data.pack"])
    );
}
