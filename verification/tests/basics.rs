use runcher::games::GameTraits;
use runcher::mods::{Mod, PackFileType, ShareableMod};
use runcher::paths::{file_name_of, parent_of, path_is_inside};
use runcher::settings::{
    find_setting, get_setting, put_setting, AppSettings, Setting, SettingsError,
};
use runcher::store::{PublishedFileVisibilityDerive, RemoteMetadata, StoreError, StoreId};
use runcher::text::{
    chars_of, contains_text, decimal_text, ends_with, find_text, replace_char, starts_with,
    str_eq, text_after_last, text_before_last, text_contains, text_le, text_of,
};
use runcher::updater::{chunk_events, DownloadEvent};

fn strings(items: &[&str]) -> Vec<String> {
    items.iter().map(|s| s.to_string()).collect()
}

fn game(key: &str) -> GameTraits {
    GameTraits::for_key(key).unwrap()
}

#[test]
fn texts_are_compared_by_their_characters() {
    assert!(str_eq("", ""));
    assert!(str_eq("añb", "añb"));
    assert!(!str_eq("a", "b"));
    assert!(!str_eq("a", "ab"));
    assert_eq!(chars_of("añ😀"), vec!['a', 'ñ', '😀']);
    assert_eq!(text_of(&vec!['a', 'ñ', '😀']), "añ😀");
    assert_eq!(text_of(&vec![]), "");
    assert!(starts_with("abc", ""));
    assert!(starts_with("abc", "ab"));
    assert!(starts_with("abc", "abc"));
    assert!(!starts_with("abc", "abcd"));
    assert!(!starts_with("abc", "b"));
    assert!(ends_with("abc", ""));
    assert!(ends_with("abc", "bc"));
    assert!(ends_with("a.pack", ".pack"));
    assert!(!ends_with("abc", "ab"));
    assert!(!ends_with("c", "bc"));
    assert!(text_contains("abcabc", "ca"));
    assert!(text_contains("abc", ""));
    assert!(text_contains("", ""));
    assert!(text_contains("abc", "abc"));
    assert!(!text_contains("abc", "abcd"));
    assert!(!text_contains("abc", "ac"));
}

#[test]
fn texts_are_ordered_by_code_point() {
    assert!(text_le("", ""));
    assert!(text_le("", "a"));
    assert!(!text_le("a", ""));
    assert!(text_le("a", "a"));
    assert!(text_le("a", "ab"));
    assert!(!text_le("ab", "a"));
    assert!(text_le("B", "a"));
    assert!(!text_le("a", "B"));
    assert!(text_le("z", "é"));
    assert!(text_le("\u{FFFF}", "\u{10000}"));
    for (a, b) in [("abc", "abd"), ("a", "b"), ("", "x"), ("Z", "a"), ("é", "😀")] {
        assert_eq!(text_le(a, b), a <= b);
        assert_eq!(text_le(b, a), b <= a);
    }
}

#[test]
fn texts_are_cut_at_the_last_separator() {
    assert_eq!(text_after_last("a/b/c", '/'), "c");
    assert_eq!(text_after_last("abc", '/'), "abc");
    assert_eq!(text_after_last("abc/", '/'), "");
    assert_eq!(text_after_last("", '/'), "");
    assert_eq!(text_before_last("a/b/c", '/'), "a/b");
    assert_eq!(text_before_last("abc", '/'), "");
    assert_eq!(text_before_last("/abc", '/'), "");
    assert_eq!(replace_char("a b  c", ' ', '_'), "a_b__c");
    assert_eq!(replace_char("", ' ', '_'), "");
    assert_eq!(find_text(&strings(&["a", "b", "a"]), "a"), Some(0));
    assert_eq!(find_text(&strings(&["a", "b", "a"]), "b"), Some(1));
    assert_eq!(find_text(&strings(&["a", "b", "a"]), "c"), None);
    assert!(contains_text(&strings(&["a", "b"]), "b"));
    assert!(!contains_text(&vec![], "b"));
    assert_eq!(decimal_text(0), "0");
    assert_eq!(decimal_text(7), "7");
    assert_eq!(decimal_text(10), "10");
    assert_eq!(decimal_text(1234567890), "1234567890");
    assert_eq!(decimal_text(u64::MAX), "18446744073709551615");
}

#[test]
fn paths_are_taken_component_by_component() {
    assert_eq!(file_name_of("/a/b/c.pack"), "c.pack");
    assert_eq!(file_name_of("c.pack"), "c.pack");
    assert_eq!(parent_of("/a/b/c.pack"), "/a/b");
    assert_eq!(parent_of("c.pack"), "");
    assert!(path_is_inside("/a/b/c", "/a/b"));
    assert!(path_is_inside("/a/b", "/a/b"));
    assert!(path_is_inside("/a/b/c", "/a/b/"));
    assert!(path_is_inside("/a/b/c", ""));
    assert!(!path_is_inside("/a/bc", "/a/b"));
    assert!(!path_is_inside("/a", "/a/b"));
    assert!(!path_is_inside("/x/b/c", "/a/b"));
}

#[test]
fn games_are_known_by_their_key() {
    for key in [
        "pharaoh_dynasties",
        "pharaoh",
        "warhammer_3",
        "troy",
        "three_kingdoms",
        "warhammer_2",
        "warhammer",
        "thrones_of_britannia",
        "attila",
        "rome_2",
    ] {
        let g = game(key);
        assert_eq!(g.key, key);
        assert_eq!(g.raw_db_version, 2);
        assert!(g.supports_working_directories());
        assert!(!g.uses_utf16_script());
    }
    assert_eq!(game("shogun_2").raw_db_version, 1);
    assert_eq!(game("napoleon").raw_db_version, 0);
    assert_eq!(game("empire").raw_db_version, 0);
    assert_eq!(game("arena").raw_db_version, -1);
    assert!(GameTraits::for_key("nonsense").is_none());
    assert!(GameTraits::for_key("").is_none());

    for key in ["rome_2", "attila", "thrones_of_britannia"] {
        assert!(game(key).is_early_second_generation());
        assert!(!game(key).supports_exclusion());
        assert!(game(key).needs_movie_masks());
    }
    for key in ["warhammer", "warhammer_3", "troy", "pharaoh"] {
        assert!(game(key).supports_exclusion());
        assert!(!game(key).needs_movie_masks());
    }
    for key in ["shogun_2", "napoleon", "empire"] {
        assert!(!game(key).supports_exclusion());
        assert!(game(key).needs_movie_masks());
        assert!(game(key).uses_utf16_script());
    }
    assert!(game("shogun_2").supports_working_directories());
    assert!(!game("empire").supports_working_directories());
    let odd = GameTraits { key: "rome_2".to_string(), raw_db_version: 3 };
    assert!(!odd.supports_exclusion());
    assert!(!odd.needs_movie_masks());
}

#[test]
fn store_ids_carry_their_id() {
    assert_eq!(StoreId::Local.id(), None);
    assert_eq!(StoreId::Steam("1".to_string()).id(), Some("1".to_string()));
    assert_eq!(StoreId::Epic("2".to_string()).id(), Some("2".to_string()));
    assert_eq!(StoreId::Nexus("3".to_string()).id(), Some("3".to_string()));
    assert_eq!(StoreId::ModDB("4".to_string()).id(), Some("4".to_string()));
    assert_eq!(StoreId::LoversLab("5".to_string()).id(), Some("5".to_string()));
    assert_eq!(StoreId::Github("6".to_string()).id(), Some("6".to_string()));
    assert!(StoreId::Steam("1".to_string()).is_steam());
    assert!(!StoreId::Epic("1".to_string()).is_steam());
    assert!(!StoreId::Local.is_steam());
    assert!(StoreId::Steam("1".to_string()).same_as(&StoreId::Steam("1".to_string())));
    assert!(!StoreId::Steam("1".to_string()).same_as(&StoreId::Steam("2".to_string())));
    assert!(!StoreId::Steam("1".to_string()).same_as(&StoreId::Epic("1".to_string())));
    assert!(StoreId::Local.same_as(&StoreId::default()));
    assert_eq!(StoreId::Nexus("3".to_string()).clone(), StoreId::Nexus("3".to_string()));

    assert_eq!(StoreId::Steam("9".to_string()).workshop_id(), Ok("9".to_string()));
    assert_eq!(StoreId::Local.workshop_id(), Err(StoreError::NoStoreId));
    assert_eq!(StoreId::Github("9".to_string()).workshop_id(), Err(StoreError::NotImplemented));
    assert_eq!(StoreId::Steam("9".to_string()).open_remote_mod_url(), Ok("9".to_string()));
    assert_eq!(StoreId::Local.open_remote_mod_url(), Err(StoreError::NotImplemented));
    assert_eq!(StoreError::NoStoreId.message(), "No store id found.");
    assert_eq!(StoreError::NotImplemented.message(), "Not implemented for this integration.");
    assert_eq!(PublishedFileVisibilityDerive::default(), PublishedFileVisibilityDerive::Private);
    let metadata = RemoteMetadata::default();
    assert_eq!(metadata.remote_id, 0);
    assert_eq!(metadata.visibility, PublishedFileVisibilityDerive::Private);
    assert!(metadata.tags.is_empty());
}

fn mod_at(paths: &[&str], kind: PackFileType, enabled: bool) -> Mod {
    let mut m = Mod::default();
    m.id = "m.pack".to_string();
    m.paths = strings(paths);
    m.pack_type = kind;
    m.enabled = enabled;
    m
}

#[test]
fn mods_are_enabled_by_their_switch_or_their_place() {
    let wh3 = game("warhammer_3");
    let attila = game("attila");
    for enabled in [true, false] {
        let plain = mod_at(&["/game/data/m.pack"], PackFileType::Mod, enabled);
        assert_eq!(plain.enabled(&wh3, "/game/data"), enabled);
        assert_eq!(plain.enabled(&attila, "/game/data"), enabled);
        assert!(plain.can_be_toggled(&wh3, "/game/data"));
        assert!(plain.can_be_toggled(&attila, "/game/data"));

        let movie = mod_at(&["/game/data/m.pack"], PackFileType::Movie, enabled);
        assert_eq!(movie.enabled(&wh3, "/game/data"), enabled);
        assert!(movie.enabled(&attila, "/game/data"));
        assert!(movie.can_be_toggled(&wh3, "/game/data"));
        assert!(!movie.can_be_toggled(&attila, "/game/data"));

        let elsewhere = mod_at(&["/secondary/m.pack", "/game/data/m.pack"], PackFileType::Movie, enabled);
        assert_eq!(elsewhere.enabled(&attila, "/game/data"), enabled);
        assert!(elsewhere.can_be_toggled(&attila, "/game/data"));

        let gone = mod_at(&[], PackFileType::Movie, enabled);
        assert_eq!(gone.enabled(&wh3, "/game/data"), enabled);
        assert!(!gone.enabled(&attila, "/game/data"));
        assert!(!gone.can_be_toggled(&attila, "/game/data"));

        for kind in [PackFileType::Boot, PackFileType::Release, PackFileType::Patch] {
            let other = mod_at(&["/game/data/m.pack"], kind, enabled);
            assert!(!other.enabled(&wh3, "/game/data"));
            assert!(!other.can_be_toggled(&wh3, "/game/data"));
        }
    }
    let mut switched = mod_at(&[], PackFileType::Mod, false);
    switched.set_enabled(true);
    assert!(switched.enabled);
    switched.set_enabled(false);
    assert!(!switched.enabled);
}

#[test]
fn mods_know_where_their_copies_lie() {
    let mut m = mod_at(
        &["/game/data/m.pack", "/secondary/m.pack", "/content/1/m.pack"],
        PackFileType::Mod,
        true,
    );
    m.store_id = StoreId::Steam("1".to_string());
    assert_eq!(
        m.location("/game/data", "/secondary", "/content"),
        (true, true, StoreId::Steam("1".to_string()))
    );
    assert_eq!(m.location("/game/data", "", ""), (true, false, StoreId::Local));
    assert_eq!(m.location("/nowhere", "/secondary", "/nothing"), (false, true, StoreId::Local));
    assert_eq!(m.location("/", "/secondary", "/content"), (true, false, StoreId::Local));
    let gone = mod_at(&[], PackFileType::Mod, true);
    assert_eq!(gone.location("/game/data", "/secondary", "/content"), (false, false, StoreId::Local));
}

#[test]
fn mods_tell_which_copy_is_older() {
    let one = mod_at(&["/game/data/m.pack"], PackFileType::Mod, true);
    assert_eq!(one.priority_dating_flags("/game/data", "/s", "/c", &vec![5]), (false, false, false));

    let data_secondary = mod_at(&["/game/data/m.pack", "/s/m.pack"], PackFileType::Mod, true);
    assert_eq!(
        data_secondary.priority_dating_flags("/game/data", "/s", "/c", &vec![1, 2]),
        (true, false, false)
    );
    assert_eq!(
        data_secondary.priority_dating_flags("/game/data", "/s", "/c", &vec![2, 2]),
        (false, false, false)
    );
    assert_eq!(
        data_secondary.priority_dating_flags("/game/data", "", "/s", &vec![1, 2]),
        (false, true, false)
    );
    let data_content = mod_at(&["/game/data/m.pack", "/c/m.pack"], PackFileType::Mod, true);
    assert_eq!(
        data_content.priority_dating_flags("/game/data", "/s", "/c", &vec![1, 2]),
        (false, true, false)
    );
    let secondary_content = mod_at(&["/s/m.pack", "/c/m.pack"], PackFileType::Mod, true);
    assert_eq!(
        secondary_content.priority_dating_flags("/game/data", "/s", "/c", &vec![1, 2]),
        (false, false, true)
    );
    assert_eq!(
        secondary_content.priority_dating_flags("/game/data", "", "/c", &vec![1, 2]),
        (false, false, false)
    );
    let all = mod_at(&["/game/data/m.pack", "/s/m.pack", "/c/m.pack"], PackFileType::Mod, true);
    assert_eq!(all.priority_dating_flags("/d", "/s", "/c", &vec![1, 2, 3]), (true, true, true));
    assert_eq!(all.priority_dating_flags("/d", "/s", "/c", &vec![2, 1, 3]), (false, true, true));
    assert_eq!(all.priority_dating_flags("/d", "/s", "/c", &vec![3, 2, 1]), (false, false, false));
    let four = mod_at(&["/a", "/b", "/c", "/d"], PackFileType::Mod, true);
    assert_eq!(four.priority_dating_flags("/d", "/s", "/c", &vec![1, 2, 3, 4]), (false, false, false));
}

#[test]
fn mods_have_an_alternative_name_for_their_legacy_file() {
    let mut m = Mod::default();
    assert_eq!(m.alt_name(), None);
    m.file_name = "maps/My Great Map".to_string();
    assert_eq!(m.alt_name(), Some("My_Great_Map.pack".to_string()));
    m.file_name = "plain".to_string();
    assert_eq!(m.alt_name(), Some("plain.pack".to_string()));
    m.file_name = "mods/thing.pack".to_string();
    assert_eq!(m.alt_name(), None);
    m.file_name = "folder/".to_string();
    assert_eq!(m.alt_name(), Some(".pack".to_string()));
    m.time_updated = 10;
    assert!(m.outdated(11));
    assert!(!m.outdated(10));
    assert!(!m.outdated(0));
    assert_eq!(PackFileType::Boot.name(), "Boot");
    assert_eq!(PackFileType::Release.name(), "Release");
    assert_eq!(PackFileType::Patch.name(), "Patch");
    assert_eq!(PackFileType::Mod.name(), "Mod");
    assert_eq!(PackFileType::Movie.name(), "Movie");
    assert_eq!(Mod::default().pack_type, PackFileType::Mod);
    let copy = m.clone();
    assert_eq!(copy.file_name, m.file_name);
    assert_eq!(copy.time_updated, 10);
}

#[test]
fn shared_mods_carry_the_digest_of_their_pack() {
    let mut m = Mod::default();
    m.id = "a.pack".to_string();
    m.name = "A".to_string();
    m.store_id = StoreId::Steam("5".to_string());
    let shared = ShareableMod::new(&m, b"hello");
    assert_eq!(shared.hash, "2cf24dba5fb0a30e26e83b2ac5b9e29e1b161e5c1fa7425e73043362938b9824");
    assert_eq!(shared.id, "a.pack");
    assert_eq!(shared.name, "A");
    assert_eq!(shared.store_id, StoreId::Steam("5".to_string()));
    assert_eq!(
        ShareableMod::new(&m, b"").hash,
        "e3b0c44298fc1c149afbf4c8996fb92427ae41e4649b934ca495991b7852b855"
    );
    assert_eq!(ShareableMod::with_hash(&m, "abc".to_string()).hash, "abc");
}

#[test]
fn settings_keep_texts_under_keys() {
    let mut list: Vec<Setting> = vec![];
    assert_eq!(get_setting(&list, "a"), None);
    put_setting(&mut list, "a", "1");
    put_setting(&mut list, "b", "2");
    put_setting(&mut list, "a", "3");
    assert_eq!(list.len(), 2);
    assert_eq!(get_setting(&list, "a"), Some("3".to_string()));
    assert_eq!(get_setting(&list, "b"), Some("2".to_string()));
    assert_eq!(find_setting(&list, "b"), Some(1));
    assert_eq!(find_setting(&list, "c"), None);

    let mut settings = AppSettings::default();
    assert_eq!(settings.right_panel_width, 300);
    assert_eq!(settings.language, "English");
    assert_eq!(settings.date_format, "DD/MM/YYYY");
    assert!(settings.check_updates_on_start);
    assert!(settings.check_schema_updates_on_start);
    assert!(settings.check_sql_scripts_updates_on_start);
    assert!(!settings.open_remote_mod_in_app);
    assert_eq!(settings.string("k"), Err(SettingsError::StringNotFound));
    settings.set_string_if_new("k", "first");
    settings.set_string_if_new("k", "second");
    assert_eq!(settings.string("k"), Ok("first".to_string()));
    assert_eq!(settings.secondary_mods_path(), Err(SettingsError::SecondaryModsPathNotFound));
    put_setting(&mut settings.paths, "secondary_mods_path", "/secondary");
    assert_eq!(settings.secondary_mods_path(), Ok("/secondary".to_string()));

    let wh3 = game("warhammer_3");
    assert_eq!(settings.game_path(&wh3), Err(SettingsError::GamePathNotFound));
    settings.set_game_path(&wh3, "/games/wh3");
    assert_eq!(settings.game_path(&wh3), Ok("/games/wh3".to_string()));
    assert_eq!(SettingsError::GamePathNotFound.message(), "Game path not found");
    assert_eq!(SettingsError::SecondaryModsPathNotFound.message(), "Secondary mods path not found");
    assert_eq!(SettingsError::StringNotFound.message(), "String not found");
}

#[test]
fn settings_take_over_what_is_found_on_disk() {
    let wh3 = game("warhammer_3");
    let mut settings = AppSettings::default();
    settings.adopt_game_path(&wh3, "", false);
    assert_eq!(settings.game_path(&wh3), Ok(String::new()));
    settings.adopt_game_path(&wh3, "/found", false);
    assert_eq!(settings.game_path(&wh3), Ok("/found".to_string()));
    settings.adopt_game_path(&wh3, "/found", true);
    assert_eq!(settings.game_path(&wh3), Ok("/found".to_string()));
    settings.adopt_game_path(&wh3, "/other", true);
    assert_eq!(settings.game_path(&wh3), Ok("/other".to_string()));
    settings.adopt_game_path(&wh3, "", true);
    assert_eq!(settings.game_path(&wh3), Ok("/other".to_string()));
    settings.adopt_game_path(&wh3, "/other", false);
    assert_eq!(settings.game_path(&wh3), Ok(String::new()));
    assert_eq!(settings.paths.len(), 1);
}

#[test]
fn the_first_chunk_announces_the_download() {
    assert_eq!(
        chunk_events(false, 10, Some(100)),
        (
            vec![
                DownloadEvent::Started { content_length: Some(100) },
                DownloadEvent::Progress { chunk_length: 10 }
            ],
            true
        )
    );
    assert_eq!(
        chunk_events(true, 7, None),
        (vec![DownloadEvent::Progress { chunk_length: 7 }], true)
    );
}
