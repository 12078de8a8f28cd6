use runcher::game_config::{Category, CategoryError, GameConfig, DEFAULT_CATEGORY};
use runcher::games::GameTraits;
use runcher::load_order::LoadOrder;
use runcher::mods::{Mod, PackFileType};
use runcher::scan::{
    classify, collect_sightings, is_bin_file, is_reserved, store_folder_of, FoundFile, Probe,
    ScanReport, Sighting, Source, RESERVED_PACK_NAME, RESERVED_PACK_NAME_ALTERNATIVE,
};
use runcher::store::StoreId;
use std::io::Write;

fn found(path: &str, kind: PackFileType) -> FoundFile {
    FoundFile { path: path.to_string(), probe: Probe::Pack(kind), modified: Some(100), created: None }
}

fn report(content: Vec<FoundFile>, secondary: Vec<FoundFile>, data: Vec<FoundFile>) -> ScanReport {
    ScanReport {
        vanilla: vec!["/game/data/data.pack".to_string()],
        content_path: "/steam/content/1142710".to_string(),
        content,
        secondary,
        data,
    }
}

fn warhammer_3() -> GameTraits {
    GameTraits::for_key("warhammer_3").unwrap()
}

fn strings(items: &[&str]) -> Vec<String> {
    items.iter().map(|s| s.to_string()).collect()
}

fn zlib(data: &[u8]) -> Vec<u8> {
    let mut encoder = flate2::write::ZlibEncoder::new(Vec::new(), flate2::Compression::default());
    encoder.write_all(data).unwrap();
    encoder.finish().unwrap()
}

fn mod_of<'a>(config: &'a GameConfig, id: &str) -> &'a Mod {
    &config.mods[config.find_mod(id).unwrap()]
}

#[test]
fn secondary_copy_wins_over_content_copy() {
    let mut config = GameConfig::new("warhammer_3");
    let mut order = LoadOrder::default();
    let scan = report(
        vec![
            found("/steam/content/1142710/111/a.pack", PackFileType::Mod),
            found("/steam/content/1142710/222/b.pack", PackFileType::Mod),
        ],
        vec![found("/secondary/warhammer_3/a.pack", PackFileType::Mod)],
        vec![],
    );
    let tags = config.update_mod_list(&warhammer_3(), "/game/data", &scan, &mut order).unwrap();
    assert_eq!(tags, strings(&["111", "222"]));
    assert_eq!(config.mods.len(), 2);
    let a = mod_of(&config, "a.pack");
    assert_eq!(
        a.paths,
        strings(&["/secondary/warhammer_3/a.pack", "/steam/content/1142710/111/a.pack"])
    );
    assert_eq!(a.store_id, StoreId::Steam("111".to_string()));
    let b = mod_of(&config, "b.pack");
    assert_eq!(b.paths, strings(&["/steam/content/1142710/222/b.pack"]));
    assert_eq!(a.time_updated, 100);
    assert_eq!(config.categories.len(), 1);
    assert_eq!(config.categories[0].name, DEFAULT_CATEGORY);
    assert_eq!(config.categories[0].mods, strings(&["a.pack", "b.pack"]));
    assert_eq!(config.categories_order, strings(&[DEFAULT_CATEGORY]));
    assert!(order.mods.is_empty());
}

#[test]
fn data_copy_wins_over_both() {
    let mut config = GameConfig::new("warhammer_3");
    let mut order = LoadOrder::default();
    let scan = report(
        vec![found("/steam/content/1142710/111/a.pack", PackFileType::Mod)],
        vec![found("/secondary/warhammer_3/a.pack", PackFileType::Mod)],
        vec![found("/game/data/a.pack", PackFileType::Movie)],
    );
    config.update_mod_list(&warhammer_3(), "/game/data", &scan, &mut order).unwrap();
    let a = mod_of(&config, "a.pack");
    assert_eq!(
        a.paths,
        strings(&[
            "/game/data/a.pack",
            "/secondary/warhammer_3/a.pack",
            "/steam/content/1142710/111/a.pack"
        ])
    );
    assert_eq!(a.pack_type, PackFileType::Movie);
}

#[test]
fn legacy_bin_is_matched_by_its_pack_in_data() {
    let mut config = GameConfig::new("shogun_2");
    let mut bin = Mod::default();
    bin.id = "123456.bin".to_string();
    bin.name = "A map".to_string();
    bin.file_name = "maps/foo".to_string();
    bin.paths = vec!["/old/path".to_string()];
    config.mods.push(bin);
    assert_eq!(config.mods[0].alt_name(), Some("foo.pack".to_string()));

    let mut order = LoadOrder::default();
    let game = GameTraits::for_key("shogun_2").unwrap();
    let scan = ScanReport {
        vanilla: vec![],
        content_path: "/steam/content/34330".to_string(),
        content: vec![FoundFile {
            path: "/steam/content/34330/123456/123456.bin".to_string(),
            probe: Probe::Raw(zlib(b"a map")),
            modified: Some(5),
            created: Some(4),
        }],
        secondary: vec![],
        data: vec![found("/game/data/foo.pack", PackFileType::Mod)],
    };
    config.update_mod_list(&game, "/game/data", &scan, &mut order).unwrap();
    assert_eq!(config.mods.len(), 1);
    let m = &config.mods[0];
    assert_eq!(m.id, "123456.bin");
    assert_eq!(
        m.paths,
        strings(&["/game/data/foo.pack", "/steam/content/34330/123456/123456.bin"])
    );
    assert_eq!(m.paths[0], "/game/data/foo.pack");
    assert_eq!(m.time_updated, 100);
    assert_eq!(m.time_created, 4);
    assert!(config.find_mod("foo.pack").is_none());
}

#[test]
fn legacy_file_name_is_matched_before_the_id_in_data() {
    let mut config = GameConfig::new("shogun_2");
    let mut legacy = Mod::default();
    legacy.id = "1.bin".to_string();
    legacy.file_name = "mods/thing.pack".to_string();
    legacy.pack_type = PackFileType::Movie;
    config.mods.push(legacy);
    let mut plain = Mod::default();
    plain.id = "thing.pack".to_string();
    config.mods.push(plain);

    let sighting = Sighting {
        path: "/game/data/thing.pack".to_string(),
        name: "thing.pack".to_string(),
        pack_type: PackFileType::Mod,
        modified: 9,
        created: None,
        store_tag: None,
    };
    assert_eq!(config.find_target("thing.pack", Source::Data), (Some(0), true));
    assert_eq!(config.find_target("thing.pack", Source::Secondary), (Some(1), false));
    assert_eq!(config.find_target("thing.pack", Source::Content), (Some(1), false));
    config.register(&sighting, Source::Data);
    assert_eq!(config.mods[0].paths, strings(&["/game/data/thing.pack"]));
    assert_eq!(config.mods[0].pack_type, PackFileType::Movie);
    assert_eq!(config.mods[0].time_updated, 9);
    assert!(config.mods[1].paths.is_empty());
}

#[test]
fn a_known_path_is_not_added_twice() {
    let mut config = GameConfig::new("warhammer_3");
    let sighting = Sighting {
        path: "/secondary/a.pack".to_string(),
        name: "a.pack".to_string(),
        pack_type: PackFileType::Mod,
        modified: 1,
        created: Some(2),
        store_tag: Some("77".to_string()),
    };
    config.register(&sighting, Source::Secondary);
    config.register(&sighting, Source::Secondary);
    assert_eq!(config.mods.len(), 1);
    assert_eq!(config.mods[0].paths, strings(&["/secondary/a.pack"]));
    assert_eq!(config.mods[0].store_id, StoreId::Local);
    assert_eq!(config.mods[0].time_created, 2);
    assert_eq!(config.mods[0].name, "a.pack");
}

#[test]
fn scan_forgets_mods_that_are_gone() {
    let mut config = GameConfig::new("warhammer_3");
    let mut order = LoadOrder::default();
    let game = warhammer_3();
    let first = report(
        vec![
            found("/steam/content/1142710/1/a.pack", PackFileType::Mod),
            found("/steam/content/1142710/2/b.pack", PackFileType::Mod),
        ],
        vec![],
        vec![],
    );
    config.update_mod_list(&game, "/game/data", &first, &mut order).unwrap();
    assert_eq!(config.create_category("Mine"), Ok(()));
    assert_eq!(config.move_mods_to_category(&strings(&["b.pack"]), "Mine"), Ok(()));
    assert_eq!(config.category_for_mod("b.pack"), "Mine");
    assert_eq!(config.category_for_mod("a.pack"), DEFAULT_CATEGORY);
    assert_eq!(config.category_for_mod("nobody.pack"), DEFAULT_CATEGORY);

    let second = report(
        vec![found("/steam/content/1142710/1/a.pack", PackFileType::Mod)],
        vec![],
        vec![],
    );
    config.update_mod_list(&game, "/game/data", &second, &mut order).unwrap();
    assert_eq!(config.mods.len(), 2);
    assert!(mod_of(&config, "b.pack").paths.is_empty());
    for category in &config.categories {
        assert!(!category.mods.contains(&"b.pack".to_string()));
    }
    assert!(!config.is_categorised("b.pack"));
    assert!(config.is_categorised("a.pack"));
    assert!(!config.is_installed("b.pack"));
    assert_eq!(config.categories_order, strings(&["Mine", DEFAULT_CATEGORY]));
    assert_eq!(config.categories_order.last().unwrap(), DEFAULT_CATEGORY);
    for modd in &config.mods {
        let places: usize = config
            .categories
            .iter()
            .map(|c| c.mods.iter().filter(|id| **id == modd.id).count())
            .sum();
        assert_eq!(places, if modd.paths.is_empty() { 0 } else { 1 });
    }

    let empty = report(vec![], vec![], vec![]);
    config.update_mod_list(&game, "/game/data", &empty, &mut order).unwrap();
    assert!(config.mods.iter().all(|m| m.paths.is_empty()));
    assert!(config.categories.iter().all(|c| c.mods.is_empty()));
    assert_eq!(config.mods.len(), 2);
}

#[test]
fn scan_puts_the_reserved_category_last() {
    let mut config = GameConfig::new("warhammer_3");
    config.categories_order = strings(&[DEFAULT_CATEGORY, "B", DEFAULT_CATEGORY, "A"]);
    config.categories.push(Category { name: "A".to_string(), mods: vec![] });
    config.categories.push(Category { name: "B".to_string(), mods: vec![] });
    config.tidy_categories();
    assert_eq!(config.categories_order, strings(&["B", "A", DEFAULT_CATEGORY]));

    let mut bare = GameConfig::new("warhammer_3");
    bare.categories.clear();
    bare.categories_order.clear();
    let mut installed = Mod::default();
    installed.id = "x.pack".to_string();
    installed.paths = strings(&["/game/data/x.pack"]);
    bare.mods.push(installed);
    bare.tidy_categories();
    assert_eq!(bare.categories.len(), 1);
    assert_eq!(bare.categories[0].name, DEFAULT_CATEGORY);
    assert_eq!(bare.categories[0].mods, strings(&["x.pack"]));
    assert_eq!(bare.categories_order, strings(&[DEFAULT_CATEGORY]));
}

#[test]
fn scan_fails_on_a_mod_without_dates() {
    let mut config = GameConfig::new("warhammer_3");
    let mut order = LoadOrder::default();
    let game = warhammer_3();
    let good = report(
        vec![found("/steam/content/1142710/1/a.pack", PackFileType::Mod)],
        vec![],
        vec![],
    );
    config.update_mod_list(&game, "/game/data", &good, &mut order).unwrap();

    let mut broken = found("/game/data/c.pack", PackFileType::Mod);
    broken.modified = None;
    let mut ignored = found("/secondary/warhammer_3/d.pack", PackFileType::Boot);
    ignored.modified = None;
    let bad = report(vec![], vec![ignored], vec![broken]);
    let error = config.update_mod_list(&game, "/game/data", &bad, &mut order).unwrap_err();
    assert_eq!(error.path, "/game/data/c.pack");
    assert_eq!(error.message(), "Could not read the dates of /game/data/c.pack");
    assert_eq!(mod_of(&config, "a.pack").paths.len(), 1);
    assert_eq!(config.mods.len(), 1);
}

#[test]
fn scan_skips_what_is_no_mod() {
    let mut config = GameConfig::new("warhammer_3");
    let mut order = LoadOrder::default();
    let scan = ScanReport {
        vanilla: strings(&["/game/data/data.pack"]),
        content_path: "/content".to_string(),
        content: vec![
            found(&format!("/content/1/{}", RESERVED_PACK_NAME), PackFileType::Mod),
            found("/content/2/boot.pack", PackFileType::Boot),
            FoundFile {
                path: "/content/3/broken.pack".to_string(),
                probe: Probe::Unreadable,
                modified: None,
                created: None,
            },
            FoundFile {
                path: "/content/4/notzlib.bin".to_string(),
                probe: Probe::Raw(vec![1, 2, 3, 4]),
                modified: Some(1),
                created: None,
            },
            FoundFile {
                path: "/content/5/zlib.pack".to_string(),
                probe: Probe::Raw(zlib(b"hello")),
                modified: Some(1),
                created: None,
            },
        ],
        secondary: vec![
            found(&format!("/secondary/{}", RESERVED_PACK_NAME_ALTERNATIVE), PackFileType::Movie),
            FoundFile {
                path: "/secondary/map.bin".to_string(),
                probe: Probe::Raw(zlib(b"hello")),
                modified: Some(1),
                created: None,
            },
        ],
        data: vec![
            found("/game/data/data.pack", PackFileType::Mod),
            found("/game/data/release.pack", PackFileType::Release),
            found("/game/data/patch.pack", PackFileType::Patch),
        ],
    };
    let tags = config.update_mod_list(&warhammer_3(), "/game/data", &scan, &mut order).unwrap();
    assert!(tags.is_empty());
    assert!(config.mods.is_empty());
}

#[test]
fn classify_knows_mods_movies_and_maps() {
    assert_eq!(classify(&Probe::Pack(PackFileType::Mod), "a.pack", Source::Data), Some(PackFileType::Mod));
    assert_eq!(
        classify(&Probe::Pack(PackFileType::Movie), "a.pack", Source::Content),
        Some(PackFileType::Movie)
    );
    assert_eq!(classify(&Probe::Pack(PackFileType::Boot), "a.pack", Source::Data), None);
    assert_eq!(classify(&Probe::Pack(PackFileType::Release), "a.pack", Source::Data), None);
    assert_eq!(classify(&Probe::Pack(PackFileType::Patch), "a.pack", Source::Data), None);
    assert_eq!(classify(&Probe::Unreadable, "a.bin", Source::Content), None);
    let map = Probe::Raw(zlib(b"some map"));
    assert_eq!(classify(&map, "a.bin", Source::Content), Some(PackFileType::Mod));
    assert_eq!(classify(&map, "a.bin", Source::Secondary), None);
    assert_eq!(classify(&map, "a.bin", Source::Data), None);
    assert_eq!(classify(&map, "a.pack", Source::Content), None);
    assert_eq!(classify(&map, ".bin", Source::Content), None);
    assert_eq!(classify(&Probe::Raw(b"some map".to_vec()), "a.bin", Source::Content), None);
    assert!(is_bin_file("x.y.bin"));
    assert!(!is_bin_file("bin"));
    assert!(!is_bin_file("x.bin.pack"));
    assert!(is_reserved(RESERVED_PACK_NAME));
    assert!(is_reserved(RESERVED_PACK_NAME_ALTERNATIVE));
    assert!(!is_reserved("a.pack"));
}

#[test]
fn store_folder_is_the_first_folder_below_content() {
    assert_eq!(store_folder_of("/c/123/a.pack", "/c"), Some("123".to_string()));
    assert_eq!(store_folder_of("/c/123/sub/a.pack", "/c"), Some("123".to_string()));
    assert_eq!(store_folder_of("/c/123/a.pack", "/c/"), Some("123".to_string()));
    assert_eq!(store_folder_of("/c/a.pack", "/c"), None);
    assert_eq!(store_folder_of("/cc/123/a.pack", "/c"), None);
    assert_eq!(store_folder_of("/d/123/a.pack", "/c"), None);
    assert_eq!(store_folder_of("/c", "/c"), None);
    assert_eq!(store_folder_of("/c//a.pack", "/c"), None);
    assert_eq!(store_folder_of("/c/123/a.pack", ""), None);
}

#[test]
fn sightings_keep_the_order_of_the_files() {
    let files = vec![
        found("/s/b.pack", PackFileType::Mod),
        found("/s/vanilla.pack", PackFileType::Mod),
        found("/s/a.pack", PackFileType::Movie),
    ];
    let vanilla = strings(&["/s/vanilla.pack"]);
    let sightings = collect_sightings(&files, Source::Secondary, &vanilla, "/s").unwrap();
    assert_eq!(sightings.len(), 2);
    assert_eq!(sightings[0].name, "b.pack");
    assert_eq!(sightings[0].store_tag, None);
    assert_eq!(sightings[1].name, "a.pack");
    assert_eq!(sightings[1].pack_type, PackFileType::Movie);
    let in_content = collect_sightings(&files, Source::Content, &vanilla, "/").unwrap();
    assert_eq!(in_content.len(), 3);
    assert_eq!(in_content[0].store_tag, Some("s".to_string()));
}

#[test]
fn deleting_a_category_moves_its_mods_to_unassigned() {
    let mut config = GameConfig::new("warhammer_3");
    assert_eq!(config.create_category("Overhauls"), Ok(()));
    assert_eq!(config.categories_order, strings(&["Overhauls", DEFAULT_CATEGORY]));
    let k = config.find_category("Overhauls").unwrap();
    config.categories[k].mods = strings(&["a.pack", "b.pack"]);
    let d = config.find_category(DEFAULT_CATEGORY).unwrap();
    config.categories[d].mods = strings(&["c.pack"]);

    assert_eq!(config.delete_category("Overhauls"), Ok(()));
    assert_eq!(config.categories_order, strings(&[DEFAULT_CATEGORY]));
    assert_eq!(config.categories.len(), 1);
    assert_eq!(config.categories[0].mods, strings(&["c.pack", "a.pack", "b.pack"]));
    assert_eq!(config.delete_category(DEFAULT_CATEGORY), Err(CategoryError::CannotDeleteDefault));
    assert_eq!(config.delete_category("Nowhere"), Err(CategoryError::NotFound));
    assert_eq!(config.delete_category("Overhauls"), Err(CategoryError::NotFound));
    assert_eq!(config.delete_category(""), Err(CategoryError::NotFound));
    assert_eq!(config.categories.len(), 1);
    assert_eq!(config.categories[0].mods, strings(&["c.pack", "a.pack", "b.pack"]));
    assert_eq!(config.categories_order, strings(&[DEFAULT_CATEGORY]));
}

#[test]
fn creating_a_category_puts_it_before_unassigned() {
    let mut config = GameConfig::new("warhammer_3");
    assert_eq!(config.create_category("A"), Ok(()));
    assert_eq!(config.create_category("B"), Ok(()));
    assert_eq!(config.categories_order, strings(&["A", "B", DEFAULT_CATEGORY]));
    assert_eq!(config.create_category("A"), Err(CategoryError::AlreadyExists));
    assert_eq!(config.create_category(DEFAULT_CATEGORY), Err(CategoryError::CannotCreateDefault));
    assert_eq!(config.create_category(""), Err(CategoryError::EmptyName));
    assert_eq!(config.categories_order, strings(&["A", "B", DEFAULT_CATEGORY]));
    assert_eq!(config.categories.len(), 3);

    let mut no_order = GameConfig::new("warhammer_3");
    no_order.categories_order.clear();
    assert_eq!(no_order.create_category("A"), Ok(()));
    assert_eq!(no_order.categories_order, strings(&["A"]));
}

#[test]
fn renaming_a_category_keeps_its_place_and_its_mods() {
    let mut config = GameConfig::new("warhammer_3");
    config.create_category("A").unwrap();
    config.create_category("B").unwrap();
    let k = config.find_category("A").unwrap();
    config.categories[k].mods = strings(&["a.pack"]);
    assert_eq!(config.rename_category("A", "C"), Ok(()));
    assert_eq!(config.categories_order, strings(&["C", "B", DEFAULT_CATEGORY]));
    assert_eq!(config.categories[config.find_category("C").unwrap()].mods, strings(&["a.pack"]));
    assert!(config.find_category("A").is_none());

    assert_eq!(config.rename_category("C", "C"), Ok(()));
    assert_eq!(config.rename_category(DEFAULT_CATEGORY, DEFAULT_CATEGORY), Ok(()));
    assert_eq!(
        config.rename_category(DEFAULT_CATEGORY, "D"),
        Err(CategoryError::CannotRenameDefault)
    );
    assert_eq!(
        config.rename_category("C", DEFAULT_CATEGORY),
        Err(CategoryError::CannotRenameToDefault)
    );
    assert_eq!(config.rename_category("C", ""), Err(CategoryError::EmptyName));
    assert_eq!(config.rename_category("C", "B"), Err(CategoryError::NewNameTaken));
    assert_eq!(config.rename_category("Nowhere", "E"), Err(CategoryError::NotFound));
    assert_eq!(config.rename_category("A", "E"), Err(CategoryError::NotFound));
    assert_eq!(config.rename_category("Nowhere", "Nowhere"), Ok(()));
    assert_eq!(config.rename_category("Nowhere", ""), Err(CategoryError::EmptyName));
    assert_eq!(config.rename_category("Nowhere", "B"), Err(CategoryError::NewNameTaken));
    assert!(config.find_category("E").is_none());
    assert_eq!(config.categories_order, strings(&["C", "B", DEFAULT_CATEGORY]));
    assert_eq!(config.categories.len(), 3);
}

#[test]
fn category_errors_have_their_words() {
    assert_eq!(CategoryError::CannotCreateDefault.message(), "Cannot create default category.");
    assert_eq!(CategoryError::AlreadyExists.message(), "Category already exists.");
    assert_eq!(CategoryError::CannotRenameDefault.message(), "Cannot rename default category.");
    assert_eq!(
        CategoryError::CannotRenameToDefault.message(),
        "Cannot rename category to default category."
    );
    assert_eq!(CategoryError::EmptyName.message(), "New name cannot be empty.");
    assert_eq!(CategoryError::NewNameTaken.message(), "Category with new name already exists.");
    assert_eq!(CategoryError::CannotDeleteDefault.message(), "Cannot delete default category.");
    assert_eq!(CategoryError::CannotMoveDefault.message(), "Cannot move default category.");
    assert_eq!(CategoryError::NotFound.message(), "Category not found");
    assert_eq!(CategoryError::SourceNotFound.message(), "Source category not found");
    assert_eq!(CategoryError::TargetNotFound.message(), "Target category not found");
}

#[test]
fn moving_mods_to_a_category_takes_them_out_of_the_others() {
    let mut config = GameConfig::new("warhammer_3");
    config.create_category("A").unwrap();
    config.create_category("B").unwrap();
    let d = config.find_category(DEFAULT_CATEGORY).unwrap();
    config.categories[d].mods = strings(&["1", "2", "3"]);
    let a = config.find_category("A").unwrap();
    config.categories[a].mods = strings(&["4"]);

    assert_eq!(config.move_mods_to_category(&strings(&["2", "4"]), "B"), Ok(()));
    assert_eq!(config.categories[d].mods, strings(&["1", "3"]));
    assert!(config.categories[a].mods.is_empty());
    assert_eq!(config.categories[config.find_category("B").unwrap()].mods, strings(&["2", "4"]));

    assert_eq!(config.move_mods_to_category(&strings(&["2"]), "B"), Ok(()));
    assert_eq!(config.categories[config.find_category("B").unwrap()].mods, strings(&["4", "2"]));

    assert_eq!(
        config.move_mods_to_category(&strings(&["1"]), "Nowhere"),
        Err(CategoryError::NotFound)
    );
    assert_eq!(config.categories[d].mods, strings(&["1", "3"]));
}

#[test]
fn category_for_mod_takes_the_last_name() {
    let mut config = GameConfig::new("warhammer_3");
    config.categories.push(Category { name: "Zeta".to_string(), mods: strings(&["m"]) });
    config.categories.push(Category { name: "Alpha".to_string(), mods: strings(&["m", "n"]) });
    assert_eq!(config.category_for_mod("m"), "Zeta");
    assert_eq!(config.category_for_mod("n"), "Alpha");
    assert_eq!(config.category_for_mod("o"), DEFAULT_CATEGORY);
}

#[test]
fn reordering_categories_puts_the_source_before_the_target() {
    let mut config = GameConfig::new("warhammer_3");
    config.create_category("A").unwrap();
    config.create_category("B").unwrap();
    config.create_category("C").unwrap();
    assert_eq!(config.reorder_categories("C", "A"), Ok(strings(&["C", "A", "B", DEFAULT_CATEGORY])));
    assert_eq!(
        config.reorder_categories("C", DEFAULT_CATEGORY),
        Ok(strings(&["A", "B", "C", DEFAULT_CATEGORY]))
    );
    assert_eq!(config.reorder_categories("B", "B"), Ok(strings(&["A", "B", "C", DEFAULT_CATEGORY])));
    assert_eq!(
        config.reorder_categories(DEFAULT_CATEGORY, "A"),
        Err(CategoryError::CannotMoveDefault)
    );
    assert_eq!(
        config.reorder_categories(DEFAULT_CATEGORY, "X"),
        Err(CategoryError::CannotMoveDefault)
    );
    assert_eq!(
        config.reorder_categories("A", DEFAULT_CATEGORY),
        Ok(strings(&["B", "C", "A", DEFAULT_CATEGORY]))
    );
    assert_eq!(config.reorder_categories("A", "B"), Ok(strings(&["A", "B", "C", DEFAULT_CATEGORY])));
    assert_eq!(config.reorder_categories("X", "A"), Err(CategoryError::SourceNotFound));
    assert_eq!(config.reorder_categories("A", "X"), Err(CategoryError::TargetNotFound));
    assert_eq!(config.categories_order, strings(&["A", "B", "C", DEFAULT_CATEGORY]));
}

#[test]
fn loading_adds_the_reserved_category() {
    let fresh = GameConfig::load("attila", None);
    assert_eq!(fresh.game_key, "attila");
    assert!(fresh.mods.is_empty());
    assert_eq!(fresh.categories_order, strings(&[DEFAULT_CATEGORY]));
    assert_eq!(fresh.categories.len(), 1);

    let mut stored = GameConfig::new("attila");
    stored.categories.clear();
    stored.categories.push(Category { name: "A".to_string(), mods: strings(&["x"]) });
    stored.categories_order = strings(&[DEFAULT_CATEGORY, "A"]);
    let loaded = GameConfig::load("attila", Some(stored));
    assert_eq!(loaded.categories_order, strings(&["A", DEFAULT_CATEGORY]));
    assert_eq!(loaded.categories.len(), 2);
    assert_eq!(loaded.categories[1].name, DEFAULT_CATEGORY);
    assert!(loaded.categories[1].mods.is_empty());

    let mut whole = GameConfig::new("attila");
    whole.categories_order = strings(&[DEFAULT_CATEGORY, "A"]);
    let kept = GameConfig::load("attila", Some(whole));
    assert_eq!(kept.categories_order, strings(&[DEFAULT_CATEGORY, "A"]));
}
