use runcher::game_config::GameConfig;
use runcher::games::GameTraits;
use runcher::load_order::LoadOrder;
use runcher::mods::{Mod, PackFileType};

fn strings(items: &[&str]) -> Vec<String> {
    items.iter().map(|s| s.to_string()).collect()
}

fn installed(id: &str, path: &str, kind: PackFileType, enabled: bool) -> Mod {
    let mut m = Mod::default();
    m.id = id.to_string();
    m.paths = vec![path.to_string()];
    m.pack_type = kind;
    m.enabled = enabled;
    m
}

fn config_with(mods: Vec<Mod>) -> GameConfig {
    let mut config = GameConfig::new("warhammer_3");
    config.mods = mods;
    config
}

fn game(key: &str) -> GameTraits {
    GameTraits::for_key(key).unwrap()
}

fn script(config: &GameConfig, order: &LoadOrder, key: &str) -> (String, String) {
    let mut packs = String::new();
    let mut folders = String::new();
    order.build_load_order_string(
        config,
        &game(key),
        "/game/data",
        "/secondary/game",
        "/secondary/game/masks",
        &mut packs,
        &mut folders,
    );
    (packs, folders)
}

#[test]
fn disabled_movie_is_excluded_where_the_engine_can() {
    let config = config_with(vec![
        installed("name.pack", "/game/data/name.pack", PackFileType::Movie, false),
        installed("a.pack", "/game/data/a.pack", PackFileType::Mod, true),
    ]);
    let mut order = LoadOrder::default();
    order.update(&config, &game("warhammer_3"), "/game/data");
    let (packs, folders) = script(&config, &order, "warhammer_3");
    assert_eq!(packs, "mod \"a.pack\";\nexclude_pack_file \"name.pack\";");
    assert_eq!(folders, "");

    let mut old = LoadOrder::default();
    old.update(&config, &game("attila"), "/game/data");
    let (packs, _) = script(&config, &old, "attila");
    assert!(!packs.contains("exclude_pack_file"));
    assert_eq!(packs, "mod \"a.pack\";\n");

    let mut older = LoadOrder::default();
    older.update(&config, &game("empire"), "/game/data");
    let (packs, folders) = script(&config, &older, "empire");
    assert!(!packs.contains("exclude_pack_file"));
    assert_eq!(folders, "");
}

#[test]
fn folders_come_masks_first_then_secondary_then_content() {
    let config = config_with(vec![
        installed("c1.pack", "/content/1/c1.pack", PackFileType::Mod, true),
        installed("s1.pack", "/secondary/game/s1.pack", PackFileType::Mod, true),
        installed("c2.pack", "/content/2/c2.pack", PackFileType::Mod, true),
        installed("s2.pack", "/secondary/game/s2.pack", PackFileType::Mod, true),
        installed("d.pack", "/game/data/d.pack", PackFileType::Mod, true),
    ]);
    let mut order = LoadOrder::default();
    order.update(&config, &game("attila"), "/game/data");
    assert_eq!(order.mods, strings(&["c1.pack", "c2.pack", "d.pack", "s1.pack", "s2.pack"]));
    let (packs, folders) = script(&config, &order, "attila");
    assert_eq!(
        folders,
        "add_working_directory \"/secondary/game/masks\";\n\
         add_working_directory \"/secondary/game\";\n\
         add_working_directory \"/content/1\";\n\
         add_working_directory \"/content/2\";\n"
    );
    assert_eq!(
        packs,
        "mod \"c1.pack\";\nmod \"c2.pack\";\nmod \"d.pack\";\nmod \"s1.pack\";\nmod \"s2.pack\";"
    );

    let (_, modern) = script(&config, &order, "warhammer_3");
    assert_eq!(
        modern,
        "add_working_directory \"/secondary/game\";\n\
         add_working_directory \"/content/1\";\n\
         add_working_directory \"/content/2\";\n"
    );

    let (_, oldest) = script(&config, &order, "empire");
    assert_eq!(oldest, "");
}

#[test]
fn script_is_written_behind_what_is_there() {
    let config = config_with(vec![
        installed("m.pack", "/content/5/m.pack", PackFileType::Movie, true),
        installed("a.pack", "/content/1/a.pack", PackFileType::Mod, true),
        installed("off.pack", "/secondary/game/off.pack", PackFileType::Movie, false),
        installed("off2.pack", "/content/6/off2.pack", PackFileType::Movie, false),
    ]);
    let mut order = LoadOrder::default();
    order.mods = strings(&["missing.pack", "a.pack"]);
    order.movies = strings(&["m.pack"]);
    let mut packs = "first;".to_string();
    let mut folders = "before\n".to_string();
    order.build_load_order_string(
        &config,
        &game("warhammer_3"),
        "/game/data",
        "/secondary/game",
        "/secondary/game/masks",
        &mut packs,
        &mut folders,
    );
    assert_eq!(packs, "first;\nmod \"a.pack\";\n");
    assert_eq!(
        folders,
        "before\nadd_working_directory \"/content/1\";\nadd_working_directory \"/content/5\";\n"
    );
}

#[test]
fn disabled_movie_in_secondary_is_excluded_once_the_folder_is_used() {
    let mut config = config_with(vec![
        installed("off.pack", "/secondary/game/off.pack", PackFileType::Movie, false),
        installed("a.pack", "/secondary/game/a.pack", PackFileType::Mod, true),
    ]);
    let mut order = LoadOrder::default();
    order.update(&config, &game("warhammer_3"), "/game/data");
    let (packs, folders) = script(&config, &order, "warhammer_3");
    assert_eq!(packs, "mod \"a.pack\";\nexclude_pack_file \"off.pack\";");
    assert_eq!(folders, "add_working_directory \"/secondary/game\";\n");

    config.mods[1].enabled = false;
    order.update(&config, &game("warhammer_3"), "/game/data");
    let (packs, folders) = script(&config, &order, "warhammer_3");
    assert_eq!(packs, "");
    assert_eq!(folders, "");

    let mut packs = String::new();
    let mut folders = String::new();
    config.mods[1].enabled = true;
    order.update(&config, &game("warhammer_3"), "/game/data");
    order.build_load_order_string(
        &config,
        &game("warhammer_3"),
        "/game/data",
        "",
        "",
        &mut packs,
        &mut folders,
    );
    assert_eq!(packs, "mod \"a.pack\";");
    assert_eq!(folders, "add_working_directory \"/secondary/game\";\n");
}
