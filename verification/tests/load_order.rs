use runcher::game_config::GameConfig;
use runcher::games::GameTraits;
use runcher::load_order::{
    sort_texts, LoadOrder, LoadOrderDirectionMove, LoadOrderFileError,
};
use runcher::mods::{Mod, PackFileType};

fn strings(items: &[&str]) -> Vec<String> {
    items.iter().map(|s| s.to_string()).collect()
}

fn installed(id: &str, path: &str, kind: PackFileType, enabled: bool) -> Mod {
    let mut m = Mod::default();
    m.id = id.to_string();
    m.name = id.to_string();
    m.paths = vec![path.to_string()];
    m.pack_type = kind;
    m.enabled = enabled;
    m
}

fn config_with(mods: Vec<Mod>) -> GameConfig {
    let mut config = GameConfig::new("warhammer_3");
    config.mods = mods;
    config
}

fn game(key: &str) -> GameTraits {
    GameTraits::for_key(key).unwrap()
}

fn order_of(mods: &[&str]) -> LoadOrder {
    LoadOrder { automatic: false, mods: strings(mods), movies: vec![] }
}

#[test]
fn automatic_order_sorts_by_file_name() {
    let config = config_with(vec![
        installed("c.pack", "/content/3/c.pack", PackFileType::Mod, true),
        installed("a.pack", "/game/data/a.pack", PackFileType::Mod, true),
        installed("off.pack", "/game/data/off.pack", PackFileType::Mod, false),
        installed("z_movie.pack", "/content/9/z_movie.pack", PackFileType::Movie, true),
        installed("b.bin", "/game/data/B.pack", PackFileType::Mod, true),
        installed("a_movie.pack", "/content/8/a_movie.pack", PackFileType::Movie, true),
        installed("off_movie.pack", "/content/7/off_movie.pack", PackFileType::Movie, false),
        {
            let mut gone = installed("gone.pack", "/x", PackFileType::Mod, true);
            gone.paths.clear();
            gone
        },
        installed("boot.pack", "/game/data/boot.pack", PackFileType::Boot, true),
    ]);
    let mut order = LoadOrder::default();
    order.mods = strings(&["stale.pack"]);
    order.movies = strings(&["stale_movie.pack"]);
    order.update(&config, &game("warhammer_3"), "/game/data");
    assert!(order.automatic);
    assert_eq!(order.mods, strings(&["b.bin", "a.pack", "c.pack"]));
    assert_eq!(order.movies, strings(&["a_movie.pack", "z_movie.pack"]));

    let once = order.clone();
    order.update(&config, &game("warhammer_3"), "/game/data");
    assert_eq!(order, once);
}

#[test]
fn equal_file_names_keep_the_order_of_the_registry() {
    let config = config_with(vec![
        installed("second", "/b/same.pack", PackFileType::Mod, true),
        installed("first", "/a/same.pack", PackFileType::Mod, true),
        installed("zero", "/c/aaa.pack", PackFileType::Mod, true),
    ]);
    let mut order = LoadOrder::default();
    order.update(&config, &game("warhammer_3"), "/game/data");
    assert_eq!(order.mods, strings(&["zero", "second", "first"]));
}

#[test]
fn manual_order_keeps_what_is_there_and_appends_the_new() {
    let config = config_with(vec![
        installed("a.pack", "/d/a.pack", PackFileType::Mod, true),
        installed("b.pack", "/d/b.pack", PackFileType::Mod, true),
        installed("c.pack", "/d/c.pack", PackFileType::Mod, true),
        installed("d.pack", "/d/d.pack", PackFileType::Mod, false),
        installed("m.pack", "/d/m.pack", PackFileType::Movie, true),
    ]);
    let mut order = order_of(&["c.pack", "d.pack", "a.pack", "unknown.pack"]);
    order.movies = strings(&["old.pack"]);
    order.update(&config, &game("warhammer_3"), "/game/data");
    assert!(!order.automatic);
    assert_eq!(order.mods, strings(&["c.pack", "a.pack", "b.pack"]));
    assert_eq!(order.movies, strings(&["m.pack"]));

    let once = order.clone();
    order.update(&config, &game("warhammer_3"), "/game/data");
    assert_eq!(order, once);
}

#[test]
fn movie_in_data_is_always_loaded_by_an_old_engine() {
    let config = config_with(vec![
        installed("data_movie.pack", "/game/data/data_movie.pack", PackFileType::Movie, false),
        installed("other_movie.pack", "/secondary/other_movie.pack", PackFileType::Movie, false),
        installed("near.pack", "/game/database/near.pack", PackFileType::Movie, false),
    ]);
    let mut order = LoadOrder::default();
    order.update(&config, &game("attila"), "/game/data");
    assert_eq!(order.movies, strings(&["data_movie.pack"]));
    order.update(&config, &game("shogun_2"), "/game/data");
    assert_eq!(order.movies, strings(&["data_movie.pack"]));
    order.update(&config, &game("warhammer_3"), "/game/data");
    assert!(order.movies.is_empty());
}

#[test]
fn moving_by_one_swaps_neighbours() {
    let mut order = LoadOrder::default();
    order.mods = strings(&["a", "b", "c"]);
    order.movies = strings(&["m"]);
    order.move_mod_in_direction("b", LoadOrderDirectionMove::Up);
    assert!(!order.automatic);
    assert_eq!(order.mods, strings(&["b", "a", "c"]));
    order.move_mod_in_direction("b", LoadOrderDirectionMove::Down);
    assert_eq!(order.mods, strings(&["a", "b", "c"]));
    order.move_mod_in_direction("b", LoadOrderDirectionMove::Down);
    assert_eq!(order.mods, strings(&["a", "c", "b"]));
    assert_eq!(order.movies, strings(&["m"]));
}

#[test]
fn moving_stops_at_the_ends() {
    let mut order = order_of(&["a", "b", "c"]);
    order.move_mod_in_direction("a", LoadOrderDirectionMove::Up);
    assert_eq!(order.mods, strings(&["a", "b", "c"]));
    order.move_mod_in_direction("c", LoadOrderDirectionMove::Down);
    assert_eq!(order.mods, strings(&["a", "b", "c"]));
    order.move_mod_in_direction("nobody", LoadOrderDirectionMove::Down);
    assert_eq!(order.mods, strings(&["a", "b", "c"]));

    let mut single = order_of(&["a"]);
    single.move_mod_in_direction("a", LoadOrderDirectionMove::Down);
    single.move_mod_in_direction("a", LoadOrderDirectionMove::Up);
    assert_eq!(single.mods, strings(&["a"]));

    let mut automatic = LoadOrder::default();
    automatic.move_mod_in_direction("nobody", LoadOrderDirectionMove::Up);
    assert!(!automatic.automatic);
    assert!(automatic.mods.is_empty());
}

#[test]
fn moving_above_another_keeps_the_members() {
    let mut order = LoadOrder::default();
    order.mods = strings(&["a", "b", "c", "d"]);
    order.move_mod_above_another("d", "b");
    assert!(!order.automatic);
    assert_eq!(order.mods, strings(&["a", "d", "b", "c"]));
    order.move_mod_above_another("a", "c");
    assert_eq!(order.mods, strings(&["d", "b", "a", "c"]));
    order.move_mod_above_another("d", "b");
    assert_eq!(order.mods, strings(&["d", "b", "a", "c"]));
    order.move_mod_above_another("x", "b");
    order.move_mod_above_another("b", "x");
    assert_eq!(order.mods, strings(&["d", "b", "a", "c"]));
    let mut sorted = order.mods.clone();
    sorted.sort();
    assert_eq!(sorted, strings(&["a", "b", "c", "d"]));
}

#[test]
fn moving_a_mod_above_itself_does_nothing_at_all() {
    let mut order = LoadOrder::default();
    order.mods = strings(&["a", "b"]);
    order.move_mod_above_another("a", "a");
    assert!(order.automatic);
    assert_eq!(order.mods, strings(&["a", "b"]));
    order.move_mod_above_another("a", "b");
    assert!(!order.automatic);
}

#[test]
fn texts_sort_by_code_point() {
    assert_eq!(
        sort_texts(&strings(&["b", "a", "B", "", "ab", "a", "é", "z"])),
        strings(&["", "B", "a", "a", "ab", "b", "z", "é"])
    );
}

#[test]
fn load_order_file_is_utf16_for_the_oldest_games() {
    let empire = game("empire");
    assert_eq!(
        LoadOrder::save_as_load_order_file(&empire, "ab", "c"),
        vec![97, 0, 98, 0, 99, 0]
    );
    let shogun = game("shogun_2");
    assert_eq!(
        LoadOrder::save_as_load_order_file(&shogun, "é", "\u{1F600}"),
        vec![0xE9, 0x00, 0x3D, 0xD8, 0x00, 0xDE]
    );
    let warhammer = game("warhammer_3");
    assert_eq!(
        LoadOrder::save_as_load_order_file(&warhammer, "ab", "é"),
        vec![97, 98, 0xC3, 0xA9]
    );
    assert_eq!(LoadOrder::save_as_load_order_file(&warhammer, "", ""), Vec::<u8>::new());
}

#[test]
fn load_order_file_lies_where_the_game_looks_for_it() {
    assert_eq!(
        LoadOrder::path_as_load_order_file(&game("warhammer_3"), "/games/wh3", None),
        Ok("/games/wh3/mod_list.txt".to_string())
    );
    assert_eq!(
        LoadOrder::path_as_load_order_file(&game("shogun_2"), "/games/s2", Some("/config")),
        Ok("/games/s2/mod_list.txt".to_string())
    );
    assert_eq!(
        LoadOrder::path_as_load_order_file(&game("empire"), "/games/e", Some("/config")),
        Ok("/config/scripts/user.empire_script.txt".to_string())
    );
    assert_eq!(
        LoadOrder::path_as_load_order_file(&game("napoleon"), "/games/n", Some("/config")),
        Ok("/config/scripts/user.script.txt".to_string())
    );
    assert_eq!(
        LoadOrder::path_as_load_order_file(&game("napoleon"), "/games/n", None),
        Err(LoadOrderFileError::NoConfigPath)
    );
    assert_eq!(
        LoadOrderFileError::NoConfigPath.message(),
        "Error getting the game's config path."
    );
}
