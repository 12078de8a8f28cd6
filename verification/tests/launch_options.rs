use runcher::games::GameTraits;
use runcher::launch_options::{
    join, languages, load_order_file_name, parse_bool, pick_codes,
    reserved_pack_name_of, set_choices, supported_options_of, LaunchOption,
    LaunchOptionParameter, LaunchOptionValue, LaunchOptions, OptionSources, ParamType,
    PatchContext, Preset, ScriptParameter, SqlScript,
};
use runcher::settings::Setting;

fn strings(items: &[&str]) -> Vec<String> {
    items.iter().map(|s| s.to_string()).collect()
}

fn game(key: &str) -> GameTraits {
    GameTraits::for_key(key).unwrap()
}

fn setting(key: &str, value: &str) -> Setting {
    Setting { key: key.to_string(), value: value.to_string() }
}

fn sources() -> OptionSources {
    OptionSources {
        path_is_valid: true,
        pack_stems: vec![],
        rebalancer_packs: vec![],
        scripts: vec![],
        presets: vec![],
    }
}

fn context() -> PatchContext {
    PatchContext {
        data_path: "/game/data".to_string(),
        temp_packs_folder: "/config/temp_packs/warhammer_3".to_string(),
        settings: vec![],
        presets: vec![],
        presets_available: true,
        local_scripts: "/config/local/warhammer_3".to_string(),
        extracted_scripts: "/config/extracted/twpatcher/scripts".to_string(),
        remote_scripts: "/config/remote/warhammer_3".to_string(),
        script_files: vec![],
    }
}

fn script(key: &str, params: &[(&str, ParamType, &str)]) -> SqlScript {
    SqlScript {
        key: key.to_string(),
        name: format!("Script {key}"),
        parameters: params
            .iter()
            .map(|(k, t, d)| ScriptParameter {
                key: k.to_string(),
                name: format!("Param {k}"),
                param_type: *t,
                default_value: d.to_string(),
            })
            .collect(),
    }
}

fn keys(options: &[LaunchOption]) -> Vec<String> {
    options.iter().map(|o| o.key.clone()).collect()
}

fn enable(options: &mut [LaunchOption], key: &str) {
    options.iter_mut().find(|o| o.key == key).unwrap().enabled = true;
}

#[test]
fn options_follow_the_game() {
    let mut launch = LaunchOptions::new();
    let all = launch.generate_options(&game("warhammer_3"), &sources(), &vec![]);
    assert_eq!(
        keys(&all),
        strings(&[
            "enable_logging",
            "skip_intros",
            "remove_trait_limit",
            "remove_siege_attacker",
            "enable_translations",
            "unit_multiplier",
            "universal_rebalancer",
            "enable_dev_only_ui"
        ])
    );
    assert_eq!(all, launch.options);
    assert!(all.iter().all(|o| !o.enabled && !o.is_script && o.presets.is_empty()));
    assert_eq!(all[0].name, "Enable Logging");
    assert_eq!(all[7].name, "Enable Dev-only UI");
    assert_eq!(
        all[5].parameters,
        vec![LaunchOptionParameter {
            key: "multiplier".to_string(),
            name: "Multiplier".to_string(),
            value: LaunchOptionValue::Number("1".to_string()),
            default: LaunchOptionValue::Number("1".to_string()),
        }]
    );
    assert_eq!(
        all[4].parameters,
        vec![LaunchOptionParameter {
            key: "language".to_string(),
            name: "Language".to_string(),
            value: LaunchOptionValue::Select(String::new(), vec![]),
            default: LaunchOptionValue::Text(String::new()),
        }]
    );

    let three_kingdoms = launch.generate_options(&game("three_kingdoms"), &sources(), &vec![]);
    assert_eq!(keys(&three_kingdoms), strings(&["skip_intros", "enable_translations", "unit_multiplier"]));
    let troy = launch.generate_options(&game("troy"), &sources(), &vec![]);
    assert_eq!(keys(&troy), strings(&["enable_logging", "skip_intros", "enable_translations"]));
    let empire = launch.generate_options(&game("empire"), &sources(), &vec![]);
    assert_eq!(keys(&empire), strings(&["skip_intros", "enable_translations"]));

    let mut gone = sources();
    gone.path_is_valid = false;
    gone.scripts = vec![script("s", &[])];
    assert!(launch.generate_options(&game("arena"), &gone, &vec![]).is_empty());
    assert!(launch.options.is_empty());
    assert!(launch.scripts.is_empty());

    assert_eq!(supported_options_of("arena"), None);
    assert_eq!(supported_options_of("rome_2"), Some(strings(&["skip_intros", "enable_translations"])));
}

#[test]
fn languages_come_from_the_packs_of_the_game() {
    let stems = strings(&["local_fr", "data", "local_en", "local_en_2", "local_", "xlocal_de", "local_ß"]);
    assert_eq!(languages(&stems), strings(&["EN", "FR", "SS"]));
    assert_eq!(pick_codes(&strings(&["ZZ", "A", "AAA", "éé", "BB"])), strings(&["BB", "ZZ", "éé"]));

    let mut with_packs = sources();
    with_packs.pack_stems = stems;
    with_packs.rebalancer_packs = strings(&["z.pack", "b.pack"]);
    let mut launch = LaunchOptions::new();
    let options = launch.generate_options(&game("warhammer_3"), &with_packs, &vec![]);
    assert_eq!(
        options[4].parameters[0].value,
        LaunchOptionValue::Select("EN".to_string(), strings(&["EN", "FR", "SS"]))
    );
    assert_eq!(options[4].parameters[0].default, LaunchOptionValue::Text("EN".to_string()));
    assert_eq!(
        options[6].parameters[0].value,
        LaunchOptionValue::Select("b.pack".to_string(), strings(&["b.pack", "z.pack"]))
    );
    assert_eq!(options[6].parameters[0].default, LaunchOptionValue::Text("b.pack".to_string()));
}

#[test]
fn settings_switch_options_and_set_values() {
    let mut with_packs = sources();
    with_packs.pack_stems = strings(&["local_en", "local_fr"]);
    with_packs.scripts = vec![script(
        "tweak",
        &[("on", ParamType::Bool, "true"), ("count", ParamType::Integer, "5"), ("ratio", ParamType::Float, "x")],
    )];
    with_packs.presets = vec![
        Preset { key: "easy".to_string(), script_key: "tweak".to_string(), params: vec![] },
        Preset { key: "other".to_string(), script_key: "else".to_string(), params: vec![] },
        Preset { key: "hard".to_string(), script_key: "tweak".to_string(), params: vec![] },
    ];
    let settings = vec![
        setting("warhammer_3:skip_intros", "true"),
        setting("warhammer_3:enable_logging", "yes"),
        setting("warhammer_3:enable_translations", "false"),
        setting("warhammer_3:enable_translations:language", "FR"),
        setting("warhammer_3:unit_multiplier", "true"),
        setting("warhammer_3:unit_multiplier:multiplier", "2.5"),
        setting("warhammer_3:universal_rebalancer:base_mod", "ignored.pack"),
        setting("warhammer_3:tweak", "true"),
        setting("warhammer_3:tweak:on", "maybe"),
        setting("attila:remove_trait_limit", "true"),
    ];
    let mut launch = LaunchOptions::new();
    let options = launch.generate_options(&game("warhammer_3"), &with_packs, &settings);
    let find = |key: &str| options.iter().find(|o| o.key == key).unwrap();
    assert!(find("skip_intros").enabled);
    assert!(!find("enable_logging").enabled);
    assert!(!find("remove_trait_limit").enabled);
    assert_eq!(
        find("enable_translations").parameters[0].value,
        LaunchOptionValue::Select("FR".to_string(), vec![])
    );
    assert!(find("unit_multiplier").enabled);
    assert_eq!(
        find("unit_multiplier").parameters[0].value,
        LaunchOptionValue::Number("2.5".to_string())
    );
    assert_eq!(
        find("universal_rebalancer").parameters[0].value,
        LaunchOptionValue::Select(String::new(), vec![])
    );

    let tweak = find("tweak");
    assert!(tweak.enabled && tweak.is_script);
    assert_eq!(tweak.name, "Script tweak");
    assert_eq!(tweak.presets, strings(&["easy", "hard"]));
    assert_eq!(tweak.parameters.len(), 3);
    assert_eq!(tweak.parameters[0].default, LaunchOptionValue::Boolean(true));
    assert_eq!(tweak.parameters[0].value, LaunchOptionValue::Select("maybe".to_string(), vec![]));
    assert_eq!(tweak.parameters[1].default, LaunchOptionValue::Number("5".to_string()));
    assert_eq!(tweak.parameters[1].value, LaunchOptionValue::Number("5".to_string()));
    assert_eq!(tweak.parameters[2].default, LaunchOptionValue::Number("x".to_string()));
    assert_eq!(launch.scripts.len(), 1);
    assert_eq!(launch.scripts[0].key, "tweak");
}

#[test]
fn defaults_fall_back_by_their_kind() {
    let mut options = vec![LaunchOption {
        key: "o".to_string(),
        name: "O".to_string(),
        enabled: false,
        parameters: vec![
            LaunchOptionParameter {
                key: "a".to_string(),
                name: String::new(),
                value: LaunchOptionValue::Select("x".to_string(), strings(&["x", "y"])),
                default: LaunchOptionValue::Text("y".to_string()),
            },
            LaunchOptionParameter {
                key: "b".to_string(),
                name: String::new(),
                value: LaunchOptionValue::Select("x".to_string(), strings(&["x", "y"])),
                default: LaunchOptionValue::Text("z".to_string()),
            },
            LaunchOptionParameter {
                key: "c".to_string(),
                name: String::new(),
                value: LaunchOptionValue::Boolean(true),
                default: LaunchOptionValue::Text("t".to_string()),
            },
            LaunchOptionParameter {
                key: "d".to_string(),
                name: String::new(),
                value: LaunchOptionValue::Text("old".to_string()),
                default: LaunchOptionValue::Select("s".to_string(), strings(&["s"])),
            },
            LaunchOptionParameter {
                key: "e".to_string(),
                name: String::new(),
                value: LaunchOptionValue::Boolean(true),
                default: LaunchOptionValue::Boolean(false),
            },
            LaunchOptionParameter {
                key: "f".to_string(),
                name: String::new(),
                value: LaunchOptionValue::Boolean(false),
                default: LaunchOptionValue::Boolean(false),
            },
            LaunchOptionParameter {
                key: "g".to_string(),
                name: String::new(),
                value: LaunchOptionValue::Text("old".to_string()),
                default: LaunchOptionValue::Text("new".to_string()),
            },
        ],
        is_script: false,
        presets: vec![],
    }];
    set_choices(&mut options, "o", "missing", &strings(&["q"]));
    set_choices(&mut options, "missing", "a", &strings(&["q"]));
    set_choices(&mut options, "o", "a", &vec![]);
    assert_eq!(
        options[0].parameters[0].value,
        LaunchOptionValue::Select("x".to_string(), strings(&["x", "y"]))
    );

    // The options above are no generic ones, so they only pass through the
    // settings by way of a script of the same key.
    let mut launch = LaunchOptions::new();
    let mut with_script = sources();
    with_script.scripts = vec![script("o", &[("f", ParamType::Bool, "false"), ("n", ParamType::Integer, "7")])];
    let settings = vec![setting("empire:o", "false"), setting("empire:o:f", "true")];
    let made = launch.generate_options(&game("empire"), &with_script, &settings);
    let o = made.iter().find(|o| o.key == "o").unwrap();
    assert!(!o.enabled);
    assert_eq!(o.parameters[0].value, LaunchOptionValue::Select("true".to_string(), vec![]));
    assert_eq!(o.parameters[1].value, LaunchOptionValue::Number("7".to_string()));
    assert_eq!(parse_bool("true"), Some(true));
    assert_eq!(parse_bool("false"), Some(false));
    assert_eq!(parse_bool("True"), None);
    assert_eq!(parse_bool(""), None);
}

#[test]
fn later_script_of_the_same_key_stays() {
    let mut with_scripts = sources();
    with_scripts.scripts = vec![
        script("a", &[]),
        script("b", &[]),
        script("a", &[("p", ParamType::Bool, "true")]),
    ];
    let mut launch = LaunchOptions::new();
    let options = launch.generate_options(&game("empire"), &with_scripts, &vec![]);
    assert_eq!(keys(&options), strings(&["skip_intros", "enable_translations", "a", "b", "a"]));
    assert_eq!(launch.scripts.len(), 2);
    assert_eq!(launch.scripts[0].key, "a");
    assert_eq!(launch.scripts[0].parameters.len(), 1);
    assert_eq!(launch.scripts[1].key, "b");
}

#[test]
fn patcher_is_not_run_without_an_option() {
    let mut launch = LaunchOptions::new();
    let options = launch.generate_options(&game("warhammer_3"), &sources(), &vec![]);
    let mut folders = "x".to_string();
    assert_eq!(
        launch.prepare_launch_options(&options, &game("warhammer_3"), &context(), &mut folders),
        None
    );
    assert_eq!(folders, "x");
    assert_eq!(launch.options, options);
}

#[test]
fn patcher_takes_an_absent_option_as_switched_off() {
    let mut launch = LaunchOptions::new();
    let mut options = launch.generate_options(&game("warhammer"), &sources(), &vec![]);
    assert_eq!(keys(&options), strings(&["skip_intros", "enable_translations"]));
    enable(&mut options, "skip_intros");
    let mut folders = String::new();
    let args = launch
        .prepare_launch_options(&options, &game("warhammer"), &context(), &mut folders)
        .unwrap();
    assert_eq!(
        args,
        strings(&[
            "-g",
            "warhammer",
            "-l",
            "mod_list.txt",
            "-p",
            "/config/temp_packs/warhammer_3/zzzzzzzzzzzzzzzzzzzzrun_you_fool_thron.pack",
            "-s",
            "-i"
        ])
    );
    enable(&mut options, "enable_translations");
    let args = launch
        .prepare_launch_options(&options, &game("warhammer"), &context(), &mut folders)
        .unwrap();
    assert_eq!(args[7..].to_vec(), strings(&["-i", "-t", ""]));
}

#[test]
fn a_game_without_a_list_gets_the_options_of_its_scripts() {
    let mut launch = LaunchOptions::new();
    let mut with_script = sources();
    with_script.pack_stems = strings(&["local_en"]);
    with_script.rebalancer_packs = strings(&["a.pack"]);
    with_script.scripts = vec![script("tweak", &[])];
    let settings = vec![setting("arena:tweak", "true"), setting("arena:skip_intros", "true")];
    let options = launch.generate_options(&game("arena"), &with_script, &settings);
    assert_eq!(keys(&options), strings(&["tweak"]));
    assert!(options[0].enabled && options[0].is_script);
    assert_eq!(launch.scripts.len(), 1);
    let unknown = GameTraits { key: "unknown".to_string(), raw_db_version: 2 };
    assert!(launch.generate_options(&unknown, &sources(), &vec![]).is_empty());
}

#[test]
fn patcher_arguments_follow_the_options() {
    let mut launch = LaunchOptions::new();
    let mut with_packs = sources();
    with_packs.pack_stems = strings(&["local_en"]);
    with_packs.rebalancer_packs = strings(&["base.pack"]);
    let mut options = launch.generate_options(&game("warhammer_3"), &with_packs, &vec![]);
    for key in [
        "enable_logging",
        "skip_intros",
        "remove_trait_limit",
        "remove_siege_attacker",
        "enable_translations",
        "unit_multiplier",
        "universal_rebalancer",
        "enable_dev_only_ui",
    ] {
        enable(&mut options, key);
    }
    let mut folders = String::new();
    let args = launch
        .prepare_launch_options(&options, &game("warhammer_3"), &context(), &mut folders)
        .unwrap();
    assert_eq!(
        args,
        strings(&[
            "-g",
            "warhammer_3",
            "-l",
            "mod_list.txt",
            "-p",
            "/config/temp_packs/warhammer_3/zzzzzzzzzzzzzzzzzzzzrun_you_fool_thron.pack",
            "-s",
            "-e",
            "-i",
            "-r",
            "-a",
            "-d",
            "-t",
            "EN",
            "-u",
            "base.pack",
            "-m",
            "1"
        ])
    );
    assert_eq!(folders, "add_working_directory \"/config/temp_packs/warhammer_3\";\n");
}

#[test]
fn old_games_get_the_pack_in_their_data_folder() {
    let mut launch = LaunchOptions::new();
    let mut options = launch.generate_options(&game("warhammer_3"), &sources(), &vec![]);
    enable(&mut options, "skip_intros");
    let mut folders = String::new();
    let args = launch
        .prepare_launch_options(&options, &game("empire"), &context(), &mut folders)
        .unwrap();
    assert_eq!(
        args,
        strings(&[
            "-g",
            "empire",
            "-l",
            "user.empire_script.txt",
            "-p",
            "/game/data/zzzzzzzzzzzzzzzzzzzzrun_you_fool_thron.pack",
            "-s",
            "-i"
        ])
    );
    assert_eq!(folders, "");

    let args = launch
        .prepare_launch_options(&options, &game("shogun_2"), &context(), &mut folders)
        .unwrap();
    assert_eq!(args[3], "mod_list.txt");
    assert_eq!(
        args[5],
        "/config/temp_packs/warhammer_3/!!!!!!!!!!!!!!!!!!!!!run_you_fool_thron.pack"
    );
    assert_eq!(load_order_file_name(&game("napoleon")), "user.script.txt");
    assert_eq!(load_order_file_name(&game("empire")), "user.empire_script.txt");
    assert_eq!(load_order_file_name(&game("rome_2")), "mod_list.txt");
    for key in ["shogun_2", "rome_2", "attila", "thrones_of_britannia"] {
        assert_eq!(reserved_pack_name_of(&game(key)), "!!!!!!!!!!!!!!!!!!!!!run_you_fool_thron.pack");
    }
    for key in ["empire", "napoleon", "warhammer", "warhammer_3", "troy"] {
        assert_eq!(reserved_pack_name_of(&game(key)), "zzzzzzzzzzzzzzzzzzzzrun_you_fool_thron.pack");
    }
}

#[test]
fn scripts_get_their_file_and_their_values() {
    let mut launch = LaunchOptions::new();
    let mut with_scripts = sources();
    with_scripts.scripts = vec![
        script("plain", &[]),
        script("preset", &[("a", ParamType::Integer, "1"), ("b", ParamType::Integer, "2")]),
        script("set", &[("a", ParamType::Integer, "1"), ("b", ParamType::Integer, "2")]),
        script("off", &[]),
        script("none", &[("a", ParamType::Integer, "1")]),
    ];
    let mut options = launch.generate_options(&game("warhammer_3"), &with_scripts, &vec![]);
    for key in ["plain", "preset", "set", "none"] {
        enable(&mut options, key);
    }
    let mut unknown = options[8].clone();
    unknown.key = "unknown".to_string();
    options.push(unknown);

    let mut ctx = context();
    ctx.script_files = strings(&[
        "/config/local/warhammer_3/plain.yml",
        "/config/extracted/twpatcher/scripts/plain.yml",
        "/config/extracted/twpatcher/scripts/preset.yml",
    ]);
    ctx.remote_scripts = "C:\\config\\remote".to_string();
    ctx.settings = vec![
        setting("warhammer_3:preset:preset", "hard"),
        setting("warhammer_3:preset:a", "ignored"),
        setting("warhammer_3:set:preset", "none"),
        setting("warhammer_3:set:b", "9"),
        setting("warhammer_3:none:preset", "missing"),
    ];
    ctx.presets = vec![
        Preset { key: "easy".to_string(), script_key: "preset".to_string(), params: vec![] },
        Preset {
            key: "hard".to_string(),
            script_key: "preset".to_string(),
            params: vec![setting("b", "20")],
        },
    ];
    let mut folders = String::new();
    let args = launch
        .prepare_launch_options(&options, &game("warhammer_3"), &ctx, &mut folders)
        .unwrap();
    assert_eq!(
        args[7..].to_vec(),
        strings(&[
            "--sql-script",
            "/config/local/warhammer_3/plain.yml",
            "--sql-script",
            "/config/extracted/twpatcher/scripts/preset.yml;1;20",
            "--sql-script",
            "C:/config/remote/set.yml;9",
            "--sql-script",
            "C:\\config\\remote/none.yml"
        ])
    );
    assert_eq!(ctx.script_path("plain"), "/config/local/warhammer_3/plain.yml");

    ctx.presets_available = false;
    let args = launch
        .prepare_launch_options(&options, &game("warhammer_3"), &ctx, &mut folders)
        .unwrap();
    assert_eq!(args[10], "/config/extracted/twpatcher/scripts/preset.yml;ignored");
}

#[test]
fn texts_are_joined_with_a_separator() {
    assert_eq!(join(&vec![], ","), "");
    assert_eq!(join(&strings(&["a"]), ","), "a");
    assert_eq!(join(&strings(&["a", "", "c"]), ", "), "a, , c");
}
