//! The settings of the launcher.

use vstd::prelude::*;
use vstd::string::*;
use crate::games::GameTraits;
use crate::text::{lemma_position_is, lemma_position_none, position, str_eq};

verus! {

/// The key under which the settings keep the secondary folder.
pub const SECONDARY_MODS_PATH_KEY: &'static str = "secondary_mods_path";

/// One setting: a key and the text kept under it.
#[derive(Debug, PartialEq, Eq)]
pub struct Setting {
    pub key: String,
    pub value: String,
}

/// A [`Setting`] with its texts as sequences of characters.
pub ghost struct SettingView {
    pub key: Seq<char>,
    pub value: Seq<char>,
}

impl DeepView for Setting {
    type V = SettingView;

    open spec fn deep_view(&self) -> SettingView {
        SettingView { key: self.key@, value: self.value@ }
    }
}

impl View for Setting {
    type V = SettingView;

    open spec fn view(&self) -> SettingView {
        self.deep_view()
    }
}

/// The keys of the settings, in their order.
pub open spec fn keys_of(settings: Seq<SettingView>) -> Seq<Seq<char>> {
    settings.map_values(|s: SettingView| s.key)
}

/// The text kept under `key`: that of the first setting with that key.
pub open spec fn value_of(settings: Seq<SettingView>, key: Seq<char>) -> Option<Seq<char>> {
    if position(keys_of(settings), key) >= 0 {
        Some(settings[position(keys_of(settings), key)].value)
    } else {
        None
    }
}

/// The settings with `value` kept under `key`: in place of what was kept
/// there, or as a new setting at the end.
pub open spec fn with_value(settings: Seq<SettingView>, key: Seq<char>, value: Seq<char>) -> Seq<
    SettingView,
> {
    if position(keys_of(settings), key) >= 0 {
        settings.update(position(keys_of(settings), key), SettingView { key, value })
    } else {
        settings.push(SettingView { key, value })
    }
}

/// The index of the first setting with the key `key`.
pub fn find_setting(settings: &Vec<Setting>, key: &str) -> (r: Option<usize>)
    ensures
        r is None <==> position(keys_of(settings.deep_view()), key@) < 0,
        r is Some ==> r->0 as int == position(keys_of(settings.deep_view()), key@) && r->0
            < settings@.len(),
{
    let ghost keys = keys_of(settings.deep_view());
    let mut i: usize = 0;
    while i < settings.len()
        invariant
            i <= settings@.len(),
            keys == keys_of(settings.deep_view()),
            keys.len() == settings@.len(),
            forall|j: int| 0 <= j < i ==> keys[j] != key@,
        decreases settings@.len() - i,
    {
        assert(keys[i as int] == settings@[i as int].key@);
        if str_eq(settings[i].key.as_str(), key) {
            proof {
                lemma_position_is(keys, key@, i as int);
            }
            return Some(i);
        }
        i += 1;
    }
    proof {
        lemma_position_none(keys, key@);
    }
    None
}

/// The text kept under `key`, if any.
pub fn get_setting(settings: &Vec<Setting>, key: &str) -> (r: Option<String>)
    ensures
        r is Some <==> value_of(settings.deep_view(), key@) is Some,
        r is Some ==> r->0@ == value_of(settings.deep_view(), key@)->0,
{
    match find_setting(settings, key) {
        Some(k) => {
            assert(settings.deep_view()[k as int] == settings@[k as int]@);
            Some(settings[k].value.clone())
        },
        None => None,
    }
}

/// Keeps `value` under `key`.
pub fn put_setting(settings: &mut Vec<Setting>, key: &str, value: &str)
    ensures
        final(settings).deep_view() == with_value(old(settings).deep_view(), key@, value@),
{
    let ghost before = settings.deep_view();
    match find_setting(settings, key) {
        Some(k) => {
            settings[k] = Setting { key: key.to_owned(), value: value.to_owned() };
            assert(settings.deep_view() =~= before.update(
                k as int,
                SettingView { key: key@, value: value@ },
            ));
        },
        None => {
            settings.push(Setting { key: key.to_owned(), value: value.to_owned() });
            assert(settings.deep_view() =~= before.push(SettingView { key: key@, value: value@ }));
        },
    }
}

/// What the settings could not give.
#[derive(Clone, Copy, Debug, PartialEq, Eq, Structural)]
pub enum SettingsError {
    GamePathNotFound,
    SecondaryModsPathNotFound,
    StringNotFound,
}

impl SettingsError {
    /// The failure in words.
    pub open spec fn words(self) -> Seq<char> {
        match self {
            SettingsError::GamePathNotFound => "Game path not found"@,
            SettingsError::SecondaryModsPathNotFound => "Secondary mods path not found"@,
            SettingsError::StringNotFound => "String not found"@,
        }
    }

    /// The failure in words.
    pub fn message(&self) -> (r: String)
        ensures
            r@ == self.words(),
    {
        match self {
            SettingsError::GamePathNotFound => "Game path not found".to_owned(),
            SettingsError::SecondaryModsPathNotFound => "Secondary mods path not found".to_owned(),
            SettingsError::StringNotFound => "String not found".to_owned(),
        }
    }
}

/// The settings of the launcher: the state of its windows, the folders of
/// the games, and what the user has chosen.
#[derive(Debug)]
pub struct AppSettings {
    pub tree_open_state: Vec<(String, bool)>,
    pub tree_filter_value: String,
    pub list_filter_value: String,
    pub selected_tree_item: Option<String>,
    pub selected_tree_category: Option<String>,
    pub selected_list_item: Option<String>,
    pub panel_heights: Vec<(String, u32)>,
    pub right_panel_width: u32,
    /// The folder of each game, by game key, and the secondary folder.
    pub paths: Vec<Setting>,
    pub strings: Vec<Setting>,
    pub last_selected_game: String,
    pub language: String,
    pub date_format: String,
    pub check_updates_on_start: bool,
    pub check_schema_updates_on_start: bool,
    pub check_sql_scripts_updates_on_start: bool,
    pub open_remote_mod_in_app: bool,
    /// What the user has chosen for the launch of each game.
    pub launch_options: Vec<Setting>,
}

impl Default for AppSettings {
    fn default() -> (r: Self)
        ensures
            r.paths.deep_view() == Seq::<SettingView>::empty(),
            r.strings.deep_view() == Seq::<SettingView>::empty(),
            r.launch_options.deep_view() == Seq::<SettingView>::empty(),
            r.right_panel_width == 300,
            r.language@ == "English"@,
            r.date_format@ == "DD/MM/YYYY"@,
            r.last_selected_game@ == Seq::<char>::empty(),
            r.tree_filter_value@ == Seq::<char>::empty(),
            r.list_filter_value@ == Seq::<char>::empty(),
            r.check_updates_on_start && r.check_schema_updates_on_start
                && r.check_sql_scripts_updates_on_start && !r.open_remote_mod_in_app,
            r.selected_tree_item is None && r.selected_tree_category is None
                && r.selected_list_item is None,
            r.tree_open_state@.len() == 0 && r.panel_heights@.len() == 0,
    {
        let r = AppSettings {
            tree_open_state: Vec::new(),
            tree_filter_value: String::new(),
            list_filter_value: String::new(),
            selected_tree_item: None,
            selected_tree_category: None,
            selected_list_item: None,
            panel_heights: Vec::new(),
            right_panel_width: 300,
            paths: Vec::new(),
            strings: Vec::new(),
            last_selected_game: String::new(),
            language: "English".to_owned(),
            date_format: "DD/MM/YYYY".to_owned(),
            check_updates_on_start: true,
            check_schema_updates_on_start: true,
            check_sql_scripts_updates_on_start: true,
            open_remote_mod_in_app: false,
            launch_options: Vec::new(),
        };
        assert(r.paths.deep_view() =~= Seq::empty());
        assert(r.strings.deep_view() =~= Seq::empty());
        assert(r.launch_options.deep_view() =~= Seq::empty());
        r
    }
}

impl AppSettings {
    /// Whether the two settings differ in nothing but the folders and the
    /// texts they keep.
    pub open spec fn same_but_paths_and_strings(self, other: AppSettings) -> bool {
        &&& self.tree_open_state == other.tree_open_state
        &&& self.tree_filter_value == other.tree_filter_value
        &&& self.list_filter_value == other.list_filter_value
        &&& self.selected_tree_item == other.selected_tree_item
        &&& self.selected_tree_category == other.selected_tree_category
        &&& self.selected_list_item == other.selected_list_item
        &&& self.panel_heights == other.panel_heights
        &&& self.right_panel_width == other.right_panel_width
        &&& self.last_selected_game == other.last_selected_game
        &&& self.language == other.language
        &&& self.date_format == other.date_format
        &&& self.check_updates_on_start == other.check_updates_on_start
        &&& self.check_schema_updates_on_start == other.check_schema_updates_on_start
        &&& self.check_sql_scripts_updates_on_start == other.check_sql_scripts_updates_on_start
        &&& self.open_remote_mod_in_app == other.open_remote_mod_in_app
        &&& self.launch_options == other.launch_options
    }

    /// The folder of the game.
    pub fn game_path(&self, game: &GameTraits) -> (r: Result<String, SettingsError>)
        ensures
            r is Ok <==> value_of(self.paths.deep_view(), game@.key) is Some,
            r is Ok ==> r->Ok_0@ == value_of(self.paths.deep_view(), game@.key)->0,
            r is Err ==> r->Err_0 == SettingsError::GamePathNotFound,
    {
        match get_setting(&self.paths, game.key.as_str()) {
            Some(path) => Ok(path),
            None => Err(SettingsError::GamePathNotFound),
        }
    }

    /// Keeps `value` as the folder of the game.
    pub fn set_game_path(&mut self, game: &GameTraits, value: &str)
        ensures
            final(self).paths.deep_view() == with_value(
                old(self).paths.deep_view(),
                game@.key,
                value@,
            ),
            final(self).strings == old(self).strings,
            final(self).same_but_paths_and_strings(*old(self)),
    {
        put_setting(&mut self.paths, game.key.as_str(), value);
    }

    /// The secondary folder, as the user has set it.
    pub fn secondary_mods_path(&self) -> (r: Result<String, SettingsError>)
        ensures
            r is Ok <==> value_of(self.paths.deep_view(), "secondary_mods_path"@) is Some,
            r is Ok ==> r->Ok_0@ == value_of(self.paths.deep_view(), "secondary_mods_path"@)->0,
            r is Err ==> r->Err_0 == SettingsError::SecondaryModsPathNotFound,
    {
        match get_setting(&self.paths, SECONDARY_MODS_PATH_KEY) {
            Some(path) => Ok(path),
            None => Err(SettingsError::SecondaryModsPathNotFound),
        }
    }

    /// The text kept under `key`.
    pub fn string(&self, key: &str) -> (r: Result<String, SettingsError>)
        ensures
            r is Ok <==> value_of(self.strings.deep_view(), key@) is Some,
            r is Ok ==> r->Ok_0@ == value_of(self.strings.deep_view(), key@)->0,
            r is Err ==> r->Err_0 == SettingsError::StringNotFound,
    {
        match get_setting(&self.strings, key) {
            Some(text) => Ok(text),
            None => Err(SettingsError::StringNotFound),
        }
    }

    /// Keeps `value` under `key`, unless a text is kept there already.
    pub fn set_string_if_new(&mut self, key: &str, value: &str)
        ensures
            final(self).strings.deep_view() == if value_of(old(self).strings.deep_view(), key@)
                is Some {
                old(self).strings.deep_view()
            } else {
                old(self).strings.deep_view().push(SettingView { key: key@, value: value@ })
            },
            final(self).paths == old(self).paths,
            final(self).same_but_paths_and_strings(*old(self)),
    {
        if find_setting(&self.strings, key).is_none() {
            put_setting(&mut self.strings, key, value);
        }
    }

    /// Takes over what a look at the disk has found for the game: a folder
    /// that is kept but is no longer there is dropped, and a folder that was
    /// found for the game replaces a different one that is kept.
    pub fn adopt_game_path(&mut self, game: &GameTraits, found: &str, current_is_folder: bool)
        ensures
            final(self).paths.deep_view() == ({
                let before = old(self).paths.deep_view();
                let current = match value_of(before, game@.key) {
                    Some(path) => path,
                    None => Seq::empty(),
                };
                let dropped = if current_is_folder {
                    before
                } else {
                    with_value(before, game@.key, Seq::empty())
                };
                if found@.len() > 0 && current != found@ {
                    with_value(dropped, game@.key, found@)
                } else {
                    dropped
                }
            }),
            final(self).strings == old(self).strings,
            final(self).same_but_paths_and_strings(*old(self)),
    {
        let current = match get_setting(&self.paths, game.key.as_str()) {
            Some(path) => path,
            None => String::new(),
        };
        if !current_is_folder {
            proof {
                reveal_strlit("");
                assert(""@ =~= Seq::<char>::empty());
            }
            put_setting(&mut self.paths, game.key.as_str(), "");
        }
        if !found.is_empty() && !str_eq(current.as_str(), found) {
            put_setting(&mut self.paths, game.key.as_str(), found);
        }
    }
}

} // verus!
