//! The options a game can be launched with, and the arguments that the
//! patcher is run with to prepare them.

use vstd::prelude::*;
use vstd::string::*;
use crate::games::{GameTraits, GameTraitsView};
use crate::load_order::{sort_texts, sorted_texts, working_directory_line};
use crate::mods::clone_strings;
use crate::scan::{RESERVED_PACK_NAME, RESERVED_PACK_NAME_ALTERNATIVE};
use crate::seqs::{lemma_filter_contains, lemma_filter_empty, lemma_filter_step, lemma_take_all};
use crate::settings::{get_setting, value_of, Setting, SettingView};
use crate::text::{
    chars_of, contains_text, lemma_position_is, lemma_position_none, position,
    replace_char, replaced, starts_with, str_eq, text_of,
};

verus! {

/// The name of the mod list that the later games read.
pub const CUSTOM_MOD_LIST_FILE_NAME: &'static str = "mod_list.txt";

/// The name of the script that the oldest games read.
pub const USER_SCRIPT_FILE_NAME: &'static str = "user.script.txt";

/// The name of the script that Empire reads.
pub const USER_SCRIPT_EMPIRE_FILE_NAME: &'static str = "user.empire_script.txt";

/// The value of a parameter of a launch option.
#[derive(Debug, PartialEq, Eq)]
pub enum LaunchOptionValue {
    Boolean(bool),
    /// A number, as its decimal text.
    Number(String),
    Text(String),
    /// The chosen value, and the values to choose from.
    Select(String, Vec<String>),
}

/// A [`LaunchOptionValue`] with its texts as sequences of characters.
pub ghost enum LaunchOptionValueView {
    Boolean(bool),
    Number(Seq<char>),
    Text(Seq<char>),
    Select(Seq<char>, Seq<Seq<char>>),
}

impl DeepView for LaunchOptionValue {
    type V = LaunchOptionValueView;

    open spec fn deep_view(&self) -> LaunchOptionValueView {
        match *self {
            LaunchOptionValue::Boolean(b) => LaunchOptionValueView::Boolean(b),
            LaunchOptionValue::Number(n) => LaunchOptionValueView::Number(n@),
            LaunchOptionValue::Text(t) => LaunchOptionValueView::Text(t@),
            LaunchOptionValue::Select(chosen, values) => LaunchOptionValueView::Select(
                chosen@,
                values.deep_view(),
            ),
        }
    }
}

impl View for LaunchOptionValue {
    type V = LaunchOptionValueView;

    open spec fn view(&self) -> LaunchOptionValueView {
        self.deep_view()
    }
}

impl Clone for LaunchOptionValue {
    fn clone(&self) -> (r: Self)
        ensures
            r@ == self@,
    {
        match self {
            LaunchOptionValue::Boolean(b) => LaunchOptionValue::Boolean(*b),
            LaunchOptionValue::Number(n) => LaunchOptionValue::Number(n.clone()),
            LaunchOptionValue::Text(t) => LaunchOptionValue::Text(t.clone()),
            LaunchOptionValue::Select(chosen, values) => LaunchOptionValue::Select(
                chosen.clone(),
                clone_strings(values),
            ),
        }
    }
}

/// A parameter of a launch option.
#[derive(Debug, PartialEq, Eq)]
pub struct LaunchOptionParameter {
    pub key: String,
    pub name: String,
    pub value: LaunchOptionValue,
    pub default: LaunchOptionValue,
}

/// A [`LaunchOptionParameter`] with its texts as sequences of characters.
pub ghost struct LaunchOptionParameterView {
    pub key: Seq<char>,
    pub name: Seq<char>,
    pub value: LaunchOptionValueView,
    pub default: LaunchOptionValueView,
}

impl DeepView for LaunchOptionParameter {
    type V = LaunchOptionParameterView;

    open spec fn deep_view(&self) -> LaunchOptionParameterView {
        LaunchOptionParameterView {
            key: self.key@,
            name: self.name@,
            value: self.value@,
            default: self.default@,
        }
    }
}

impl View for LaunchOptionParameter {
    type V = LaunchOptionParameterView;

    open spec fn view(&self) -> LaunchOptionParameterView {
        self.deep_view()
    }
}

impl Clone for LaunchOptionParameter {
    fn clone(&self) -> (r: Self)
        ensures
            r@ == self@,
    {
        LaunchOptionParameter {
            key: self.key.clone(),
            name: self.name.clone(),
            value: self.value.clone(),
            default: self.default.clone(),
        }
    }
}

/// Something the user can switch on for the launch of a game.
#[derive(Debug, PartialEq, Eq)]
pub struct LaunchOption {
    pub key: String,
    pub name: String,
    pub enabled: bool,
    pub parameters: Vec<LaunchOptionParameter>,
    /// Whether the option stands for a script.
    pub is_script: bool,
    /// The keys of the presets that exist for the script.
    pub presets: Vec<String>,
}

/// A [`LaunchOption`] with its texts as sequences of characters.
pub ghost struct LaunchOptionView {
    pub key: Seq<char>,
    pub name: Seq<char>,
    pub enabled: bool,
    pub parameters: Seq<LaunchOptionParameterView>,
    pub is_script: bool,
    pub presets: Seq<Seq<char>>,
}

impl DeepView for LaunchOption {
    type V = LaunchOptionView;

    open spec fn deep_view(&self) -> LaunchOptionView {
        LaunchOptionView {
            key: self.key@,
            name: self.name@,
            enabled: self.enabled,
            parameters: self.parameters.deep_view(),
            is_script: self.is_script,
            presets: self.presets.deep_view(),
        }
    }
}

impl View for LaunchOption {
    type V = LaunchOptionView;

    open spec fn view(&self) -> LaunchOptionView {
        self.deep_view()
    }
}

/// A copy of a list of parameters.
pub fn clone_parameters(v: &Vec<LaunchOptionParameter>) -> (r: Vec<LaunchOptionParameter>)
    ensures
        r.deep_view() == v.deep_view(),
{
    let mut out: Vec<LaunchOptionParameter> = Vec::new();
    let mut i: usize = 0;
    while i < v.len()
        invariant
            i <= v@.len(),
            out@.len() == i,
            forall|j: int| 0 <= j < i ==> out@[j]@ == v@[j]@,
        decreases v@.len() - i,
    {
        out.push(v[i].clone());
        i += 1;
    }
    assert(out.deep_view() =~= v.deep_view());
    out
}

impl Clone for LaunchOption {
    fn clone(&self) -> (r: Self)
        ensures
            r@ == self@,
    {
        LaunchOption {
            key: self.key.clone(),
            name: self.name.clone(),
            enabled: self.enabled,
            parameters: clone_parameters(&self.parameters),
            is_script: self.is_script,
            presets: clone_strings(&self.presets),
        }
    }
}

/// A copy of a list of options.
pub fn clone_options(v: &Vec<LaunchOption>) -> (r: Vec<LaunchOption>)
    ensures
        r.deep_view() == v.deep_view(),
{
    let mut out: Vec<LaunchOption> = Vec::new();
    let mut i: usize = 0;
    while i < v.len()
        invariant
            i <= v@.len(),
            out@.len() == i,
            forall|j: int| 0 <= j < i ==> out@[j]@ == v@[j]@,
        decreases v@.len() - i,
    {
        out.push(v[i].clone());
        i += 1;
    }
    assert(out.deep_view() =~= v.deep_view());
    out
}

/// The kind of value a parameter of a script takes.
#[derive(Clone, Copy, Debug, PartialEq, Eq, Structural)]
pub enum ParamType {
    Bool,
    Integer,
    Float,
}

/// A parameter of a script.
#[derive(Debug, PartialEq, Eq)]
pub struct ScriptParameter {
    pub key: String,
    pub name: String,
    pub param_type: ParamType,
    pub default_value: String,
}

/// A [`ScriptParameter`] with its texts as sequences of characters.
pub ghost struct ScriptParameterView {
    pub key: Seq<char>,
    pub name: Seq<char>,
    pub param_type: ParamType,
    pub default_value: Seq<char>,
}

impl DeepView for ScriptParameter {
    type V = ScriptParameterView;

    open spec fn deep_view(&self) -> ScriptParameterView {
        ScriptParameterView {
            key: self.key@,
            name: self.name@,
            param_type: self.param_type,
            default_value: self.default_value@,
        }
    }
}

impl View for ScriptParameter {
    type V = ScriptParameterView;

    open spec fn view(&self) -> ScriptParameterView {
        self.deep_view()
    }
}

/// A script that the patcher can run on the data of the game, as far as the
/// launcher reads it.
#[derive(Debug, PartialEq, Eq)]
pub struct SqlScript {
    pub key: String,
    pub name: String,
    pub parameters: Vec<ScriptParameter>,
}

/// A [`SqlScript`] with its texts as sequences of characters.
pub ghost struct SqlScriptView {
    pub key: Seq<char>,
    pub name: Seq<char>,
    pub parameters: Seq<ScriptParameterView>,
}

impl DeepView for SqlScript {
    type V = SqlScriptView;

    open spec fn deep_view(&self) -> SqlScriptView {
        SqlScriptView {
            key: self.key@,
            name: self.name@,
            parameters: self.parameters.deep_view(),
        }
    }
}

impl View for SqlScript {
    type V = SqlScriptView;

    open spec fn view(&self) -> SqlScriptView {
        self.deep_view()
    }
}

/// A set of values for the parameters of a script.
#[derive(Debug, PartialEq, Eq)]
pub struct Preset {
    pub key: String,
    /// The key of the script the preset is for.
    pub script_key: String,
    /// The value of each parameter, by the key of the parameter.
    pub params: Vec<Setting>,
}

/// A [`Preset`] with its texts as sequences of characters.
pub ghost struct PresetView {
    pub key: Seq<char>,
    pub script_key: Seq<char>,
    pub params: Seq<SettingView>,
}

impl DeepView for Preset {
    type V = PresetView;

    open spec fn deep_view(&self) -> PresetView {
        PresetView {
            key: self.key@,
            script_key: self.script_key@,
            params: self.params.deep_view(),
        }
    }
}

impl View for Preset {
    type V = PresetView;

    open spec fn view(&self) -> PresetView {
        self.deep_view()
    }
}

/// Where the file of a script may lie, and where it does.
#[derive(Debug)]
pub struct ScriptFiles {
    /// The key of the script.
    pub key: String,
    /// The path of the script among those the user has written.
    pub local: String,
    pub local_exists: bool,
    /// The path of the script among those taken out of the mods.
    pub extracted: String,
    pub extracted_exists: bool,
    /// The path of the script among those that came with the launcher.
    pub remote: String,
}

/// A [`ScriptFiles`] with its texts as sequences of characters.
pub ghost struct ScriptFilesView {
    pub key: Seq<char>,
    pub local: Seq<char>,
    pub local_exists: bool,
    pub extracted: Seq<char>,
    pub extracted_exists: bool,
    pub remote: Seq<char>,
}

impl ScriptFilesView {
    /// The file to run: the user's own if there is one, else the one taken
    /// out of the mods if there is one, else the one that came with the
    /// launcher.
    pub open spec fn chosen(self) -> Seq<char> {
        if self.local_exists {
            self.local
        } else if self.extracted_exists {
            self.extracted
        } else {
            self.remote
        }
    }
}

impl DeepView for ScriptFiles {
    type V = ScriptFilesView;

    open spec fn deep_view(&self) -> ScriptFilesView {
        ScriptFilesView {
            key: self.key@,
            local: self.local@,
            local_exists: self.local_exists,
            extracted: self.extracted@,
            extracted_exists: self.extracted_exists,
            remote: self.remote@,
        }
    }
}

impl View for ScriptFiles {
    type V = ScriptFilesView;

    open spec fn view(&self) -> ScriptFilesView {
        self.deep_view()
    }
}

/// The name of the file that the game reads its load order from.
pub open spec fn load_order_file(game: GameTraitsView) -> Seq<char> {
    if game.raw_db_version >= 1 {
        "mod_list.txt"@
    } else if game.key == "empire"@ {
        "user.empire_script.txt"@
    } else {
        "user.script.txt"@
    }
}

/// The name of the file that the game reads its load order from.
pub fn load_order_file_name(game: &GameTraits) -> (r: String)
    ensures
        r@ == load_order_file(game@),
{
    if game.raw_db_version >= 1 {
        CUSTOM_MOD_LIST_FILE_NAME.to_owned()
    } else if str_eq(game.key.as_str(), "empire") {
        USER_SCRIPT_EMPIRE_FILE_NAME.to_owned()
    } else {
        USER_SCRIPT_FILE_NAME.to_owned()
    }
}

/// The name of the pack that the patcher writes for the game: four games
/// load movie packs in an order that wants another name.
pub open spec fn reserved_pack_name(game: GameTraitsView) -> Seq<char> {
    if game.key == "shogun_2"@ || game.key == "rome_2"@ || game.key == "attila"@ || game.key
        == "thrones_of_britannia"@ {
        "!!!!!!!!!!!!!!!!!!!!!run_you_fool_thron.pack"@
    } else {
        "zzzzzzzzzzzzzzzzzzzzrun_you_fool_thron.pack"@
    }
}

/// The name of the pack that the patcher writes for the game.
pub fn reserved_pack_name_of(game: &GameTraits) -> (r: &'static str)
    ensures
        r@ == reserved_pack_name(game@),
{
    if str_eq(game.key.as_str(), "shogun_2") || game.is_early_second_generation() {
        RESERVED_PACK_NAME_ALTERNATIVE
    } else {
        RESERVED_PACK_NAME
    }
}

/// The texts joined, with `separator` between each two.
pub open spec fn joined(items: Seq<Seq<char>>, separator: Seq<char>) -> Seq<char>
    decreases items.len(),
{
    if items.len() == 0 {
        Seq::empty()
    } else if items.len() == 1 {
        items[0]
    } else {
        joined(items.drop_last(), separator) + separator + items.last()
    }
}

/// The texts joined, with `separator` between each two.
pub fn join(items: &Vec<String>, separator: &str) -> (r: String)
    ensures
        r@ == joined(items.deep_view(), separator@),
{
    let ghost src = items.deep_view();
    let mut out = String::new();
    let mut i: usize = 0;
    assert(src.take(0) =~= Seq::empty());
    while i < items.len()
        invariant
            i <= items@.len(),
            src == items.deep_view(),
            out@ == joined(src.take(i as int), separator@),
        decreases items@.len() - i,
    {
        assert(src.take(i + 1).drop_last() == src.take(i as int));
        assert(src.take(i + 1).last() == items@[i as int]@);
        if i > 0 {
            out.append(separator);
        } else {
            assert(src.take(1)[0] == items@[0]@);
            assert(out@ + items@[0]@ =~= items@[0]@);
        }
        out.append(items[i].as_str());
        i += 1;
    }
    proof {
        lemma_take_all(src);
    }
    out
}

/// `a:b`.
pub open spec fn key2(a: Seq<char>, b: Seq<char>) -> Seq<char> {
    a + seq![':'] + b
}

/// `a:b:c`.
pub open spec fn key3(a: Seq<char>, b: Seq<char>, c: Seq<char>) -> Seq<char> {
    a + seq![':'] + b + seq![':'] + c
}

/// `a:b`.
pub fn settings_key2(a: &str, b: &str) -> (r: String)
    ensures
        r@ == key2(a@, b@),
{
    let mut key = a.to_owned();
    key.push(':');
    key.append(b);
    key
}

/// `a:b:c`.
pub fn settings_key3(a: &str, b: &str, c: &str) -> (r: String)
    ensures
        r@ == key3(a@, b@, c@),
{
    let mut key = a.to_owned();
    key.push(':');
    key.append(b);
    key.push(':');
    key.append(c);
    key
}

/// The keys of the options.
pub open spec fn option_keys(options: Seq<LaunchOptionView>) -> Seq<Seq<char>> {
    options.map_values(|o: LaunchOptionView| o.key)
}

/// The keys of the parameters.
pub open spec fn parameter_keys(parameters: Seq<LaunchOptionParameterView>) -> Seq<Seq<char>> {
    parameters.map_values(|p: LaunchOptionParameterView| p.key)
}

/// The keys of the scripts.
pub open spec fn script_keys(scripts: Seq<SqlScriptView>) -> Seq<Seq<char>> {
    scripts.map_values(|s: SqlScriptView| s.key)
}

/// The keys of the presets.
pub open spec fn preset_keys(presets: Seq<PresetView>) -> Seq<Seq<char>> {
    presets.map_values(|p: PresetView| p.key)
}

/// Whether the options hold one with that key.
pub open spec fn has_option(options: Seq<LaunchOptionView>, key: Seq<char>) -> bool {
    position(option_keys(options), key) >= 0
}

/// Whether the first option with that key is switched on.
pub open spec fn is_switched_on(options: Seq<LaunchOptionView>, key: Seq<char>) -> bool {
    has_option(options, key) && options[position(option_keys(options), key)].enabled
}

/// Whether some option is switched on.
pub open spec fn any_enabled(options: Seq<LaunchOptionView>) -> bool {
    exists|i: int| 0 <= i < options.len() && (#[trigger] options[i]).enabled
}

/// The flag, if the option `key` is switched on.
pub open spec fn flag_if(options: Seq<LaunchOptionView>, key: Seq<char>, flag: Seq<char>) -> Seq<
    Seq<char>,
> {
    if is_switched_on(options, key) {
        seq![flag]
    } else {
        Seq::empty()
    }
}

/// The flag and the value of the parameter `parameter` of the option `key`,
/// if the option is switched on and the parameter has a value of the kind
/// that is asked for: a number, or else a choice.
pub open spec fn value_argument(
    options: Seq<LaunchOptionView>,
    key: Seq<char>,
    parameter: Seq<char>,
    flag: Seq<char>,
    wants_number: bool,
) -> Seq<Seq<char>> {
    let k = position(option_keys(options), key);
    if k >= 0 && options[k].enabled {
        let p = position(parameter_keys(options[k].parameters), parameter);
        if p >= 0 {
            match options[k].parameters[p].value {
                LaunchOptionValueView::Select(chosen, _) => if wants_number {
                    Seq::empty()
                } else {
                    seq![flag, chosen]
                },
                LaunchOptionValueView::Number(number) => if wants_number {
                    seq![flag, number]
                } else {
                    Seq::empty()
                },
                _ => Seq::empty(),
            }
        } else {
            Seq::empty()
        }
    } else {
        Seq::empty()
    }
}

/// What the patcher needs to know of the machine and of the user's choices.
#[derive(Debug)]
pub struct PatchContext {
    /// The data folder of the game.
    pub data_path: String,
    /// The folder in which the patcher leaves its pack for the game.
    pub temp_packs_folder: String,
    /// What the user has chosen for the launch of each game.
    pub settings: Vec<Setting>,
    /// The presets that could be read.
    pub presets: Vec<Preset>,
    /// Whether the folder of the presets is there.
    pub presets_available: bool,
    /// The folder of the scripts the user has written for the game.
    pub local_scripts: String,
    /// The folder of the scripts taken out of the mods.
    pub extracted_scripts: String,
    /// The folder of the scripts that came with the launcher for the game.
    pub remote_scripts: String,
    /// The script files that are there.
    pub script_files: Vec<String>,
}

/// A [`PatchContext`] with its texts as sequences of characters.
pub ghost struct PatchContextView {
    pub data_path: Seq<char>,
    pub temp_packs_folder: Seq<char>,
    pub settings: Seq<SettingView>,
    pub presets: Seq<PresetView>,
    pub presets_available: bool,
    pub local_scripts: Seq<char>,
    pub extracted_scripts: Seq<char>,
    pub remote_scripts: Seq<char>,
    pub script_files: Seq<Seq<char>>,
}

impl DeepView for PatchContext {
    type V = PatchContextView;

    open spec fn deep_view(&self) -> PatchContextView {
        PatchContextView {
            data_path: self.data_path@,
            temp_packs_folder: self.temp_packs_folder@,
            settings: self.settings.deep_view(),
            presets: self.presets.deep_view(),
            presets_available: self.presets_available,
            local_scripts: self.local_scripts@,
            extracted_scripts: self.extracted_scripts@,
            remote_scripts: self.remote_scripts@,
            script_files: self.script_files.deep_view(),
        }
    }
}

impl View for PatchContext {
    type V = PatchContextView;

    open spec fn view(&self) -> PatchContextView {
        self.deep_view()
    }
}

/// The file `name` in `folder`.
pub open spec fn file_in(folder: Seq<char>, name: Seq<char>) -> Seq<char> {
    folder + seq!['/'] + name
}

/// The file `name` in `folder`.
pub fn path_in(folder: &str, name: &str) -> (r: String)
    ensures
        r@ == file_in(folder@, name@),
{
    let mut path = folder.to_owned();
    path.push('/');
    path.append(name);
    path
}

impl PatchContextView {
    /// Where the patcher writes its pack: into its own folder where the game
    /// can load packs from there, and into the data folder where not.
    pub open spec fn pack_path(self, game: GameTraitsView) -> Seq<char> {
        if game.supports_working_directories() {
            file_in(self.temp_packs_folder, reserved_pack_name(game))
        } else {
            file_in(self.data_path, reserved_pack_name(game))
        }
    }

    /// The file of the script `key` to run: the user's own if it is there,
    /// else the one taken out of the mods if it is there, else the one that
    /// came with the launcher.
    pub open spec fn script_path(self, key: Seq<char>) -> Seq<char> {
        let name = key + ".yml"@;
        if self.script_files.contains(file_in(self.local_scripts, name)) {
            file_in(self.local_scripts, name)
        } else if self.script_files.contains(file_in(self.extracted_scripts, name)) {
            file_in(self.extracted_scripts, name)
        } else {
            file_in(self.remote_scripts, name)
        }
    }

    /// The preset that the user has chosen for the script of the game, if
    /// one is chosen and it is there.
    pub open spec fn chosen_preset(self, game_key: Seq<char>, option_key: Seq<char>) -> Option<
        PresetView,
    > {
        match value_of(self.settings, key3(game_key, option_key, "preset"@)) {
            Some(wanted) => if wanted != "none"@ && self.presets_available && position(
                preset_keys(self.presets),
                wanted,
            ) >= 0 {
                Some(self.presets[position(preset_keys(self.presets), wanted)])
            } else {
                None
            },
            None => None,
        }
    }

    /// The values that the user has set one by one for the parameters of the
    /// script; a parameter without one is passed over.
    pub open spec fn set_values(
        self,
        game_key: Seq<char>,
        option_key: Seq<char>,
        parameters: Seq<ScriptParameterView>,
    ) -> Seq<Seq<char>>
        decreases parameters.len(),
    {
        if parameters.len() == 0 {
            Seq::empty()
        } else {
            let before = self.set_values(game_key, option_key, parameters.drop_last());
            match value_of(self.settings, key3(game_key, option_key, parameters.last().key)) {
                Some(value) => before.push(value),
                None => before,
            }
        }
    }

    /// The values to run the script with: those of the chosen preset, or else
    /// those the user has set one by one.
    pub open spec fn script_values(
        self,
        game_key: Seq<char>,
        option_key: Seq<char>,
        parameters: Seq<ScriptParameterView>,
    ) -> Seq<Seq<char>> {
        if parameters.len() == 0 {
            Seq::empty()
        } else {
            match self.chosen_preset(game_key, option_key) {
                Some(preset) => parameters.map_values(from_preset(preset)),
                None => self.set_values(game_key, option_key, parameters),
            }
        }
    }

    /// What the patcher is told of the script: its file, and behind it the
    /// values, if there are any, each after a semicolon.
    pub open spec fn script_argument(self, game_key: Seq<char>, script: SqlScriptView) -> Seq<char> {
        let values = self.script_values(game_key, script.key, script.parameters);
        if values.len() == 0 {
            self.script_path(script.key)
        } else {
            replaced(self.script_path(script.key), '\\', '/') + seq![';'] + joined(
                values,
                seq![';'],
            )
        }
    }

    /// The arguments for the scripts among the options that are switched on,
    /// in the order of the options.
    pub open spec fn scripts_arguments(
        self,
        game_key: Seq<char>,
        options: Seq<LaunchOptionView>,
        scripts: Seq<SqlScriptView>,
    ) -> Seq<Seq<char>>
        decreases options.len(),
    {
        if options.len() == 0 {
            Seq::empty()
        } else {
            let before = self.scripts_arguments(game_key, options.drop_last(), scripts);
            let o = options.last();
            let k = position(script_keys(scripts), o.key);
            if o.is_script && o.enabled && k >= 0 {
                before + seq!["--sql-script"@, self.script_argument(game_key, scripts[k])]
            } else {
                before
            }
        }
    }

    /// The arguments the patcher is run with.
    pub open spec fn patcher_arguments(
        self,
        game: GameTraitsView,
        options: Seq<LaunchOptionView>,
        scripts: Seq<SqlScriptView>,
    ) -> Seq<Seq<char>> {
        seq!["-g"@, game.key, "-l"@, load_order_file(game), "-p"@, self.pack_path(game), "-s"@]
            + flag_if(options, "enable_logging"@, "-e"@) + flag_if(
            options,
            "skip_intros"@,
            "-i"@,
        ) + flag_if(options, "remove_trait_limit"@, "-r"@) + flag_if(
            options,
            "remove_siege_attacker"@,
            "-a"@,
        ) + flag_if(options, "enable_dev_only_ui"@, "-d"@) + value_argument(
            options,
            "enable_translations"@,
            "language"@,
            "-t"@,
            false,
        ) + value_argument(options, "universal_rebalancer"@, "base_mod"@, "-u"@, false)
            + value_argument(options, "unit_multiplier"@, "multiplier"@, "-m"@, true)
            + self.scripts_arguments(game.key, options, scripts)
    }
}

/// The value that a preset gives a parameter: its own where it has one, and
/// else the default of the parameter.
pub open spec fn from_preset(preset: PresetView) -> spec_fn(ScriptParameterView) -> Seq<char> {
    |p: ScriptParameterView|
        match value_of(preset.params, p.key) {
            Some(value) => value,
            None => p.default_value,
        }
}

/// The index of the first option with the key `key`.
pub fn find_option(options: &Vec<LaunchOption>, key: &str) -> (r: Option<usize>)
    ensures
        r is None <==> position(option_keys(options.deep_view()), key@) < 0,
        r is Some ==> r->0 as int == position(option_keys(options.deep_view()), key@) && r->0
            < options@.len(),
{
    let ghost keys = option_keys(options.deep_view());
    let mut i: usize = 0;
    while i < options.len()
        invariant
            i <= options@.len(),
            keys == option_keys(options.deep_view()),
            keys.len() == options@.len(),
            forall|j: int| 0 <= j < i ==> keys[j] != key@,
        decreases options@.len() - i,
    {
        assert(keys[i as int] == options@[i as int].key@);
        if str_eq(options[i].key.as_str(), key) {
            proof {
                lemma_position_is(keys, key@, i as int);
            }
            return Some(i);
        }
        i += 1;
    }
    proof {
        lemma_position_none(keys, key@);
    }
    None
}

/// The index of the first parameter with the key `key`.
pub fn find_parameter(parameters: &Vec<LaunchOptionParameter>, key: &str) -> (r: Option<usize>)
    ensures
        r is None <==> position(parameter_keys(parameters.deep_view()), key@) < 0,
        r is Some ==> r->0 as int == position(parameter_keys(parameters.deep_view()), key@)
            && r->0 < parameters@.len(),
{
    let ghost keys = parameter_keys(parameters.deep_view());
    let mut i: usize = 0;
    while i < parameters.len()
        invariant
            i <= parameters@.len(),
            keys == parameter_keys(parameters.deep_view()),
            keys.len() == parameters@.len(),
            forall|j: int| 0 <= j < i ==> keys[j] != key@,
        decreases parameters@.len() - i,
    {
        assert(keys[i as int] == parameters@[i as int].key@);
        if str_eq(parameters[i].key.as_str(), key) {
            proof {
                lemma_position_is(keys, key@, i as int);
            }
            return Some(i);
        }
        i += 1;
    }
    proof {
        lemma_position_none(keys, key@);
    }
    None
}

/// The index of the first script with the key `key`.
pub fn find_script(scripts: &Vec<SqlScript>, key: &str) -> (r: Option<usize>)
    ensures
        r is None <==> position(script_keys(scripts.deep_view()), key@) < 0,
        r is Some ==> r->0 as int == position(script_keys(scripts.deep_view()), key@) && r->0
            < scripts@.len(),
{
    let ghost keys = script_keys(scripts.deep_view());
    let mut i: usize = 0;
    while i < scripts.len()
        invariant
            i <= scripts@.len(),
            keys == script_keys(scripts.deep_view()),
            keys.len() == scripts@.len(),
            forall|j: int| 0 <= j < i ==> keys[j] != key@,
        decreases scripts@.len() - i,
    {
        assert(keys[i as int] == scripts@[i as int].key@);
        if str_eq(scripts[i].key.as_str(), key) {
            proof {
                lemma_position_is(keys, key@, i as int);
            }
            return Some(i);
        }
        i += 1;
    }
    proof {
        lemma_position_none(keys, key@);
    }
    None
}

/// The index of the first preset with the key `key`.
pub fn find_preset(presets: &Vec<Preset>, key: &str) -> (r: Option<usize>)
    ensures
        r is None <==> position(preset_keys(presets.deep_view()), key@) < 0,
        r is Some ==> r->0 as int == position(preset_keys(presets.deep_view()), key@) && r->0
            < presets@.len(),
{
    let ghost keys = preset_keys(presets.deep_view());
    let mut i: usize = 0;
    while i < presets.len()
        invariant
            i <= presets@.len(),
            keys == preset_keys(presets.deep_view()),
            keys.len() == presets@.len(),
            forall|j: int| 0 <= j < i ==> keys[j] != key@,
        decreases presets@.len() - i,
    {
        assert(keys[i as int] == presets@[i as int].key@);
        if str_eq(presets[i].key.as_str(), key) {
            proof {
                lemma_position_is(keys, key@, i as int);
            }
            return Some(i);
        }
        i += 1;
    }
    proof {
        lemma_position_none(keys, key@);
    }
    None
}

/// Whether some option is switched on.
pub fn some_enabled(options: &Vec<LaunchOption>) -> (r: bool)
    ensures
        r == any_enabled(options.deep_view()),
{
    let ghost src = options.deep_view();
    let mut i: usize = 0;
    while i < options.len()
        invariant
            i <= options@.len(),
            src == options.deep_view(),
            forall|j: int| 0 <= j < i ==> !(#[trigger] src[j]).enabled,
        decreases options@.len() - i,
    {
        assert(src[i as int] == options@[i as int]@);
        if options[i].enabled {
            return true;
        }
        i += 1;
    }
    false
}

/// Adds the flag if the option `key` is switched on.
fn push_flag(args: &mut Vec<String>, options: &Vec<LaunchOption>, key: &str, flag: &str)
    ensures
        final(args).deep_view() == old(args).deep_view() + flag_if(
            options.deep_view(),
            key@,
            flag@,
        ),
{
    let ghost before = args.deep_view();
    match find_option(options, key) {
        Some(k) => {
            assert(options.deep_view()[k as int] == options@[k as int]@);
            if options[k].enabled {
                args.push(flag.to_owned());
                assert(args.deep_view() =~= before + seq![flag@]);
            } else {
                assert(args.deep_view() =~= before + Seq::<Seq<char>>::empty());
            }
        },
        None => {
            assert(args.deep_view() =~= before + Seq::<Seq<char>>::empty());
        },
    }
}

/// Adds the flag and the value of a parameter of the option `key`, if the
/// option is switched on and the value is of the kind that is asked for.
fn push_value(
    args: &mut Vec<String>,
    options: &Vec<LaunchOption>,
    key: &str,
    parameter: &str,
    flag: &str,
    wants_number: bool,
)
    ensures
        final(args).deep_view() == old(args).deep_view() + value_argument(
            options.deep_view(),
            key@,
            parameter@,
            flag@,
            wants_number,
        ),
{
    let ghost before = args.deep_view();
    let mut value: Option<String> = None;
    if let Some(k) = find_option(options, key) {
        assert(options.deep_view()[k as int] == options@[k as int]@);
        if options[k].enabled {
            if let Some(p) = find_parameter(&options[k].parameters, parameter) {
                assert(options@[k as int]@.parameters[p as int]
                    == options@[k as int].parameters@[p as int]@);
                match &options[k].parameters[p].value {
                    LaunchOptionValue::Select(chosen, _) => {
                        if !wants_number {
                            value = Some(chosen.clone());
                        }
                    },
                    LaunchOptionValue::Number(number) => {
                        if wants_number {
                            value = Some(number.clone());
                        }
                    },
                    _ => {},
                }
            }
        }
    }
    match value {
        Some(text) => {
            let ghost t = text@;
            args.push(flag.to_owned());
            args.push(text);
            assert(args.deep_view() =~= before + seq![flag@, t]);
        },
        None => {
            assert(args.deep_view() =~= before + Seq::<Seq<char>>::empty());
        },
    }
}

impl PatchContext {
    /// The file of the script `key` to run.
    pub fn script_path(&self, key: &str) -> (r: String)
        ensures
            r@ == self@.script_path(key@),
    {
        let mut name = key.to_owned();
        name.append(".yml");
        let local = path_in(self.local_scripts.as_str(), name.as_str());
        if contains_text(&self.script_files, local.as_str()) {
            return local;
        }
        let extracted = path_in(self.extracted_scripts.as_str(), name.as_str());
        if contains_text(&self.script_files, extracted.as_str()) {
            return extracted;
        }
        path_in(self.remote_scripts.as_str(), name.as_str())
    }

    /// The index of the preset that the user has chosen for the script of
    /// the game, if one is chosen and it is there.
    fn chosen_preset(&self, game_key: &str, option_key: &str) -> (r: Option<usize>)
        ensures
            r is Some <==> self@.chosen_preset(game_key@, option_key@) is Some,
            r is Some ==> r->0 < self.presets@.len() && self.presets@[r->0 as int]@
                == self@.chosen_preset(game_key@, option_key@)->0,
    {
        let key = settings_key3(game_key, option_key, "preset");
        match get_setting(&self.settings, key.as_str()) {
            Some(wanted) => {
                if !str_eq(wanted.as_str(), "none") && self.presets_available {
                    let found = find_preset(&self.presets, wanted.as_str());
                    if let Some(k) = found {
                        assert(self@.presets[k as int] == self.presets@[k as int]@);
                    }
                    found
                } else {
                    None
                }
            },
            None => None,
        }
    }

    /// The values to run the script with.
    fn script_values(&self, game_key: &str, script: &SqlScript) -> (r: Vec<String>)
        ensures
            r.deep_view() == self@.script_values(game_key@, script@.key, script@.parameters),
    {
        let ghost params = script@.parameters;
        let mut out: Vec<String> = Vec::new();
        if script.parameters.len() == 0 {
            assert(out.deep_view() =~= Seq::empty());
            return out;
        }
        let preset = self.chosen_preset(game_key, script.key.as_str());
        let mut i: usize = 0;
        proof {
            assert(params.take(0) =~= Seq::empty());
            assert(out.deep_view() =~= Seq::empty());
            if preset is Some {
                assert(params.take(0).map_values(from_preset(self.presets@[preset->0 as int]@))
                    =~= Seq::empty());
            }
        }
        while i < script.parameters.len()
            invariant
                i <= script.parameters@.len(),
                params == script@.parameters,
                params.len() == script.parameters@.len(),
                preset is Some ==> preset->0 < self.presets@.len(),
                out.deep_view() == match preset {
                    Some(k) => params.take(i as int).map_values(
                        from_preset(self.presets@[k as int]@),
                    ),
                    None => self@.set_values(game_key@, script@.key, params.take(i as int)),
                },
            decreases script.parameters@.len() - i,
        {
            let param = &script.parameters[i];
            assert(params[i as int] == param@);
            assert(params.take(i + 1).drop_last() == params.take(i as int));
            assert(params.take(i + 1).last() == param@);
            let ghost before = out.deep_view();
            match preset {
                Some(k) => {
                    let value = match get_setting(&self.presets[k].params, param.key.as_str()) {
                        Some(value) => value,
                        None => param.default_value.clone(),
                    };
                    let ghost v = value@;
                    out.push(value);
                    proof {
                        let f = from_preset(self.presets@[k as int]@);
                        assert(v == f(param@));
                        assert(out.deep_view() =~= before.push(v));
                        assert(params.take(i + 1).map_values(f) =~= params.take(i as int).map_values(
                            f,
                        ).push(f(param@)));
                    }
                },
                None => {
                    let key = settings_key3(game_key, script.key.as_str(), param.key.as_str());
                    if let Some(value) = get_setting(&self.settings, key.as_str()) {
                        let ghost v = value@;
                        out.push(value);
                        assert(out.deep_view() =~= before.push(v));
                    }
                },
            }
            i += 1;
        }
        proof {
            lemma_take_all(params);
        }
        out
    }

    /// What the patcher is told of the script.
    fn script_argument(&self, game_key: &str, script: &SqlScript) -> (r: String)
        ensures
            r@ == self@.script_argument(game_key@, script@),
    {
        let values = self.script_values(game_key, script);
        let path = self.script_path(script.key.as_str());
        assert(values.deep_view().len() == values@.len());
        if values.len() == 0 {
            path
        } else {
            let mut text = replace_char(path.as_str(), '\\', '/');
            text.push(';');
            let all = join(&values, ";");
            proof {
                reveal_strlit(";");
                assert(";"@ =~= seq![';']);
            }
            text.append(all.as_str());
            text
        }
    }

    /// The arguments for the scripts among the options that are switched on.
    fn scripts_arguments(
        &self,
        game_key: &str,
        options: &Vec<LaunchOption>,
        scripts: &Vec<SqlScript>,
    ) -> (r: Vec<String>)
        ensures
            r.deep_view() == self@.scripts_arguments(
                game_key@,
                options.deep_view(),
                scripts.deep_view(),
            ),
    {
        let ghost src = options.deep_view();
        let mut out: Vec<String> = Vec::new();
        let mut i: usize = 0;
        proof {
            assert(src.take(0) =~= Seq::empty());
            assert(out.deep_view() =~= Seq::empty());
        }
        while i < options.len()
            invariant
                i <= options@.len(),
                src == options.deep_view(),
                out.deep_view() == self@.scripts_arguments(
                    game_key@,
                    src.take(i as int),
                    scripts.deep_view(),
                ),
            decreases options@.len() - i,
        {
            let option = &options[i];
            assert(src[i as int] == option@);
            assert(src.take(i + 1).drop_last() == src.take(i as int));
            assert(src.take(i + 1).last() == option@);
            let ghost before = out.deep_view();
            if option.is_script && option.enabled {
                if let Some(k) = find_script(scripts, option.key.as_str()) {
                    assert(scripts.deep_view()[k as int] == scripts@[k as int]@);
                    let argument = self.script_argument(game_key, &scripts[k]);
                    let ghost a = argument@;
                    out.push("--sql-script".to_owned());
                    out.push(argument);
                    assert(out.deep_view() =~= before + seq!["--sql-script"@, a]);
                }
            }
            i += 1;
        }
        proof {
            lemma_take_all(src);
        }
        out
    }
}

/// The options of a game, and the scripts behind those that stand for one.
#[derive(Debug)]
pub struct LaunchOptions {
    pub options: Vec<LaunchOption>,
    /// The scripts, each key once.
    pub scripts: Vec<SqlScript>,
}

impl LaunchOptions {
    /// No options and no scripts.
    pub fn new() -> (r: Self)
        ensures
            r.options.deep_view() == Seq::<LaunchOptionView>::empty(),
            r.scripts.deep_view() == Seq::<SqlScriptView>::empty(),
    {
        let r = LaunchOptions { options: Vec::new(), scripts: Vec::new() };
        assert(r.options.deep_view() =~= Seq::empty());
        assert(r.scripts.deep_view() =~= Seq::empty());
        r
    }

    /// Takes the options as the user has set them and works out how the
    /// patcher has to be run for them.
    ///
    /// Returns the arguments for the patcher, or `None` where no option is
    /// switched on and the patcher need not run. Where the patcher leaves its
    /// pack in a folder of its own, the line that adds that folder is written
    /// behind `folder_list`. An option that is not among the options counts
    /// as switched off.
    pub fn prepare_launch_options(
        &mut self,
        options: &Vec<LaunchOption>,
        game: &GameTraits,
        context: &PatchContext,
        folder_list: &mut String,
    ) -> (r: Option<Vec<String>>)
        ensures
            final(self).options.deep_view() == options.deep_view(),
            final(self).scripts == old(self).scripts,
            r is Some <==> any_enabled(options.deep_view()),
            r is Some ==> r->0.deep_view() == context@.patcher_arguments(
                game@,
                options.deep_view(),
                old(self).scripts.deep_view(),
            ),
            final(folder_list)@ == if any_enabled(options.deep_view())
                && game@.supports_working_directories() {
                old(folder_list)@ + working_directory_line(context@.temp_packs_folder)
            } else {
                old(folder_list)@
            },
    {
        self.options = clone_options(options);
        if !some_enabled(&self.options) {
            return None;
        }
        let reserved = reserved_pack_name_of(game);
        let temp_path = if game.supports_working_directories() {
            let mut line = "add_working_directory \"".to_owned();
            line.append(context.temp_packs_folder.as_str());
            line.append("\";\n");
            folder_list.append(line.as_str());
            path_in(context.temp_packs_folder.as_str(), reserved)
        } else {
            path_in(context.data_path.as_str(), reserved)
        };

        let mut args: Vec<String> = Vec::new();
        args.push("-g".to_owned());
        args.push(game.key.clone());
        args.push("-l".to_owned());
        args.push(load_order_file_name(game));
        args.push("-p".to_owned());
        args.push(temp_path);
        args.push("-s".to_owned());
        assert(args.deep_view() =~= seq![
            "-g"@,
            game@.key,
            "-l"@,
            load_order_file(game@),
            "-p"@,
            context@.pack_path(game@),
            "-s"@,
        ]);
        push_flag(&mut args, &self.options, "enable_logging", "-e");
        push_flag(&mut args, &self.options, "skip_intros", "-i");
        push_flag(&mut args, &self.options, "remove_trait_limit", "-r");
        push_flag(&mut args, &self.options, "remove_siege_attacker", "-a");
        push_flag(&mut args, &self.options, "enable_dev_only_ui", "-d");
        push_value(&mut args, &self.options, "enable_translations", "language", "-t", false);
        push_value(&mut args, &self.options, "universal_rebalancer", "base_mod", "-u", false);
        push_value(&mut args, &self.options, "unit_multiplier", "multiplier", "-m", true);
        let mut scripts = context.scripts_arguments(
            game.key.as_str(),
            &self.options,
            &self.scripts,
        );
        let ghost head = args.deep_view();
        let ghost tail = scripts.deep_view();
        args.append(&mut scripts);
        assert(args.deep_view() =~= head + tail);
        Some(args)
    }
}

/// The keys of the options that the launcher offers for the game, or `None`
/// for a game it offers none for.
pub open spec fn supported_options(game_key: Seq<char>) -> Option<Seq<Seq<char>>> {
    if game_key == "warhammer_3"@ {
        Some(
            seq![
                "enable_logging"@,
                "skip_intros"@,
                "remove_trait_limit"@,
                "remove_siege_attacker"@,
                "enable_translations"@,
                "unit_multiplier"@,
                "universal_rebalancer"@,
                "enable_dev_only_ui"@,
            ],
        )
    } else if game_key == "pharaoh_dynasties"@ || game_key == "pharaoh"@ || game_key == "troy"@
        || game_key == "warhammer_2"@ {
        Some(seq!["enable_logging"@, "skip_intros"@, "enable_translations"@])
    } else if game_key == "three_kingdoms"@ {
        Some(seq!["skip_intros"@, "enable_translations"@, "unit_multiplier"@])
    } else if game_key == "warhammer"@ || game_key == "thrones_of_britannia"@ || game_key
        == "attila"@ || game_key == "rome_2"@ || game_key == "shogun_2"@ || game_key
        == "napoleon"@ || game_key == "empire"@ {
        Some(seq!["skip_intros"@, "enable_translations"@])
    } else {
        None
    }
}

/// The keys of the options that the launcher offers for the game; none for
/// a game it has no list for.
pub open spec fn offered_keys(game_key: Seq<char>) -> Seq<Seq<char>> {
    match supported_options(game_key) {
        Some(keys) => keys,
        None => Seq::empty(),
    }
}

/// The keys of the options that the launcher offers for the game.
pub fn supported_options_of(game_key: &str) -> (r: Option<Vec<String>>)
    ensures
        r is Some <==> supported_options(game_key@) is Some,
        r is Some ==> r->0.deep_view() == supported_options(game_key@)->0,
{
    let mut keys: Vec<String> = Vec::new();
    if str_eq(game_key, "warhammer_3") {
        keys.push("enable_logging".to_owned());
        keys.push("skip_intros".to_owned());
        keys.push("remove_trait_limit".to_owned());
        keys.push("remove_siege_attacker".to_owned());
        keys.push("enable_translations".to_owned());
        keys.push("unit_multiplier".to_owned());
        keys.push("universal_rebalancer".to_owned());
        keys.push("enable_dev_only_ui".to_owned());
    } else if str_eq(game_key, "pharaoh_dynasties") || str_eq(game_key, "pharaoh") || str_eq(
        game_key,
        "troy",
    ) || str_eq(game_key, "warhammer_2") {
        keys.push("enable_logging".to_owned());
        keys.push("skip_intros".to_owned());
        keys.push("enable_translations".to_owned());
    } else if str_eq(game_key, "three_kingdoms") {
        keys.push("skip_intros".to_owned());
        keys.push("enable_translations".to_owned());
        keys.push("unit_multiplier".to_owned());
    } else if str_eq(game_key, "warhammer") || str_eq(game_key, "thrones_of_britannia") || str_eq(
        game_key,
        "attila",
    ) || str_eq(game_key, "rome_2") || str_eq(game_key, "shogun_2") || str_eq(
        game_key,
        "napoleon",
    ) || str_eq(game_key, "empire") {
        keys.push("skip_intros".to_owned());
        keys.push("enable_translations".to_owned());
    } else {
        return None;
    }
    assert(keys.deep_view() =~= supported_options(game_key@)->0);
    Some(keys)
}

/// An option without parameters, switched off.
pub open spec fn plain_option(key: Seq<char>, name: Seq<char>) -> LaunchOptionView {
    LaunchOptionView {
        key,
        name,
        enabled: false,
        parameters: Seq::empty(),
        is_script: false,
        presets: Seq::empty(),
    }
}

/// An option with one parameter, switched off.
pub open spec fn option_with(
    key: Seq<char>,
    name: Seq<char>,
    parameter: LaunchOptionParameterView,
) -> LaunchOptionView {
    LaunchOptionView {
        key,
        name,
        enabled: false,
        parameters: seq![parameter],
        is_script: false,
        presets: Seq::empty(),
    }
}

/// A parameter to choose a value for, with nothing to choose from yet.
pub open spec fn choice_parameter(key: Seq<char>, name: Seq<char>) -> LaunchOptionParameterView {
    LaunchOptionParameterView {
        key,
        name,
        value: LaunchOptionValueView::Select(Seq::empty(), Seq::empty()),
        default: LaunchOptionValueView::Text(Seq::empty()),
    }
}

/// The options that the launcher knows by itself, in the order it shows them.
pub open spec fn generic_options() -> Seq<LaunchOptionView> {
    seq![
        plain_option("enable_logging"@, "Enable Logging"@),
        plain_option("skip_intros"@, "Skip Intros"@),
        plain_option("remove_trait_limit"@, "Remove Trait Limit"@),
        plain_option("remove_siege_attacker"@, "Remove Siege Attacker"@),
        option_with(
            "enable_translations"@,
            "Enable Translations"@,
            choice_parameter("language"@, "Language"@),
        ),
        option_with(
            "unit_multiplier"@,
            "Unit Multiplier"@,
            LaunchOptionParameterView {
                key: "multiplier"@,
                name: "Multiplier"@,
                value: LaunchOptionValueView::Number("1"@),
                default: LaunchOptionValueView::Number("1"@),
            },
        ),
        option_with(
            "universal_rebalancer"@,
            "Universal Rebalancer"@,
            choice_parameter("base_mod"@, "Base Mod"@),
        ),
        plain_option("enable_dev_only_ui"@, "Enable Dev-only UI"@),
    ]
}

/// An option without parameters, switched off.
fn new_plain_option(key: &str, name: &str) -> (r: LaunchOption)
    ensures
        r@ == plain_option(key@, name@),
{
    let r = LaunchOption {
        key: key.to_owned(),
        name: name.to_owned(),
        enabled: false,
        parameters: Vec::new(),
        is_script: false,
        presets: Vec::new(),
    };
    assert(r@.parameters =~= Seq::empty() && r@.presets =~= Seq::empty());
    r
}

/// An option with one parameter, switched off.
fn new_option_with(key: &str, name: &str, parameter: LaunchOptionParameter) -> (r: LaunchOption)
    ensures
        r@ == option_with(key@, name@, parameter@),
{
    let mut parameters: Vec<LaunchOptionParameter> = Vec::new();
    parameters.push(parameter);
    let r = LaunchOption {
        key: key.to_owned(),
        name: name.to_owned(),
        enabled: false,
        parameters,
        is_script: false,
        presets: Vec::new(),
    };
    assert(r@.parameters =~= seq![parameter@] && r@.presets =~= Seq::empty());
    r
}

/// A parameter to choose a value for, with nothing to choose from yet.
fn new_choice_parameter(key: &str, name: &str) -> (r: LaunchOptionParameter)
    ensures
        r@ == choice_parameter(key@, name@),
{
    let values: Vec<String> = Vec::new();
    assert(values.deep_view() =~= Seq::<Seq<char>>::empty());
    LaunchOptionParameter {
        key: key.to_owned(),
        name: name.to_owned(),
        value: LaunchOptionValue::Select(String::new(), values),
        default: LaunchOptionValue::Text(String::new()),
    }
}

/// The test that an option is one of those with the keys `supported`.
pub open spec fn offered(supported: Seq<Seq<char>>) -> spec_fn(LaunchOptionView) -> bool {
    |o: LaunchOptionView| supported.contains(o.key)
}

/// The test that a file stem is that of a pack of texts in some language.
pub open spec fn is_language_pack() -> spec_fn(Seq<char>) -> bool {
    |stem: Seq<char>| "local_"@.is_prefix_of(stem)
}

/// The upper-case form of a text, as `str::to_uppercase` gives it.
pub uninterp spec fn uppercased(text: Seq<char>) -> Seq<char>;

/// `str::to_uppercase`: the text with each character in its upper-case form,
/// by the rules of Unicode.
#[verifier::external_body]
fn to_uppercase(text: &str) -> (r: String)
    ensures
        r@ == uppercased(text@),
{
    text.to_uppercase()
}

/// The language that a pack of texts is in, as its name tells it: what
/// follows `local_`, in upper case.
pub open spec fn language_of() -> spec_fn(Seq<char>) -> Seq<char> {
    |stem: Seq<char>| uppercased(stem.skip(6))
}

/// The test that a text has two characters.
pub open spec fn is_code() -> spec_fn(Seq<char>) -> bool {
    |text: Seq<char>| text.len() == 2
}

/// The languages of the packs of texts among the packs of the game, as far
/// as their names give a code of two characters, sorted.
pub open spec fn languages_of(stems: Seq<Seq<char>>) -> Seq<Seq<char>> {
    codes_among(stems.filter(is_language_pack()).map_values(language_of()))
}

/// The texts of two characters among `candidates`, sorted.
pub open spec fn codes_among(candidates: Seq<Seq<char>>) -> Seq<Seq<char>> {
    sorted_texts(candidates.filter(is_code()))
}

/// The texts of two characters among `candidates`, sorted.
pub fn pick_codes(candidates: &Vec<String>) -> (r: Vec<String>)
    ensures
        r.deep_view() == codes_among(candidates.deep_view()),
{
    let ghost src = candidates.deep_view();
    let ghost pred = is_code();
    let mut kept: Vec<String> = Vec::new();
    let mut i: usize = 0;
    proof {
        lemma_filter_empty(src.take(0), pred);
        assert(kept.deep_view() =~= Seq::<Seq<char>>::empty());
    }
    while i < candidates.len()
        invariant
            i <= candidates@.len(),
            src == candidates.deep_view(),
            pred == is_code(),
            kept.deep_view() == src.take(i as int).filter(pred),
        decreases candidates@.len() - i,
    {
        proof {
            lemma_filter_step(src, pred, i as int);
        }
        let ghost before = kept.deep_view();
        if candidates[i].as_str().unicode_len() == 2 {
            kept.push(candidates[i].clone());
            assert(kept.deep_view() =~= before.push(src[i as int]));
        }
        i += 1;
    }
    proof {
        lemma_take_all(src);
    }
    sort_texts(&kept)
}

/// The languages of the packs of texts among the packs of the game.
pub fn languages(stems: &Vec<String>) -> (r: Vec<String>)
    ensures
        r.deep_view() == languages_of(stems.deep_view()),
{
    let ghost src = stems.deep_view();
    let ghost pred = is_language_pack();
    let ghost f = language_of();
    let mut found: Vec<String> = Vec::new();
    let mut i: usize = 0;
    proof {
        lemma_filter_empty(src.take(0), pred);
        assert(found.deep_view() =~= src.take(0).filter(pred).map_values(f));
    }
    while i < stems.len()
        invariant
            i <= stems@.len(),
            src == stems.deep_view(),
            pred == is_language_pack(),
            f == language_of(),
            found.deep_view() == src.take(i as int).filter(pred).map_values(f),
        decreases stems@.len() - i,
    {
        proof {
            lemma_filter_step(src, pred, i as int);
        }
        let ghost before = found.deep_view();
        if starts_with(stems[i].as_str(), "local_") {
            proof {
                reveal_strlit("local_");
            }
            let all = chars_of(stems[i].as_str());
            let mut rest: Vec<char> = Vec::new();
            let mut j: usize = 6;
            while j < all.len()
                invariant
                    6 <= j <= all@.len(),
                    rest@ == all@.subrange(6, j as int),
                decreases all@.len() - j,
            {
                rest.push(all[j]);
                assert(all@.subrange(6, j + 1) == all@.subrange(6, j as int).push(all@[j as int]));
                j += 1;
            }
            assert(all@.subrange(6, all@.len() as int) == all@.skip(6));
            let language = to_uppercase(text_of(&rest).as_str());
            found.push(language);
            proof {
                assert(found.deep_view() =~= before.push(f(src[i as int])));
                assert(src.take(i as int).filter(pred).push(src[i as int]).map_values(f)
                    =~= src.take(i as int).filter(pred).map_values(f).push(f(src[i as int])));
            }
        }
        i += 1;
    }
    proof {
        lemma_take_all(src);
    }
    pick_codes(&found)
}

/// The options with the values to choose from put into the parameter
/// `parameter` of the option `key`: the first of them becomes the chosen one
/// and the default. Nothing changes where there is nothing to choose from,
/// or no such option or parameter.
pub open spec fn with_choices(
    options: Seq<LaunchOptionView>,
    key: Seq<char>,
    parameter: Seq<char>,
    choices: Seq<Seq<char>>,
) -> Seq<LaunchOptionView> {
    let k = position(option_keys(options), key);
    if choices.len() == 0 || k < 0 {
        options
    } else {
        let p = position(parameter_keys(options[k].parameters), parameter);
        if p < 0 {
            options
        } else {
            options.update(
                k,
                LaunchOptionView {
                    parameters: options[k].parameters.update(
                        p,
                        LaunchOptionParameterView {
                            value: LaunchOptionValueView::Select(choices[0], choices),
                            default: LaunchOptionValueView::Text(choices[0]),
                            ..options[k].parameters[p]
                        },
                    ),
                    ..options[k]
                },
            )
        }
    }
}

/// Puts the values to choose from into a parameter of an option.
pub fn set_choices(
    options: &mut Vec<LaunchOption>,
    key: &str,
    parameter: &str,
    choices: &Vec<String>,
)
    ensures
        final(options).deep_view() == with_choices(
            old(options).deep_view(),
            key@,
            parameter@,
            choices.deep_view(),
        ),
{
    let ghost before = options.deep_view();
    assert(choices.deep_view().len() == choices@.len());
    if choices.len() == 0 {
        return ;
    }
    if let Some(k) = find_option(options, key) {
        assert(before[k as int] == options@[k as int]@);
        if let Some(p) = find_parameter(&options[k].parameters, parameter) {
            let ghost old_params = options@[k as int].parameters.deep_view();
            assert(old_params[p as int] == options@[k as int].parameters@[p as int]@);
            assert(choices.deep_view()[0] == choices@[0]@);
            options[k].parameters[p].value = LaunchOptionValue::Select(
                choices[0].clone(),
                clone_strings(choices),
            );
            options[k].parameters[p].default = LaunchOptionValue::Text(choices[0].clone());
            proof {
                let new_param = LaunchOptionParameterView {
                    value: LaunchOptionValueView::Select(
                        choices.deep_view()[0],
                        choices.deep_view(),
                    ),
                    default: LaunchOptionValueView::Text(choices.deep_view()[0]),
                    ..old_params[p as int]
                };
                assert(options@[k as int].parameters@[p as int]@ == new_param);
                assert(options@[k as int].parameters.deep_view() =~= old_params.update(
                    p as int,
                    new_param,
                ));
                assert(options.deep_view() =~= before.update(
                    k as int,
                    LaunchOptionView {
                        parameters: old_params.update(p as int, new_param),
                        ..before[k as int]
                    },
                ));
            }
        }
    }
}

/// What a text says of a switch: `true`, `false`, or nothing.
pub open spec fn parsed_bool(text: Seq<char>) -> Option<bool> {
    if text == "true"@ {
        Some(true)
    } else if text == "false"@ {
        Some(false)
    } else {
        None
    }
}

/// What a text says of a switch: `true`, `false`, or nothing.
pub fn parse_bool(text: &str) -> (r: Option<bool>)
    ensures
        r == parsed_bool(text@),
{
    if str_eq(text, "true") {
        Some(true)
    } else if str_eq(text, "false") {
        Some(false)
    } else {
        None
    }
}

/// The default that a script gives a parameter, as a value of an option.
pub open spec fn script_default(p: ScriptParameterView) -> LaunchOptionValueView {
    match p.param_type {
        ParamType::Bool => LaunchOptionValueView::Boolean(
            match parsed_bool(p.default_value) {
                Some(b) => b,
                None => false,
            },
        ),
        _ => LaunchOptionValueView::Number(p.default_value),
    }
}

/// A parameter of a script as a parameter of an option.
pub open spec fn script_parameter(p: ScriptParameterView) -> LaunchOptionParameterView {
    LaunchOptionParameterView {
        key: p.key,
        name: p.name,
        value: LaunchOptionValueView::Select(Seq::empty(), Seq::empty()),
        default: script_default(p),
    }
}

/// The test that a preset is for the script `script_key`.
pub open spec fn made_for(script_key: Seq<char>) -> spec_fn(PresetView) -> bool {
    |p: PresetView| p.script_key == script_key
}

/// The option that stands for a script, switched off, with the keys of the
/// presets that are for the script.
pub open spec fn script_option(script: SqlScriptView, presets: Seq<PresetView>) -> LaunchOptionView {
    LaunchOptionView {
        key: script.key,
        name: script.name,
        enabled: false,
        parameters: script.parameters.map_values(|p: ScriptParameterView| script_parameter(p)),
        is_script: true,
        presets: preset_keys(presets.filter(made_for(script.key))),
    }
}

/// The scripts as options.
pub open spec fn script_options(scripts: Seq<SqlScriptView>, presets: Seq<PresetView>) -> Seq<
    LaunchOptionView,
>
    decreases scripts.len(),
{
    if scripts.len() == 0 {
        Seq::empty()
    } else {
        script_options(scripts.drop_last(), presets).push(script_option(scripts.last(), presets))
    }
}

/// The scripts with one more: in place of the one with the same key, or at
/// the end.
pub open spec fn with_script(scripts: Seq<SqlScriptView>, script: SqlScriptView) -> Seq<
    SqlScriptView,
> {
    if position(script_keys(scripts), script.key) >= 0 {
        scripts.update(position(script_keys(scripts), script.key), script)
    } else {
        scripts.push(script)
    }
}

/// The scripts by key: of two with the same key the later one stays.
pub open spec fn keyed_scripts(scripts: Seq<SqlScriptView>) -> Seq<SqlScriptView>
    decreases scripts.len(),
{
    if scripts.len() == 0 {
        Seq::empty()
    } else {
        with_script(keyed_scripts(scripts.drop_last()), scripts.last())
    }
}

/// The value of a parameter once the settings are applied. A value that the
/// user has set is taken as a value of the kind the parameter has. Without
/// one the parameter falls back on its default; a default text is taken as
/// a choice where the parameter has values to choose from and it is one of
/// them.
pub open spec fn configured_value(p: LaunchOptionParameterView, set: Option<Seq<char>>) -> LaunchOptionValueView {
    match set {
        Some(text) => match p.value {
            LaunchOptionValueView::Boolean(_) => LaunchOptionValueView::Boolean(
                match parsed_bool(text) {
                    Some(b) => b,
                    None => false,
                },
            ),
            LaunchOptionValueView::Number(_) => LaunchOptionValueView::Number(text),
            LaunchOptionValueView::Text(_) => LaunchOptionValueView::Text(text),
            LaunchOptionValueView::Select(_, _) => LaunchOptionValueView::Select(
                text,
                Seq::empty(),
            ),
        },
        None => match p.default {
            LaunchOptionValueView::Boolean(b) => LaunchOptionValueView::Boolean(b),
            LaunchOptionValueView::Number(n) => LaunchOptionValueView::Number(n),
            LaunchOptionValueView::Text(t) => match p.value {
                LaunchOptionValueView::Select(_, values) => if values.contains(t) {
                    LaunchOptionValueView::Select(t, values)
                } else {
                    p.value
                },
                _ => LaunchOptionValueView::Text(t),
            },
            LaunchOptionValueView::Select(chosen, _) => LaunchOptionValueView::Select(
                chosen,
                Seq::empty(),
            ),
        },
    }
}

/// A parameter once the settings kept under `prefix` are applied.
pub open spec fn configured_parameter(
    p: LaunchOptionParameterView,
    settings: Seq<SettingView>,
    prefix: Seq<char>,
) -> LaunchOptionParameterView {
    LaunchOptionParameterView {
        value: configured_value(p, value_of(settings, key2(prefix, p.key))),
        ..p
    }
}

/// The parameters once the settings kept under `prefix` are applied.
pub open spec fn configured_parameters(
    parameters: Seq<LaunchOptionParameterView>,
    settings: Seq<SettingView>,
    prefix: Seq<char>,
) -> Seq<LaunchOptionParameterView>
    decreases parameters.len(),
{
    if parameters.len() == 0 {
        Seq::empty()
    } else {
        configured_parameters(parameters.drop_last(), settings, prefix).push(
            configured_parameter(parameters.last(), settings, prefix),
        )
    }
}

/// An option once the settings of the game are applied. An option that the
/// settings do not name stays as it is, parameters and all.
pub open spec fn configured(o: LaunchOptionView, settings: Seq<SettingView>, game_key: Seq<char>) -> LaunchOptionView {
    match value_of(settings, key2(game_key, o.key)) {
        Some(text) => LaunchOptionView {
            enabled: match parsed_bool(text) {
                Some(b) => b,
                None => o.enabled,
            },
            parameters: configured_parameters(o.parameters, settings, key2(game_key, o.key)),
            ..o
        },
        None => o,
    }
}

/// The options once the settings of the game are applied.
pub open spec fn configured_options(
    options: Seq<LaunchOptionView>,
    settings: Seq<SettingView>,
    game_key: Seq<char>,
) -> Seq<LaunchOptionView>
    decreases options.len(),
{
    if options.len() == 0 {
        Seq::empty()
    } else {
        configured_options(options.drop_last(), settings, game_key).push(
            configured(options.last(), settings, game_key),
        )
    }
}

/// What the options of a game are made from.
#[derive(Debug)]
pub struct OptionSources {
    /// Whether the folder of the game is there.
    pub path_is_valid: bool,
    /// The names, without extension, of the packs of the game itself.
    pub pack_stems: Vec<String>,
    /// The ids of the loaded packs that bring their own land units.
    pub rebalancer_packs: Vec<String>,
    /// The scripts that could be read: the user's own first.
    pub scripts: Vec<SqlScript>,
    /// The presets that could be read.
    pub presets: Vec<Preset>,
}

/// An [`OptionSources`] with its texts as sequences of characters.
pub ghost struct OptionSourcesView {
    pub path_is_valid: bool,
    pub pack_stems: Seq<Seq<char>>,
    pub rebalancer_packs: Seq<Seq<char>>,
    pub scripts: Seq<SqlScriptView>,
    pub presets: Seq<PresetView>,
}

impl DeepView for OptionSources {
    type V = OptionSourcesView;

    open spec fn deep_view(&self) -> OptionSourcesView {
        OptionSourcesView {
            path_is_valid: self.path_is_valid,
            pack_stems: self.pack_stems.deep_view(),
            rebalancer_packs: self.rebalancer_packs.deep_view(),
            scripts: self.scripts.deep_view(),
            presets: self.presets.deep_view(),
        }
    }
}

impl View for OptionSources {
    type V = OptionSourcesView;

    open spec fn view(&self) -> OptionSourcesView {
        self.deep_view()
    }
}

impl OptionSourcesView {
    /// The options of the game: those of the options the launcher knows by
    /// itself that it offers for the game, with the languages and the packs
    /// to choose from, then one option for each script, all with the settings
    /// of the game applied. A game that the launcher has no list for gets the
    /// options of its scripts alone. None where the folder of the game is not
    /// there.
    pub open spec fn options(self, game_key: Seq<char>, settings: Seq<SettingView>) -> Seq<
        LaunchOptionView,
    > {
        if self.path_is_valid {
            configured_options(
                with_choices(
                    with_choices(
                        generic_options().filter(offered(offered_keys(game_key))),
                        "enable_translations"@,
                        "language"@,
                        languages_of(self.pack_stems),
                    ),
                    "universal_rebalancer"@,
                    "base_mod"@,
                    sorted_texts(self.rebalancer_packs),
                ) + script_options(self.scripts, self.presets),
                settings,
                game_key,
            )
        } else {
            Seq::empty()
        }
    }

    /// The scripts behind the options.
    pub open spec fn scripts(self) -> Seq<SqlScriptView> {
        if self.path_is_valid {
            keyed_scripts(self.scripts)
        } else {
            Seq::empty()
        }
    }
}

/// A copy of a script.
pub fn clone_script(script: &SqlScript) -> (r: SqlScript)
    ensures
        r@ == script@,
{
    let mut parameters: Vec<ScriptParameter> = Vec::new();
    let mut i: usize = 0;
    while i < script.parameters.len()
        invariant
            i <= script.parameters@.len(),
            parameters@.len() == i,
            forall|j: int| 0 <= j < i ==> parameters@[j]@ == script.parameters@[j]@,
        decreases script.parameters@.len() - i,
    {
        let p = &script.parameters[i];
        parameters.push(
            ScriptParameter {
                key: p.key.clone(),
                name: p.name.clone(),
                param_type: p.param_type,
                default_value: p.default_value.clone(),
            },
        );
        i += 1;
    }
    assert(parameters.deep_view() =~= script.parameters.deep_view());
    SqlScript { key: script.key.clone(), name: script.name.clone(), parameters }
}

/// The option that stands for a script.
fn option_for_script(script: &SqlScript, presets: &Vec<Preset>) -> (r: LaunchOption)
    ensures
        r@ == script_option(script@, presets.deep_view()),
{
    let ghost all = presets.deep_view();
    let ghost pred = made_for(script@.key);
    let mut keys: Vec<String> = Vec::new();
    let mut i: usize = 0;
    proof {
        lemma_filter_empty(all.take(0), pred);
        assert(keys.deep_view() =~= preset_keys(all.take(0).filter(pred)));
    }
    while i < presets.len()
        invariant
            i <= presets@.len(),
            all == presets.deep_view(),
            pred == made_for(script@.key),
            keys.deep_view() == preset_keys(all.take(i as int).filter(pred)),
        decreases presets@.len() - i,
    {
        proof {
            lemma_filter_step(all, pred, i as int);
        }
        assert(all[i as int] == presets@[i as int]@);
        let ghost before = keys.deep_view();
        if str_eq(presets[i].script_key.as_str(), script.key.as_str()) {
            keys.push(presets[i].key.clone());
            proof {
                assert(keys.deep_view() =~= before.push(all[i as int].key));
                assert(preset_keys(all.take(i as int).filter(pred).push(all[i as int]))
                    =~= preset_keys(all.take(i as int).filter(pred)).push(all[i as int].key));
            }
        }
        i += 1;
    }
    proof {
        lemma_take_all(all);
    }
    let ghost params = script@.parameters;
    let mut parameters: Vec<LaunchOptionParameter> = Vec::new();
    let mut j: usize = 0;
    while j < script.parameters.len()
        invariant
            j <= script.parameters@.len(),
            params == script@.parameters,
            params.len() == script.parameters@.len(),
            parameters@.len() == j,
            forall|n: int| 0 <= n < j ==> parameters@[n]@ == script_parameter(params[n]),
        decreases script.parameters@.len() - j,
    {
        let p = &script.parameters[j];
        assert(params[j as int] == p@);
        let default = match p.param_type {
            ParamType::Bool => LaunchOptionValue::Boolean(
                match parse_bool(p.default_value.as_str()) {
                    Some(b) => b,
                    None => false,
                },
            ),
            _ => LaunchOptionValue::Number(p.default_value.clone()),
        };
        let values: Vec<String> = Vec::new();
        assert(values.deep_view() =~= Seq::<Seq<char>>::empty());
        parameters.push(
            LaunchOptionParameter {
                key: p.key.clone(),
                name: p.name.clone(),
                value: LaunchOptionValue::Select(String::new(), values),
                default,
            },
        );
        j += 1;
    }
    assert(parameters.deep_view() =~= params.map_values(
        |p: ScriptParameterView| script_parameter(p),
    ));
    LaunchOption {
        key: script.key.clone(),
        name: script.name.clone(),
        enabled: false,
        parameters,
        is_script: true,
        presets: keys,
    }
}

/// The value of a parameter once the settings are applied.
fn configure_value(p: &LaunchOptionParameter, set: Option<String>) -> (r: LaunchOptionValue)
    ensures
        r@ == configured_value(
            p@,
            match set {
                Some(text) => Some(text@),
                None => None,
            },
        ),
{
    let none: Vec<String> = Vec::new();
    assert(none.deep_view() =~= Seq::<Seq<char>>::empty());
    match set {
        Some(text) => match &p.value {
            LaunchOptionValue::Boolean(_) => LaunchOptionValue::Boolean(
                match parse_bool(text.as_str()) {
                    Some(b) => b,
                    None => false,
                },
            ),
            LaunchOptionValue::Number(_) => LaunchOptionValue::Number(text),
            LaunchOptionValue::Text(_) => LaunchOptionValue::Text(text),
            LaunchOptionValue::Select(_, _) => LaunchOptionValue::Select(text, none),
        },
        None => match &p.default {
            LaunchOptionValue::Boolean(b) => LaunchOptionValue::Boolean(*b),
            LaunchOptionValue::Number(n) => LaunchOptionValue::Number(n.clone()),
            LaunchOptionValue::Text(t) => match &p.value {
                LaunchOptionValue::Select(_, values) => {
                    if contains_text(values, t.as_str()) {
                        LaunchOptionValue::Select(t.clone(), clone_strings(values))
                    } else {
                        p.value.clone()
                    }
                },
                _ => LaunchOptionValue::Text(t.clone()),
            },
            LaunchOptionValue::Select(chosen, _) => LaunchOptionValue::Select(
                chosen.clone(),
                none,
            ),
        },
    }
}

/// Applies the settings of the game to an option.
fn configure(option: &mut LaunchOption, settings: &Vec<Setting>, game_key: &str)
    ensures
        final(option)@ == configured(old(option)@, settings.deep_view(), game_key@),
{
    let ghost before = option@;
    let key = settings_key2(game_key, option.key.as_str());
    if let Some(text) = get_setting(settings, key.as_str()) {
        if let Some(b) = parse_bool(text.as_str()) {
            option.enabled = b;
        }
        let ghost params = before.parameters;
        let mut i: usize = 0;
        assert(params.take(0) =~= Seq::empty());
        while i < option.parameters.len()
            invariant
                i <= option.parameters@.len(),
                option.parameters@.len() == params.len(),
                params == before.parameters,
                option.key == old(option).key,
                option.name == old(option).name,
                option.is_script == old(option).is_script,
                option.presets == old(option).presets,
                option.enabled == match parsed_bool(text@) {
                    Some(b) => b,
                    None => before.enabled,
                },
                key@ == key2(game_key@, before.key),
                forall|j: int|
                    0 <= j < i ==> option.parameters@[j]@ == configured_parameter(
                        params[j],
                        settings.deep_view(),
                        key@,
                    ),
                forall|j: int| i <= j < params.len() ==> option.parameters@[j]@ == params[j],
            decreases option.parameters@.len() - i,
        {
            let inner = settings_key2(key.as_str(), option.parameters[i].key.as_str());
            let set = get_setting(settings, inner.as_str());
            let value = configure_value(&option.parameters[i], set);
            option.parameters[i].value = value;
            i += 1;
        }
        proof {
            lemma_configured_parameters(params, settings.deep_view(), key@);
            assert(option@.parameters =~= configured_parameters(
                params,
                settings.deep_view(),
                key@,
            ));
        }
    }
}

/// The parameters once the settings are applied, one by one.
proof fn lemma_configured_parameters(
    parameters: Seq<LaunchOptionParameterView>,
    settings: Seq<SettingView>,
    prefix: Seq<char>,
)
    ensures
        configured_parameters(parameters, settings, prefix).len() == parameters.len(),
        forall|j: int|
            0 <= j < parameters.len() ==> configured_parameters(parameters, settings, prefix)[j]
                == configured_parameter(parameters[j], settings, prefix),
    decreases parameters.len(),
{
    if parameters.len() > 0 {
        lemma_configured_parameters(parameters.drop_last(), settings, prefix);
        assert forall|j: int| 0 <= j < parameters.len() implies configured_parameters(
            parameters,
            settings,
            prefix,
        )[j] == configured_parameter(parameters[j], settings, prefix) by {
            if j < parameters.len() - 1 {
                assert(parameters.drop_last()[j] == parameters[j]);
            }
        }
    }
}

impl LaunchOptions {
    /// The options that the launcher knows by itself.
    fn generate_generic_options() -> (r: Vec<LaunchOption>)
        ensures
            r.deep_view() == generic_options(),
    {
        let mut options: Vec<LaunchOption> = Vec::new();
        options.push(new_plain_option("enable_logging", "Enable Logging"));
        options.push(new_plain_option("skip_intros", "Skip Intros"));
        options.push(new_plain_option("remove_trait_limit", "Remove Trait Limit"));
        options.push(new_plain_option("remove_siege_attacker", "Remove Siege Attacker"));
        options.push(
            new_option_with(
                "enable_translations",
                "Enable Translations",
                new_choice_parameter("language", "Language"),
            ),
        );
        options.push(
            new_option_with(
                "unit_multiplier",
                "Unit Multiplier",
                LaunchOptionParameter {
                    key: "multiplier".to_owned(),
                    name: "Multiplier".to_owned(),
                    value: LaunchOptionValue::Number("1".to_owned()),
                    default: LaunchOptionValue::Number("1".to_owned()),
                },
            ),
        );
        options.push(
            new_option_with(
                "universal_rebalancer",
                "Universal Rebalancer",
                new_choice_parameter("base_mod", "Base Mod"),
            ),
        );
        options.push(new_plain_option("enable_dev_only_ui", "Enable Dev-only UI"));
        assert(options.deep_view() =~= generic_options());
        options
    }

    /// Keeps a script behind the options.
    fn keep_script(&mut self, script: &SqlScript)
        ensures
            final(self).scripts.deep_view() == with_script(old(self).scripts.deep_view(), script@),
            final(self).options == old(self).options,
    {
        let ghost before = self.scripts.deep_view();
        match find_script(&self.scripts, script.key.as_str()) {
            Some(k) => {
                self.scripts[k] = clone_script(script);
                assert(self.scripts.deep_view() =~= before.update(k as int, script@));
            },
            None => {
                self.scripts.push(clone_script(script));
                assert(self.scripts.deep_view() =~= before.push(script@));
            },
        }
    }

    /// Makes the options of the game anew, and returns them.
    pub fn generate_options(
        &mut self,
        game: &GameTraits,
        sources: &OptionSources,
        settings: &Vec<Setting>,
    ) -> (r: Vec<LaunchOption>)
        ensures
            final(self).options.deep_view() == sources@.options(game@.key, settings.deep_view()),
            final(self).scripts.deep_view() == sources@.scripts(),
            r.deep_view() == final(self).options.deep_view(),
    {
        self.options = Vec::new();
        self.scripts = Vec::new();
        assert(self.options.deep_view() =~= Seq::empty());
        assert(self.scripts.deep_view() =~= Seq::empty());
        if !sources.path_is_valid {
            let r: Vec<LaunchOption> = Vec::new();
            assert(r.deep_view() =~= Seq::empty());
            return r;
        }
        let supported = match supported_options_of(game.key.as_str()) {
            Some(keys) => keys,
            None => {
                let none: Vec<String> = Vec::new();
                assert(none.deep_view() =~= Seq::<Seq<char>>::empty());
                none
            },
        };
        assert(supported.deep_view() == offered_keys(game@.key));
        let generic = Self::generate_generic_options();
        let ghost all = generic.deep_view();
        let ghost pred = offered(supported.deep_view());
        let mut i: usize = 0;
        proof {
            lemma_filter_empty(all.take(0), pred);
        }
        while i < generic.len()
            invariant
                i <= generic@.len(),
                all == generic.deep_view(),
                pred == offered(supported.deep_view()),
                self.options.deep_view() == all.take(i as int).filter(pred),
                self.scripts.deep_view() == Seq::<SqlScriptView>::empty(),
            decreases generic@.len() - i,
        {
            proof {
                lemma_filter_step(all, pred, i as int);
            }
            assert(all[i as int] == generic@[i as int]@);
            let ghost before = self.options.deep_view();
            if contains_text(&supported, generic[i].key.as_str()) {
                self.options.push(generic[i].clone());
                assert(self.options.deep_view() =~= before.push(all[i as int]));
            }
            i += 1;
        }
        proof {
            lemma_take_all(all);
        }
        let tongues = languages(&sources.pack_stems);
        set_choices(&mut self.options, "enable_translations", "language", &tongues);
        let packs = sort_texts(&sources.rebalancer_packs);
        set_choices(&mut self.options, "universal_rebalancer", "base_mod", &packs);

        let ghost base = self.options.deep_view();
        let ghost scripts = sources@.scripts;
        let ghost presets = sources@.presets;
        let mut j: usize = 0;
        proof {
            assert(scripts.take(0) =~= Seq::empty());
            assert(self.options.deep_view() =~= base + script_options(scripts.take(0), presets));
        }
        while j < sources.scripts.len()
            invariant
                j <= sources.scripts@.len(),
                scripts == sources@.scripts,
                presets == sources@.presets,
                scripts.len() == sources.scripts@.len(),
                self.options.deep_view() == base + script_options(scripts.take(j as int), presets),
                self.scripts.deep_view() == keyed_scripts(scripts.take(j as int)),
            decreases sources.scripts@.len() - j,
        {
            let script = &sources.scripts[j];
            assert(scripts[j as int] == script@);
            assert(scripts.take(j + 1).drop_last() == scripts.take(j as int));
            assert(scripts.take(j + 1).last() == script@);
            let ghost before = self.options.deep_view();
            self.options.push(option_for_script(script, &sources.presets));
            assert(self.options.deep_view() =~= before.push(script_option(script@, presets)));
            self.keep_script(script);
            j += 1;
        }
        proof {
            lemma_take_all(scripts);
        }

        let ghost made = self.options.deep_view();
        let mut k: usize = 0;
        while k < self.options.len()
            invariant
                k <= self.options@.len(),
                self.options@.len() == made.len(),
                self.scripts.deep_view() == keyed_scripts(scripts),
                forall|n: int|
                    0 <= n < k ==> self.options@[n]@ == configured(
                        made[n],
                        settings.deep_view(),
                        game@.key,
                    ),
                forall|n: int| k <= n < made.len() ==> self.options@[n]@ == made[n],
            decreases self.options@.len() - k,
        {
            configure(&mut self.options[k], settings, game.key.as_str());
            k += 1;
        }
        proof {
            lemma_configured_options(made, settings.deep_view(), game@.key);
            assert(self.options.deep_view() =~= configured_options(
                made,
                settings.deep_view(),
                game@.key,
            ));
        }
        clone_options(&self.options)
    }
}

/// The options once the settings are applied, one by one.
proof fn lemma_configured_options(
    options: Seq<LaunchOptionView>,
    settings: Seq<SettingView>,
    game_key: Seq<char>,
)
    ensures
        configured_options(options, settings, game_key).len() == options.len(),
        forall|j: int|
            0 <= j < options.len() ==> configured_options(options, settings, game_key)[j]
                == configured(options[j], settings, game_key),
    decreases options.len(),
{
    if options.len() > 0 {
        lemma_configured_options(options.drop_last(), settings, game_key);
        assert forall|j: int| 0 <= j < options.len() implies configured_options(
            options,
            settings,
            game_key,
        )[j] == configured(options[j], settings, game_key) by {
            if j < options.len() - 1 {
                assert(options.drop_last()[j] == options[j]);
            }
        }
    }
}

/// A game that the launcher has no list of options for gets the options of
/// its scripts, and no others.
pub proof fn lemma_unlisted_game_gets_scripts_alone(
    sources: OptionSourcesView,
    game_key: Seq<char>,
    settings: Seq<SettingView>,
)
    requires
        sources.path_is_valid,
        supported_options(game_key) is None,
    ensures
        sources.options(game_key, settings) == configured_options(
            script_options(sources.scripts, sources.presets),
            settings,
            game_key,
        ),
{
    let none = generic_options().filter(offered(offered_keys(game_key)));
    if none.len() > 0 {
        assert(none.contains(none[0]));
        lemma_filter_contains(generic_options(), offered(offered_keys(game_key)), none[0]);
    }
    assert(none =~= Seq::empty());
    lemma_position_none(option_keys(none), "enable_translations"@);
    lemma_position_none(option_keys(none), "universal_rebalancer"@);
    assert(none + script_options(sources.scripts, sources.presets) =~= script_options(
        sources.scripts,
        sources.presets,
    ));
}

} // verus!
