//! The load order of a game: which of the enabled mods the game loads, and in
//! which sequence.

use vstd::prelude::*;
use vstd::string::*;
use crate::game_config::{ids_of, GameConfig, GameConfigView};
use crate::games::{GameTraits, GameTraitsView};
use crate::mods::{clone_strings, Mod, ModView, PackFileType};
use crate::paths::{file_name, file_name_of, is_inside, parent, parent_of, path_is_inside};
use crate::seqs::{lemma_filter_contains, lemma_filter_empty, lemma_filter_step, lemma_take_all};
use crate::text::{
    contains_text, find_text, lemma_lex_le_total, lemma_lex_le_transitive, lemma_position, lex_le,
    occurs_at, position, str_eq, text_le,
};

verus! {

/// The load order of a game.
#[derive(Debug, PartialEq, Eq)]
pub struct LoadOrder {
    /// Whether the order of the mods is computed. Once the user has moved a
    /// mod by hand it is not, and never is again.
    pub automatic: bool,
    /// The ids of the enabled mod packs, in the order the game loads them.
    pub mods: Vec<String>,
    /// The ids of the enabled movie packs. Their order is always computed.
    pub movies: Vec<String>,
}

/// A [`LoadOrder`] with its ids as sequences of characters.
pub ghost struct LoadOrderView {
    pub automatic: bool,
    pub mods: Seq<Seq<char>>,
    pub movies: Seq<Seq<char>>,
}

impl DeepView for LoadOrder {
    type V = LoadOrderView;

    open spec fn deep_view(&self) -> LoadOrderView {
        LoadOrderView {
            automatic: self.automatic,
            mods: self.mods.deep_view(),
            movies: self.movies.deep_view(),
        }
    }
}

impl View for LoadOrder {
    type V = LoadOrderView;

    open spec fn view(&self) -> LoadOrderView {
        self.deep_view()
    }
}

impl Clone for LoadOrder {
    fn clone(&self) -> (r: Self)
        ensures
            r@ == self@,
    {
        LoadOrder {
            automatic: self.automatic,
            mods: clone_strings(&self.mods),
            movies: clone_strings(&self.movies),
        }
    }
}

impl Default for LoadOrder {
    fn default() -> (r: Self)
        ensures
            r@ == (LoadOrderView { automatic: true, mods: Seq::empty(), movies: Seq::empty() }),
    {
        let r = LoadOrder { automatic: true, mods: Vec::new(), movies: Vec::new() };
        assert(r@.mods =~= Seq::empty() && r@.movies =~= Seq::empty());
        r
    }
}

/// The way to move a mod by one place.
#[derive(Clone, Copy, Debug, PartialEq, Eq, Structural)]
pub enum LoadOrderDirectionMove {
    Up,
    Down,
}

/// A load order brought in from outside: one saved by this launcher, or a
/// mod list as the game reads it.
#[derive(Debug, PartialEq, Eq)]
pub enum ImportedLoadOrderMode {
    Runcher(String),
    Modlist(String),
}

/// Whether the game loads the mod as a pack of that kind: it is enabled, of
/// that kind, and on disk.
pub open spec fn loads(m: ModView, game: GameTraitsView, data_path: Seq<char>, kind: PackFileType) -> bool {
    m.is_enabled(game, data_path) && m.pack_type == kind && m.paths.len() > 0
}

/// The test that the game loads a mod as a pack of that kind.
pub open spec fn loading(game: GameTraitsView, data_path: Seq<char>, kind: PackFileType) -> spec_fn(
    ModView,
) -> bool {
    |m: ModView| loads(m, game, data_path, kind)
}

/// The test that an id is one of `ids`.
pub open spec fn among(ids: Seq<Seq<char>>) -> spec_fn(Seq<char>) -> bool {
    |id: Seq<char>| ids.contains(id)
}

/// The mods that the game loads as packs of that kind, in the order of the
/// registry.
pub open spec fn loaded(
    mods: Seq<ModView>,
    game: GameTraitsView,
    data_path: Seq<char>,
    kind: PackFileType,
) -> Seq<ModView> {
    mods.filter(loading(game, data_path, kind))
}

/// What a mod is sorted by, and its id: the name of the file at its first
/// path.
pub open spec fn entry_of(m: ModView) -> (Seq<char>, Seq<char>) {
    (file_name(m.paths[0]), m.id)
}

/// The sort keys of the entries.
pub open spec fn keys_of(entries: Seq<(Seq<char>, Seq<char>)>) -> Seq<Seq<char>> {
    entries.map_values(|e: (Seq<char>, Seq<char>)| e.0)
}

/// The ids of the entries.
pub open spec fn entry_ids(entries: Seq<(Seq<char>, Seq<char>)>) -> Seq<Seq<char>> {
    entries.map_values(|e: (Seq<char>, Seq<char>)| e.1)
}

/// Where `key` goes into the sorted `keys`: behind every key that does not
/// come after it.
pub open spec fn slot(keys: Seq<Seq<char>>, key: Seq<char>) -> int
    decreases keys.len(),
{
    if keys.len() == 0 || !lex_le(keys[0], key) {
        0
    } else {
        1 + slot(keys.drop_first(), key)
    }
}

/// The sorted entries with one more entry in its place.
pub open spec fn with_entry(sorted: Seq<(Seq<char>, Seq<char>)>, e: (Seq<char>, Seq<char>)) -> Seq<
    (Seq<char>, Seq<char>),
> {
    sorted.insert(slot(keys_of(sorted), e.0), e)
}

/// The entries sorted by key; entries with the same key keep their order.
pub open spec fn sorted_entries(entries: Seq<(Seq<char>, Seq<char>)>) -> Seq<
    (Seq<char>, Seq<char>),
>
    decreases entries.len(),
{
    if entries.len() == 0 {
        entries
    } else {
        with_entry(sorted_entries(entries.drop_last()), entries.last())
    }
}

/// The ids of the mods that the game loads as packs of that kind, sorted by
/// the name of the file at the first path of each; mods with the same file
/// name stay in the order of the registry.
pub open spec fn load_sequence(
    mods: Seq<ModView>,
    game: GameTraitsView,
    data_path: Seq<char>,
    kind: PackFileType,
) -> Seq<Seq<char>> {
    entry_ids(
        sorted_entries(loaded(mods, game, data_path, kind).map_values(|m: ModView| entry_of(m))),
    )
}

/// `base` with each id of `more` that it does not hold yet added at its end,
/// one after the other.
pub open spec fn with_newcomers(base: Seq<Seq<char>>, more: Seq<Seq<char>>) -> Seq<Seq<char>>
    decreases more.len(),
{
    if more.len() == 0 {
        base
    } else {
        let so_far = with_newcomers(base, more.drop_last());
        if so_far.contains(more.last()) {
            so_far
        } else {
            so_far.push(more.last())
        }
    }
}

/// A hand-made order brought up to date: the ids that are no longer enabled
/// leave, the others stay as they are, and the enabled ids that are new
/// follow them.
pub open spec fn kept_order(order: Seq<Seq<char>>, enabled: Seq<Seq<char>>) -> Seq<Seq<char>> {
    with_newcomers(order.filter(among(enabled)), enabled)
}

impl LoadOrderView {
    /// The load order brought up to date with the registry. The movies are
    /// always sorted anew. So are the mods while the order is automatic; a
    /// hand-made order is kept.
    pub open spec fn resolved(
        self,
        config: GameConfigView,
        game: GameTraitsView,
        data_path: Seq<char>,
    ) -> LoadOrderView {
        LoadOrderView {
            automatic: self.automatic,
            mods: if self.automatic {
                load_sequence(config.mods, game, data_path, PackFileType::Mod)
            } else {
                kept_order(
                    self.mods,
                    ids_of(loaded(config.mods, game, data_path, PackFileType::Mod)),
                )
            },
            movies: load_sequence(config.mods, game, data_path, PackFileType::Movie),
        }
    }
}

/// The texts sorted.
pub open spec fn sorted_texts(texts: Seq<Seq<char>>) -> Seq<Seq<char>> {
    entry_ids(sorted_entries(texts.map_values(|t: Seq<char>| (t, t))))
}

/// The texts sorted.
pub fn sort_texts(texts: &Vec<String>) -> (r: Vec<String>)
    ensures
        r.deep_view() == sorted_texts(texts.deep_view()),
{
    let ghost src = texts.deep_view();
    let ghost twice = |t: Seq<char>| (t, t);
    let mut out: Vec<String> = Vec::new();
    let ghost mut sorted: Seq<(Seq<char>, Seq<char>)> = Seq::empty();
    let mut i: usize = 0;
    proof {
        assert(src.take(0).map_values(twice) =~= Seq::empty());
        assert(out.deep_view() =~= keys_of(sorted));
        assert(out.deep_view() =~= entry_ids(sorted));
    }
    while i < texts.len()
        invariant
            i <= texts@.len(),
            src == texts.deep_view(),
            twice == (|t: Seq<char>| (t, t)),
            sorted == sorted_entries(src.take(i as int).map_values(twice)),
            out.deep_view() == keys_of(sorted),
            out.deep_view() == entry_ids(sorted),
        decreases texts@.len() - i,
    {
        let j = find_slot(&out, texts[i].as_str());
        let ghost t = texts@[i as int]@;
        let ghost before = out.deep_view();
        out.insert(j, texts[i].clone());
        proof {
            let entries = src.take(i as int).map_values(twice);
            let next = src.take(i + 1).map_values(twice);
            assert(next =~= entries.push((t, t)));
            assert(next.drop_last() =~= entries);
            assert(next.last() == (t, t));
            sorted = with_entry(sorted, (t, t));
            assert(out.deep_view() =~= before.insert(j as int, t));
            assert(out.deep_view() =~= keys_of(sorted));
            assert(out.deep_view() =~= entry_ids(sorted));
        }
        i += 1;
    }
    proof {
        lemma_take_all(src);
    }
    out
}

/// Where `key` goes into the sorted `keys`.
fn find_slot(keys: &Vec<String>, key: &str) -> (j: usize)
    ensures
        j as int == slot(keys.deep_view(), key@),
        j <= keys@.len(),
{
    let ghost all = keys.deep_view();
    let mut j: usize = 0;
    assert(all.skip(0) == all);
    while j < keys.len() && text_le(keys[j].as_str(), key)
        invariant
            j <= keys@.len(),
            all == keys.deep_view(),
            slot(all, key@) == j + slot(all.skip(j as int), key@),
        decreases keys@.len() - j,
    {
        assert(all.skip(j as int).drop_first() == all.skip(j + 1));
        assert(all.skip(j as int)[0] == keys@[j as int]@);
        j += 1;
    }
    if j < keys.len() {
        assert(all.skip(j as int)[0] == keys@[j as int]@);
    }
    j
}

/// Whether the game loads the mod as a pack of that kind.
fn mod_loads(m: &Mod, game: &GameTraits, data_path: &str, kind: PackFileType) -> (r: bool)
    ensures
        r == loads(m@, game@, data_path@, kind),
{
    assert(m@.paths.len() == m.paths@.len());
    m.enabled(game, data_path) && m.pack_type == kind && m.paths.len() > 0
}

/// The ids of the mods that the game loads as packs of that kind, in the
/// order of the registry.
fn loaded_ids(config: &GameConfig, game: &GameTraits, data_path: &str, kind: PackFileType) -> (r:
    Vec<String>)
    ensures
        r.deep_view() == ids_of(loaded(config@.mods, game@, data_path@, kind)),
{
    let ghost src = config@.mods;
    let ghost pred = loading(game@, data_path@, kind);
    let mut out: Vec<String> = Vec::new();
    let mut i: usize = 0;
    proof {
        lemma_filter_empty(src.take(0), pred);
        assert(out.deep_view() =~= ids_of(src.take(0).filter(pred)));
    }
    while i < config.mods.len()
        invariant
            i <= config.mods@.len(),
            src == config@.mods,
            src.len() == config.mods@.len(),
            pred == loading(game@, data_path@, kind),
            out.deep_view() == ids_of(src.take(i as int).filter(pred)),
        decreases config.mods@.len() - i,
    {
        proof {
            lemma_filter_step(src, pred, i as int);
        }
        let ghost before = out.deep_view();
        assert(src[i as int] == config.mods@[i as int]@);
        if mod_loads(&config.mods[i], game, data_path, kind) {
            out.push(config.mods[i].id.clone());
            assert(out.deep_view() =~= before.push(src[i as int].id));
            assert(ids_of(src.take(i as int).filter(pred).push(src[i as int])) =~= ids_of(
                src.take(i as int).filter(pred),
            ).push(src[i as int].id));
        }
        i += 1;
    }
    proof {
        lemma_take_all(src);
    }
    out
}

/// The ids of the mods that the game loads as packs of that kind, sorted by
/// file name.
fn sorted_ids(config: &GameConfig, game: &GameTraits, data_path: &str, kind: PackFileType) -> (r:
    Vec<String>)
    ensures
        r.deep_view() == load_sequence(config@.mods, game@, data_path@, kind),
{
    let ghost src = config@.mods;
    let ghost pred = loading(game@, data_path@, kind);
    let ghost to_entry = |m: ModView| entry_of(m);
    let mut keys: Vec<String> = Vec::new();
    let mut ids: Vec<String> = Vec::new();
    let ghost mut sorted: Seq<(Seq<char>, Seq<char>)> = Seq::empty();
    let mut i: usize = 0;
    proof {
        lemma_filter_empty(src.take(0), pred);
        assert(src.take(0).filter(pred).map_values(to_entry) =~= Seq::empty());
        assert(keys.deep_view() =~= keys_of(sorted));
        assert(ids.deep_view() =~= entry_ids(sorted));
    }
    while i < config.mods.len()
        invariant
            i <= config.mods@.len(),
            src == config@.mods,
            src.len() == config.mods@.len(),
            pred == loading(game@, data_path@, kind),
            to_entry == (|m: ModView| entry_of(m)),
            sorted == sorted_entries(src.take(i as int).filter(pred).map_values(to_entry)),
            keys.deep_view() == keys_of(sorted),
            ids.deep_view() == entry_ids(sorted),
            ids@.len() == keys@.len(),
        decreases config.mods@.len() - i,
    {
        proof {
            lemma_filter_step(src, pred, i as int);
        }
        assert(src[i as int] == config.mods@[i as int]@);
        if mod_loads(&config.mods[i], game, data_path, kind) {
            let m = &config.mods[i];
            assert(m@.paths[0] == m.paths@[0]@);
            let key = file_name_of(m.paths[0].as_str());
            let j = find_slot(&keys, key.as_str());
            let ghost e = entry_of(m@);
            let ghost old_keys = keys.deep_view();
            let ghost old_ids = ids.deep_view();
            let ghost entries = src.take(i as int).filter(pred).map_values(to_entry);
            keys.insert(j, key);
            ids.insert(j, m.id.clone());
            proof {
                let next = src.take(i + 1).filter(pred).map_values(to_entry);
                assert(next =~= entries.push(e));
                assert(next.drop_last() =~= entries);
                assert(next.last() == e);
                sorted = with_entry(sorted, e);
                assert(keys.deep_view() =~= old_keys.insert(j as int, e.0));
                assert(ids.deep_view() =~= old_ids.insert(j as int, e.1));
                assert(keys.deep_view() =~= keys_of(sorted));
                assert(ids.deep_view() =~= entry_ids(sorted));
            }
        }
        i += 1;
    }
    proof {
        lemma_take_all(src);
    }
    ids
}

/// `base` with each id of `more` that it does not hold yet added at its end.
fn add_newcomers(base: &mut Vec<String>, more: &Vec<String>)
    ensures
        final(base).deep_view() == with_newcomers(old(base).deep_view(), more.deep_view()),
{
    let ghost start = base.deep_view();
    let ghost src = more.deep_view();
    let mut i: usize = 0;
    assert(src.take(0) =~= Seq::empty());
    while i < more.len()
        invariant
            i <= more@.len(),
            src == more.deep_view(),
            base.deep_view() == with_newcomers(start, src.take(i as int)),
        decreases more@.len() - i,
    {
        assert(src.take(i + 1).drop_last() == src.take(i as int));
        assert(src.take(i + 1).last() == more@[i as int]@);
        let ghost before = base.deep_view();
        if !contains_text(base, more[i].as_str()) {
            base.push(more[i].clone());
            assert(base.deep_view() =~= before.push(src[i as int]));
        }
        i += 1;
    }
    proof {
        lemma_take_all(src);
    }
}

/// The strings of `v` that are among `allowed`, in their order.
fn only_among(v: &Vec<String>, allowed: &Vec<String>) -> (r: Vec<String>)
    ensures
        r.deep_view() == v.deep_view().filter(among(allowed.deep_view())),
{
    let ghost src = v.deep_view();
    let ghost pred = among(allowed.deep_view());
    let mut out: Vec<String> = Vec::new();
    let mut i: usize = 0;
    proof {
        lemma_filter_empty(src.take(0), pred);
        assert(out.deep_view() =~= Seq::<Seq<char>>::empty());
    }
    while i < v.len()
        invariant
            i <= v@.len(),
            src == v.deep_view(),
            pred == among(allowed.deep_view()),
            out.deep_view() == src.take(i as int).filter(pred),
        decreases v@.len() - i,
    {
        proof {
            lemma_filter_step(src, pred, i as int);
        }
        let ghost before = out.deep_view();
        if contains_text(allowed, v[i].as_str()) {
            out.push(v[i].clone());
            assert(out.deep_view() =~= before.push(src[i as int]));
        }
        i += 1;
    }
    proof {
        lemma_take_all(src);
    }
    out
}

impl LoadOrder {
    /// Brings the load order up to date with the registry.
    pub fn update(&mut self, game_config: &GameConfig, game: &GameTraits, game_data_path: &str)
        ensures
            final(self)@ == old(self)@.resolved(game_config@, game@, game_data_path@),
    {
        self.movies.clear();
        if self.automatic {
            self.build_automatic(game_config, game, game_data_path);
        } else {
            self.build_manual(game_config, game, game_data_path);
        }
    }

    /// Sorts the enabled mod packs by file name, whatever the order was.
    fn build_automatic(&mut self, game_config: &GameConfig, game: &GameTraits, game_data_path: &str)
        ensures
            final(self)@ == (LoadOrderView {
                automatic: old(self).automatic,
                mods: load_sequence(game_config@.mods, game@, game_data_path@, PackFileType::Mod),
                movies: load_sequence(
                    game_config@.mods,
                    game@,
                    game_data_path@,
                    PackFileType::Movie,
                ),
            }),
    {
        self.mods.clear();
        self.build_movies(game_config, game, game_data_path);
        self.mods = sorted_ids(game_config, game, game_data_path, PackFileType::Mod);
    }

    /// Keeps the order of the mod packs: those no longer enabled leave, and
    /// the newly enabled ones go to the end.
    fn build_manual(&mut self, game_config: &GameConfig, game: &GameTraits, game_data_path: &str)
        ensures
            final(self)@ == (LoadOrderView {
                automatic: old(self).automatic,
                mods: kept_order(
                    old(self)@.mods,
                    ids_of(loaded(game_config@.mods, game@, game_data_path@, PackFileType::Mod)),
                ),
                movies: load_sequence(
                    game_config@.mods,
                    game@,
                    game_data_path@,
                    PackFileType::Movie,
                ),
            }),
    {
        self.build_movies(game_config, game, game_data_path);
        let enabled_mods = loaded_ids(game_config, game, game_data_path, PackFileType::Mod);
        let mut kept = only_among(&self.mods, &enabled_mods);
        add_newcomers(&mut kept, &enabled_mods);
        self.mods = kept;
    }

    /// Sorts the enabled movie packs by file name.
    fn build_movies(&mut self, game_config: &GameConfig, game: &GameTraits, game_data_path: &str)
        ensures
            final(self)@ == (LoadOrderView {
                movies: load_sequence(
                    game_config@.mods,
                    game@,
                    game_data_path@,
                    PackFileType::Movie,
                ),
                ..old(self)@
            }),
    {
        self.movies = sorted_ids(game_config, game, game_data_path, PackFileType::Movie);
    }
}

/// The order with the entries at `i` and `j` changed over.
pub open spec fn swapped(order: Seq<Seq<char>>, i: int, j: int) -> Seq<Seq<char>> {
    order.update(i, order[j]).update(j, order[i])
}

/// The order after the mod `id` was moved one place up or down. Nothing moves
/// where the order does not hold the mod, or the mod stands at the end it is
/// moved towards.
pub open spec fn moved_by_one(order: Seq<Seq<char>>, id: Seq<char>, direction: LoadOrderDirectionMove) -> Seq<
    Seq<char>,
> {
    let k = position(order, id);
    if k < 0 {
        order
    } else {
        match direction {
            LoadOrderDirectionMove::Up => if k > 0 {
                swapped(order, k, k - 1)
            } else {
                order
            },
            LoadOrderDirectionMove::Down => if k < order.len() - 1 {
                swapped(order, k, k + 1)
            } else {
                order
            },
        }
    }
}

/// The order after the mod `source` was taken out and put back directly
/// above the mod `target`. Nothing moves where the order lacks one of them.
pub open spec fn moved_above(order: Seq<Seq<char>>, source: Seq<char>, target: Seq<char>) -> Seq<
    Seq<char>,
> {
    let from = position(order, source);
    let to = position(order, target);
    if from < 0 || to < 0 {
        order
    } else {
        order.remove(from).insert(
            if to > from {
                to - 1
            } else {
                to
            },
            source,
        )
    }
}

/// The line that tells the game to load packs from `folder` too.
pub open spec fn working_directory_line(folder: Seq<char>) -> Seq<char> {
    "add_working_directory \""@ + folder + "\";\n"@
}

/// The line that tells the game to load the mod pack `name`.
pub open spec fn mod_line(name: Seq<char>) -> Seq<char> {
    "mod \""@ + name + "\";"@
}

/// The line that tells the game to leave the pack `name` out. It brings its
/// own line break.
pub open spec fn exclusion_line(name: Seq<char>) -> Seq<char> {
    "\nexclude_pack_file \""@ + name + "\";"@
}

/// The launch script while it is written.
pub ghost struct Script {
    /// The lines that name the packs.
    pub packs: Seq<char>,
    /// The lines that add the folders of the mods in the content folder.
    pub folders: Seq<char>,
    /// Whether some pack loads from the secondary folder.
    pub uses_secondary: bool,
}

/// Whether `path` lies directly in the secondary folder. An empty
/// `secondary` means that there is no such folder.
pub open spec fn in_secondary(path: Seq<char>, secondary: Seq<char>) -> bool {
    secondary.len() > 0 && parent(path) == secondary
}

/// The script after the entry `id` of the load order is written.
///
/// A mod that the registry lacks, or that is not on disk, writes nothing.
/// A pack outside the data folder needs its folder added, if the game can do
/// that: the folder of the pack itself, or once for all the secondary
/// folder. Every entry starts a new line among the packs, but only a mod
/// pack writes one: the game finds movie packs by itself.
pub open spec fn entry_step(
    script: Script,
    mods: Seq<ModView>,
    game: GameTraitsView,
    data_path: Seq<char>,
    secondary: Seq<char>,
    id: Seq<char>,
) -> Script {
    let k = position(ids_of(mods), id);
    if k < 0 || mods[k].paths.len() == 0 {
        script
    } else {
        let path = mods[k].paths[0];
        let outside = !is_inside(path, data_path) && game.supports_working_directories();
        let started = if script.packs.len() > 0 {
            script.packs + seq!['\n']
        } else {
            script.packs
        };
        Script {
            packs: if mods[k].pack_type == PackFileType::Mod {
                started + mod_line(file_name(path))
            } else {
                started
            },
            folders: if outside && !in_secondary(path, secondary) {
                script.folders + working_directory_line(parent(path))
            } else {
                script.folders
            },
            uses_secondary: script.uses_secondary || (outside && in_secondary(path, secondary)),
        }
    }
}

/// The script after the entries `ids` are written, one after the other.
pub open spec fn entries_script(
    script: Script,
    mods: Seq<ModView>,
    game: GameTraitsView,
    data_path: Seq<char>,
    secondary: Seq<char>,
    ids: Seq<Seq<char>>,
) -> Script
    decreases ids.len(),
{
    if ids.len() == 0 {
        script
    } else {
        entry_step(
            entries_script(script, mods, game, data_path, secondary, ids.drop_last()),
            mods,
            game,
            data_path,
            secondary,
            ids.last(),
        )
    }
}

/// Whether the script has to tell the game to leave the pack of `m` out: the
/// mod is a movie pack that is switched off, the game can be told so, and the
/// game would find the pack, in its data folder or in the secondary folder
/// that the script adds.
pub open spec fn needs_exclusion(
    m: ModView,
    game: GameTraitsView,
    data_path: Seq<char>,
    secondary: Seq<char>,
    uses_secondary: bool,
) -> bool {
    !m.is_enabled(game, data_path) && m.pack_type == PackFileType::Movie
        && game.supports_exclusion() && m.paths.len() > 0 && ((in_secondary(m.paths[0], secondary)
        && uses_secondary) || is_inside(m.paths[0], data_path))
}

/// The lines that tell the game which packs to leave out, in the order of
/// the registry.
pub open spec fn exclusions(
    mods: Seq<ModView>,
    game: GameTraitsView,
    data_path: Seq<char>,
    secondary: Seq<char>,
    uses_secondary: bool,
) -> Seq<char>
    decreases mods.len(),
{
    if mods.len() == 0 {
        Seq::empty()
    } else {
        let before = exclusions(mods.drop_last(), game, data_path, secondary, uses_secondary);
        if needs_exclusion(mods.last(), game, data_path, secondary, uses_secondary) {
            before + exclusion_line(file_name(mods.last().paths[0]))
        } else {
            before
        }
    }
}

/// The lines that add the secondary folder, with the folder of the masks
/// before it where the game needs masks.
pub open spec fn secondary_lines(game: GameTraitsView, secondary: Seq<char>, masks: Seq<char>) -> Seq<
    char,
> {
    if game.needs_movie_masks() {
        working_directory_line(masks) + working_directory_line(secondary)
    } else {
        working_directory_line(secondary)
    }
}

impl LoadOrderView {
    /// The script of the entries of the load order, mods first, written
    /// behind `packs`.
    pub open spec fn script(
        self,
        packs: Seq<char>,
        mods: Seq<ModView>,
        game: GameTraitsView,
        data_path: Seq<char>,
        secondary: Seq<char>,
    ) -> Script {
        entries_script(
            entries_script(
                Script { packs, folders: Seq::empty(), uses_secondary: false },
                mods,
                game,
                data_path,
                secondary,
                self.mods,
            ),
            mods,
            game,
            data_path,
            secondary,
            self.movies,
        )
    }
}

impl LoadOrderView {
    /// The lines of the launch script that name the packs, written behind
    /// `packs`: the lines of the entries of the load order, and behind them
    /// the lines that tell the game which packs to leave out.
    pub open spec fn pack_lines(
        self,
        packs: Seq<char>,
        mods: Seq<ModView>,
        game: GameTraitsView,
        data_path: Seq<char>,
        secondary: Seq<char>,
    ) -> Seq<char> {
        self.script(packs, mods, game, data_path, secondary).packs + exclusions(
            mods,
            game,
            data_path,
            secondary,
            self.script(packs, mods, game, data_path, secondary).uses_secondary,
        )
    }
}

/// The three texts in a row: a line of the script around its name.
fn quoted_line(head: &str, text: &str, tail: &str) -> (r: String)
    ensures
        r@ == head@ + text@ + tail@,
{
    let mut line = head.to_owned();
    line.append(text);
    line.append(tail);
    line
}

impl LoadOrder {
    /// Moves the mod `mod_id` one place up or down, and makes the order a
    /// hand-made one. Nothing moves where the order does not hold the mod, or
    /// the mod stands at the end it is moved towards.
    pub fn move_mod_in_direction(&mut self, mod_id: &str, direction: LoadOrderDirectionMove)
        ensures
            final(self)@ == (LoadOrderView {
                automatic: false,
                mods: moved_by_one(old(self)@.mods, mod_id@, direction),
                movies: old(self)@.movies,
            }),
    {
        let ghost before = self@;
        self.automatic = false;
        if let Some(index) = find_text(&self.mods, mod_id) {
            match direction {
                LoadOrderDirectionMove::Up => {
                    if index > 0 {
                        let upper = self.mods[index - 1].clone();
                        let lower = self.mods[index].clone();
                        self.mods[index] = upper;
                        self.mods[index - 1] = lower;
                        assert(self@.mods =~= swapped(before.mods, index as int, index - 1));
                    }
                },
                LoadOrderDirectionMove::Down => {
                    if index < self.mods.len() - 1 {
                        let upper = self.mods[index].clone();
                        let lower = self.mods[index + 1].clone();
                        self.mods[index] = lower;
                        self.mods[index + 1] = upper;
                        assert(self@.mods =~= swapped(before.mods, index as int, index + 1));
                    }
                },
            }
        }
        assert(self@.mods =~= moved_by_one(before.mods, mod_id@, direction));
        assert(self@.movies =~= before.movies);
    }

    /// Takes the mod `source_id` out and puts it back directly above the mod
    /// `target_id`, and makes the order a hand-made one. Nothing at all
    /// happens where the two are the same mod; nothing moves where the order
    /// lacks one of them.
    pub fn move_mod_above_another(&mut self, source_id: &str, target_id: &str)
        ensures
            final(self)@ == if source_id@ == target_id@ {
                old(self)@
            } else {
                LoadOrderView {
                    automatic: false,
                    mods: moved_above(old(self)@.mods, source_id@, target_id@),
                    movies: old(self)@.movies,
                }
            },
    {
        if str_eq(source_id, target_id) {
            return ;
        }
        let ghost before = self@;
        self.automatic = false;
        if let Some(index) = find_text(&self.mods, source_id) {
            if let Some(found) = find_text(&self.mods, target_id) {
                let index_target: usize = if found > index {
                    found - 1
                } else {
                    found
                };
                self.mods.remove(index);
                self.mods.insert(index_target, source_id.to_owned());
                assert(self@.mods =~= before.mods.remove(index as int).insert(
                    index_target as int,
                    source_id@,
                ));
            }
        }
        assert(self@.mods =~= moved_above(before.mods, source_id@, target_id@));
        assert(self@.movies =~= before.movies);
    }

    /// Writes one entry of the load order into the script.
    fn process_mod(
        &self,
        game_config: &GameConfig,
        game: &GameTraits,
        game_data_path: &str,
        pack_string: &mut String,
        folder_paths: &mut String,
        mod_id: &str,
        added_secondary_folder: &mut bool,
        secondary_mods_path: &str,
    )
        ensures
            (Script {
                packs: final(pack_string)@,
                folders: final(folder_paths)@,
                uses_secondary: *final(added_secondary_folder),
            }) == entry_step(
                Script {
                    packs: old(pack_string)@,
                    folders: old(folder_paths)@,
                    uses_secondary: *old(added_secondary_folder),
                },
                game_config@.mods,
                game@,
                game_data_path@,
                secondary_mods_path@,
                mod_id@,
            ),
    {
        if let Some(k) = game_config.find_mod(mod_id) {
            let modd = &game_config.mods[k];
            assert(modd@ == game_config@.mods[k as int]);
            assert(modd@.paths.len() == modd.paths@.len());
            if modd.paths.len() > 0 {
                assert(modd@.paths[0] == modd.paths@[0]@);
                let path = modd.paths[0].as_str();
                let pack_name = file_name_of(path);
                if !path_is_inside(path, game_data_path) && game.supports_working_directories() {
                    let folder_path = parent_of(path);
                    if !secondary_mods_path.is_empty() && str_eq(
                        folder_path.as_str(),
                        secondary_mods_path,
                    ) {
                        *added_secondary_folder = true;
                    } else {
                        let line = quoted_line(
                            "add_working_directory \"",
                            folder_path.as_str(),
                            "\";\n",
                        );
                        folder_paths.append(line.as_str());
                    }
                }
                if !pack_string.as_str().is_empty() {
                    pack_string.push('\n');
                    assert(pack_string@ =~= old(pack_string)@ + seq!['\n']);
                }
                if modd.pack_type == PackFileType::Mod {
                    let line = quoted_line("mod \"", pack_name.as_str(), "\";");
                    pack_string.append(line.as_str());
                }
            }
        }
    }

    /// Writes the entries `ids` of the load order into the script.
    fn process_mods(
        &self,
        game_config: &GameConfig,
        game: &GameTraits,
        game_data_path: &str,
        pack_string: &mut String,
        folder_paths: &mut String,
        ids: &Vec<String>,
        added_secondary_folder: &mut bool,
        secondary_mods_path: &str,
    )
        ensures
            (Script {
                packs: final(pack_string)@,
                folders: final(folder_paths)@,
                uses_secondary: *final(added_secondary_folder),
            }) == entries_script(
                Script {
                    packs: old(pack_string)@,
                    folders: old(folder_paths)@,
                    uses_secondary: *old(added_secondary_folder),
                },
                game_config@.mods,
                game@,
                game_data_path@,
                secondary_mods_path@,
                ids.deep_view(),
            ),
    {
        let ghost start = Script {
            packs: pack_string@,
            folders: folder_paths@,
            uses_secondary: *added_secondary_folder,
        };
        let ghost src = ids.deep_view();
        let mut i: usize = 0;
        assert(src.take(0) =~= Seq::empty());
        while i < ids.len()
            invariant
                i <= ids@.len(),
                src == ids.deep_view(),
                (Script {
                    packs: pack_string@,
                    folders: folder_paths@,
                    uses_secondary: *added_secondary_folder,
                }) == entries_script(
                    start,
                    game_config@.mods,
                    game@,
                    game_data_path@,
                    secondary_mods_path@,
                    src.take(i as int),
                ),
            decreases ids@.len() - i,
        {
            assert(src.take(i + 1).drop_last() == src.take(i as int));
            assert(src.take(i + 1).last() == ids@[i as int]@);
            self.process_mod(
                game_config,
                game,
                game_data_path,
                pack_string,
                folder_paths,
                ids[i].as_str(),
                added_secondary_folder,
                secondary_mods_path,
            );
            i += 1;
        }
        proof {
            lemma_take_all(src);
        }
    }

    /// Writes the launch script of the load order: behind `pack_string` the
    /// lines that name the packs to load and to leave out, and behind
    /// `folder_paths` the lines that add the folders the packs lie in.
    ///
    /// `secondary_mods_path` is the secondary folder of the game, empty where
    /// there is none; `secondary_mods_masks_path` is the folder of the masks
    /// in it. Among the folders the masks come first, then the secondary
    /// folder, then the folders of the mods in the content folder.
    pub fn build_load_order_string(
        &self,
        game_config: &GameConfig,
        game: &GameTraits,
        game_data_path: &str,
        secondary_mods_path: &str,
        secondary_mods_masks_path: &str,
        pack_string: &mut String,
        folder_paths: &mut String,
    )
        ensures
            final(pack_string)@ == self@.pack_lines(
                old(pack_string)@,
                game_config@.mods,
                game@,
                game_data_path@,
                secondary_mods_path@,
            ),
            final(folder_paths)@ == old(folder_paths)@ + (if self@.script(
                old(pack_string)@,
                game_config@.mods,
                game@,
                game_data_path@,
                secondary_mods_path@,
            ).uses_secondary {
                secondary_lines(game@, secondary_mods_path@, secondary_mods_masks_path@)
            } else {
                Seq::empty()
            }) + self@.script(
                old(pack_string)@,
                game_config@.mods,
                game@,
                game_data_path@,
                secondary_mods_path@,
            ).folders,
    {
        let mut added_secondary_folder = false;
        let mut folder_paths_mods = String::new();
        self.process_mods(
            game_config,
            game,
            game_data_path,
            pack_string,
            &mut folder_paths_mods,
            &self.mods,
            &mut added_secondary_folder,
            secondary_mods_path,
        );
        self.process_mods(
            game_config,
            game,
            game_data_path,
            pack_string,
            &mut folder_paths_mods,
            &self.movies,
            &mut added_secondary_folder,
            secondary_mods_path,
        );
        let ghost script = self@.script(
            old(pack_string)@,
            game_config@.mods,
            game@,
            game_data_path@,
            secondary_mods_path@,
        );
        assert(pack_string@ == script.packs);
        assert(folder_paths_mods@ == script.folders);
        assert(added_secondary_folder == script.uses_secondary);

        let ghost mods = game_config@.mods;
        let mut i: usize = 0;
        assert(mods.take(0) =~= Seq::empty());
        while i < game_config.mods.len()
            invariant
                i <= game_config.mods@.len(),
                mods == game_config@.mods,
                mods.len() == game_config.mods@.len(),
                pack_string@ == script.packs + exclusions(
                    mods.take(i as int),
                    game@,
                    game_data_path@,
                    secondary_mods_path@,
                    added_secondary_folder,
                ),
            decreases game_config.mods@.len() - i,
        {
            assert(mods.take(i + 1).drop_last() == mods.take(i as int));
            assert(mods.take(i + 1).last() == game_config.mods@[i as int]@);
            let modd = &game_config.mods[i];
            assert(modd@.paths.len() == modd.paths@.len());
            if !modd.enabled(game, game_data_path) && modd.pack_type == PackFileType::Movie
                && game.supports_exclusion() && modd.paths.len() > 0 {
                assert(modd@.paths[0] == modd.paths@[0]@);
                let path = modd.paths[0].as_str();
                let folder_path = parent_of(path);
                if (!secondary_mods_path.is_empty() && str_eq(
                    folder_path.as_str(),
                    secondary_mods_path,
                ) && added_secondary_folder) || path_is_inside(path, game_data_path) {
                    let pack_name = file_name_of(path);
                    let line = quoted_line("\nexclude_pack_file \"", pack_name.as_str(), "\";");
                    let ghost so_far = pack_string@;
                    pack_string.append(line.as_str());
                    assert(pack_string@ =~= script.packs + (exclusions(
                        mods.take(i as int),
                        game@,
                        game_data_path@,
                        secondary_mods_path@,
                        added_secondary_folder,
                    ) + exclusion_line(file_name(path@))));
                }
            }
            i += 1;
        }
        proof {
            lemma_take_all(mods);
        }

        if added_secondary_folder {
            if game.needs_movie_masks() {
                let line = quoted_line(
                    "add_working_directory \"",
                    secondary_mods_masks_path,
                    "\";\n",
                );
                folder_paths.append(line.as_str());
            }
            let line = quoted_line("add_working_directory \"", secondary_mods_path, "\";\n");
            folder_paths.append(line.as_str());
            assert(folder_paths@ =~= old(folder_paths)@ + secondary_lines(
                game@,
                secondary_mods_path@,
                secondary_mods_masks_path@,
            ));
        } else {
            assert(folder_paths@ =~= old(folder_paths)@ + Seq::<char>::empty());
        }
        folder_paths.append(folder_paths_mods.as_str());
    }
}

/// Whether each key comes before the keys behind it, or equals them.
pub open spec fn is_sorted(keys: Seq<Seq<char>>) -> bool {
    forall|i: int, j: int| 0 <= i < j < keys.len() ==> lex_le(keys[i], keys[j])
}

/// The slot of a key lies within the keys; every key in front of the slot
/// comes before the key or equals it, and the key at the slot comes after it.
pub proof fn lemma_slot(keys: Seq<Seq<char>>, key: Seq<char>)
    ensures
        0 <= slot(keys, key) <= keys.len(),
        forall|i: int| 0 <= i < slot(keys, key) ==> lex_le(keys[i], key),
        slot(keys, key) < keys.len() ==> !lex_le(keys[slot(keys, key)], key),
    decreases keys.len(),
{
    if keys.len() > 0 && lex_le(keys[0], key) {
        let rest = keys.drop_first();
        lemma_slot(rest, key);
        assert forall|i: int| 0 <= i < slot(keys, key) implies lex_le(keys[i], key) by {
            if i > 0 {
                assert(rest[i - 1] == keys[i]);
            }
        }
        if slot(keys, key) < keys.len() {
            assert(rest[slot(rest, key)] == keys[slot(keys, key)]);
        }
    }
}

/// Putting an entry into its slot keeps sorted entries sorted.
pub proof fn lemma_with_entry_sorted(sorted: Seq<(Seq<char>, Seq<char>)>, e: (Seq<char>, Seq<char>))
    requires
        is_sorted(keys_of(sorted)),
    ensures
        is_sorted(keys_of(with_entry(sorted, e))),
{
    let keys = keys_of(sorted);
    let k = slot(keys, e.0);
    lemma_slot(keys, e.0);
    let next = keys_of(with_entry(sorted, e));
    assert(next =~= keys.insert(k, e.0));
    assert forall|i: int, j: int| 0 <= i < j < next.len() implies lex_le(next[i], next[j]) by {
        if j < k {
        } else if j == k {
        } else if i == k {
            lemma_lex_le_total(keys[k], e.0);
            if j - 1 > k {
                lemma_lex_le_transitive(e.0, keys[k], keys[j - 1]);
            }
        } else if i < k {
            lemma_lex_le_total(keys[k], e.0);
            lemma_lex_le_transitive(keys[i], e.0, keys[k]);
            if j - 1 > k {
                lemma_lex_le_transitive(keys[i], keys[k], keys[j - 1]);
            }
        } else {
        }
    }
}

/// The sequence that sorting gives is sorted: each key comes before the keys
/// behind it, or equals them.
pub proof fn lemma_sorted_entries_sorted(entries: Seq<(Seq<char>, Seq<char>)>)
    ensures
        is_sorted(keys_of(sorted_entries(entries))),
    decreases entries.len(),
{
    if entries.len() > 0 {
        lemma_sorted_entries_sorted(entries.drop_last());
        lemma_with_entry_sorted(sorted_entries(entries.drop_last()), entries.last());
    }
}

/// Sorting neither adds an entry nor loses one.
pub proof fn lemma_sorted_entries_members(entries: Seq<(Seq<char>, Seq<char>)>)
    ensures
        sorted_entries(entries).to_multiset() == entries.to_multiset(),
    decreases entries.len(),
{
    broadcast use vstd::seq_lib::group_to_multiset_ensures;

    if entries.len() > 0 {
        let front = entries.drop_last();
        let sorted = sorted_entries(front);
        lemma_sorted_entries_members(front);
        let k = slot(keys_of(sorted), entries.last().0);
        lemma_slot(keys_of(sorted), entries.last().0);
        vstd::seq_lib::to_multiset_insert(sorted, k, entries.last());
        assert(entries =~= front.push(entries.last()));
        assert(sorted.insert(k, entries.last()).to_multiset() =~= front.push(
            entries.last(),
        ).to_multiset());
    } else {
        assert(sorted_entries(entries) =~= entries);
    }
}

/// Adding the newcomers leaves what was there where it was: the old order
/// opens the new one.
pub proof fn lemma_newcomers_follow(base: Seq<Seq<char>>, more: Seq<Seq<char>>)
    ensures
        base.is_prefix_of(with_newcomers(base, more)),
        forall|id: Seq<char>|
            with_newcomers(base, more).contains(id) <==> base.contains(id) || more.contains(id),
    decreases more.len(),
{
    if more.len() > 0 {
        let front = more.drop_last();
        let so_far = with_newcomers(base, front);
        lemma_newcomers_follow(base, front);
        let result = with_newcomers(base, more);
        assert forall|id: Seq<char>| result.contains(id) <==> base.contains(id) || more.contains(
            id,
        ) by {
            if more.contains(id) {
                let k = choose|k: int| 0 <= k < more.len() && more[k] == id;
                if k < front.len() {
                    assert(front[k] == id);
                }
            }
            if front.contains(id) {
                let k = choose|k: int| 0 <= k < front.len() && front[k] == id;
                assert(more[k] == id);
            }
            assert(more[more.len() - 1] == more.last());
            if so_far.contains(more.last()) {
            } else {
                if result.contains(id) {
                    let k = choose|k: int| 0 <= k < result.len() && result[k] == id;
                    if k < so_far.len() {
                        assert(so_far[k] == id);
                    }
                }
                if so_far.contains(id) {
                    let k = choose|k: int| 0 <= k < so_far.len() && so_far[k] == id;
                    assert(result[k] == id);
                }
                assert(result[so_far.len() as int] == more.last());
            }
        }
    } else {
        assert forall|id: Seq<char>| !more.contains(id) by {}
    }
}

/// Nothing is added to an order that holds every id already.
pub proof fn lemma_no_newcomers(base: Seq<Seq<char>>, more: Seq<Seq<char>>)
    requires
        forall|id: Seq<char>| more.contains(id) ==> base.contains(id),
    ensures
        with_newcomers(base, more) == base,
    decreases more.len(),
{
    if more.len() > 0 {
        let front = more.drop_last();
        assert forall|id: Seq<char>| front.contains(id) implies base.contains(id) by {
            let k = choose|k: int| 0 <= k < front.len() && front[k] == id;
            assert(more[k] == id);
        }
        lemma_no_newcomers(base, front);
        assert(more[more.len() - 1] == more.last());
    }
}

/// A filter that every element passes changes nothing.
pub proof fn lemma_filter_all(s: Seq<Seq<char>>, pred: spec_fn(Seq<char>) -> bool)
    requires
        forall|i: int| 0 <= i < s.len() ==> pred(s[i]),
    ensures
        s.filter(pred) == s,
    decreases s.len(),
{
    reveal(Seq::filter);
    if s.len() > 0 {
        let front = s.drop_last();
        assert forall|i: int| 0 <= i < front.len() implies pred(front[i]) by {
            assert(front[i] == s[i]);
        }
        lemma_filter_all(front, pred);
        assert(front.push(s.last()) =~= s);
    } else {
        assert(s.filter(pred) =~= s);
    }
}

/// A mod that becomes enabled while the order is hand-made goes to the end:
/// the mods that were in the order and are still enabled come first, as they
/// stood.
pub proof fn lemma_manual_order_survives(
    order: LoadOrderView,
    config: GameConfigView,
    game: GameTraitsView,
    data_path: Seq<char>,
)
    requires
        !order.automatic,
    ensures
        order.mods.filter(
            among(ids_of(loaded(config.mods, game, data_path, PackFileType::Mod))),
        ).is_prefix_of(order.resolved(config, game, data_path).mods),
{
    let enabled = ids_of(loaded(config.mods, game, data_path, PackFileType::Mod));
    lemma_newcomers_follow(order.mods.filter(among(enabled)), enabled);
}

/// Resolving a load order twice against the same registry gives what
/// resolving it once gives.
pub proof fn lemma_resolution_is_stable(
    order: LoadOrderView,
    config: GameConfigView,
    game: GameTraitsView,
    data_path: Seq<char>,
)
    ensures
        order.resolved(config, game, data_path).resolved(config, game, data_path)
            == order.resolved(config, game, data_path),
{
    if !order.automatic {
        let enabled = ids_of(loaded(config.mods, game, data_path, PackFileType::Mod));
        let pred = among(enabled);
        let kept = order.mods.filter(pred);
        let once = with_newcomers(kept, enabled);
        lemma_newcomers_follow(kept, enabled);
        assert forall|i: int| 0 <= i < once.len() implies pred(once[i]) by {
            assert(once.contains(once[i]));
            if kept.contains(once[i]) {
                lemma_filter_contains(order.mods, pred, once[i]);
            }
        }
        lemma_filter_all(once, pred);
        lemma_no_newcomers(once, enabled);
    }
}

/// Changing two entries over neither adds an id nor loses one.
pub proof fn lemma_swapped_members(order: Seq<Seq<char>>, i: int, j: int)
    requires
        0 <= i < order.len(),
        0 <= j < order.len(),
    ensures
        swapped(order, i, j).to_multiset() == order.to_multiset(),
{
    broadcast use vstd::seq_lib::group_to_multiset_ensures;

    vstd::seq_lib::to_multiset_update(order, i, order[j]);
    vstd::seq_lib::to_multiset_update(order.update(i, order[j]), j, order[i]);
    assert(swapped(order, i, j).to_multiset() =~= order.to_multiset());
}

/// Moving a mod by hand changes the sequence only: the order holds the same
/// ids as before, each as often as before.
pub proof fn lemma_moves_keep_members(
    order: Seq<Seq<char>>,
    id: Seq<char>,
    other: Seq<char>,
    direction: LoadOrderDirectionMove,
)
    ensures
        moved_by_one(order, id, direction).to_multiset() == order.to_multiset(),
        moved_above(order, id, other).to_multiset() == order.to_multiset(),
{
    broadcast use vstd::seq_lib::group_to_multiset_ensures;

    lemma_position(order, id);
    lemma_position(order, other);
    let k = position(order, id);
    if k >= 0 {
        if k > 0 {
            lemma_swapped_members(order, k, k - 1);
        }
        if k < order.len() - 1 {
            lemma_swapped_members(order, k, k + 1);
        }
        let to = position(order, other);
        if to >= 0 {
            let at = if to > k {
                to - 1
            } else {
                to
            };
            vstd::seq_lib::to_multiset_insert(order.remove(k), at, id);
            assert(order.remove(k).to_multiset() =~= order.to_multiset().remove(order[k]));
            assert(moved_above(order, id, other).to_multiset() =~= order.to_multiset());
        }
    }
}

/// Moving the first mod up, or the last mod down, changes nothing.
pub proof fn lemma_moves_stop_at_the_ends(order: Seq<Seq<char>>)
    requires
        order.len() > 0,
        order.no_duplicates(),
    ensures
        moved_by_one(order, order.first(), LoadOrderDirectionMove::Up) == order,
        moved_by_one(order, order.last(), LoadOrderDirectionMove::Down) == order,
{
    lemma_position(order, order.first());
    lemma_position(order, order.last());
}

/// The code units of a character in UTF-16: one unit for a character of the
/// basic plane, and a pair of surrogates for any other.
pub open spec fn utf16_units(c: char) -> Seq<u16> {
    if (c as u32) < 0x10000 {
        seq![(c as u32) as u16]
    } else {
        seq![
            (0xD800 + (c as u32 - 0x10000) / 0x400) as u16,
            (0xDC00 + (c as u32 - 0x10000) % 0x400) as u16,
        ]
    }
}

/// The bytes of code units, the low byte of each unit first.
pub open spec fn low_byte_first(units: Seq<u16>) -> Seq<u8>
    decreases units.len(),
{
    if units.len() == 0 {
        Seq::empty()
    } else {
        low_byte_first(units.drop_last()) + seq![
            (units.last() % 256) as u8,
            (units.last() / 256) as u8,
        ]
    }
}

/// A text in UTF-16, little endian, without a byte-order mark.
pub open spec fn utf16_le(text: Seq<char>) -> Seq<u8>
    decreases text.len(),
{
    if text.len() == 0 {
        Seq::empty()
    } else {
        utf16_le(text.drop_last()) + low_byte_first(utf16_units(text.last()))
    }
}

/// Writes `text` behind `out` with `rpfm_lib`'s `WriteBytes::write_string_u16`,
/// which encodes the text with `str::encode_utf16` and writes each code unit
/// with its low byte first. Writing to a vector does not fail.
#[verifier::external_body]
fn write_utf16(out: &mut Vec<u8>, text: &str)
    ensures
        final(out)@ == old(out)@ + utf16_le(text@),
{
    let _ = rpfm_lib::binary::WriteBytes::write_string_u16(out, text);
}

/// What went wrong with the file of the load order.
#[derive(Clone, Copy, Debug, PartialEq, Eq, Structural)]
pub enum LoadOrderFileError {
    /// The game keeps its script among its settings, and where those are is
    /// not known.
    NoConfigPath,
}

impl LoadOrderFileError {
    /// The failure in words.
    pub fn message(&self) -> (r: String)
        ensures
            r@ == "Error getting the game's config path."@,
    {
        "Error getting the game's config path.".to_owned()
    }
}

/// The file that the game reads its load order from: the mod list in its own
/// folder for the later games, and for the oldest the script in the folder
/// `scripts` among the settings of the game.
pub open spec fn load_order_file_path(
    game: GameTraitsView,
    game_path: Seq<char>,
    config_path: Option<Seq<char>>,
) -> Option<Seq<char>> {
    if game.raw_db_version >= 1 {
        Some(game_path + "/mod_list.txt"@)
    } else if config_path is None {
        None
    } else if game.key == "empire"@ {
        Some(config_path->0 + "/scripts/user.empire_script.txt"@)
    } else {
        Some(config_path->0 + "/scripts/user.script.txt"@)
    }
}

impl LoadOrder {
    /// The contents of the file that the game reads its load order from: the
    /// folders, then the packs. The oldest games read it as UTF-16, little
    /// endian, the others as UTF-8.
    pub fn save_as_load_order_file(game: &GameTraits, folder_list: &str, pack_list: &str) -> (r: Vec<
        u8,
    >)
        ensures
            r@ == if game@.uses_utf16_script() {
                utf16_le(folder_list@) + utf16_le(pack_list@)
            } else {
                folder_list.spec_bytes() + pack_list.spec_bytes()
            },
    {
        let mut out: Vec<u8> = Vec::new();
        if game.uses_utf16_script() {
            write_utf16(&mut out, folder_list);
            write_utf16(&mut out, pack_list);
            assert(out@ =~= utf16_le(folder_list@) + utf16_le(pack_list@));
        } else {
            let mut folders = folder_list.as_bytes_vec();
            let mut packs = pack_list.as_bytes_vec();
            out.append(&mut folders);
            out.append(&mut packs);
            assert(out@ =~= folder_list.spec_bytes() + pack_list.spec_bytes());
        }
        out
    }

    /// The file that the game reads its load order from. `config_path` is
    /// the folder of the settings of the game, where it is known.
    pub fn path_as_load_order_file(
        game: &GameTraits,
        game_path: &str,
        config_path: Option<&str>,
    ) -> (r: Result<String, LoadOrderFileError>)
        ensures
            r is Ok <==> load_order_file_path(
                game@,
                game_path@,
                match config_path {
                    Some(path) => Some(path@),
                    None => None,
                },
            ) is Some,
            r is Ok ==> Some(r->Ok_0@) == load_order_file_path(
                game@,
                game_path@,
                match config_path {
                    Some(path) => Some(path@),
                    None => None,
                },
            ),
            r is Err ==> r->Err_0 == LoadOrderFileError::NoConfigPath,
    {
        if game.raw_db_version >= 1 {
            let mut path = game_path.to_owned();
            path.append("/mod_list.txt");
            Ok(path)
        } else {
            match config_path {
                None => Err(LoadOrderFileError::NoConfigPath),
                Some(config) => {
                    let mut path = config.to_owned();
                    if str_eq(game.key.as_str(), "empire") {
                        path.append("/scripts/user.empire_script.txt");
                    } else {
                        path.append("/scripts/user.script.txt");
                    }
                    Ok(path)
                },
            }
        }
    }
}

/// Sorting entries keeps their ids: an id is among the sorted entries exactly
/// if it is among the entries.
pub proof fn lemma_sorted_entries_ids(entries: Seq<(Seq<char>, Seq<char>)>, id: Seq<char>)
    ensures
        entry_ids(sorted_entries(entries)).contains(id) <==> entry_ids(entries).contains(id),
{
    broadcast use vstd::seq_lib::group_to_multiset_ensures;

    let sorted = sorted_entries(entries);
    lemma_sorted_entries_members(entries);
    if entry_ids(sorted).contains(id) {
        let k = choose|k: int| 0 <= k < sorted.len() && entry_ids(sorted)[k] == id;
        assert(sorted.contains(sorted[k]));
        assert(entries.to_multiset().count(sorted[k]) > 0);
        assert(entries.contains(sorted[k]));
        let j = choose|j: int| 0 <= j < entries.len() && entries[j] == sorted[k];
        assert(entry_ids(entries)[j] == id);
    }
    if entry_ids(entries).contains(id) {
        let k = choose|k: int| 0 <= k < entries.len() && entry_ids(entries)[k] == id;
        assert(entries.contains(entries[k]));
        assert(sorted.to_multiset().count(entries[k]) > 0);
        assert(sorted.contains(entries[k]));
        let j = choose|j: int| 0 <= j < sorted.len() && sorted[j] == entries[k];
        assert(entry_ids(sorted)[j] == id);
    }
}

/// A resolved load order holds exactly the mods that the game loads: no mod
/// that is switched off or gone stays in it, and none that is switched on and
/// on disk is missing, neither among the mods nor among the movies.
pub proof fn lemma_resolved_holds_the_loaded(
    order: LoadOrderView,
    config: GameConfigView,
    game: GameTraitsView,
    data_path: Seq<char>,
    id: Seq<char>,
)
    ensures
        order.resolved(config, game, data_path).mods.contains(id) <==> ids_of(
            loaded(config.mods, game, data_path, PackFileType::Mod),
        ).contains(id),
        order.resolved(config, game, data_path).movies.contains(id) <==> ids_of(
            loaded(config.mods, game, data_path, PackFileType::Movie),
        ).contains(id),
{
    let to_entry = |m: ModView| entry_of(m);
    let mods = loaded(config.mods, game, data_path, PackFileType::Mod);
    let movies = loaded(config.mods, game, data_path, PackFileType::Movie);
    assert(entry_ids(mods.map_values(to_entry)) =~= ids_of(mods));
    assert(entry_ids(movies.map_values(to_entry)) =~= ids_of(movies));
    lemma_sorted_entries_ids(mods.map_values(to_entry), id);
    lemma_sorted_entries_ids(movies.map_values(to_entry), id);
    if !order.automatic {
        let enabled = ids_of(mods);
        let kept = order.mods.filter(among(enabled));
        lemma_newcomers_follow(kept, enabled);
        lemma_filter_contains(order.mods, among(enabled), id);
    }
}

/// Where the line for a pack that has to be left out stands among the
/// lines that tell the game which packs to leave out.
proof fn lemma_exclusion_place(
    mods: Seq<ModView>,
    game: GameTraitsView,
    data_path: Seq<char>,
    secondary: Seq<char>,
    uses_secondary: bool,
    i: int,
) -> (at: int)
    requires
        0 <= i < mods.len(),
        needs_exclusion(mods[i], game, data_path, secondary, uses_secondary),
    ensures
        occurs_at(
            exclusions(mods, game, data_path, secondary, uses_secondary),
            exclusion_line(file_name(mods[i].paths[0])),
            at,
        ),
    decreases mods.len(),
{
    let line = exclusion_line(file_name(mods[i].paths[0]));
    let all = exclusions(mods, game, data_path, secondary, uses_secondary);
    let before = exclusions(mods.drop_last(), game, data_path, secondary, uses_secondary);
    if i == mods.len() - 1 {
        assert(all.subrange(before.len() as int, before.len() as int + line.len()) =~= line);
        before.len() as int
    } else {
        assert(mods.drop_last()[i] == mods[i]);
        let at = lemma_exclusion_place(
            mods.drop_last(),
            game,
            data_path,
            secondary,
            uses_secondary,
            i,
        );
        assert(all.subrange(at, at + line.len()) =~= before.subrange(at, at + line.len()));
        at
    }
}

/// A movie pack that is switched off and lies in the data folder is left out
/// by name where the engine can do that: the launch script holds its
/// `exclude_pack_file` line, behind the lines of the load order, whether or
/// not the load order names the pack.
pub proof fn lemma_disabled_movie_is_excluded(
    order: LoadOrderView,
    packs: Seq<char>,
    mods: Seq<ModView>,
    game: GameTraitsView,
    data_path: Seq<char>,
    secondary: Seq<char>,
    i: int,
)
    requires
        game.supports_exclusion(),
        0 <= i < mods.len(),
        mods[i].pack_type == PackFileType::Movie,
        !mods[i].enabled,
        mods[i].paths.len() > 0,
        is_inside(mods[i].paths[0], data_path),
    ensures
        exists|at: int|
            order.script(packs, mods, game, data_path, secondary).packs.len() <= at && occurs_at(
                order.pack_lines(packs, mods, game, data_path, secondary),
                exclusion_line(file_name(mods[i].paths[0])),
                at,
            ),
{
    let script = order.script(packs, mods, game, data_path, secondary);
    let line = exclusion_line(file_name(mods[i].paths[0]));
    let tail = exclusions(mods, game, data_path, secondary, script.uses_secondary);
    let at = lemma_exclusion_place(mods, game, data_path, secondary, script.uses_secondary, i);
    let all = order.pack_lines(packs, mods, game, data_path, secondary);
    assert(all.subrange(script.packs.len() as int + at, script.packs.len() as int + at + line.len())
        =~= tail.subrange(at, at + line.len()));
    assert(occurs_at(all, line, script.packs.len() + at));
}

/// On an engine that cannot leave a pack out by name the launch script tells
/// it of none: the lines that name the packs end with those of the load
/// order.
pub proof fn lemma_older_engines_exclude_nothing(
    order: LoadOrderView,
    packs: Seq<char>,
    mods: Seq<ModView>,
    game: GameTraitsView,
    data_path: Seq<char>,
    secondary: Seq<char>,
)
    requires
        !game.supports_exclusion(),
    ensures
        order.pack_lines(packs, mods, game, data_path, secondary) == order.script(
            packs,
            mods,
            game,
            data_path,
            secondary,
        ).packs,
{
    let script = order.script(packs, mods, game, data_path, secondary);
    lemma_no_exclusions(mods, game, data_path, secondary, script.uses_secondary);
    assert(script.packs + Seq::<char>::empty() =~= script.packs);
}

/// An engine that cannot leave a pack out by name gets no such line.
proof fn lemma_no_exclusions(
    mods: Seq<ModView>,
    game: GameTraitsView,
    data_path: Seq<char>,
    secondary: Seq<char>,
    uses_secondary: bool,
)
    requires
        !game.supports_exclusion(),
    ensures
        exclusions(mods, game, data_path, secondary, uses_secondary) == Seq::<char>::empty(),
    decreases mods.len(),
{
    if mods.len() > 0 {
        lemma_no_exclusions(mods.drop_last(), game, data_path, secondary, uses_secondary);
    }
}

} // verus!
