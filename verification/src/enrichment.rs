//! What the store knows of the mods, and how it gets into the registry.

use vstd::prelude::*;
use vstd::string::*;
use crate::game_config::{
    ids_of, lemma_mod_filter_places, names_of, CategoryView, GameConfig, GameConfigView,
};
use crate::games::{GameTraits, GameTraitsView};
use crate::launch_options::{file_in, path_in};
use crate::mods::{alt_name_of, clone_strings, Mod, ModView, PackFileType};
use crate::scan::{alt_keys, paths_with, Source};
use crate::seqs::{lemma_filter_empty, lemma_filter_step, lemma_take_all};
use crate::store::{PublishedFileVisibilityDerive, RemoteMetadata, StoreId, StoreIdView};
use crate::text::{
    after_last, contains_text, decimal, decimal_text, ends_with, lemma_position, lemma_position_is,
    lemma_position_none, position, replace_char, replaced, str_eq, text_after_last,
};

verus! {

/// A mod as the store describes it.
#[derive(Debug)]
pub struct QueryResultDerive {
    pub published_file_id: u64,
    pub title: String,
    pub description: String,
    pub owner: u64,
    pub time_created: u32,
    pub time_updated: u32,
    pub visibility: PublishedFileVisibilityDerive,
    pub tags: Vec<String>,
    pub file_name: String,
    pub file_size: u32,
}

impl RemoteMetadata {
    /// What of the store's description an author may change.
    pub fn from_query(value: &QueryResultDerive) -> (r: RemoteMetadata)
        ensures
            r.remote_id == value.published_file_id,
            r.title@ == value.title@,
            r.description@ == value.description@,
            r.visibility == value.visibility,
            r.tags.deep_view() == value.tags.deep_view(),
    {
        RemoteMetadata {
            remote_id: value.published_file_id,
            title: value.title.clone(),
            description: value.description.clone(),
            visibility: value.visibility,
            tags: clone_strings(&value.tags),
        }
    }
}

/// The mod that the store's description stands for.
pub open spec fn mod_of_query(item: QueryResultDerive) -> ModView {
    ModView {
        name: item.title@,
        id: Seq::empty(),
        store_id: StoreIdView::Steam(decimal(item.published_file_id as nat)),
        enabled: false,
        pack_type: PackFileType::Mod,
        paths: Seq::empty(),
        creator: decimal(item.owner as nat),
        creator_name: Seq::empty(),
        file_name: item.file_name@,
        file_size: item.file_size as u64,
        description: item.description@,
        time_created: item.time_created as usize,
        time_updated: item.time_updated as usize,
    }
}

/// The mod that the store's description stands for.
pub fn mod_from_query(item: &QueryResultDerive) -> (r: Mod)
    ensures
        r@ == mod_of_query(*item),
{
    let r = Mod {
        name: item.title.clone(),
        id: String::new(),
        store_id: StoreId::Steam(decimal_text(item.published_file_id)),
        enabled: false,
        pack_type: PackFileType::Mod,
        paths: Vec::new(),
        creator: decimal_text(item.owner),
        creator_name: String::new(),
        file_name: item.file_name.clone(),
        file_size: item.file_size as u64,
        description: item.description.clone(),
        time_created: item.time_created as usize,
        time_updated: item.time_updated as usize,
    };
    assert(r.paths.deep_view() =~= Seq::empty());
    r
}

/// The mods that the store's descriptions stand for, in their order.
pub fn request_mods_data(items: &Vec<QueryResultDerive>) -> (r: Vec<Mod>)
    ensures
        r@.len() == items@.len(),
        forall|i: int| 0 <= i < items@.len() ==> r@[i]@ == mod_of_query(items@[i]),
{
    let mut mods: Vec<Mod> = Vec::new();
    let mut i: usize = 0;
    while i < items.len()
        invariant
            i <= items@.len(),
            mods@.len() == i,
            forall|j: int| 0 <= j < i ==> mods@[j]@ == mod_of_query(items@[j]),
        decreases items@.len() - i,
    {
        mods.push(mod_from_query(&items[i]));
        i += 1;
    }
    mods
}

/// The store id of a mod, where it has one; `None` for a mod in no store.
pub open spec fn store_key(m: ModView) -> Option<StoreIdView> {
    if m.store_id is Local {
        None
    } else {
        Some(m.store_id)
    }
}

/// The store id of each mod.
pub open spec fn store_keys(mods: Seq<ModView>) -> Seq<Option<StoreIdView>> {
    mods.map_values(|m: ModView| store_key(m))
}

/// A mod with what the store says of it: name, author, legacy file name,
/// size, description and dates.
pub open spec fn described_by(m: ModView, remote: ModView) -> ModView {
    ModView {
        name: remote.name,
        creator: remote.creator,
        file_name: remote.file_name,
        file_size: remote.file_size,
        description: remote.description,
        time_created: remote.time_created,
        time_updated: remote.time_updated,
        ..m
    }
}

/// The mods with what the store says of one of them: the first mod with the
/// store id of `remote` takes it over. Nothing changes where no mod has that
/// store id.
pub open spec fn enriched(mods: Seq<ModView>, remote: ModView) -> Seq<ModView> {
    let k = position(store_keys(mods), Some(remote.store_id));
    if k >= 0 {
        mods.update(k, described_by(mods[k], remote))
    } else {
        mods
    }
}

/// The mods with what the store says of them, taken in one by one.
pub open spec fn enriched_all(mods: Seq<ModView>, remote: Seq<ModView>) -> Seq<ModView>
    decreases remote.len(),
{
    if remote.len() == 0 {
        mods
    } else {
        enriched(enriched_all(mods, remote.drop_last()), remote.last())
    }
}

/// The index of the first mod with the store id `id`, which names a store.
fn find_by_store_id(mods: &Vec<Mod>, id: &StoreId) -> (r: Option<usize>)
    ensures
        r is None <==> position(store_keys(mods.deep_view()), Some(id@)) < 0,
        r is Some ==> r->0 as int == position(store_keys(mods.deep_view()), Some(id@)) && r->0
            < mods@.len(),
{
    let ghost keys = store_keys(mods.deep_view());
    let mut i: usize = 0;
    while i < mods.len()
        invariant
            i <= mods@.len(),
            keys == store_keys(mods.deep_view()),
            keys.len() == mods@.len(),
            forall|j: int| 0 <= j < i ==> keys[j] != Some(id@),
        decreases mods@.len() - i,
    {
        assert(keys[i as int] == store_key(mods@[i as int]@));
        let found = match &mods[i].store_id {
            StoreId::Local => false,
            other => other.same_as(id),
        };
        if found {
            proof {
                lemma_position_is(keys, Some(id@), i as int);
            }
            return Some(i);
        }
        i += 1;
    }
    proof {
        lemma_position_none(keys, Some(id@));
    }
    None
}

/// Takes over what the store says of the mods: each description goes to the
/// first mod with its store id.
pub fn populate_mods_with_online_data(local_mods: &mut Vec<Mod>, remote_mods: &Vec<Mod>)
    ensures
        final(local_mods).deep_view() == enriched_all(
            old(local_mods).deep_view(),
            remote_mods.deep_view(),
        ),
{
    let ghost start = local_mods.deep_view();
    let ghost src = remote_mods.deep_view();
    let mut i: usize = 0;
    assert(src.take(0) =~= Seq::empty());
    while i < remote_mods.len()
        invariant
            i <= remote_mods@.len(),
            src == remote_mods.deep_view(),
            local_mods.deep_view() == enriched_all(start, src.take(i as int)),
        decreases remote_mods@.len() - i,
    {
        let item = &remote_mods[i];
        assert(src.take(i + 1).drop_last() == src.take(i as int));
        assert(src.take(i + 1).last() == item@);
        let ghost before = local_mods.deep_view();
        if let Some(k) = find_by_store_id(local_mods, &item.store_id) {
            assert(before[k as int] == local_mods@[k as int]@);
            local_mods[k].name = item.name.clone();
            local_mods[k].creator = item.creator.clone();
            local_mods[k].file_name = item.file_name.clone();
            local_mods[k].file_size = item.file_size;
            local_mods[k].description = item.description.clone();
            local_mods[k].time_created = item.time_created;
            local_mods[k].time_updated = item.time_updated;
            assert(local_mods.deep_view() =~= before.update(
                k as int,
                described_by(before[k as int], item@),
            ));
        }
        i += 1;
    }
    proof {
        lemma_take_all(src);
    }
}

/// What has to be done to a mod that old games ship as a `.bin` file.
#[derive(Debug, PartialEq, Eq)]
pub enum Conversion {
    /// Nothing.
    Keep,
    /// The file is a pack under another name: save it as `name`.
    Repack { name: String },
    /// The file is a map: make a pack `pack_name` for the map `map_name`.
    MapPack { pack_name: String, map_name: String },
}

/// A [`Conversion`] with its texts as sequences of characters.
pub ghost enum ConversionView {
    Keep,
    Repack { name: Seq<char> },
    MapPack { pack_name: Seq<char>, map_name: Seq<char> },
}

impl DeepView for Conversion {
    type V = ConversionView;

    open spec fn deep_view(&self) -> ConversionView {
        match *self {
            Conversion::Keep => ConversionView::Keep,
            Conversion::Repack { name } => ConversionView::Repack { name: name@ },
            Conversion::MapPack { pack_name, map_name } => ConversionView::MapPack {
                pack_name: pack_name@,
                map_name: map_name@,
            },
        }
    }
}

impl View for Conversion {
    type V = ConversionView;

    open spec fn view(&self) -> ConversionView {
        self.deep_view()
    }
}

/// What has to be done to the mod. Only a mod on disk whose id ends in `.bin`
/// and that has a legacy file name needs anything. If that name is the name
/// of a pack, the file is a pack and is saved under the last component of the
/// name. If not, and the game is Shogun 2, the file is a map.
pub open spec fn conversion_of(m: ModView, game: GameTraitsView) -> ConversionView {
    if m.paths.len() > 0 && ".bin"@.is_suffix_of(m.id) && m.file_name.len() > 0 {
        if ".pack"@.is_suffix_of(m.file_name) {
            ConversionView::Repack { name: after_last(m.file_name, '/') }
        } else if game.key == "shogun_2"@ {
            ConversionView::MapPack {
                pack_name: replaced(after_last(m.file_name, '/'), ' ', '_') + ".pack"@,
                map_name: replaced(after_last(m.file_name, '/'), ' ', '_'),
            }
        } else {
            ConversionView::Keep
        }
    } else {
        ConversionView::Keep
    }
}

/// What has to be done to the mod.
pub fn conversion_for(modd: &Mod, game: &GameTraits) -> (r: Conversion)
    ensures
        r@ == conversion_of(modd@, game@),
{
    assert(modd@.paths.len() == modd.paths@.len());
    if modd.paths.len() > 0 && ends_with(modd.id.as_str(), ".bin")
        && !modd.file_name.as_str().is_empty() {
        let last = text_after_last(modd.file_name.as_str(), '/');
        if ends_with(modd.file_name.as_str(), ".pack") {
            Conversion::Repack { name: last }
        } else if str_eq(game.key.as_str(), "shogun_2") {
            let map_name = replace_char(last.as_str(), ' ', '_');
            let mut pack_name = map_name.clone();
            pack_name.append(".pack");
            Conversion::MapPack { pack_name, map_name }
        } else {
            Conversion::Keep
        }
    } else {
        Conversion::Keep
    }
}

/// Where to try to save the pack of a converted mod, in this order, until it
/// works. The secondary folder comes first, if there is one and the data
/// folder does not hold the pack yet. A file that is there already is only
/// written over if the mod is not the user's own.
pub open spec fn destinations_of(
    data_path: Seq<char>,
    secondary_path: Option<Seq<char>>,
    mod_name: Seq<char>,
    in_data: bool,
    in_secondary: bool,
    own: bool,
) -> Seq<Seq<char>> {
    let first = if secondary_path is Some && !in_data && (!in_secondary || !own) {
        seq![file_in(secondary_path->0, mod_name)]
    } else {
        Seq::empty()
    };
    let second = if !in_data || !own {
        seq![file_in(data_path, mod_name)]
    } else {
        Seq::empty()
    };
    first + second
}

/// Where to try to save the pack of a converted mod. `in_data` and
/// `in_secondary` tell whether a file of that name is in the folder already.
pub fn move_to_destination(
    data_path: &str,
    secondary_path: &Option<String>,
    steam_user_id: &str,
    modd: &Mod,
    mod_name: &str,
    in_data: bool,
    in_secondary: bool,
) -> (r: Vec<String>)
    ensures
        r.deep_view() == destinations_of(
            data_path@,
            match *secondary_path {
                Some(path) => Some(path@),
                None => None,
            },
            mod_name@,
            in_data,
            in_secondary,
            steam_user_id@ == modd@.creator,
        ),
{
    let own = str_eq(steam_user_id, modd.creator.as_str());
    let mut out: Vec<String> = Vec::new();
    assert(out.deep_view() =~= Seq::empty());
    if let Some(secondary) = secondary_path {
        if !in_data && (!in_secondary || !own) {
            out.push(path_in(secondary.as_str(), mod_name));
            assert(out.deep_view() =~= seq![file_in(secondary@, mod_name@)]);
        }
    }
    let ghost first = out.deep_view();
    if !in_data || !own {
        out.push(path_in(data_path, mod_name));
        assert(out.deep_view() =~= first + seq![file_in(data_path@, mod_name@)]);
    } else {
        assert(out.deep_view() =~= first + Seq::<Seq<char>>::empty());
    }
    out
}

impl Mod {
    /// Notes that a pack of the mod was saved at `path`, which wins over the
    /// copies known so far, and takes over the kind of the pack where one is
    /// given.
    pub fn record_copy(&mut self, path: &str, pack_type: Option<PackFileType>)
        ensures
            final(self)@ == (ModView {
                paths: paths_with(old(self)@.paths, path@, Source::Data),
                pack_type: match pack_type {
                    Some(kind) => kind,
                    None => old(self)@.pack_type,
                },
                ..old(self)@
            }),
    {
        let ghost before = self@;
        if !contains_text(&self.paths, path) {
            self.paths.insert(0, path.to_owned());
            assert(self.paths.deep_view() =~= seq![path@] + before.paths);
        }
        if let Some(kind) = pack_type {
            self.pack_type = kind;
        }
    }
}

/// A legacy file to convert: the mod it belongs to, the file, and what has to
/// be done with it.
#[derive(Debug, PartialEq, Eq)]
pub struct PendingConversion {
    pub mod_id: String,
    /// The file to convert: the copy of the mod that wins least.
    pub source: String,
    pub conversion: Conversion,
}

/// A [`PendingConversion`] with its texts as sequences of characters.
pub ghost struct PendingConversionView {
    pub mod_id: Seq<char>,
    pub source: Seq<char>,
    pub conversion: ConversionView,
}

impl DeepView for PendingConversion {
    type V = PendingConversionView;

    open spec fn deep_view(&self) -> PendingConversionView {
        PendingConversionView {
            mod_id: self.mod_id@,
            source: self.source@,
            conversion: self.conversion@,
        }
    }
}

impl View for PendingConversion {
    type V = PendingConversionView;

    open spec fn view(&self) -> PendingConversionView {
        self.deep_view()
    }
}

/// The test that a mod is a legacy file to convert.
pub open spec fn needs_conversion(game: GameTraitsView) -> spec_fn(ModView) -> bool {
    |m: ModView| !(conversion_of(m, game) is Keep)
}

/// The conversion that a mod is waiting for.
pub open spec fn as_pending(game: GameTraitsView) -> spec_fn(ModView) -> PendingConversionView {
    |m: ModView|
        PendingConversionView {
            mod_id: m.id,
            source: m.paths.last(),
            conversion: conversion_of(m, game),
        }
}

/// The legacy files to convert, in the order of the registry.
pub open spec fn pending_conversions(mods: Seq<ModView>, game: GameTraitsView) -> Seq<
    PendingConversionView,
> {
    mods.filter(needs_conversion(game)).map_values(as_pending(game))
}

/// A pack that a conversion has saved.
#[derive(Debug, PartialEq, Eq)]
pub struct SavedCopy {
    /// The mod the pack was made from.
    pub mod_id: String,
    /// Where the pack was saved.
    pub path: String,
    /// The kind of the pack, where the mod is to take it over.
    pub pack_type: Option<PackFileType>,
}

/// A [`SavedCopy`] with its texts as sequences of characters.
pub ghost struct SavedCopyView {
    pub mod_id: Seq<char>,
    pub path: Seq<char>,
    pub pack_type: Option<PackFileType>,
}

impl DeepView for SavedCopy {
    type V = SavedCopyView;

    open spec fn deep_view(&self) -> SavedCopyView {
        SavedCopyView { mod_id: self.mod_id@, path: self.path@, pack_type: self.pack_type }
    }
}

impl View for SavedCopy {
    type V = SavedCopyView;

    open spec fn view(&self) -> SavedCopyView {
        self.deep_view()
    }
}

/// The mods with a saved pack noted at the mod it was made from: its path
/// goes to the front of the paths of the mod, unless it is among them.
pub open spec fn recorded(mods: Seq<ModView>, copy: SavedCopyView) -> Seq<ModView> {
    let k = position(ids_of(mods), copy.mod_id);
    if k >= 0 {
        mods.update(
            k,
            ModView {
                paths: paths_with(mods[k].paths, copy.path, Source::Data),
                pack_type: match copy.pack_type {
                    Some(kind) => kind,
                    None => mods[k].pack_type,
                },
                ..mods[k]
            },
        )
    } else {
        mods
    }
}

/// The mods with the saved packs noted, one after the other.
pub open spec fn recorded_all(mods: Seq<ModView>, saved: Seq<SavedCopyView>) -> Seq<ModView>
    decreases saved.len(),
{
    if saved.len() == 0 {
        mods
    } else {
        recorded(recorded_all(mods, saved.drop_last()), saved.last())
    }
}

/// The test that a mod does not go by one of the names `names`.
pub open spec fn not_named(names: Seq<Option<Seq<char>>>) -> spec_fn(ModView) -> bool {
    |m: ModView| !names.contains(Some(m.id))
}

/// The test that an id is not one of the names `names`.
pub open spec fn not_among(names: Seq<Option<Seq<char>>>) -> spec_fn(Seq<char>) -> bool {
    |id: Seq<char>| !names.contains(Some(id))
}

/// The categories without the ids that are among `names`.
pub open spec fn categories_without(categories: Seq<CategoryView>, names: Seq<Option<Seq<char>>>) -> Seq<
    CategoryView,
>
    decreases categories.len(),
{
    if categories.len() == 0 {
        Seq::empty()
    } else {
        categories_without(categories.drop_last(), names).push(
            CategoryView {
                name: categories.last().name,
                mods: categories.last().mods.filter(not_among(names)),
            },
        )
    }
}

impl GameConfigView {
    /// The registry without the mods that are doubles of a legacy mod: a mod
    /// whose id is the alternative name of a mod stands for the same pack
    /// and leaves, from the registry and from the categories.
    pub open spec fn without_doubles(self) -> GameConfigView {
        GameConfigView {
            mods: self.mods.filter(not_named(alt_keys(self.mods))),
            categories: categories_without(self.categories, alt_keys(self.mods)),
            ..self
        }
    }
}

/// Whether `id` is the alternative name of one of the mods.
fn is_alt_name(alts: &Vec<String>, id: &str) -> (r: bool)
    ensures
        r == alts.deep_view().contains(id@),
{
    contains_text(alts, id)
}

impl GameConfig {
    /// The alternative names of the mods, for those that have one.
    fn alt_names(&self) -> (r: Vec<String>)
        ensures
            forall|id: Seq<char>|
                r.deep_view().contains(id) <==> alt_keys(self@.mods).contains(Some(id)),
    {
        let ghost keys = alt_keys(self@.mods);
        let mut out: Vec<String> = Vec::new();
        let mut i: usize = 0;
        assert(out.deep_view() =~= Seq::empty());
        while i < self.mods.len()
            invariant
                i <= self.mods@.len(),
                keys == alt_keys(self@.mods),
                keys.len() == self.mods@.len(),
                forall|id: Seq<char>|
                    out.deep_view().contains(id) <==> exists|j: int|
                        0 <= j < i && keys[j] == Some(id),
            decreases self.mods@.len() - i,
        {
            assert(keys[i as int] == alt_name_of(self.mods@[i as int]@.file_name));
            let ghost before = out.deep_view();
            if let Some(alt) = self.mods[i].alt_name() {
                let ghost a = alt@;
                out.push(alt);
                proof {
                    assert(out.deep_view() =~= before.push(a));
                    assert forall|id: Seq<char>| out.deep_view().contains(id) <==> exists|j: int|
                        0 <= j < i + 1 && keys[j] == Some(id) by {
                        if out.deep_view().contains(id) {
                            let n = choose|n: int|
                                0 <= n < out.deep_view().len() && out.deep_view()[n] == id;
                            if n < before.len() {
                                assert(before[n] == id);
                                assert(before.contains(id));
                            } else {
                                assert(keys[i as int] == Some(id));
                            }
                        }
                        if exists|j: int| 0 <= j < i + 1 && keys[j] == Some(id) {
                            let j = choose|j: int| 0 <= j < i + 1 && keys[j] == Some(id);
                            if j < i {
                                assert(before.contains(id));
                                let n = choose|n: int| 0 <= n < before.len() && before[n] == id;
                                assert(out.deep_view()[n] == id);
                            } else {
                                assert(out.deep_view()[before.len() as int] == id);
                            }
                        }
                    }
                }
            } else {
                assert forall|id: Seq<char>| out.deep_view().contains(id) <==> exists|j: int|
                    0 <= j < i + 1 && keys[j] == Some(id) by {
                    if exists|j: int| 0 <= j < i + 1 && keys[j] == Some(id) {
                        let j = choose|j: int| 0 <= j < i + 1 && keys[j] == Some(id);
                        assert(j < i);
                    }
                }
            }
            i += 1;
        }
        proof {
            assert forall|id: Seq<char>| out.deep_view().contains(id) <==> keys.contains(
                Some(id),
            ) by {
                if keys.contains(Some(id)) {
                    let j = choose|j: int| 0 <= j < keys.len() && keys[j] == Some(id);
                    assert(0 <= j < i && keys[j] == Some(id));
                }
            }
        }
        out
    }

    /// Drops the mods that are doubles of a legacy mod: a mod whose id is the
    /// alternative name of a mod stands for the same pack.
    pub fn drop_doubles(&mut self)
        ensures
            final(self)@ == old(self)@.without_doubles(),
            old(self)@.wf() ==> final(self)@.wf(),
    {
        let ghost before = self@;
        proof {
            lemma_without_doubles_is_valid(before);
        }
        let ghost names = alt_keys(before.mods);
        let alts = self.alt_names();

        let ghost keep = not_named(names);
        let mut kept: Vec<Mod> = Vec::new();
        let mut i: usize = 0;
        proof {
            lemma_filter_empty(before.mods.take(0), keep);
            assert(kept.deep_view() =~= before.mods.take(0).filter(keep));
        }
        while i < self.mods.len()
            invariant
                i <= self.mods@.len(),
                self@ == before,
                before.mods.len() == self.mods@.len(),
                names == alt_keys(before.mods),
                keep == not_named(names),
                forall|id: Seq<char>| alts.deep_view().contains(id) <==> names.contains(Some(id)),
                kept.deep_view() == before.mods.take(i as int).filter(keep),
            decreases self.mods@.len() - i,
        {
            proof {
                lemma_filter_step(before.mods, keep, i as int);
            }
            assert(before.mods[i as int] == self.mods@[i as int]@);
            let ghost so_far = kept.deep_view();
            if !is_alt_name(&alts, self.mods[i].id.as_str()) {
                kept.push(self.mods[i].clone());
                assert(kept.deep_view() =~= so_far.push(before.mods[i as int]));
            }
            i += 1;
        }
        proof {
            lemma_take_all(before.mods);
        }
        self.mods = kept;

        let ghost stay = not_among(names);
        let mut k: usize = 0;
        assert(before.categories.take(0) =~= Seq::empty());
        while k < self.categories.len()
            invariant
                k <= self.categories@.len(),
                self.categories@.len() == before.categories.len(),
                self@.mods == before.mods.filter(keep),
                self@.game_key == before.game_key,
                self@.categories_order == before.categories_order,
                names == alt_keys(before.mods),
                stay == not_among(names),
                forall|id: Seq<char>| alts.deep_view().contains(id) <==> names.contains(Some(id)),
                self@.categories.take(k as int) == categories_without(
                    before.categories.take(k as int),
                    names,
                ),
                forall|j: int|
                    k <= j < before.categories.len() ==> self@.categories[j]
                        == before.categories[j],
            decreases self.categories@.len() - k,
        {
            let ghost now = self@;
            let ghost src = self.categories@[k as int].mods.deep_view();
            assert(src == before.categories[k as int].mods);
            let mut left: Vec<String> = Vec::new();
            let mut n: usize = 0;
            proof {
                lemma_filter_empty(src.take(0), stay);
                assert(left.deep_view() =~= src.take(0).filter(stay));
            }
            while n < self.categories[k].mods.len()
                invariant
                    k < self.categories@.len(),
                    n <= self.categories@[k as int].mods@.len(),
                    self@ == now,
                    src == self.categories@[k as int].mods.deep_view(),
                    stay == not_among(names),
                    forall|id: Seq<char>|
                        alts.deep_view().contains(id) <==> names.contains(Some(id)),
                    left.deep_view() == src.take(n as int).filter(stay),
                decreases self.categories@[k as int].mods@.len() - n,
            {
                proof {
                    lemma_filter_step(src, stay, n as int);
                }
                let ghost so_far = left.deep_view();
                if !is_alt_name(&alts, self.categories[k].mods[n].as_str()) {
                    left.push(self.categories[k].mods[n].clone());
                    assert(left.deep_view() =~= so_far.push(src[n as int]));
                }
                n += 1;
            }
            proof {
                lemma_take_all(src);
            }
            self.categories[k].mods = left;
            proof {
                assert(self@.mods =~= now.mods);
                assert(self@.categories_order =~= now.categories_order);
                let done = CategoryView {
                    name: before.categories[k as int].name,
                    mods: src.filter(stay),
                };
                assert(self@.categories[k as int] == done);
                assert(before.categories.take(k + 1).drop_last() == before.categories.take(
                    k as int,
                ));
                assert(before.categories.take(k + 1).last() == before.categories[k as int]);
                assert(self@.categories.take(k + 1) =~= now.categories.take(k as int).push(done));
                assert forall|j: int| k < j < before.categories.len() implies self@.categories[j]
                    == before.categories[j] by {
                    assert(self@.categories[j] == now.categories[j]);
                }
            }
            k += 1;
        }
        proof {
            lemma_take_all(before.categories);
            lemma_take_all(self@.categories);
        }
    }

    /// Takes over what the store says of the mods. Returns the mods that now
    /// turn out to be legacy files to convert, in the order of the registry.
    pub fn update_mod_list_with_online_data(&mut self, workshop_items: &Vec<Mod>, game: &GameTraits) -> (r:
        Vec<PendingConversion>)
        ensures
            final(self)@ == (GameConfigView {
                mods: enriched_all(old(self)@.mods, workshop_items.deep_view()),
                ..old(self)@
            }),
            r.deep_view() == pending_conversions(final(self)@.mods, game@),
            old(self)@.wf() ==> final(self)@.wf(),
    {
        let ghost before = self@;
        proof {
            lemma_enriched_all_keeps_ids(before.mods, workshop_items.deep_view());
        }
        populate_mods_with_online_data(&mut self.mods, workshop_items);
        assert(self@.categories =~= before.categories);
        assert(self@.categories_order =~= before.categories_order);

        let ghost mods = self@.mods;
        let ghost pred = needs_conversion(game@);
        let ghost f = as_pending(game@);
        let mut out: Vec<PendingConversion> = Vec::new();
        let mut i: usize = 0;
        proof {
            lemma_filter_empty(mods.take(0), pred);
            assert(out.deep_view() =~= mods.take(0).filter(pred).map_values(f));
        }
        while i < self.mods.len()
            invariant
                i <= self.mods@.len(),
                mods == self@.mods,
                mods.len() == self.mods@.len(),
                pred == needs_conversion(game@),
                f == as_pending(game@),
                out.deep_view() == mods.take(i as int).filter(pred).map_values(f),
            decreases self.mods@.len() - i,
        {
            proof {
                lemma_filter_step(mods, pred, i as int);
            }
            let modd = &self.mods[i];
            assert(mods[i as int] == modd@);
            let ghost so_far = out.deep_view();
            let conversion = conversion_for(modd, game);
            match conversion {
                Conversion::Keep => {},
                _ => {
                    assert(modd@.paths.len() == modd.paths@.len());
                    assert(modd@.paths.last() == modd.paths@[modd.paths@.len() - 1]@);
                    let pending = PendingConversion {
                        mod_id: modd.id.clone(),
                        source: modd.paths[modd.paths.len() - 1].clone(),
                        conversion,
                    };
                    assert(pending@ == f(mods[i as int]));
                    out.push(pending);
                    proof {
                        assert(out.deep_view() =~= so_far.push(f(mods[i as int])));
                        assert(mods.take(i as int).filter(pred).push(mods[i as int]).map_values(f)
                            =~= mods.take(i as int).filter(pred).map_values(f).push(
                            f(mods[i as int]),
                        ));
                    }
                },
            }
            i += 1;
        }
        proof {
            lemma_take_all(mods);
        }
        out
    }

    /// Notes the packs that the conversions have saved, each with the mod it
    /// was made from, and drops the mods that have turned out to be doubles
    /// of a legacy mod.
    pub fn conclude_conversions(&mut self, saved: &Vec<SavedCopy>)
        ensures
            final(self)@ == (GameConfigView {
                mods: recorded_all(old(self)@.mods, saved.deep_view()),
                ..old(self)@
            }).without_doubles(),
            old(self)@.wf() ==> final(self)@.wf(),
    {
        let ghost before = self@;
        proof {
            lemma_recorded_all_keeps_ids(before.mods, saved.deep_view());
        }
        let ghost src = saved.deep_view();
        let mut i: usize = 0;
        assert(src.take(0) =~= Seq::empty());
        while i < saved.len()
            invariant
                i <= saved@.len(),
                src == saved.deep_view(),
                self@ == (GameConfigView {
                    mods: recorded_all(before.mods, src.take(i as int)),
                    ..before
                }),
            decreases saved@.len() - i,
        {
            let copy = &saved[i];
            assert(src.take(i + 1).drop_last() == src.take(i as int));
            assert(src.take(i + 1).last() == copy@);
            let ghost now = self@;
            if let Some(k) = self.find_mod(copy.mod_id.as_str()) {
                assert(now.mods[k as int] == self.mods@[k as int]@);
                self.mods[k].record_copy(copy.path.as_str(), copy.pack_type);
                proof {
                    assert(self@.mods =~= now.mods.update(
                        k as int,
                        recorded(now.mods, copy@)[k as int],
                    ));
                    assert(self@.mods =~= recorded(now.mods, copy@));
                    assert(self@.categories =~= now.categories);
                    assert(self@.categories_order =~= now.categories_order);
                }
            }
            i += 1;
        }
        proof {
            lemma_take_all(src);
        }
        self.drop_doubles();
    }
}

/// What the store says of the mods changes no id.
pub proof fn lemma_enriched_all_keeps_ids(mods: Seq<ModView>, remote: Seq<ModView>)
    ensures
        ids_of(enriched_all(mods, remote)) == ids_of(mods),
    decreases remote.len(),
{
    if remote.len() > 0 {
        let before = enriched_all(mods, remote.drop_last());
        lemma_enriched_all_keeps_ids(mods, remote.drop_last());
        lemma_position(store_keys(before), Some(remote.last().store_id));
        assert(ids_of(enriched(before, remote.last())) =~= ids_of(before));
    }
}

/// Noting the saved packs changes no id.
pub proof fn lemma_recorded_all_keeps_ids(mods: Seq<ModView>, saved: Seq<SavedCopyView>)
    ensures
        ids_of(recorded_all(mods, saved)) == ids_of(mods),
    decreases saved.len(),
{
    if saved.len() > 0 {
        let before = recorded_all(mods, saved.drop_last());
        lemma_recorded_all_keeps_ids(mods, saved.drop_last());
        lemma_position(ids_of(before), saved.last().mod_id);
        assert(ids_of(recorded(before, saved.last())) =~= ids_of(before));
    }
}

/// Taking ids out of the categories changes no name of a category.
pub proof fn lemma_categories_without_keeps_names(
    categories: Seq<CategoryView>,
    names: Seq<Option<Seq<char>>>,
)
    ensures
        names_of(categories_without(categories, names)) == names_of(categories),
    decreases categories.len(),
{
    if categories.len() > 0 {
        lemma_categories_without_keeps_names(categories.drop_last(), names);
        assert(names_of(categories_without(categories, names)) =~= names_of(
            categories.drop_last(),
        ).push(categories.last().name));
        assert(names_of(categories) =~= names_of(categories.drop_last()).push(
            categories.last().name,
        ));
    } else {
        assert(names_of(categories_without(categories, names)) =~= names_of(categories));
    }
}

/// Dropping the doubles leaves no id with two mods and no name with two
/// categories, where there were none before.
pub proof fn lemma_without_doubles_is_valid(c: GameConfigView)
    ensures
        c.wf() ==> c.without_doubles().wf(),
{
    if c.wf() {
        let keep = not_named(alt_keys(c.mods));
        let kept = c.mods.filter(keep);
        assert forall|i: int, j: int|
            0 <= i < kept.len() && 0 <= j < kept.len() && i != j implies ids_of(kept)[i] != ids_of(
            kept,
        )[j] by {
            if kept[i].id == kept[j].id {
                lemma_mod_filter_places(c.mods, keep, i, j);
            }
        }
        lemma_categories_without_keeps_names(c.categories, alt_keys(c.mods));
    }
}

} // verus!
