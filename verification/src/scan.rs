//! What a walk over the folders of a game has found, and what of it counts as
//! a sighting of a mod.
//!
//! The walk itself is not done here. Its result comes in as a [`ScanReport`]:
//! for each of the three folders that can hold mods, the files found there,
//! each with what opening it as a pack gave and with its dates.

use vstd::prelude::*;
use vstd::string::*;
use crate::game_config::{
    holds_once, ids_of, in_some_category, lemma_default_stays_last, lemma_tidied_holds_once,
    lemma_tidied_holds_the_installed, GameConfig, GameConfigView,
};
use crate::games::GameTraits;
use crate::load_order::LoadOrder;
use crate::seqs::{lemma_filter_empty, lemma_filter_step, lemma_take_all};
use crate::mods::{alt_name_of, Mod, ModView, PackFileType};
use crate::store::{StoreId, StoreIdView};
use crate::paths::{file_name, file_name_of, is_inside, path_is_inside};
use crate::text::{
    after_last, before_last, chars_of, contains_text, lemma_position, lemma_position_is,
    lemma_position_none, position, str_eq, text_after_last, text_before_last, text_of,
};

verus! {

/// The name under which the launcher stages its own generated pack.
pub const RESERVED_PACK_NAME: &'static str = "zzzzzzzzzzzzzzzzzzzzrun_you_fool_thron.pack";

/// The name of the staged pack for the games that load movie packs in
/// another order.
pub const RESERVED_PACK_NAME_ALTERNATIVE: &'static str =
    "!!!!!!!!!!!!!!!!!!!!!run_you_fool_thron.pack";

/// Whether `name` is one of the two names the launcher keeps for itself.
pub open spec fn is_reserved_name(name: Seq<char>) -> bool {
    name == "zzzzzzzzzzzzzzzzzzzzrun_you_fool_thron.pack"@ || name
        == "!!!!!!!!!!!!!!!!!!!!!run_you_fool_thron.pack"@
}

/// What unpacking `data` with zlib gives: the unpacked bytes, or `None` where
/// `data` is no zlib stream.
pub uninterp spec fn zlib_inflated(data: Seq<u8>) -> Option<Seq<u8>>;

/// Unpacks `data` with `flate2`'s `ZlibDecoder`, read to its end. Returns the
/// unpacked bytes, or `None` where the decoder reports an error.
#[verifier::external_body]
pub(crate) fn inflate(data: &[u8]) -> (r: Option<Vec<u8>>)
    ensures
        r is Some <==> zlib_inflated(data@) is Some,
        r is Some ==> r->0@ == zlib_inflated(data@)->0,
{
    let mut out = Vec::new();
    match std::io::Read::read_to_end(&mut flate2::read::ZlibDecoder::new(data), &mut out) {
        Ok(_) => Some(out),
        Err(_) => None,
    }
}

/// The folder a file was found in. Content is the folder the store downloads
/// to; a copy in the secondary folder wins over it, and a copy in the game's
/// data folder over both.
#[derive(Clone, Copy, Debug, PartialEq, Eq, Structural)]
pub enum Source {
    Content,
    Secondary,
    Data,
}

/// What opening a file as a pack gave.
#[derive(Debug)]
pub enum Probe {
    /// It opened, and declares this kind.
    Pack(PackFileType),
    /// It did not open; these are its bytes.
    Raw(Vec<u8>),
    /// It did not open and could not be read either.
    Unreadable,
}

/// A [`Probe`] with its bytes as a sequence.
pub ghost enum ProbeView {
    Pack(PackFileType),
    Raw(Seq<u8>),
    Unreadable,
}

impl DeepView for Probe {
    type V = ProbeView;

    open spec fn deep_view(&self) -> ProbeView {
        match *self {
            Probe::Pack(kind) => ProbeView::Pack(kind),
            Probe::Raw(bytes) => ProbeView::Raw(bytes@),
            Probe::Unreadable => ProbeView::Unreadable,
        }
    }
}

impl View for Probe {
    type V = ProbeView;

    open spec fn view(&self) -> ProbeView {
        self.deep_view()
    }
}

/// A file found in one of the folders.
#[derive(Debug)]
pub struct FoundFile {
    /// Where the file lies.
    pub path: String,
    /// What opening it as a pack gave.
    pub probe: Probe,
    /// When it was last modified, in seconds since the epoch; `None` where
    /// the file system would not say.
    pub modified: Option<usize>,
    /// When it was created, where the file system keeps that.
    pub created: Option<usize>,
}

/// A [`FoundFile`] with its texts as sequences of characters.
pub ghost struct FoundFileView {
    pub path: Seq<char>,
    pub probe: ProbeView,
    pub modified: Option<usize>,
    pub created: Option<usize>,
}

impl DeepView for FoundFile {
    type V = FoundFileView;

    open spec fn deep_view(&self) -> FoundFileView {
        FoundFileView {
            path: self.path@,
            probe: self.probe@,
            modified: self.modified,
            created: self.created,
        }
    }
}

impl View for FoundFile {
    type V = FoundFileView;

    open spec fn view(&self) -> FoundFileView {
        self.deep_view()
    }
}

/// What a walk over the folders of a game has found.
#[derive(Debug)]
pub struct ScanReport {
    /// The packs that belong to the game itself; never mods.
    pub vanilla: Vec<String>,
    /// The folder the store downloads to; empty where the game has none.
    pub content_path: String,
    /// The files found below the content folder.
    pub content: Vec<FoundFile>,
    /// The files found in the secondary folder.
    pub secondary: Vec<FoundFile>,
    /// The files found in the data folder of the game.
    pub data: Vec<FoundFile>,
}

/// A [`ScanReport`] with its texts as sequences of characters.
pub ghost struct ScanReportView {
    pub vanilla: Seq<Seq<char>>,
    pub content_path: Seq<char>,
    pub content: Seq<FoundFileView>,
    pub secondary: Seq<FoundFileView>,
    pub data: Seq<FoundFileView>,
}

impl DeepView for ScanReport {
    type V = ScanReportView;

    open spec fn deep_view(&self) -> ScanReportView {
        ScanReportView {
            vanilla: self.vanilla.deep_view(),
            content_path: self.content_path@,
            content: self.content.deep_view(),
            secondary: self.secondary.deep_view(),
            data: self.data.deep_view(),
        }
    }
}

impl View for ScanReport {
    type V = ScanReportView;

    open spec fn view(&self) -> ScanReportView {
        self.deep_view()
    }
}

/// A file that counts as a mod: what the registry takes from it.
#[derive(Debug, PartialEq, Eq)]
pub struct Sighting {
    /// Where the file lies.
    pub path: String,
    /// The name of the file.
    pub name: String,
    /// The kind of the pack: `Mod` or `Movie`.
    pub pack_type: PackFileType,
    /// When the file was last modified.
    pub modified: usize,
    /// When the file was created, where that is known.
    pub created: Option<usize>,
    /// The id of the mod in the store, where the folder of the file gives it.
    pub store_tag: Option<String>,
}

/// A [`Sighting`] with its texts as sequences of characters.
pub ghost struct SightingView {
    pub path: Seq<char>,
    pub name: Seq<char>,
    pub pack_type: PackFileType,
    pub modified: usize,
    pub created: Option<usize>,
    pub store_tag: Option<Seq<char>>,
}

impl DeepView for Sighting {
    type V = SightingView;

    open spec fn deep_view(&self) -> SightingView {
        SightingView {
            path: self.path@,
            name: self.name@,
            pack_type: self.pack_type,
            modified: self.modified,
            created: self.created,
            store_tag: match self.store_tag {
                Some(tag) => Some(tag@),
                None => None,
            },
        }
    }
}

impl View for Sighting {
    type V = SightingView;

    open spec fn view(&self) -> SightingView {
        self.deep_view()
    }
}

/// Whether a file name ends in `.bin`, with something before the dot.
pub open spec fn has_bin_extension(name: Seq<char>) -> bool {
    before_last(name, '.').len() > 0 && after_last(name, '.') == "bin"@
}

/// Whether a file name ends in `.bin`, with something before the dot.
pub fn is_bin_file(name: &str) -> (r: bool)
    ensures
        r == has_bin_extension(name@),
{
    let stem = text_before_last(name, '.');
    let extension = text_after_last(name, '.');
    !stem.as_str().is_empty() && str_eq(extension.as_str(), "bin")
}

/// The kind under which a found file counts as a mod, if it does. A pack
/// counts if it declares itself a mod or a movie. In the content folder a
/// `.bin` file that is no pack counts as a mod if zlib can unpack it: such a
/// file is a map of an old game, to be turned into a pack later.
pub open spec fn kind_of(probe: ProbeView, name: Seq<char>, source: Source) -> Option<
    PackFileType,
> {
    match probe {
        ProbeView::Pack(kind) => {
            if kind == PackFileType::Mod || kind == PackFileType::Movie {
                Some(kind)
            } else {
                None
            }
        },
        ProbeView::Raw(bytes) => {
            if source == Source::Content && has_bin_extension(name) && zlib_inflated(bytes)
                is Some {
                Some(PackFileType::Mod)
            } else {
                None
            }
        },
        ProbeView::Unreadable => None,
    }
}

/// The kind under which a found file counts as a mod, if it does.
pub fn classify(probe: &Probe, name: &str, source: Source) -> (r: Option<PackFileType>)
    ensures
        r == kind_of(probe@, name@, source),
{
    match probe {
        Probe::Pack(kind) => {
            match kind {
                PackFileType::Mod => Some(PackFileType::Mod),
                PackFileType::Movie => Some(PackFileType::Movie),
                _ => None,
            }
        },
        Probe::Raw(bytes) => {
            if source == Source::Content && is_bin_file(name) && inflate(bytes.as_slice()).is_some() {
                Some(PackFileType::Mod)
            } else {
                None
            }
        },
        Probe::Unreadable => None,
    }
}

/// The index of the first `c` in `s`, or -1 where `s` holds none.
pub open spec fn first_index(s: Seq<char>, c: char) -> int
    decreases s.len(),
{
    if s.len() == 0 {
        -1
    } else if s[0] == c {
        0
    } else {
        let rest = first_index(s.drop_first(), c);
        if rest < 0 {
            -1
        } else {
            rest + 1
        }
    }
}

/// The name of the folder directly below the content folder in which `path`
/// lies: the id of the mod in the store. `None` for a file that lies in the
/// content folder itself, or outside it.
pub open spec fn store_folder(path: Seq<char>, content: Seq<char>) -> Option<Seq<char>> {
    if content.len() > 0 && is_inside(path, content) && path.len() > content.len() {
        let rest = path.skip(
            if content.last() == '/' {
                content.len() as int
            } else {
                content.len() as int + 1
            },
        );
        if first_index(rest, '/') > 0 {
            Some(rest.take(first_index(rest, '/')))
        } else {
            None
        }
    } else {
        None
    }
}

/// The name of the folder directly below the content folder in which `path`
/// lies.
pub fn store_folder_of(path: &str, content: &str) -> (r: Option<String>)
    ensures
        r is Some <==> store_folder(path@, content@) is Some,
        r is Some ==> r->0@ == store_folder(path@, content@)->0,
{
    if content.is_empty() || !path_is_inside(path, content) {
        return None;
    }
    let p = chars_of(path);
    let c = chars_of(content);
    if p.len() <= c.len() {
        return None;
    }
    let start: usize = if c[c.len() - 1] == '/' {
        c.len()
    } else {
        c.len() + 1
    };
    let ghost rest = p@.skip(start as int);
    let mut i: usize = start;
    while i < p.len()
        invariant
            start <= i <= p@.len(),
            p@ == path@,
            c@ == content@,
            c@.len() > 0,
            p@.len() > c@.len(),
            is_inside(path@, content@),
            start == if c@.last() == '/' {
                c@.len()
            } else {
                c@.len() + 1
            },
            rest == p@.skip(start as int),
            first_index(rest, '/') == if first_index(p@.skip(i as int), '/') < 0 {
                -1
            } else {
                first_index(p@.skip(i as int), '/') + (i - start)
            },
        decreases p@.len() - i,
    {
        assert(p@.skip(i as int).drop_first() == p@.skip(i + 1));
        assert(p@.skip(i as int)[0] == p@[i as int]);
        if p[i] == '/' {
            if i == start {
                return None;
            }
            let mut name: Vec<char> = Vec::new();
            let mut j: usize = start;
            while j < i
                invariant
                    start <= j <= i < p@.len(),
                    name@ == p@.subrange(start as int, j as int),
                decreases i - j,
            {
                name.push(p[j]);
                assert(p@.subrange(start as int, j + 1) == p@.subrange(start as int, j as int).push(
                    p@[j as int],
                ));
                j += 1;
            }
            assert(rest.take(i - start) == p@.subrange(start as int, i as int));
            return Some(text_of(&name));
        }
        i += 1;
    }
    None
}

/// The pack name that the legacy file name of a mod ends in, if it has one.
pub open spec fn legacy_key(m: ModView) -> Option<Seq<char>> {
    if m.file_name.len() > 0 {
        Some(after_last(m.file_name, '/'))
    } else {
        None
    }
}

/// The legacy pack name of each mod.
pub open spec fn legacy_keys(mods: Seq<ModView>) -> Seq<Option<Seq<char>>> {
    mods.map_values(|m: ModView| legacy_key(m))
}

/// The alternative name of each mod.
pub open spec fn alt_keys(mods: Seq<ModView>) -> Seq<Option<Seq<char>>> {
    mods.map_values(|m: ModView| alt_name_of(m.file_name))
}

/// The mod that a file called `name`, found in `source`, is a copy of: its
/// index, or -1 where the file is a new mod, and whether the mod was found by
/// its legacy file name.
///
/// In the content folder a file belongs to the mod with its name as id. In
/// the secondary folder it belongs to that mod or, failing that, to the first
/// mod with that alternative name. In the data folder the first mod whose
/// legacy file name ends in that name comes before both.
pub open spec fn target(mods: Seq<ModView>, name: Seq<char>, source: Source) -> (int, bool) {
    let by_file = position(legacy_keys(mods), Some(name));
    let by_id = position(ids_of(mods), name);
    let by_alt = position(alt_keys(mods), Some(name));
    match source {
        Source::Content => (by_id, false),
        Source::Secondary => (
            if by_id >= 0 {
                by_id
            } else {
                by_alt
            },
            false,
        ),
        Source::Data => {
            if by_file >= 0 {
                (by_file, true)
            } else if by_id >= 0 {
                (by_id, false)
            } else {
                (by_alt, false)
            }
        },
    }
}

/// The paths of a mod once a copy at `path` was found in `source`. A path
/// that is there already stays where it is. A new one goes to the end if it
/// comes from the content folder, and to the front if not.
pub open spec fn paths_with(paths: Seq<Seq<char>>, path: Seq<char>, source: Source) -> Seq<
    Seq<char>,
> {
    if paths.contains(path) {
        paths
    } else if source == Source::Content {
        paths.push(path)
    } else {
        seq![path] + paths
    }
}

/// A known mod after another copy of it was found. A mod found by its legacy
/// file name keeps its kind.
pub open spec fn seen_again(m: ModView, s: SightingView, source: Source, by_file: bool) -> ModView {
    ModView {
        paths: paths_with(m.paths, s.path, source),
        pack_type: if by_file {
            m.pack_type
        } else {
            s.pack_type
        },
        time_updated: s.modified,
        time_created: match s.created {
            Some(created) => created,
            None => m.time_created,
        },
        store_id: match s.store_tag {
            Some(tag) => if source == Source::Content {
                StoreIdView::Steam(tag)
            } else {
                m.store_id
            },
            None => m.store_id,
        },
        ..m
    }
}

/// The record of a mod that was found for the first time.
pub open spec fn first_seen(s: SightingView, source: Source) -> ModView {
    ModView {
        name: s.name,
        id: s.name,
        store_id: match s.store_tag {
            Some(tag) => if source == Source::Content {
                StoreIdView::Steam(tag)
            } else {
                StoreIdView::Local
            },
            None => StoreIdView::Local,
        },
        enabled: false,
        pack_type: s.pack_type,
        paths: seq![s.path],
        creator: Seq::empty(),
        creator_name: Seq::empty(),
        file_name: Seq::empty(),
        file_size: 0,
        description: Seq::empty(),
        time_created: match s.created {
            Some(created) => created,
            None => 0,
        },
        time_updated: s.modified,
    }
}

/// The mods of the registry once the sighting `s` from `source` is taken in.
pub open spec fn registered(mods: Seq<ModView>, s: SightingView, source: Source) -> Seq<ModView> {
    let (k, by_file) = target(mods, s.name, source);
    if k >= 0 {
        mods.update(k, seen_again(mods[k], s, source, by_file))
    } else {
        mods.push(first_seen(s, source))
    }
}

/// The mods of the registry once the sightings `found`, all from `source`,
/// are taken in one after the other.
pub open spec fn registered_all(mods: Seq<ModView>, found: Seq<SightingView>, source: Source) -> Seq<
    ModView,
>
    decreases found.len(),
{
    if found.len() == 0 {
        mods
    } else {
        registered(registered_all(mods, found.drop_last(), source), found.last(), source)
    }
}

impl GameConfig {
    /// The index of the first mod whose alternative name is `name`.
    pub fn find_by_alt_name(&self, name: &str) -> (r: Option<usize>)
        ensures
            r is None <==> position(alt_keys(self@.mods), Some(name@)) < 0,
            r is Some ==> r->0 as int == position(alt_keys(self@.mods), Some(name@)) && r->0
                < self.mods@.len(),
    {
        let ghost keys = alt_keys(self@.mods);
        let mut i: usize = 0;
        while i < self.mods.len()
            invariant
                i <= self.mods@.len(),
                keys == alt_keys(self@.mods),
                keys.len() == self.mods@.len(),
                forall|j: int| 0 <= j < i ==> keys[j] != Some(name@),
            decreases self.mods@.len() - i,
        {
            assert(keys[i as int] == alt_name_of(self.mods@[i as int]@.file_name));
            let found = match self.mods[i].alt_name() {
                Some(alt) => str_eq(alt.as_str(), name),
                None => false,
            };
            if found {
                proof {
                    lemma_position_is(keys, Some(name@), i as int);
                }
                return Some(i);
            }
            i += 1;
        }
        proof {
            lemma_position_none(keys, Some(name@));
        }
        None
    }

    /// The index of the first mod whose legacy file name ends in `name`.
    pub fn find_by_legacy_file(&self, name: &str) -> (r: Option<usize>)
        ensures
            r is None <==> position(legacy_keys(self@.mods), Some(name@)) < 0,
            r is Some ==> r->0 as int == position(legacy_keys(self@.mods), Some(name@)) && r->0
                < self.mods@.len(),
    {
        let ghost keys = legacy_keys(self@.mods);
        let mut i: usize = 0;
        while i < self.mods.len()
            invariant
                i <= self.mods@.len(),
                keys == legacy_keys(self@.mods),
                keys.len() == self.mods@.len(),
                forall|j: int| 0 <= j < i ==> keys[j] != Some(name@),
            decreases self.mods@.len() - i,
        {
            assert(keys[i as int] == legacy_key(self.mods@[i as int]@));
            let found = if self.mods[i].file_name.as_str().is_empty() {
                false
            } else {
                let last = text_after_last(self.mods[i].file_name.as_str(), '/');
                str_eq(last.as_str(), name)
            };
            if found {
                proof {
                    lemma_position_is(keys, Some(name@), i as int);
                }
                return Some(i);
            }
            i += 1;
        }
        proof {
            lemma_position_none(keys, Some(name@));
        }
        None
    }

    /// The mod that a file called `name`, found in `source`, is a copy of, and
    /// whether it was found by its legacy file name.
    pub fn find_target(&self, name: &str, source: Source) -> (r: (Option<usize>, bool))
        ensures
            r.0 is None <==> target(self@.mods, name@, source).0 < 0,
            r.0 is Some ==> r.0->0 as int == target(self@.mods, name@, source).0 && r.0->0
                < self.mods@.len(),
            r.1 == target(self@.mods, name@, source).1,
    {
        match source {
            Source::Content => (self.find_mod(name), false),
            Source::Secondary => {
                match self.find_mod(name) {
                    Some(k) => (Some(k), false),
                    None => (self.find_by_alt_name(name), false),
                }
            },
            Source::Data => {
                match self.find_by_legacy_file(name) {
                    Some(k) => (Some(k), true),
                    None => {
                        match self.find_mod(name) {
                            Some(k) => (Some(k), false),
                            None => (self.find_by_alt_name(name), false),
                        }
                    },
                }
            },
        }
    }

    /// Takes one sighting in: the mod it is a copy of gets the path, the kind
    /// and the dates of the file; a file that is a copy of no known mod
    /// becomes a new mod at the end of the registry.
    pub fn register(&mut self, s: &Sighting, source: Source)
        ensures
            final(self)@ == (GameConfigView {
                mods: registered(old(self)@.mods, s@, source),
                ..old(self)@
            }),
            old(self)@.wf() ==> final(self)@.wf(),
    {
        let ghost before = self@;
        proof {
            if before.wf() {
                lemma_registered_keeps_ids_apart(before.mods, s@, source);
            }
        }
        let (found, by_file) = self.find_target(s.name.as_str(), source);
        match found {
            Some(k) => {
                let ghost m = before.mods[k as int];
                assert(m == self.mods@[k as int]@);
                let ghost old_paths = self.mods@[k as int].paths.deep_view();
                if !contains_text(&self.mods[k].paths, s.path.as_str()) {
                    if source == Source::Content {
                        self.mods[k].paths.push(s.path.clone());
                        assert(self.mods@[k as int].paths.deep_view() =~= old_paths.push(s.path@));
                    } else {
                        self.mods[k].paths.insert(0, s.path.clone());
                        assert(self.mods@[k as int].paths.deep_view() =~= seq![s.path@]
                            + old_paths);
                    }
                }
                if !by_file {
                    self.mods[k].pack_type = s.pack_type;
                }
                self.mods[k].time_updated = s.modified;
                if let Some(created) = s.created {
                    self.mods[k].time_created = created;
                }
                if source == Source::Content {
                    if let Some(tag) = &s.store_tag {
                        self.mods[k].store_id = StoreId::Steam(tag.clone());
                    }
                }
                proof {
                    assert(self.mods@[k as int]@ == seen_again(m, s@, source, by_file));
                    assert(self@.mods =~= before.mods.update(
                        k as int,
                        seen_again(m, s@, source, by_file),
                    ));
                    assert(self@.categories =~= before.categories);
                    assert(self@.categories_order =~= before.categories_order);
                }
            },
            None => {
                let mut paths: Vec<String> = Vec::new();
                paths.push(s.path.clone());
                let store_id = match &s.store_tag {
                    Some(tag) => {
                        if source == Source::Content {
                            StoreId::Steam(tag.clone())
                        } else {
                            StoreId::Local
                        }
                    },
                    None => StoreId::Local,
                };
                let fresh = Mod {
                    name: s.name.clone(),
                    id: s.name.clone(),
                    store_id,
                    enabled: false,
                    pack_type: s.pack_type,
                    paths,
                    creator: String::new(),
                    creator_name: String::new(),
                    file_name: String::new(),
                    file_size: 0,
                    description: String::new(),
                    time_created: match s.created {
                        Some(created) => created,
                        None => 0,
                    },
                    time_updated: s.modified,
                };
                proof {
                    assert(fresh.paths.deep_view() =~= seq![s.path@]);
                    assert(fresh@ == first_seen(s@, source));
                }
                self.mods.push(fresh);
                proof {
                    assert(self@.mods =~= before.mods.push(first_seen(s@, source)));
                    assert(self@.categories =~= before.categories);
                    assert(self@.categories_order =~= before.categories_order);
                }
            },
        }
    }
}

/// A scan that was given up: the dates of a file that counts as a mod could
/// not be read.
#[derive(Debug, PartialEq, Eq)]
pub struct ScanError {
    /// The file whose dates could not be read.
    pub path: String,
}

impl ScanError {
    /// The failure in words.
    pub fn message(&self) -> (r: String)
        ensures
            r@ == "Could not read the dates of "@ + self.path@,
    {
        let mut text = "Could not read the dates of ".to_owned();
        text.append(self.path.as_str());
        text
    }
}

/// Whether a file found in `source` counts as a mod: it is of a kind that
/// does, it does not bear a name the launcher keeps for itself, and outside
/// the content folder it is not a pack of the game itself.
pub open spec fn counts(f: FoundFileView, source: Source, vanilla: Seq<Seq<char>>) -> bool {
    kind_of(f.probe, file_name(f.path), source) is Some && !is_reserved_name(file_name(f.path))
        && (source == Source::Content || !vanilla.contains(f.path))
}

/// What the registry takes from a file that counts as a mod.
pub open spec fn sighting_of(f: FoundFileView, source: Source, content_path: Seq<char>) -> SightingView {
    SightingView {
        path: f.path,
        name: file_name(f.path),
        pack_type: kind_of(f.probe, file_name(f.path), source)->0,
        modified: f.modified->0,
        created: f.created,
        store_tag: if source == Source::Content {
            store_folder(f.path, content_path)
        } else {
            None
        },
    }
}

/// The test that a file found in `source` counts as a mod.
pub open spec fn counting(source: Source, vanilla: Seq<Seq<char>>) -> spec_fn(FoundFileView) -> bool {
    |f: FoundFileView| counts(f, source, vanilla)
}

/// The test that a file found in `source` counts as a mod and comes without
/// the date of its last change.
pub open spec fn lacking_date(source: Source, vanilla: Seq<Seq<char>>) -> spec_fn(
    FoundFileView,
) -> bool {
    |f: FoundFileView| counts(f, source, vanilla) && f.modified is None
}

/// What the registry takes from each file found in `source`.
pub open spec fn as_sighting(source: Source, content_path: Seq<char>) -> spec_fn(
    FoundFileView,
) -> SightingView {
    |f: FoundFileView| sighting_of(f, source, content_path)
}

/// The sightings among the files found in `source`, in the order of the
/// files.
pub open spec fn sightings(
    files: Seq<FoundFileView>,
    source: Source,
    vanilla: Seq<Seq<char>>,
    content_path: Seq<char>,
) -> Seq<SightingView> {
    files.filter(counting(source, vanilla)).map_values(as_sighting(source, content_path))
}

/// The files that count as mods and come without the date of their last
/// change.
pub open spec fn undated(files: Seq<FoundFileView>, source: Source, vanilla: Seq<Seq<char>>) -> Seq<
    FoundFileView,
> {
    files.filter(lacking_date(source, vanilla))
}

/// The store ids that the sightings carry, in their order.
pub open spec fn tags_of(found: Seq<SightingView>) -> Seq<Seq<char>> {
    found.filter(|s: SightingView| s.store_tag is Some).map_values(
        |s: SightingView| s.store_tag->0,
    )
}

impl ScanReportView {
    /// The files of the whole report that count as mods and come without the
    /// date of their last change: content first, then secondary, then data.
    pub open spec fn all_undated(self) -> Seq<FoundFileView> {
        undated(self.content, Source::Content, self.vanilla) + undated(
            self.secondary,
            Source::Secondary,
            self.vanilla,
        ) + undated(self.data, Source::Data, self.vanilla)
    }

    /// The sightings in one of the three folders.
    pub open spec fn sightings_in(self, source: Source) -> Seq<SightingView> {
        sightings(
            match source {
                Source::Content => self.content,
                Source::Secondary => self.secondary,
                Source::Data => self.data,
            },
            source,
            self.vanilla,
            self.content_path,
        )
    }
}

/// The mods with every path forgotten.
pub open spec fn without_paths(mods: Seq<ModView>) -> Seq<ModView> {
    mods.map_values(|m: ModView| ModView { paths: Seq::empty(), ..m })
}

/// The mods of a registry after a scan: every path is forgotten, then the
/// sightings are taken in, folder by folder, content first and data last.
pub open spec fn rescanned_mods(mods: Seq<ModView>, scan: ScanReportView) -> Seq<ModView> {
    registered_all(
        registered_all(
            registered_all(
                without_paths(mods),
                scan.sightings_in(Source::Content),
                Source::Content,
            ),
            scan.sightings_in(Source::Secondary),
            Source::Secondary,
        ),
        scan.sightings_in(Source::Data),
        Source::Data,
    )
}

impl GameConfigView {
    /// The registry after a scan, with its categories put in order.
    pub open spec fn rescanned(self, scan: ScanReportView) -> GameConfigView {
        (GameConfigView { mods: rescanned_mods(self.mods, scan), ..self }).tidied()
    }
}

/// Whether `name` is one of the two names the launcher keeps for itself.
pub fn is_reserved(name: &str) -> (r: bool)
    ensures
        r == is_reserved_name(name@),
{
    str_eq(name, RESERVED_PACK_NAME) || str_eq(name, RESERVED_PACK_NAME_ALTERNATIVE)
}

/// The sightings among the files found in `source`; or the first file that
/// counts as a mod and comes without the date of its last change.
pub fn collect_sightings(
    files: &Vec<FoundFile>,
    source: Source,
    vanilla: &Vec<String>,
    content_path: &str,
) -> (r: Result<Vec<Sighting>, ScanError>)
    ensures
        r is Err <==> undated(files.deep_view(), source, vanilla.deep_view()).len() > 0,
        r is Err ==> r->Err_0.path@ == undated(files.deep_view(), source, vanilla.deep_view())[0].path,
        r is Ok ==> r->Ok_0.deep_view() == sightings(
            files.deep_view(),
            source,
            vanilla.deep_view(),
            content_path@,
        ),
{
    let ghost src = files.deep_view();
    let ghost van = vanilla.deep_view();
    let ghost pred = counting(source, van);
    let ghost bad = lacking_date(source, van);
    let ghost to_sighting = as_sighting(source, content_path@);
    let mut out: Vec<Sighting> = Vec::new();
    let mut i: usize = 0;
    proof {
        lemma_filter_empty(src.take(0), pred);
        lemma_filter_empty(src.take(0), bad);
        assert(out.deep_view() =~= src.take(0).filter(pred).map_values(to_sighting));
    }
    while i < files.len()
        invariant
            i <= files@.len(),
            src == files.deep_view(),
            van == vanilla.deep_view(),
            pred == counting(source, van),
            bad == lacking_date(source, van),
            to_sighting == as_sighting(source, content_path@),
            src.take(i as int).filter(bad).len() == 0,
            out.deep_view() == src.take(i as int).filter(pred).map_values(to_sighting),
        decreases files@.len() - i,
    {
        proof {
            lemma_filter_step(src, pred, i as int);
            lemma_filter_step(src, bad, i as int);
        }
        let f = &files[i];
        assert(f@ == src[i as int]);
        let name = file_name_of(f.path.as_str());
        let kind = classify(&f.probe, name.as_str(), source);
        let is_mod = kind.is_some() && !is_reserved(name.as_str()) && (source == Source::Content
            || !contains_text(vanilla, f.path.as_str()));
        if is_mod {
            match f.modified {
                None => {
                    proof {
                        let head = src.take(i + 1);
                        let tail = src.skip(i + 1);
                        assert(src =~= head + tail);
                        Seq::filter_distributes_over_add(head, tail, bad);
                        assert(head.filter(bad) =~= seq![f@]);
                        assert(src.filter(bad)[0] == f@);
                    }
                    return Err(ScanError { path: f.path.clone() });
                },
                Some(modified) => {
                    let store_tag = if source == Source::Content {
                        store_folder_of(f.path.as_str(), content_path)
                    } else {
                        None
                    };
                    let ghost before = out.deep_view();
                    let sighting = Sighting {
                        path: f.path.clone(),
                        name,
                        pack_type: kind.unwrap(),
                        modified,
                        created: f.created,
                        store_tag,
                    };
                    assert(sighting@ == sighting_of(f@, source, content_path@));
                    out.push(sighting);
                    proof {
                        assert(out.deep_view() =~= before.push(sighting_of(f@, source, content_path@)));
                        assert(src.take(i as int).filter(pred).push(f@).map_values(to_sighting)
                            =~= src.take(i as int).filter(pred).map_values(to_sighting).push(
                            sighting_of(f@, source, content_path@),
                        ));
                    }
                },
            }
        }
        i += 1;
    }
    proof {
        lemma_take_all(src);
    }
    Ok(out)
}

/// The store ids that the sightings carry, in their order.
pub fn store_tags(found: &Vec<Sighting>) -> (r: Vec<String>)
    ensures
        r.deep_view() == tags_of(found.deep_view()),
{
    let ghost src = found.deep_view();
    let ghost pred = |s: SightingView| s.store_tag is Some;
    let ghost to_tag = |s: SightingView| s.store_tag->0;
    let mut out: Vec<String> = Vec::new();
    let mut i: usize = 0;
    proof {
        lemma_filter_empty(src.take(0), pred);
        assert(out.deep_view() =~= src.take(0).filter(pred).map_values(to_tag));
    }
    while i < found.len()
        invariant
            i <= found@.len(),
            src == found.deep_view(),
            pred == (|s: SightingView| s.store_tag is Some),
            to_tag == (|s: SightingView| s.store_tag->0),
            out.deep_view() == src.take(i as int).filter(pred).map_values(to_tag),
        decreases found@.len() - i,
    {
        proof {
            lemma_filter_step(src, pred, i as int);
        }
        assert(found@[i as int]@ == src[i as int]);
        let ghost before = out.deep_view();
        if let Some(tag) = &found[i].store_tag {
            out.push(tag.clone());
            proof {
                assert(out.deep_view() =~= before.push(src[i as int].store_tag->0));
                assert(src.take(i as int).filter(pred).push(src[i as int]).map_values(to_tag)
                    =~= src.take(i as int).filter(pred).map_values(to_tag).push(
                    src[i as int].store_tag->0,
                ));
            }
        }
        i += 1;
    }
    proof {
        lemma_take_all(src);
    }
    out
}

impl GameConfig {
    /// Forgets where the mods lie on disk.
    pub fn forget_paths(&mut self)
        ensures
            final(self)@ == (GameConfigView {
                mods: without_paths(old(self)@.mods),
                ..old(self)@
            }),
            old(self)@.wf() ==> final(self)@.wf(),
    {
        let ghost before = self@;
        let mut i: usize = 0;
        while i < self.mods.len()
            invariant
                i <= self.mods@.len(),
                self.mods@.len() == before.mods.len(),
                self@.game_key == before.game_key,
                self@.categories == before.categories,
                self@.categories_order == before.categories_order,
                forall|j: int| 0 <= j < i ==> self@.mods[j] == without_paths(before.mods)[j],
                forall|j: int| i <= j < self.mods@.len() ==> self@.mods[j] == before.mods[j],
            decreases self.mods@.len() - i,
        {
            let ghost now = self@;
            self.mods[i].paths.clear();
            proof {
                assert(self.mods@[i as int].paths.deep_view() =~= Seq::empty());
                assert(self@.categories =~= now.categories);
                assert(self@.categories_order =~= now.categories_order);
                assert forall|j: int| 0 <= j < i implies self@.mods[j] == without_paths(
                    before.mods,
                )[j] by {
                    assert(self@.mods[j] == now.mods[j]);
                }
                assert forall|j: int| i < j < self.mods@.len() implies self@.mods[j]
                    == before.mods[j] by {
                    assert(self@.mods[j] == now.mods[j]);
                }
            }
            i += 1;
        }
        assert(self@.mods =~= without_paths(before.mods));
        assert(ids_of(without_paths(before.mods)) =~= ids_of(before.mods));
    }

    /// Takes the sightings in, one after the other.
    pub fn register_all(&mut self, found: &Vec<Sighting>, source: Source)
        ensures
            final(self)@ == (GameConfigView {
                mods: registered_all(old(self)@.mods, found.deep_view(), source),
                ..old(self)@
            }),
            old(self)@.wf() ==> final(self)@.wf(),
    {
        let ghost before = self@;
        let ghost src = found.deep_view();
        let mut i: usize = 0;
        assert(src.take(0) =~= Seq::empty());
        while i < found.len()
            invariant
                i <= found@.len(),
                src == found.deep_view(),
                self@ == (GameConfigView {
                    mods: registered_all(before.mods, src.take(i as int), source),
                    ..before
                }),
                before.wf() ==> self@.wf(),
            decreases found@.len() - i,
        {
            assert(src.take(i + 1).drop_last() == src.take(i as int));
            assert(src.take(i + 1).last() == found@[i as int]@);
            self.register(&found[i], source);
            i += 1;
        }
        proof {
            lemma_take_all(src);
        }
    }

    /// Brings the registry and the load order up to date with what a walk
    /// over the folders of the game has found.
    ///
    /// Every mod forgets its paths and gets them anew from the report, folder
    /// by folder: content first, then secondary, then data, so that the copy
    /// that wins stands first. Then the categories are put in order and the
    /// load order is resolved. Returns the store ids found in the content
    /// folder, for which the store can be asked.
    ///
    /// Where a file that counts as a mod comes without the date of its last
    /// change, nothing is changed and the file is named in the error.
    ///
    /// Afterwards the reserved category closes the order of the categories,
    /// and in a registry in which no id names two mods exactly the mods on
    /// disk are in a category.
    pub fn update_mod_list(
        &mut self,
        game: &GameTraits,
        game_data_path: &str,
        report: &ScanReport,
        load_order: &mut LoadOrder,
    ) -> (r: Result<Vec<String>, ScanError>)
        ensures
            r is Err <==> report@.all_undated().len() > 0,
            r is Err ==> r->Err_0.path@ == report@.all_undated()[0].path && final(self)@ == old(
                self,
            )@ && final(load_order)@ == old(load_order)@,
            r is Ok ==> final(self)@ == old(self)@.rescanned(report@),
            r is Ok ==> final(load_order)@ == old(load_order)@.resolved(
                final(self)@,
                game@,
                game_data_path@,
            ),
            r is Ok ==> r->Ok_0.deep_view() == tags_of(report@.sightings_in(Source::Content)),
            r is Ok ==> final(self)@.default_is_last(),
            old(self)@.wf() ==> final(self)@.wf(),
            r is Ok && old(self)@.wf() ==> forall|i: int|
                0 <= i < final(self)@.mods.len() ==> ((#[trigger] final(self)@.mods[i]).paths.len()
                    > 0 <==> in_some_category(final(self)@.categories, final(self)@.mods[i].id)),
    {
        let ghost before = self@;
        let content_path = report.content_path.as_str();
        let content = match collect_sightings(
            &report.content,
            Source::Content,
            &report.vanilla,
            content_path,
        ) {
            Ok(found) => found,
            Err(e) => {
                return Err(e);
            },
        };
        let secondary = match collect_sightings(
            &report.secondary,
            Source::Secondary,
            &report.vanilla,
            content_path,
        ) {
            Ok(found) => found,
            Err(e) => {
                return Err(e);
            },
        };
        let data = match collect_sightings(
            &report.data,
            Source::Data,
            &report.vanilla,
            content_path,
        ) {
            Ok(found) => found,
            Err(e) => {
                return Err(e);
            },
        };
        self.forget_paths();
        self.register_all(&content, Source::Content);
        self.register_all(&secondary, Source::Secondary);
        self.register_all(&data, Source::Data);
        self.tidy_categories();
        proof {
            if before.wf() {
                assert forall|i: int| 0 <= i < self@.mods.len() implies ((#[trigger] self@.mods[i]).paths.len()
                    > 0 <==> in_some_category(self@.categories, self@.mods[i].id)) by {
                    lemma_rescanned_is_tidy(before, report@, i);
                }
            }
        }
        load_order.update(self, game, game_data_path);
        Ok(store_tags(&content))
    }
}

/// Taking a sighting in never gives two mods the same id.
pub proof fn lemma_registered_keeps_ids_apart(mods: Seq<ModView>, s: SightingView, source: Source)
    requires
        ids_of(mods).no_duplicates(),
    ensures
        ids_of(registered(mods, s, source)).no_duplicates(),
{
    let (k, by_file) = target(mods, s.name, source);
    lemma_position(ids_of(mods), s.name);
    lemma_position(alt_keys(mods), Some(s.name));
    lemma_position(legacy_keys(mods), Some(s.name));
    if k >= 0 {
        assert(ids_of(registered(mods, s, source)) =~= ids_of(mods));
    } else {
        assert(ids_of(registered(mods, s, source)) =~= ids_of(mods).push(s.name));
    }
}

/// Taking sightings in never gives two mods the same id.
pub proof fn lemma_registered_all_keeps_ids_apart(
    mods: Seq<ModView>,
    found: Seq<SightingView>,
    source: Source,
)
    requires
        ids_of(mods).no_duplicates(),
    ensures
        ids_of(registered_all(mods, found, source)).no_duplicates(),
    decreases found.len(),
{
    if found.len() > 0 {
        lemma_registered_all_keeps_ids_apart(mods, found.drop_last(), source);
        lemma_registered_keeps_ids_apart(
            registered_all(mods, found.drop_last(), source),
            found.last(),
            source,
        );
    }
}

/// After a scan no id names two mods, the reserved category closes the order
/// of the categories, and exactly the installed mods are in a category: a mod
/// without a copy on disk is in none. If no mod was in two categories
/// before, none is after, so that every installed mod is in exactly one.
pub proof fn lemma_rescanned_is_tidy(c: GameConfigView, scan: ScanReportView, i: int)
    requires
        c.ids().no_duplicates(),
        0 <= i < c.rescanned(scan).mods.len(),
    ensures
        c.rescanned(scan).ids().no_duplicates(),
        c.rescanned(scan).default_is_last(),
        c.rescanned(scan).mods[i].paths.len() > 0 <==> in_some_category(
            c.rescanned(scan).categories,
            c.rescanned(scan).mods[i].id,
        ),
        holds_once(c.categories) ==> holds_once(c.rescanned(scan).categories),
{
    let cleared = without_paths(c.mods);
    assert(ids_of(cleared) =~= ids_of(c.mods));
    let first = registered_all(cleared, scan.sightings_in(Source::Content), Source::Content);
    lemma_registered_all_keeps_ids_apart(
        cleared,
        scan.sightings_in(Source::Content),
        Source::Content,
    );
    let second = registered_all(first, scan.sightings_in(Source::Secondary), Source::Secondary);
    lemma_registered_all_keeps_ids_apart(
        first,
        scan.sightings_in(Source::Secondary),
        Source::Secondary,
    );
    lemma_registered_all_keeps_ids_apart(second, scan.sightings_in(Source::Data), Source::Data);
    let merged = GameConfigView { mods: rescanned_mods(c.mods, scan), ..c };
    lemma_tidied_holds_the_installed(merged, i);
    lemma_default_stays_last(merged, Seq::empty(), Seq::empty());
    if holds_once(c.categories) {
        lemma_tidied_holds_once(merged);
    }
}

/// A copy found in the secondary folder wins over the copy found in the
/// content folder: once both are taken in, the mod has the path of the
/// secondary copy first, and that of the content copy behind it.
pub proof fn lemma_secondary_copy_wins(
    mods: Seq<ModView>,
    content: SightingView,
    secondary: SightingView,
)
    requires
        content.name == secondary.name,
        content.path != secondary.path,
        forall|i: int| 0 <= i < mods.len() ==> !(#[trigger] mods[i]).paths.contains(secondary.path),
    ensures
        ({
            let after = registered(
                registered(mods, content, Source::Content),
                secondary,
                Source::Secondary,
            );
            let k = position(ids_of(after), content.name);
            &&& 0 <= k < after.len()
            &&& position(after[k].paths, secondary.path) == 0
            &&& position(after[k].paths, content.path) > 0
        }),
{
    let name = content.name;
    let first = registered(mods, content, Source::Content);
    let after = registered(first, secondary, Source::Secondary);
    lemma_position(ids_of(mods), name);
    let at = position(ids_of(mods), name);
    let k = if at >= 0 {
        at
    } else {
        mods.len() as int
    };
    if at >= 0 {
        assert(ids_of(first) =~= ids_of(mods));
        assert(first[k].paths == paths_with(mods[k].paths, content.path, Source::Content));
        if !mods[k].paths.contains(content.path) {
            assert(first[k].paths[mods[k].paths.len() as int] == content.path);
        }
    } else {
        assert(ids_of(first) =~= ids_of(mods).push(name));
        assert(first[k].paths[0] == content.path);
        assert forall|j: int| 0 <= j < k implies ids_of(first)[j] != name by {
            assert(ids_of(mods)[j] != name);
        }
    }
    assert(ids_of(first)[k] == name);
    assert(first[k].paths.contains(content.path));
    lemma_position_is(ids_of(first), name, k);
    assert(!first[k].paths.contains(secondary.path)) by {
        if first[k].paths.contains(secondary.path) {
            let j = choose|j: int| 0 <= j < first[k].paths.len() && first[k].paths[j]
                == secondary.path;
            if at >= 0 {
                if j < mods[k].paths.len() {
                    assert(mods[k].paths[j] == secondary.path);
                    assert(mods[k].paths.contains(secondary.path));
                }
            }
        }
    }
    assert(ids_of(after) =~= ids_of(first));
    assert(after[k].paths =~= seq![secondary.path] + first[k].paths);
    lemma_position_is(after[k].paths, secondary.path, 0);
    lemma_position(after[k].paths, content.path);
    let j = choose|j: int| 0 <= j < first[k].paths.len() && first[k].paths[j] == content.path;
    assert(after[k].paths[j + 1] == content.path);
    assert(after[k].paths.contains(content.path));
}

/// Whether `b` is among the paths, and `a`, if it is among them, before it.
pub open spec fn stands_before(paths: Seq<Seq<char>>, a: Seq<char>, b: Seq<char>) -> bool {
    paths.contains(b) && (paths.contains(a) ==> position(paths, a) < position(paths, b))
}

/// The paths of a mod once a copy was found hold what they held, and the
/// path of the copy.
pub proof fn lemma_paths_with(paths: Seq<Seq<char>>, p: Seq<char>, source: Source, x: Seq<char>)
    ensures
        paths_with(paths, p, source).contains(x) <==> paths.contains(x) || x == p,
{
    let after = paths_with(paths, p, source);
    if !paths.contains(p) {
        if source == Source::Content {
            assert(after[paths.len() as int] == p);
            if paths.contains(x) {
                let j = choose|j: int| 0 <= j < paths.len() && paths[j] == x;
                assert(after[j] == x);
            }
            if after.contains(x) {
                let j = choose|j: int| 0 <= j < after.len() && after[j] == x;
                if j < paths.len() {
                    assert(paths[j] == x);
                }
            }
        } else {
            assert(after[0] == p);
            if paths.contains(x) {
                let j = choose|j: int| 0 <= j < paths.len() && paths[j] == x;
                assert(after[j + 1] == x);
            }
            if after.contains(x) {
                let j = choose|j: int| 0 <= j < after.len() && after[j] == x;
                if j > 0 {
                    assert(paths[j - 1] == x);
                }
            }
        }
    }
}

/// A copy found outside the content folder goes before every path the mod
/// had: what stood before a path still does, and a new path stands first.
pub proof fn lemma_front_keeps_order(
    paths: Seq<Seq<char>>,
    p: Seq<char>,
    source: Source,
    a: Seq<char>,
    b: Seq<char>,
)
    requires
        stands_before(paths, a, b),
        source != Source::Content,
    ensures
        stands_before(paths_with(paths, p, source), a, b),
        !paths.contains(p) ==> paths_with(paths, p, source)[0] == p,
{
    let after = paths_with(paths, p, source);
    lemma_position(paths, a);
    lemma_position(paths, b);
    if !paths.contains(p) {
        let kb = position(paths, b);
        assert(after[kb + 1] == b);
        assert forall|j: int| 0 <= j < kb + 1 implies after[j] != b by {
            if j > 0 {
                assert(after[j] == paths[j - 1]);
            }
        }
        lemma_position_is(after, b, kb + 1);
        lemma_position(after, b);
        lemma_paths_with(paths, p, source, a);
        if after.contains(a) {
            if a == p {
                lemma_position_is(after, a, 0);
            } else {
                let ka = position(paths, a);
                assert(after[ka + 1] == a);
                assert forall|j: int| 0 <= j < ka + 1 implies after[j] != a by {
                    if j > 0 {
                        assert(after[j] == paths[j - 1]);
                    }
                }
                lemma_position_is(after, a, ka + 1);
            }
        }
    }
}

/// What taking a sighting in does to the registry: the mod it is a copy of
/// gets the path, and every other mod stays as it is; a sighting that is a
/// copy of no mod adds one mod at the end.
pub proof fn lemma_registered_shape(mods: Seq<ModView>, s: SightingView, source: Source)
    ensures
        -1 <= target(mods, s.name, source).0 < mods.len(),
        target(mods, s.name, source).0 >= 0 ==> registered(mods, s, source).len() == mods.len(),
        target(mods, s.name, source).0 < 0 ==> registered(mods, s, source) == mods.push(
            first_seen(s, source),
        ) && position(ids_of(mods), s.name) < 0,
        forall|j: int|
            0 <= j < mods.len() ==> (#[trigger] registered(mods, s, source)[j]).id == mods[j].id
                && registered(mods, s, source)[j].file_name == mods[j].file_name
                && registered(mods, s, source)[j].paths == if j == target(
                mods,
                s.name,
                source,
            ).0 {
                paths_with(mods[j].paths, s.path, source)
            } else {
                mods[j].paths
            },
{
    lemma_position(ids_of(mods), s.name);
    lemma_position(alt_keys(mods), Some(s.name));
    lemma_position(legacy_keys(mods), Some(s.name));
}

/// Where the keys stand once a sighting is taken in: a mod keeps the place
/// of its id, and no mod gets a legacy name or an alternative name. An id
/// without a mod gets one only through a sighting of that name that is a
/// copy of no mod.
pub proof fn lemma_registered_positions(
    mods: Seq<ModView>,
    s: SightingView,
    source: Source,
    x: Seq<char>,
)
    ensures
        position(ids_of(mods), x) >= 0 ==> position(ids_of(registered(mods, s, source)), x)
            == position(ids_of(mods), x),
        position(ids_of(mods), x) < 0 && (s.name != x || target(mods, s.name, source).0 >= 0)
            ==> position(ids_of(registered(mods, s, source)), x) < 0,
        position(alt_keys(registered(mods, s, source)), Some(x)) == position(
            alt_keys(mods),
            Some(x),
        ),
        position(legacy_keys(registered(mods, s, source)), Some(x)) == position(
            legacy_keys(mods),
            Some(x),
        ),
{
    let after = registered(mods, s, source);
    lemma_registered_shape(mods, s, source);
    if target(mods, s.name, source).0 >= 0 {
        assert(ids_of(after) =~= ids_of(mods));
        assert(alt_keys(after) =~= alt_keys(mods));
        assert(legacy_keys(after) =~= legacy_keys(mods));
    } else {
        assert(ids_of(after).drop_last() =~= ids_of(mods));
        assert(alt_keys(after).drop_last() =~= alt_keys(mods));
        assert(legacy_keys(after).drop_last() =~= legacy_keys(mods));
        assert(ids_of(after).last() == s.name);
        assert(alt_keys(after).last() == None::<Seq<char>>);
        assert(legacy_keys(after).last() == None::<Seq<char>>);
    }
}

/// What holds of a registry and is kept by every sighting holds once all
/// sightings are taken in.
pub proof fn lemma_registered_all_keeps(
    mods: Seq<ModView>,
    found: Seq<SightingView>,
    source: Source,
    inv: spec_fn(Seq<ModView>) -> bool,
)
    requires
        inv(mods),
        forall|m: Seq<ModView>, i: int|
            0 <= i < found.len() && inv(m) ==> inv(#[trigger] registered(m, found[i], source)),
    ensures
        inv(registered_all(mods, found, source)),
    decreases found.len(),
{
    if found.len() > 0 {
        let front = found.drop_last();
        assert forall|m: Seq<ModView>, i: int| 0 <= i < front.len() && inv(m) implies inv(
            #[trigger] registered(m, front[i], source),
        ) by {
            assert(front[i] == found[i]);
        }
        lemma_registered_all_keeps(mods, front, source, inv);
        assert(found.last() == found[found.len() - 1]);
    }
}

/// What one of the sightings brings about, and every sighting keeps, holds
/// once all sightings are taken in.
pub proof fn lemma_registered_all_reaches(
    mods: Seq<ModView>,
    found: Seq<SightingView>,
    source: Source,
    at: int,
    inv: spec_fn(Seq<ModView>) -> bool,
    goal: spec_fn(Seq<ModView>) -> bool,
)
    requires
        0 <= at < found.len(),
        inv(mods),
        forall|m: Seq<ModView>, i: int|
            0 <= i < found.len() && inv(m) ==> inv(#[trigger] registered(m, found[i], source)),
        forall|m: Seq<ModView>| inv(m) ==> goal(#[trigger] registered(m, found[at], source)),
        forall|m: Seq<ModView>, i: int|
            0 <= i < found.len() && inv(m) && goal(m) ==> goal(
                #[trigger] registered(m, found[i], source),
            ),
    ensures
        inv(registered_all(mods, found, source)),
        goal(registered_all(mods, found, source)),
    decreases found.len(),
{
    let front = found.drop_last();
    assert forall|m: Seq<ModView>, i: int| 0 <= i < front.len() && inv(m) implies inv(
        #[trigger] registered(m, front[i], source),
    ) by {
        assert(front[i] == found[i]);
    }
    assert(found.last() == found[found.len() - 1]);
    if at == found.len() - 1 {
        lemma_registered_all_keeps(mods, front, source, inv);
    } else {
        assert(front[at] == found[at]);
        assert forall|m: Seq<ModView>, i: int|
            0 <= i < front.len() && inv(m) && goal(m) implies goal(
            #[trigger] registered(m, front[i], source),
        ) by {
            assert(front[i] == found[i]);
        }
        lemma_registered_all_reaches(mods, front, source, at, inv, goal);
    }
}

/// A copy found in the secondary folder wins over the copy found in the
/// content folder, whatever else a scan finds: where the content folder and
/// the secondary folder each hold a file of the same name, the mod of that
/// name has both paths after the scan, the secondary one before the content
/// one.
pub proof fn lemma_scan_puts_secondary_before_content(
    mods: Seq<ModView>,
    scan: ScanReportView,
    in_content: int,
    in_secondary: int,
)
    requires
        0 <= in_content < scan.sightings_in(Source::Content).len(),
        0 <= in_secondary < scan.sightings_in(Source::Secondary).len(),
        scan.sightings_in(Source::Content)[in_content].name == scan.sightings_in(
            Source::Secondary,
        )[in_secondary].name,
        forall|j: int|
            0 <= j < scan.sightings_in(Source::Content).len() ==> (#[trigger] scan.sightings_in(
                Source::Content,
            )[j]).path != scan.sightings_in(Source::Secondary)[in_secondary].path,
    ensures
        ({
            let after = rescanned_mods(mods, scan);
            let name = scan.sightings_in(Source::Content)[in_content].name;
            let k = position(ids_of(after), name);
            &&& 0 <= k < after.len()
            &&& stands_before(
                after[k].paths,
                scan.sightings_in(Source::Secondary)[in_secondary].path,
                scan.sightings_in(Source::Content)[in_content].path,
            )
            &&& after[k].paths.contains(scan.sightings_in(Source::Secondary)[in_secondary].path)
        }),
{
    let content = scan.sightings_in(Source::Content);
    let secondary = scan.sightings_in(Source::Secondary);
    let data = scan.sightings_in(Source::Data);
    let name = content[in_content].name;
    let c = content[in_content].path;
    let s = secondary[in_secondary].path;
    let start = without_paths(mods);

    // The content folder: no mod gets the secondary path, and the mod of
    // that name gets the content path.
    let lacks = |m: Seq<ModView>| forall|j: int| 0 <= j < m.len() ==> !(#[trigger] m[j]).paths.contains(s);
    let has_content = |m: Seq<ModView>|
        0 <= position(ids_of(m), name) < m.len() && m[position(ids_of(m), name)].paths.contains(c);
    assert(lacks(start)) by {
        assert forall|j: int| 0 <= j < start.len() implies !(#[trigger] start[j]).paths.contains(
            s,
        ) by {
            assert(start[j].paths =~= Seq::empty());
        }
    }
    assert forall|m: Seq<ModView>, i: int| 0 <= i < content.len() && lacks(m) implies lacks(
        #[trigger] registered(m, content[i], Source::Content),
    ) by {
        let next = registered(m, content[i], Source::Content);
        lemma_registered_shape(m, content[i], Source::Content);
        assert forall|j: int| 0 <= j < next.len() implies !(#[trigger] next[j]).paths.contains(
            s,
        ) by {
            if j < m.len() {
                assert(!m[j].paths.contains(s));
                lemma_paths_with(m[j].paths, content[i].path, Source::Content, s);
            } else {
                lemma_paths_with(Seq::empty(), content[i].path, Source::Content, s);
                assert(next[j].paths =~= paths_with(
                    Seq::empty(),
                    content[i].path,
                    Source::Content,
                ));
            }
        }
    }
    assert forall|m: Seq<ModView>| lacks(m) implies has_content(
        #[trigger] registered(m, content[in_content], Source::Content),
    ) by {
        let next = registered(m, content[in_content], Source::Content);
        lemma_registered_shape(m, content[in_content], Source::Content);
        lemma_registered_positions(m, content[in_content], Source::Content, name);
        let t = position(ids_of(m), name);
        if t >= 0 {
            lemma_paths_with(m[t].paths, c, Source::Content, c);
        } else {
            assert(ids_of(next).last() == name);
            assert(ids_of(next).drop_last() =~= ids_of(m));
            assert(next[m.len() as int].paths[0] == c);
        }
    }
    assert forall|m: Seq<ModView>, i: int|
        0 <= i < content.len() && lacks(m) && has_content(m) implies has_content(
        #[trigger] registered(m, content[i], Source::Content),
    ) by {
        let t = position(ids_of(m), name);
        lemma_registered_shape(m, content[i], Source::Content);
        lemma_registered_positions(m, content[i], Source::Content, name);
        lemma_paths_with(m[t].paths, content[i].path, Source::Content, c);
    }
    lemma_registered_all_reaches(start, content, Source::Content, in_content, lacks, has_content);
    let first = registered_all(start, content, Source::Content);
    let k = position(ids_of(first), name);

    // The other two folders: the mod keeps its place, and what comes in
    // goes before the content path.
    let ordered = |m: Seq<ModView>|
        k < m.len() && position(ids_of(m), name) == k && stands_before(m[k].paths, s, c);
    let has_secondary = |m: Seq<ModView>| k < m.len() && m[k].paths.contains(s);
    let both = |m: Seq<ModView>| ordered(m) && has_secondary(m);
    assert forall|m: Seq<ModView>, x: SightingView, source: Source|
        source != Source::Content && ordered(m) implies ordered(
        #[trigger] registered(m, x, source),
    ) && (m[k].paths.contains(s) ==> registered(m, x, source)[k].paths.contains(s)) && (
    target(m, x.name, source).0 == k && x.path == s ==> registered(m, x, source)[k].paths.contains(
        s,
    )) by {
        lemma_registered_shape(m, x, source);
        lemma_registered_positions(m, x, source, name);
        lemma_front_keeps_order(m[k].paths, x.path, source, s, c);
        lemma_paths_with(m[k].paths, x.path, source, s);
    }
    assert forall|m: Seq<ModView>, i: int| 0 <= i < secondary.len() && ordered(m) implies ordered(
        #[trigger] registered(m, secondary[i], Source::Secondary),
    ) by {}
    assert forall|m: Seq<ModView>| ordered(m) implies has_secondary(
        #[trigger] registered(m, secondary[in_secondary], Source::Secondary),
    ) by {
        assert(target(m, secondary[in_secondary].name, Source::Secondary).0 == k);
    }
    assert forall|m: Seq<ModView>, i: int|
        0 <= i < secondary.len() && ordered(m) && has_secondary(m) implies has_secondary(
        #[trigger] registered(m, secondary[i], Source::Secondary),
    ) by {}
    lemma_registered_all_reaches(
        first,
        secondary,
        Source::Secondary,
        in_secondary,
        ordered,
        has_secondary,
    );
    let second = registered_all(first, secondary, Source::Secondary);
    assert forall|m: Seq<ModView>, i: int| 0 <= i < data.len() && both(m) implies both(
        #[trigger] registered(m, data[i], Source::Data),
    ) by {}
    lemma_registered_all_keeps(second, data, Source::Data, both);
}

/// Whether the mod at `k`, which has the id `id`, is the mod that a file
/// called `name` in the data folder is a copy of by its alternative name: it
/// is the first mod with that alternative name, and no mod has `name` as its
/// id or at the end of its legacy file name.
pub open spec fn stands_for(mods: Seq<ModView>, k: int, id: Seq<char>, name: Seq<char>) -> bool {
    &&& 0 <= k < mods.len()
    &&& mods[k].id == id
    &&& position(ids_of(mods), id) == k
    &&& position(ids_of(mods), name) < 0
    &&& position(alt_keys(mods), Some(name)) == k
    &&& position(legacy_keys(mods), Some(name)) < 0
}

/// Whether no mod but the one at `skip` has the path `d`.
pub open spec fn only_at(mods: Seq<ModView>, skip: int, d: Seq<char>) -> bool {
    forall|j: int| 0 <= j < mods.len() && j != skip ==> !(#[trigger] mods[j]).paths.contains(d)
}

/// A mod stays the one that a data file of a name is a copy of while
/// sightings are taken in, unless a file of that name is found in another
/// folder.
pub proof fn lemma_registered_keeps_standing(
    mods: Seq<ModView>,
    x: SightingView,
    source: Source,
    k: int,
    id: Seq<char>,
    name: Seq<char>,
)
    requires
        stands_for(mods, k, id, name),
        x.name != name || source == Source::Data,
    ensures
        stands_for(registered(mods, x, source), k, id, name),
        x.name == name ==> target(mods, x.name, source) == (k, false),
{
    lemma_registered_shape(mods, x, source);
    lemma_registered_positions(mods, x, source, id);
    lemma_registered_positions(mods, x, source, name);
}

/// No mod gets a path that no sighting brings: where no mod but one has the
/// path, and the sighting brings another path or is a copy of that one mod,
/// no mod but that one has the path afterwards.
pub proof fn lemma_registered_keeps_path_out(
    mods: Seq<ModView>,
    x: SightingView,
    source: Source,
    skip: int,
    d: Seq<char>,
)
    requires
        only_at(mods, skip, d),
        x.path != d || (0 <= skip && target(mods, x.name, source).0 == skip),
    ensures
        only_at(registered(mods, x, source), skip, d),
{
    let after = registered(mods, x, source);
    lemma_registered_shape(mods, x, source);
    assert forall|j: int| 0 <= j < after.len() && j != skip implies !(#[trigger] after[j]).paths.contains(
        d,
    ) by {
        if j < mods.len() {
            assert(!mods[j].paths.contains(d));
            lemma_paths_with(mods[j].paths, x.path, source, d);
        } else {
            lemma_paths_with(Seq::empty(), x.path, source, d);
            assert(after[j].paths =~= paths_with(Seq::empty(), x.path, source));
        }
    }
}

/// A pack in the data folder that bears the alternative name of a legacy mod
/// is taken as a copy of that mod, whatever else a scan finds: no mod of its
/// own is made for it, the legacy mod gets its path before the path of the
/// legacy file in the content folder, and no other mod gets it. Where the
/// pack is the last file of the data folder, its path stands first.
///
/// This holds where no mod bears the name of the pack as its id or at the
/// end of its legacy file name, and the content and the secondary folder
/// hold no file of that name or at that path.
pub proof fn lemma_scan_merges_legacy_copy(
    mods: Seq<ModView>,
    scan: ScanReportView,
    k: int,
    in_content: int,
    in_data: int,
)
    requires
        0 <= k < mods.len(),
        0 <= in_content < scan.sightings_in(Source::Content).len(),
        0 <= in_data < scan.sightings_in(Source::Data).len(),
        scan.sightings_in(Source::Content)[in_content].name == mods[k].id,
        stands_for(mods, k, mods[k].id, scan.sightings_in(Source::Data)[in_data].name),
        forall|j: int|
            0 <= j < scan.sightings_in(Source::Content).len() ==> (#[trigger] scan.sightings_in(
                Source::Content,
            )[j]).name != scan.sightings_in(Source::Data)[in_data].name && scan.sightings_in(
                Source::Content,
            )[j].path != scan.sightings_in(Source::Data)[in_data].path,
        forall|j: int|
            0 <= j < scan.sightings_in(Source::Secondary).len() ==> (#[trigger] scan.sightings_in(
                Source::Secondary,
            )[j]).name != scan.sightings_in(Source::Data)[in_data].name && scan.sightings_in(
                Source::Secondary,
            )[j].path != scan.sightings_in(Source::Data)[in_data].path,
        forall|j: int|
            0 <= j < scan.sightings_in(Source::Data).len() && (#[trigger] scan.sightings_in(
                Source::Data,
            )[j]).path == scan.sightings_in(Source::Data)[in_data].path ==> scan.sightings_in(
                Source::Data,
            )[j].name == scan.sightings_in(Source::Data)[in_data].name,
    ensures
        ({
            let after = rescanned_mods(mods, scan);
            let name = scan.sightings_in(Source::Data)[in_data].name;
            let d = scan.sightings_in(Source::Data)[in_data].path;
            let c = scan.sightings_in(Source::Content)[in_content].path;
            &&& stands_for(after, k, mods[k].id, name)
            &&& stands_before(after[k].paths, d, c)
            &&& after[k].paths.contains(d)
            &&& only_at(after, k, d)
            &&& in_data == scan.sightings_in(Source::Data).len() - 1 && (forall|j: int|
                0 <= j < in_data ==> (#[trigger] scan.sightings_in(Source::Data)[j]).path != d)
                ==> after[k].paths[0] == d
        }),
{
    let content = scan.sightings_in(Source::Content);
    let secondary = scan.sightings_in(Source::Secondary);
    let data = scan.sightings_in(Source::Data);
    let id = mods[k].id;
    let name = data[in_data].name;
    let d = data[in_data].path;
    let c = content[in_content].path;
    let start = without_paths(mods);
    assert(ids_of(start) =~= ids_of(mods));
    assert(alt_keys(start) =~= alt_keys(mods));
    assert(legacy_keys(start) =~= legacy_keys(mods));
    assert(only_at(start, -1, d)) by {
        assert forall|j: int| 0 <= j < start.len() implies !(#[trigger] start[j]).paths.contains(
            d,
        ) by {
            assert(start[j].paths =~= Seq::empty());
        }
    }

    // The content folder brings the path of the legacy file.
    let clean = |m: Seq<ModView>| stands_for(m, k, id, name) && only_at(m, -1, d);
    let has_content = |m: Seq<ModView>| k < m.len() && m[k].paths.contains(c);
    let clean_with_content = |m: Seq<ModView>| clean(m) && has_content(m);
    assert forall|m: Seq<ModView>, x: SightingView, source: Source|
        clean(m) && x.name != name && x.path != d implies clean(
        #[trigger] registered(m, x, source),
    ) && (has_content(m) ==> has_content(registered(m, x, source))) by {
        lemma_registered_keeps_standing(m, x, source, k, id, name);
        lemma_registered_keeps_path_out(m, x, source, -1, d);
        lemma_registered_shape(m, x, source);
        lemma_paths_with(m[k].paths, x.path, source, c);
    }
    assert forall|m: Seq<ModView>, i: int| 0 <= i < content.len() && clean(m) implies clean(
        #[trigger] registered(m, content[i], Source::Content),
    ) by {}
    assert forall|m: Seq<ModView>| clean(m) implies has_content(
        #[trigger] registered(m, content[in_content], Source::Content),
    ) by {
        lemma_registered_shape(m, content[in_content], Source::Content);
        lemma_paths_with(m[k].paths, c, Source::Content, c);
    }
    assert forall|m: Seq<ModView>, i: int|
        0 <= i < content.len() && clean(m) && has_content(m) implies has_content(
        #[trigger] registered(m, content[i], Source::Content),
    ) by {}
    lemma_registered_all_reaches(start, content, Source::Content, in_content, clean, has_content);
    let first = registered_all(start, content, Source::Content);

    // The secondary folder changes nothing of it.
    assert forall|m: Seq<ModView>, i: int|
        0 <= i < secondary.len() && clean_with_content(m) implies clean_with_content(
        #[trigger] registered(m, secondary[i], Source::Secondary),
    ) by {}
    lemma_registered_all_keeps(first, secondary, Source::Secondary, clean_with_content);
    let second = registered_all(first, secondary, Source::Secondary);

    // The data folder brings the path of the pack, to that mod alone.
    let merged = |m: Seq<ModView>|
        stands_for(m, k, id, name) && stands_before(m[k].paths, d, c) && only_at(m, k, d);
    let has_pack = |m: Seq<ModView>| k < m.len() && m[k].paths.contains(d);
    assert(merged(second));
    assert forall|m: Seq<ModView>, i: int| 0 <= i < data.len() && merged(m) implies merged(
        #[trigger] registered(m, data[i], Source::Data),
    ) && (has_pack(m) || i == in_data ==> has_pack(registered(m, data[i], Source::Data))) by {
        lemma_registered_keeps_standing(m, data[i], Source::Data, k, id, name);
        lemma_registered_keeps_path_out(m, data[i], Source::Data, k, d);
        lemma_registered_shape(m, data[i], Source::Data);
        lemma_front_keeps_order(m[k].paths, data[i].path, Source::Data, d, c);
        lemma_paths_with(m[k].paths, data[i].path, Source::Data, d);
    }
    assert forall|m: Seq<ModView>| merged(m) implies has_pack(
        #[trigger] registered(m, data[in_data], Source::Data),
    ) by {}
    assert forall|m: Seq<ModView>, i: int|
        0 <= i < data.len() && merged(m) && has_pack(m) implies has_pack(
        #[trigger] registered(m, data[i], Source::Data),
    ) by {}
    lemma_registered_all_reaches(second, data, Source::Data, in_data, merged, has_pack);

    // Where the pack is found last and nowhere before, its path is put first.
    if in_data == data.len() - 1 && (forall|j: int|
        0 <= j < in_data ==> (#[trigger] data[j]).path != d) {
        let front = data.drop_last();
        assert forall|m: Seq<ModView>, i: int| 0 <= i < front.len() && clean(m) implies clean(
            #[trigger] registered(m, front[i], Source::Data),
        ) by {
            assert(front[i] == data[i]);
            lemma_registered_keeps_standing(m, front[i], Source::Data, k, id, name);
            lemma_registered_keeps_path_out(m, front[i], Source::Data, -1, d);
        }
        lemma_registered_all_keeps(second, front, Source::Data, clean);
        let before = registered_all(second, front, Source::Data);
        lemma_registered_keeps_standing(before, data.last(), Source::Data, k, id, name);
        lemma_registered_shape(before, data.last(), Source::Data);
        assert(!before[k].paths.contains(d));
        assert(paths_with(before[k].paths, d, Source::Data)[0] == d);
    }
}

} // verus!
