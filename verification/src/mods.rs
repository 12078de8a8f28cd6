//! One mod of the registry: what is known of a pack file and where its copies
//! lie on disk.

use vstd::prelude::*;
use vstd::string::*;
use crate::games::{GameTraits, GameTraitsView};
use crate::paths::{is_inside, path_is_inside};
use crate::store::{StoreId, StoreIdView};
use crate::text::{after_last, ends_with, replace_char, replaced, starts_with, text_after_last};

verus! {

/// The kind a pack file declares for itself. Only `Mod` and `Movie` packs are
/// mods; the other kinds belong to the game.
#[derive(Clone, Copy, Debug, PartialEq, Eq, Structural)]
pub enum PackFileType {
    Boot,
    Release,
    Patch,
    Mod,
    Movie,
}

impl PackFileType {
    /// The name of the kind, as shown to the user.
    pub open spec fn label(self) -> Seq<char> {
        match self {
            PackFileType::Boot => "Boot"@,
            PackFileType::Release => "Release"@,
            PackFileType::Patch => "Patch"@,
            PackFileType::Mod => "Mod"@,
            PackFileType::Movie => "Movie"@,
        }
    }

    /// The name of the kind, as shown to the user.
    pub fn name(self) -> (r: String)
        ensures
            r@ == self.label(),
    {
        pack_type_name(self)
    }
}

/// Formats the kind with the `Display` impl of `rpfm_lib`'s `PFHFileType`,
/// which writes the variant's own name.
#[verifier::external_body]
fn pack_type_name(kind: PackFileType) -> (r: String)
    ensures
        r@ == kind.label(),
{
    let kind = match kind {
        PackFileType::Boot => rpfm_lib::games::pfh_file_type::PFHFileType::Boot,
        PackFileType::Release => rpfm_lib::games::pfh_file_type::PFHFileType::Release,
        PackFileType::Patch => rpfm_lib::games::pfh_file_type::PFHFileType::Patch,
        PackFileType::Mod => rpfm_lib::games::pfh_file_type::PFHFileType::Mod,
        PackFileType::Movie => rpfm_lib::games::pfh_file_type::PFHFileType::Movie,
    };
    kind.to_string()
}

/// A mod: a pack file known to the registry, installed or not.
#[derive(Debug)]
pub struct Mod {
    /// The name shown to the user: the title in the store, or else the file name.
    pub name: String,
    /// The name of the pack file; the key of the mod in the registry.
    pub id: String,
    /// Where the mod was published, if anywhere.
    pub store_id: StoreId,
    /// Whether the user has switched the mod on.
    pub enabled: bool,
    /// The kind of the pack at the first path.
    pub pack_type: PackFileType,
    /// Where the pack lies on disk, the copy that wins first: the game's data
    /// folder before the secondary folder before the store's content folder.
    /// Empty while the mod is not installed.
    pub paths: Vec<String>,
    /// The id of the author in the store.
    pub creator: String,
    /// The name of the author in the store.
    pub creator_name: String,
    /// For a mod that old games ship as a `.bin` file: the name the file has to
    /// take once it is turned into a pack, or the folder of a map.
    pub file_name: String,
    /// The size of the file in bytes.
    pub file_size: u64,
    /// The description in the store.
    pub description: String,
    /// When the mod was created, in seconds since the epoch.
    pub time_created: usize,
    /// When the mod was last updated, in seconds since the epoch.
    pub time_updated: usize,
}

/// A [`Mod`] with its texts as sequences of characters.
pub ghost struct ModView {
    pub name: Seq<char>,
    pub id: Seq<char>,
    pub store_id: StoreIdView,
    pub enabled: bool,
    pub pack_type: PackFileType,
    pub paths: Seq<Seq<char>>,
    pub creator: Seq<char>,
    pub creator_name: Seq<char>,
    pub file_name: Seq<char>,
    pub file_size: u64,
    pub description: Seq<char>,
    pub time_created: usize,
    pub time_updated: usize,
}

/// The folder of the three a path lies in.
pub enum Tier {
    Data,
    Secondary,
    Content,
    Elsewhere,
}

/// The tier that `path` lies in, tried in the order data, secondary, content.
/// The secondary and content folders may be unset, that is empty.
pub open spec fn tier_of(
    path: Seq<char>,
    data: Seq<char>,
    secondary: Seq<char>,
    content: Seq<char>,
) -> Tier {
    if data.is_prefix_of(path) {
        Tier::Data
    } else if secondary.len() > 0 && secondary.is_prefix_of(path) {
        Tier::Secondary
    } else if content.len() > 0 && content.is_prefix_of(path) {
        Tier::Content
    } else {
        Tier::Elsewhere
    }
}

/// The pack name that a legacy file name stands for: its last component with
/// spaces turned into underscores, and `.pack` behind it. A name that is
/// empty or already that of a pack stands for nothing else.
pub open spec fn alt_name_of(file_name: Seq<char>) -> Option<Seq<char>> {
    if file_name.len() > 0 && !".pack"@.is_suffix_of(file_name) {
        Some(replaced(after_last(file_name, '/'), ' ', '_') + ".pack"@)
    } else {
        None
    }
}

impl ModView {
    /// Whether the mod has a copy on disk.
    pub open spec fn is_installed(self) -> bool {
        self.paths.len() > 0
    }

    /// Whether the game will load the mod. A mod pack goes by its switch. So
    /// does a movie pack where the engine can leave a pack out by name; on an
    /// older engine a movie pack in the data folder is always loaded.
    pub open spec fn is_enabled(self, game: GameTraitsView, data_path: Seq<char>) -> bool {
        match self.pack_type {
            PackFileType::Mod => self.enabled,
            PackFileType::Movie => {
                if game.supports_exclusion() {
                    self.enabled
                } else if self.paths.len() > 0 {
                    is_inside(self.paths[0], data_path) || self.enabled
                } else {
                    false
                }
            },
            _ => false,
        }
    }

    /// Whether the user can switch the mod on and off.
    pub open spec fn can_be_toggled(self, game: GameTraitsView, data_path: Seq<char>) -> bool {
        match self.pack_type {
            PackFileType::Mod => true,
            PackFileType::Movie => {
                if game.supports_exclusion() {
                    true
                } else if self.paths.len() > 0 {
                    !is_inside(self.paths[0], data_path)
                } else {
                    false
                }
            },
            _ => false,
        }
    }

    /// Whether some path of the mod lies in that tier.
    pub open spec fn has_copy_in(
        self,
        tier: Tier,
        data: Seq<char>,
        secondary: Seq<char>,
        content: Seq<char>,
    ) -> bool {
        exists|i: int|
            0 <= i < self.paths.len() && #[trigger] tier_of(self.paths[i], data, secondary, content)
                == tier
    }

    /// Which of the three pairs of copies has the winning copy older than the
    /// losing one: data against secondary, data against content, secondary
    /// against content. `dates` holds when each path was last modified.
    pub open spec fn dating_flags(
        self,
        data: Seq<char>,
        secondary: Seq<char>,
        content: Seq<char>,
        dates: Seq<u64>,
    ) -> (bool, bool, bool) {
        if self.paths.len() == 2 {
            let newer = dates[1] > dates[0];
            let first = tier_of(self.paths[0], data, Seq::empty(), Seq::empty());
            (
                newer && first == Tier::Data && secondary.len() > 0 && secondary.is_prefix_of(
                    self.paths[1],
                ),
                newer && first == Tier::Data && !(secondary.len() > 0 && secondary.is_prefix_of(
                    self.paths[1],
                )) && content.len() > 0 && content.is_prefix_of(self.paths[1]),
                newer && first != Tier::Data && secondary.len() > 0 && secondary.is_prefix_of(
                    self.paths[0],
                ),
            )
        } else if self.paths.len() == 3 {
            (dates[1] > dates[0], dates[2] > dates[0], dates[2] > dates[1])
        } else {
            (false, false, false)
        }
    }
}

impl DeepView for Mod {
    type V = ModView;

    open spec fn deep_view(&self) -> ModView {
        ModView {
            name: self.name@,
            id: self.id@,
            store_id: self.store_id@,
            enabled: self.enabled,
            pack_type: self.pack_type,
            paths: self.paths.deep_view(),
            creator: self.creator@,
            creator_name: self.creator_name@,
            file_name: self.file_name@,
            file_size: self.file_size,
            description: self.description@,
            time_created: self.time_created,
            time_updated: self.time_updated,
        }
    }
}

impl View for Mod {
    type V = ModView;

    open spec fn view(&self) -> ModView {
        self.deep_view()
    }
}

/// A copy of a list of strings.
pub fn clone_strings(v: &Vec<String>) -> (r: Vec<String>)
    ensures
        r.deep_view() == v.deep_view(),
{
    let mut out: Vec<String> = Vec::new();
    let mut i: usize = 0;
    while i < v.len()
        invariant
            i <= v@.len(),
            out@.len() == i,
            forall|j: int| 0 <= j < i ==> out@[j]@ == v@[j]@,
        decreases v@.len() - i,
    {
        out.push(v[i].clone());
        i += 1;
    }
    assert(out.deep_view() =~= v.deep_view());
    out
}

impl Clone for Mod {
    fn clone(&self) -> (r: Self)
        ensures
            r@ == self@,
    {
        Mod {
            name: self.name.clone(),
            id: self.id.clone(),
            store_id: self.store_id.clone(),
            enabled: self.enabled,
            pack_type: self.pack_type,
            paths: clone_strings(&self.paths),
            creator: self.creator.clone(),
            creator_name: self.creator_name.clone(),
            file_name: self.file_name.clone(),
            file_size: self.file_size,
            description: self.description.clone(),
            time_created: self.time_created,
            time_updated: self.time_updated,
        }
    }
}

impl Default for Mod {
    fn default() -> (r: Self)
        ensures
            r@ == (ModView {
                name: Seq::empty(),
                id: Seq::empty(),
                store_id: StoreIdView::Local,
                enabled: false,
                pack_type: PackFileType::Mod,
                paths: Seq::empty(),
                creator: Seq::empty(),
                creator_name: Seq::empty(),
                file_name: Seq::empty(),
                file_size: 0,
                description: Seq::empty(),
                time_created: 0,
                time_updated: 0,
            }),
    {
        let r = Mod {
            name: String::new(),
            id: String::new(),
            store_id: StoreId::Local,
            enabled: false,
            pack_type: PackFileType::Mod,
            paths: Vec::new(),
            creator: String::new(),
            creator_name: String::new(),
            file_name: String::new(),
            file_size: 0,
            description: String::new(),
            time_created: 0,
            time_updated: 0,
        };
        assert(r.paths.deep_view() =~= Seq::empty());
        r
    }
}

impl Mod {
    /// Whether the game was updated after the mod last was.
    pub fn outdated(&self, game_last_update_date: u64) -> (r: bool)
        ensures
            r == (game_last_update_date > self.time_updated),
    {
        game_last_update_date > self.time_updated as u64
    }

    /// In which of the three folders the mod has a copy: whether in the data
    /// folder, whether in the secondary folder, and its store id if it has one
    /// in the content folder.
    pub fn location(&self, data_path: &str, secondary_path: &str, content_path: &str) -> (r: (
        bool,
        bool,
        StoreId,
    ))
        ensures
            r.0 == self@.has_copy_in(Tier::Data, data_path@, secondary_path@, content_path@),
            r.1 == self@.has_copy_in(Tier::Secondary, data_path@, secondary_path@, content_path@),
            r.2@ == if self@.has_copy_in(
                Tier::Content,
                data_path@,
                secondary_path@,
                content_path@,
            ) {
                self@.store_id
            } else {
                StoreIdView::Local
            },
    {
        let mut data = false;
        let mut secondary = false;
        let mut content = false;
        let ghost paths = self@.paths;
        let ghost d = data_path@;
        let ghost s = secondary_path@;
        let ghost c = content_path@;
        let mut i: usize = 0;
        while i < self.paths.len()
            invariant
                i <= self.paths@.len(),
                paths == self@.paths,
                paths.len() == self.paths@.len(),
                d == data_path@,
                s == secondary_path@,
                c == content_path@,
                data == exists|j: int| 0 <= j < i && #[trigger] tier_of(paths[j], d, s, c) == Tier::Data,
                secondary == exists|j: int|
                    0 <= j < i && #[trigger] tier_of(paths[j], d, s, c) == Tier::Secondary,
                content == exists|j: int|
                    0 <= j < i && #[trigger] tier_of(paths[j], d, s, c) == Tier::Content,
            decreases self.paths@.len() - i,
        {
            let path = self.paths[i].as_str();
            assert(path@ == paths[i as int]);
            let ghost tier = tier_of(paths[i as int], d, s, c);
            if starts_with(path, data_path) {
                data = true;
            } else if !secondary_path.is_empty() && starts_with(path, secondary_path) {
                secondary = true;
            } else if !content_path.is_empty() && starts_with(path, content_path) {
                content = true;
            }
            assert(data == ((exists|j: int|
                0 <= j < i && #[trigger] tier_of(paths[j], d, s, c) == Tier::Data) || tier
                == Tier::Data));
            assert(secondary == ((exists|j: int|
                0 <= j < i && #[trigger] tier_of(paths[j], d, s, c) == Tier::Secondary) || tier
                == Tier::Secondary));
            assert(content == ((exists|j: int|
                0 <= j < i && #[trigger] tier_of(paths[j], d, s, c) == Tier::Content) || tier
                == Tier::Content));
            i += 1;
        }
        let store = if content {
            self.store_id.clone()
        } else {
            StoreId::Local
        };
        (data, secondary, store)
    }

    /// Which of the three pairs of copies has the winning copy older than the
    /// losing one. `dates` holds, path by path, when each copy was last
    /// modified.
    pub fn priority_dating_flags(
        &self,
        data_path: &str,
        secondary_path: &str,
        content_path: &str,
        dates: &Vec<u64>,
    ) -> (r: (bool, bool, bool))
        requires
            dates@.len() == self.paths@.len(),
        ensures
            r == self@.dating_flags(data_path@, secondary_path@, content_path@, dates@),
    {
        assert(self@.paths.len() == self.paths@.len());
        if self.paths.len() == 2 {
            assert(self@.paths[0] == self.paths@[0]@ && self@.paths[1] == self.paths@[1]@);
            let mut data_older_than_secondary = false;
            let mut data_older_than_content = false;
            let mut secondary_older_than_content = false;
            if dates[1] > dates[0] {
                if starts_with(self.paths[0].as_str(), data_path) {
                    if !secondary_path.is_empty() && starts_with(
                        self.paths[1].as_str(),
                        secondary_path,
                    ) {
                        data_older_than_secondary = true;
                    } else if !content_path.is_empty() && starts_with(
                        self.paths[1].as_str(),
                        content_path,
                    ) {
                        data_older_than_content = true;
                    }
                } else if !secondary_path.is_empty() && starts_with(
                    self.paths[0].as_str(),
                    secondary_path,
                ) {
                    secondary_older_than_content = true;
                }
            }
            (data_older_than_secondary, data_older_than_content, secondary_older_than_content)
        } else if self.paths.len() == 3 {
            (dates[1] > dates[0], dates[2] > dates[0], dates[2] > dates[1])
        } else {
            (false, false, false)
        }
    }

    /// Whether the game will load the mod.
    pub fn enabled(&self, game: &GameTraits, data_path: &str) -> (r: bool)
        ensures
            r == self@.is_enabled(game@, data_path@),
    {
        assert(self@.paths.len() == self.paths@.len());
        match self.pack_type {
            PackFileType::Mod => self.enabled,
            PackFileType::Movie => {
                if game.supports_exclusion() {
                    self.enabled
                } else if self.paths.len() > 0 {
                    assert(self@.paths[0] == self.paths@[0]@);
                    path_is_inside(self.paths[0].as_str(), data_path) || self.enabled
                } else {
                    false
                }
            },
            _ => false,
        }
    }

    /// Switches the mod on or off.
    pub fn set_enabled(&mut self, enabled: bool)
        ensures
            final(self)@ == (ModView { enabled, ..old(self)@ }),
    {
        self.enabled = enabled;
    }

    /// Whether the user can switch the mod on and off.
    pub fn can_be_toggled(&self, game: &GameTraits, data_path: &str) -> (r: bool)
        ensures
            r == self@.can_be_toggled(game@, data_path@),
    {
        assert(self@.paths.len() == self.paths@.len());
        match self.pack_type {
            PackFileType::Mod => true,
            PackFileType::Movie => {
                if game.supports_exclusion() {
                    true
                } else if self.paths.len() > 0 {
                    assert(self@.paths[0] == self.paths@[0]@);
                    !path_is_inside(self.paths[0].as_str(), data_path)
                } else {
                    false
                }
            },
            _ => false,
        }
    }

    /// The pack name that the legacy file name of the mod stands for, if any.
    pub fn alt_name(&self) -> (r: Option<String>)
        ensures
            r is Some <==> alt_name_of(self@.file_name) is Some,
            r is Some ==> r->0@ == alt_name_of(self@.file_name)->0,
    {
        if !self.file_name.as_str().is_empty() && !ends_with(self.file_name.as_str(), ".pack") {
            let last = text_after_last(self.file_name.as_str(), '/');
            let mut name = replace_char(last.as_str(), ' ', '_');
            name.append(".pack");
            Some(name)
        } else {
            None
        }
    }
}

/// The SHA-256 digest of `data`, in lower-case hexadecimal digits.
pub uninterp spec fn sha256_hex(data: Seq<u8>) -> Seq<char>;

/// `sha256::digest` on a slice of bytes: the SHA-256 digest of the bytes,
/// in lower-case hexadecimal digits.
#[verifier::external_body]
fn sha256_digest(data: &[u8]) -> (r: String)
    ensures
        r@ == sha256_hex(data@),
{
    sha256::digest(data)
}

/// What of a mod is passed on when a list of mods is shared: enough to find
/// the same pack again.
#[derive(Debug, PartialEq, Eq)]
pub struct ShareableMod {
    pub name: String,
    pub id: String,
    pub store_id: StoreId,
    /// The digest of the pack file.
    pub hash: String,
}

impl ShareableMod {
    /// What is passed on of the mod `value`, whose pack file holds
    /// `contents`.
    pub fn new(value: &Mod, contents: &[u8]) -> (r: ShareableMod)
        ensures
            r.name@ == value@.name,
            r.id@ == value@.id,
            r.store_id@ == value@.store_id,
            r.hash@ == sha256_hex(contents@),
    {
        ShareableMod {
            name: value.name.clone(),
            id: value.id.clone(),
            store_id: value.store_id.clone(),
            hash: sha256_digest(contents),
        }
    }

    /// What is passed on of the mod `value`, whose pack file has the digest
    /// `hash`.
    pub fn with_hash(value: &Mod, hash: String) -> (r: ShareableMod)
        ensures
            r.name@ == value@.name,
            r.id@ == value@.id,
            r.store_id@ == value@.store_id,
            r.hash@ == hash@,
    {
        ShareableMod {
            name: value.name.clone(),
            id: value.id.clone(),
            store_id: value.store_id.clone(),
            hash,
        }
    }
}

} // verus!
