//! What the launcher needs to know about a game: its key and the generation of
//! its engine, from which every per-game rule is derived.

use vstd::prelude::*;
use crate::text::str_eq;

verus! {

/// The generation of the engine of each known game, by game key.
pub open spec fn db_version_of(key: Seq<char>) -> Option<int> {
    if key == "pharaoh_dynasties"@ || key == "pharaoh"@ || key == "warhammer_3"@ || key == "troy"@
        || key == "three_kingdoms"@ || key == "warhammer_2"@ || key == "warhammer"@ || key
        == "thrones_of_britannia"@ || key == "attila"@ || key == "rome_2"@ {
        Some(2)
    } else if key == "shogun_2"@ {
        Some(1)
    } else if key == "napoleon"@ || key == "empire"@ {
        Some(0)
    } else if key == "arena"@ {
        Some(-1)
    } else {
        None
    }
}

/// Looks `key` up in `rpfm_lib`'s table of supported games
/// (`SupportedGames::default().game(key)`) and returns the entry's
/// `raw_db_version`, or `None` for a key the table does not hold. The contract
/// restates that table.
#[verifier::external_body]
fn supported_db_version(key: &str) -> (r: Option<i16>)
    ensures
        r is Some <==> db_version_of(key@) is Some,
        r is Some ==> r->0 as int == db_version_of(key@)->0,
{
    rpfm_lib::games::supported_games::SupportedGames::default().game(key).map(
        |game| *game.raw_db_version(),
    )
}

/// A game as the launcher sees it.
#[derive(Debug)]
pub struct GameTraits {
    /// The key that names the game in file names and settings.
    pub key: String,
    /// The generation of the game's engine; older engines can do less.
    pub raw_db_version: i16,
}

/// A [`GameTraits`] with its key as a sequence of characters.
pub ghost struct GameTraitsView {
    pub key: Seq<char>,
    pub raw_db_version: int,
}

impl GameTraitsView {
    /// Whether the game is one of the three second-generation titles whose
    /// engine still lacks the commands of the later ones.
    pub open spec fn is_early_second_generation(self) -> bool {
        self.key == "rome_2"@ || self.key == "attila"@ || self.key == "thrones_of_britannia"@
    }

    /// Whether the engine can be told to leave a pack out by name.
    pub open spec fn supports_exclusion(self) -> bool {
        self.raw_db_version >= 2 && !self.is_early_second_generation()
    }

    /// Whether disabled movie packs have to be hidden behind empty packs of the
    /// same name, in a folder of their own.
    pub open spec fn needs_movie_masks(self) -> bool {
        self.raw_db_version <= 1 || (self.raw_db_version == 2
            && self.is_early_second_generation())
    }

    /// Whether the engine can load packs from folders other than its own.
    pub open spec fn supports_working_directories(self) -> bool {
        self.raw_db_version >= 1
    }

    /// Whether the game reads its launch script as UTF-16, little endian.
    pub open spec fn uses_utf16_script(self) -> bool {
        self.raw_db_version < 2
    }
}

impl DeepView for GameTraits {
    type V = GameTraitsView;

    open spec fn deep_view(&self) -> GameTraitsView {
        GameTraitsView { key: self.key@, raw_db_version: self.raw_db_version as int }
    }
}

impl View for GameTraits {
    type V = GameTraitsView;

    open spec fn view(&self) -> GameTraitsView {
        self.deep_view()
    }
}

impl Clone for GameTraits {
    fn clone(&self) -> (r: Self)
        ensures
            r@ == self@,
    {
        GameTraits { key: self.key.clone(), raw_db_version: self.raw_db_version }
    }
}

impl GameTraits {
    /// The traits of the game that `key` names, if it is a known game.
    pub fn for_key(key: &str) -> (r: Option<GameTraits>)
        ensures
            r is Some <==> db_version_of(key@) is Some,
            r is Some ==> r->0@ == (GameTraitsView {
                key: key@,
                raw_db_version: db_version_of(key@)->0,
            }),
    {
        match supported_db_version(key) {
            Some(version) => Some(GameTraits { key: key.to_owned(), raw_db_version: version }),
            None => None,
        }
    }

    /// Whether the game is one of the three second-generation titles whose
    /// engine still lacks the commands of the later ones.
    pub fn is_early_second_generation(&self) -> (r: bool)
        ensures
            r == self@.is_early_second_generation(),
    {
        str_eq(self.key.as_str(), "rome_2") || str_eq(self.key.as_str(), "attila") || str_eq(
            self.key.as_str(),
            "thrones_of_britannia",
        )
    }

    /// Whether the engine can be told to leave a pack out by name.
    pub fn supports_exclusion(&self) -> (r: bool)
        ensures
            r == self@.supports_exclusion(),
    {
        self.raw_db_version >= 2 && !self.is_early_second_generation()
    }

    /// Whether disabled movie packs have to be hidden behind empty packs.
    pub fn needs_movie_masks(&self) -> (r: bool)
        ensures
            r == self@.needs_movie_masks(),
    {
        self.raw_db_version <= 1 || (self.raw_db_version == 2
            && self.is_early_second_generation())
    }

    /// Whether the engine can load packs from folders other than its own.
    pub fn supports_working_directories(&self) -> (r: bool)
        ensures
            r == self@.supports_working_directories(),
    {
        self.raw_db_version >= 1
    }

    /// Whether the game reads its launch script as UTF-16, little endian.
    pub fn uses_utf16_script(&self) -> (r: bool)
        ensures
            r == self@.uses_utf16_script(),
    {
        self.raw_db_version < 2
    }
}

} // verus!
