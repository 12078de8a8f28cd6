//! The secondary folder: a folder of the user's own choice that holds mods
//! for all games, each game in a folder of its own.

use vstd::prelude::*;
use vstd::string::*;
use crate::game_config::{ids_of, GameConfig};
use crate::games::{db_version_of, GameTraits, GameTraitsView};
use crate::launch_options::{file_in, path_in};
use crate::load_order::{sort_texts, sorted_texts};
use crate::mods::{Mod, ModView, PackFileType};
use crate::paths::{file_name, file_name_of};
use crate::seqs::{lemma_filter_empty, lemma_filter_step, lemma_take_all};
use crate::settings::{value_of, AppSettings};
use crate::text::{
    after_last, before_last, has_substring, position, starts_with, str_eq, text_after_last,
    text_before_last, text_contains,
};

verus! {

/// The name of the folder, inside the secondary folder of a game, that holds
/// the masks of the movie packs that are switched off.
pub const SECONDARY_FOLDER_NAME: &'static str = "masks";

/// Why there is no secondary folder for a game.
#[derive(Clone, Copy, Debug, PartialEq, Eq, Structural)]
pub enum SecondaryPathError {
    /// The launcher does not know the game.
    UnknownGame,
    /// The game cannot load mods from another folder than its own.
    Unsupported,
    /// The settings hold no secondary folder.
    NotFound,
    /// The settings hold an empty secondary folder.
    NotSet,
}

impl SecondaryPathError {
    /// The failure in words, for the game `game`.
    pub open spec fn words(self, game: Seq<char>) -> Seq<char> {
        match self {
            SecondaryPathError::UnknownGame => "What kind of game is "@ + game + "?"@,
            SecondaryPathError::Unsupported => "This game ("@ + game
                + ") doesn't support secondary mod folders."@,
            SecondaryPathError::NotFound => "Secondary mods path not found"@,
            SecondaryPathError::NotSet => "Secondary Mods Path not set."@,
        }
    }

    /// The failure in words, for the game `game`.
    pub fn message(&self, game: &str) -> (r: String)
        ensures
            r@ == self.words(game@),
    {
        match self {
            SecondaryPathError::UnknownGame => {
                let mut text = "What kind of game is ".to_owned();
                text.append(game);
                text.append("?");
                text
            },
            SecondaryPathError::Unsupported => {
                let mut text = "This game (".to_owned();
                text.append(game);
                text.append(") doesn't support secondary mod folders.");
                text
            },
            SecondaryPathError::NotFound => "Secondary mods path not found".to_owned(),
            SecondaryPathError::NotSet => "Secondary Mods Path not set.".to_owned(),
        }
    }
}

/// Why there is no secondary folder for the game, if there is none.
pub open spec fn secondary_refusal(paths: Seq<crate::settings::SettingView>, game: Seq<char>) -> Option<
    SecondaryPathError,
> {
    match db_version_of(game) {
        None => Some(SecondaryPathError::UnknownGame),
        Some(version) => if version < 1 {
            Some(SecondaryPathError::Unsupported)
        } else {
            match value_of(paths, "secondary_mods_path"@) {
                None => Some(SecondaryPathError::NotFound),
                Some(path) => if path.len() == 0 {
                    Some(SecondaryPathError::NotSet)
                } else {
                    None
                },
            }
        },
    }
}

/// The secondary folder as the user has set it, for a game that can load
/// mods from it. The folder of the game itself lies inside it, under the key
/// of the game.
pub fn secondary_mods_path(settings: &AppSettings, game: &str) -> (r: Result<
    String,
    SecondaryPathError,
>)
    ensures
        r is Err <==> secondary_refusal(settings.paths.deep_view(), game@) is Some,
        r is Err ==> r->Err_0 == secondary_refusal(settings.paths.deep_view(), game@)->0,
        r is Ok ==> Some(r->Ok_0@) == value_of(settings.paths.deep_view(), "secondary_mods_path"@),
{
    match GameTraits::for_key(game) {
        None => Err(SecondaryPathError::UnknownGame),
        Some(traits) => {
            if traits.raw_db_version < 1 {
                return Err(SecondaryPathError::Unsupported);
            }
            match settings.secondary_mods_path() {
                Err(_) => Err(SecondaryPathError::NotFound),
                Ok(path) => {
                    if path.as_str().is_empty() {
                        Err(SecondaryPathError::NotSet)
                    } else {
                        Ok(path)
                    }
                },
            }
        },
    }
}

/// The extension of a file name: what follows its last dot, if something
/// stands before that dot.
pub open spec fn extension(name: Seq<char>) -> Option<Seq<char>> {
    if before_last(name, '.').len() > 0 {
        Some(after_last(name, '.'))
    } else {
        None
    }
}

/// The test that a path is that of a pack, or of a legacy file that may be
/// one.
pub open spec fn is_pack_path() -> spec_fn(Seq<char>) -> bool {
    |path: Seq<char>|
        extension(file_name(path)) == Some("pack"@) || extension(file_name(path)) == Some("bin"@)
}

/// The files, among those of the secondary folder of a game, that may be
/// mods: those that end in `.pack` or `.bin`, sorted.
pub fn secondary_mods_packs_paths(files: &Vec<String>) -> (r: Vec<String>)
    ensures
        r.deep_view() == sorted_texts(files.deep_view().filter(is_pack_path())),
{
    let ghost src = files.deep_view();
    let ghost pred = is_pack_path();
    let mut kept: Vec<String> = Vec::new();
    let mut i: usize = 0;
    proof {
        lemma_filter_empty(src.take(0), pred);
        assert(kept.deep_view() =~= Seq::<Seq<char>>::empty());
    }
    while i < files.len()
        invariant
            i <= files@.len(),
            src == files.deep_view(),
            pred == is_pack_path(),
            kept.deep_view() == src.take(i as int).filter(pred),
        decreases files@.len() - i,
    {
        proof {
            lemma_filter_step(src, pred, i as int);
        }
        let ghost before = kept.deep_view();
        let name = file_name_of(files[i].as_str());
        let stem = text_before_last(name.as_str(), '.');
        let end = text_after_last(name.as_str(), '.');
        if !stem.as_str().is_empty() && (str_eq(end.as_str(), "pack") || str_eq(
            end.as_str(),
            "bin",
        )) {
            kept.push(files[i].clone());
            assert(kept.deep_view() =~= before.push(src[i as int]));
        }
        i += 1;
    }
    proof {
        lemma_take_all(src);
    }
    sort_texts(&kept)
}

/// A path with its extension changed: what follows the last dot of the file
/// name is replaced, or the extension is added to a name without one.
pub open spec fn with_extension(path: Seq<char>, new_extension: Seq<char>) -> Seq<char> {
    if before_last(file_name(path), '.').len() > 0 {
        before_last(path, '.') + seq!['.'] + new_extension
    } else {
        path + seq!['.'] + new_extension
    }
}

/// A path with its extension changed.
pub fn change_extension(path: &str, new_extension: &str) -> (r: String)
    ensures
        r@ == with_extension(path@, new_extension@),
{
    let name = file_name_of(path);
    let stem = text_before_last(name.as_str(), '.');
    let mut out = if !stem.as_str().is_empty() {
        text_before_last(path, '.')
    } else {
        path.to_owned()
    };
    out.push('.');
    out.append(new_extension);
    out
}

/// What to do to bring a mod into the secondary folder.
#[derive(Debug, PartialEq, Eq)]
pub enum Transfer {
    /// Nothing, and nothing is wrong: the mod has more copies than this is
    /// meant for.
    Skip,
    /// The mod cannot be brought there.
    Refuse,
    /// Copy the pack, and then its picture.
    Copy { from: String, to: String, image_from: String, image_to: String },
}

/// A [`Transfer`] with its texts as sequences of characters.
pub ghost enum TransferView {
    Skip,
    Refuse,
    Copy { from: Seq<char>, to: Seq<char>, image_from: Seq<char>, image_to: Seq<char> },
}

impl DeepView for Transfer {
    type V = TransferView;

    open spec fn deep_view(&self) -> TransferView {
        match *self {
            Transfer::Skip => TransferView::Skip,
            Transfer::Refuse => TransferView::Refuse,
            Transfer::Copy { from, to, image_from, image_to } => TransferView::Copy {
                from: from@,
                to: to@,
                image_from: image_from@,
                image_to: image_to@,
            },
        }
    }
}

impl View for Transfer {
    type V = TransferView;

    open spec fn view(&self) -> TransferView {
        self.deep_view()
    }
}

/// The copy of a pack and of the picture beside it.
pub open spec fn copy_of(from: Seq<char>, to: Seq<char>) -> TransferView {
    TransferView::Copy {
        from,
        to,
        image_from: with_extension(from, "png"@),
        image_to: with_extension(to, "png"@),
    }
}

/// How to copy a mod from the content folder to the secondary folder. A mod
/// that is only in the content folder is copied under its file name. A mod
/// that is in both is copied over its secondary copy, to bring that up to
/// date. A mod with more than two copies is passed over, and any other mod
/// cannot be copied.
pub open spec fn copy_plan(m: ModView, secondary: Seq<char>, content: Seq<char>) -> TransferView {
    if m.paths.len() > 2 {
        TransferView::Skip
    } else if m.paths.len() == 1 && content.is_prefix_of(m.paths[0]) {
        copy_of(m.paths[0], file_in(secondary, file_name(m.paths[0])))
    } else if m.paths.len() == 2 && secondary.is_prefix_of(m.paths[0]) && content.is_prefix_of(
        m.paths[1],
    ) {
        copy_of(m.paths[1], m.paths[0])
    } else {
        TransferView::Refuse
    }
}

/// The copy of a pack and of the picture beside it.
fn new_copy(from: &str, to: String) -> (r: Transfer)
    ensures
        r@ == copy_of(from@, to@),
{
    Transfer::Copy {
        from: from.to_owned(),
        image_from: change_extension(from, "png"),
        image_to: change_extension(to.as_str(), "png"),
        to,
    }
}

/// How to copy a mod from the content folder to the secondary folder of the
/// game.
pub fn copy_to_secondary(modd: &Mod, secondary_path: &str, content_path: &str) -> (r: Transfer)
    ensures
        r@ == copy_plan(modd@, secondary_path@, content_path@),
{
    assert(modd@.paths.len() == modd.paths@.len());
    if modd.paths.len() > 2 {
        return Transfer::Skip;
    }
    if modd.paths.len() == 1 {
        assert(modd@.paths[0] == modd.paths@[0]@);
        if starts_with(modd.paths[0].as_str(), content_path) {
            let name = file_name_of(modd.paths[0].as_str());
            return new_copy(modd.paths[0].as_str(), path_in(secondary_path, name.as_str()));
        }
    } else if modd.paths.len() == 2 {
        assert(modd@.paths[0] == modd.paths@[0]@ && modd@.paths[1] == modd.paths@[1]@);
        if starts_with(modd.paths[0].as_str(), secondary_path) && starts_with(
            modd.paths[1].as_str(),
            content_path,
        ) {
            return new_copy(modd.paths[1].as_str(), modd.paths[0].clone());
        }
    }
    Transfer::Refuse
}

/// How to move a mod from the data folder to the secondary folder: the pack
/// at its first path is copied there under its file name, if that path lies
/// in the data folder. A mod that is not on disk cannot be moved.
pub open spec fn move_plan(m: ModView, secondary: Seq<char>, data: Seq<char>) -> TransferView {
    if m.paths.len() > 0 && data.is_prefix_of(m.paths[0]) {
        copy_of(m.paths[0], file_in(secondary, file_name(m.paths[0])))
    } else {
        TransferView::Refuse
    }
}

/// How to move a mod from the data folder to the secondary folder. Once the
/// pack and its picture are copied, the two in the data folder can go.
pub fn move_to_secondary(modd: &Mod, secondary_path: &str, data_path: &str) -> (r: Transfer)
    ensures
        r@ == move_plan(modd@, secondary_path@, data_path@),
{
    assert(modd@.paths.len() == modd.paths@.len());
    if modd.paths.len() == 0 {
        return Transfer::Refuse;
    }
    assert(modd@.paths[0] == modd.paths@[0]@);
    if starts_with(modd.paths[0].as_str(), data_path) {
        let name = file_name_of(modd.paths[0].as_str());
        new_copy(modd.paths[0].as_str(), path_in(secondary_path, name.as_str()))
    } else {
        Transfer::Refuse
    }
}

/// Whether the movie packs that are switched off have to be masked before
/// the game starts: the game needs masks, the secondary folder is there, and
/// the launch script adds it.
pub fn masks_needed(
    game: &GameTraits,
    secondary_path: &str,
    secondary_is_folder: bool,
    folder_list: &str,
) -> (r: bool)
    ensures
        r == (game@.needs_movie_masks() && secondary_is_folder && has_substring(
            folder_list@,
            secondary_path@,
        )),
{
    game.needs_movie_masks() && secondary_is_folder && text_contains(folder_list, secondary_path)
}

/// Whether the file `name` is the pack of a movie mod that is switched off.
pub open spec fn wants_mask(
    mods: Seq<ModView>,
    game: GameTraitsView,
    data_path: Seq<char>,
    name: Seq<char>,
) -> bool {
    position(ids_of(mods), name) >= 0 && mods[position(ids_of(mods), name)].pack_type
        == PackFileType::Movie && !mods[position(ids_of(mods), name)].is_enabled(game, data_path)
}

/// The test that a file is the pack of a movie mod that is switched off.
pub open spec fn to_mask(mods: Seq<ModView>, game: GameTraitsView, data_path: Seq<char>) -> spec_fn(
    Seq<char>,
) -> bool {
    |name: Seq<char>| wants_mask(mods, game, data_path, name)
}

/// The files of the secondary folder that have to be masked: the packs of
/// the movie mods that are switched off.
pub fn files_to_mask(
    game_config: &GameConfig,
    game: &GameTraits,
    data_path: &str,
    file_names: &Vec<String>,
) -> (r: Vec<String>)
    ensures
        r.deep_view() == file_names.deep_view().filter(
            to_mask(game_config@.mods, game@, data_path@),
        ),
{
    let ghost src = file_names.deep_view();
    let ghost pred = to_mask(game_config@.mods, game@, data_path@);
    let mut out: Vec<String> = Vec::new();
    let mut i: usize = 0;
    proof {
        lemma_filter_empty(src.take(0), pred);
        assert(out.deep_view() =~= Seq::<Seq<char>>::empty());
    }
    while i < file_names.len()
        invariant
            i <= file_names@.len(),
            src == file_names.deep_view(),
            pred == to_mask(game_config@.mods, game@, data_path@),
            out.deep_view() == src.take(i as int).filter(pred),
        decreases file_names@.len() - i,
    {
        proof {
            lemma_filter_step(src, pred, i as int);
        }
        let ghost before = out.deep_view();
        let masked = match game_config.find_mod(file_names[i].as_str()) {
            Some(k) => {
                assert(game_config@.mods[k as int] == game_config.mods@[k as int]@);
                game_config.mods[k].pack_type == PackFileType::Movie && !game_config.mods[k].enabled(
                    game,
                    data_path,
                )
            },
            None => false,
        };
        if masked {
            out.push(file_names[i].clone());
            assert(out.deep_view() =~= before.push(src[i as int]));
        }
        i += 1;
    }
    proof {
        lemma_take_all(src);
    }
    out
}

} // verus!
