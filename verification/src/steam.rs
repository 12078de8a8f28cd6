//! The commands that the launcher hands to its helper for the Steam store,
//! and what it reads from the helper's answers.

use vstd::prelude::*;
use vstd::string::*;
use crate::games::{GameTraits, GameTraitsView};
use crate::launch_options::{file_in, join, joined, path_in};
use crate::paths::{file_name, file_name_of, parent, parent_of};
use crate::store::{StoreId, StoreIdView};
use crate::text::{decimal, decimal_text, replace_char, replaced};

verus! {

/// The standard base64 form of `data`, with padding.
pub uninterp spec fn base64_standard(data: Seq<u8>) -> Seq<char>;

/// Encodes `data` with the `STANDARD` engine of the `base64` crate: the
/// standard alphabet, with padding. The crate gives up on an input too long
/// for the length of its encoding to be counted, which is left out here.
#[verifier::external_body]
fn base64_encode(data: &[u8]) -> (r: String)
    requires
        data@.len() <= isize::MAX,
    ensures
        r@ == base64_standard(data@),
{
    base64::Engine::encode(&base64::prelude::BASE64_STANDARD, data)
}

/// The standard base64 form of the bytes of `text`.
pub fn encode_text(text: &str) -> (r: String)
    requires
        text.spec_bytes().len() <= isize::MAX,
    ensures
        r@ == base64_standard(text.spec_bytes()),
{
    base64_encode(text.as_bytes())
}

/// The command that starts the game through the helper.
pub open spec fn launch_command_text(helper: Seq<char>, steam_id: u32, command: Seq<char>) -> Seq<
    char,
> {
    helper + " launch -b -s "@ + decimal(steam_id as nat) + " -c "@ + command
}

/// The command that starts the game through the helper; `command_to_pass` is
/// the command of the game itself, in base64.
pub fn launch_command(helper: &str, steam_id: u32, command_to_pass: &str) -> (r: String)
    ensures
        r@ == launch_command_text(helper@, steam_id, command_to_pass@),
{
    let mut text = helper.to_owned();
    text.append(" launch -b -s ");
    text.append(decimal_text(steam_id as u64).as_str());
    text.append(" -c ");
    text.append(command_to_pass);
    text
}

/// The command that asks the helper for the id of the user.
pub open spec fn user_id_command_text(helper: Seq<char>, steam_id: u32, channel: Seq<char>) -> Seq<
    char,
> {
    helper + " user-id -s "@ + decimal(steam_id as nat) + " -i "@ + channel + " & exit"@
}

/// The command that asks the helper for the id of the user; the answer
/// comes over the channel `ipc_channel`.
pub fn user_id_command(helper: &str, steam_id: u32, ipc_channel: &str) -> (r: String)
    ensures
        r@ == user_id_command_text(helper@, steam_id, ipc_channel@),
{
    let mut text = helper.to_owned();
    text.append(" user-id -s ");
    text.append(decimal_text(steam_id as u64).as_str());
    text.append(" -i ");
    text.append(ipc_channel);
    text.append(" & exit");
    text
}

/// The command that asks the helper what the store knows of the mods.
pub open spec fn details_command_text(
    helper: Seq<char>,
    steam_id: u32,
    mod_ids: Seq<Seq<char>>,
    channel: Seq<char>,
) -> Seq<char> {
    helper + " get-published-file-details -s "@ + decimal(steam_id as nat) + " -p "@ + joined(
        mod_ids,
        ","@,
    ) + " -i "@ + channel + " & exit"@
}

/// The command that asks the helper what the store knows of the mods
/// `mod_ids`.
pub fn details_command(helper: &str, steam_id: u32, mod_ids: &Vec<String>, ipc_channel: &str) -> (r:
    String)
    ensures
        r@ == details_command_text(helper@, steam_id, mod_ids.deep_view(), ipc_channel@),
{
    let mut text = helper.to_owned();
    text.append(" get-published-file-details -s ");
    text.append(decimal_text(steam_id as u64).as_str());
    text.append(" -p ");
    text.append(join(mod_ids, ",").as_str());
    text.append(" -i ");
    text.append(ipc_channel);
    text.append(" & exit");
    text
}

/// What an upload tells the helper, beside the pack: the title, the
/// description and the changes in base64, the tags, and who may see the mod.
#[derive(Debug, PartialEq, Eq)]
pub struct UploadTexts {
    pub title: String,
    pub description: Option<String>,
    pub changelog: Option<String>,
    pub tags: Vec<String>,
    pub visibility: Option<u32>,
}

/// An [`UploadTexts`] with its texts as sequences of characters.
pub ghost struct UploadTextsView {
    pub title: Seq<char>,
    pub description: Option<Seq<char>>,
    pub changelog: Option<Seq<char>>,
    pub tags: Seq<Seq<char>>,
    pub visibility: Option<u32>,
}

impl DeepView for UploadTexts {
    type V = UploadTextsView;

    open spec fn deep_view(&self) -> UploadTextsView {
        UploadTextsView {
            title: self.title@,
            description: match self.description {
                Some(text) => Some(text@),
                None => None,
            },
            changelog: match self.changelog {
                Some(text) => Some(text@),
                None => None,
            },
            tags: self.tags.deep_view(),
            visibility: self.visibility,
        }
    }
}

impl View for UploadTexts {
    type V = UploadTextsView;

    open spec fn view(&self) -> UploadTextsView {
        self.deep_view()
    }
}

/// What the upload does: it updates the mod in the store if the mod has an
/// id there, and makes a new one if not.
pub open spec fn upload_action(store_id: StoreIdView) -> Seq<char> {
    match store_id.id() {
        Some(id) => "update --published-file-id "@ + id,
        None => "upload"@,
    }
}

/// The command that uploads a pack through the helper.
pub open spec fn upload_command_text(
    helper: Seq<char>,
    steam_id: u32,
    pack_path: Seq<char>,
    store_id: StoreIdView,
    texts: UploadTextsView,
) -> Seq<char> {
    helper + " "@ + upload_action(store_id) + " -b -s "@ + decimal(steam_id as nat) + " -f \""@
        + pack_path + "\" -t "@ + texts.title + " --tags "@ + joined(texts.tags, ","@) + (
    match texts.description {
        Some(text) => " -d "@ + text,
        None => Seq::empty(),
    }) + (match texts.changelog {
        Some(text) => " -c "@ + text,
        None => Seq::empty(),
    }) + (match texts.visibility {
        Some(v) => " --visibility "@ + decimal(v as nat),
        None => Seq::empty(),
    }) + " & exit"@
}

/// The command that uploads a pack through the helper, from the texts as the
/// helper takes them.
pub fn upload_command(
    helper: &str,
    steam_id: u32,
    pack_path: &str,
    store_id: &StoreId,
    texts: &UploadTexts,
) -> (r: String)
    ensures
        r@ == upload_command_text(helper@, steam_id, pack_path@, store_id@, texts@),
{
    let mut text = helper.to_owned();
    text.append(" ");
    match store_id.id() {
        Some(id) => {
            text.append("update --published-file-id ");
            text.append(id.as_str());
            assert(text@ =~= helper@ + " "@ + upload_action(store_id@));
        },
        None => {
            text.append("upload");
        },
    }
    text.append(" -b -s ");
    text.append(decimal_text(steam_id as u64).as_str());
    text.append(" -f \"");
    text.append(pack_path);
    text.append("\" -t ");
    text.append(texts.title.as_str());
    text.append(" --tags ");
    text.append(join(&texts.tags, ",").as_str());
    let ghost head = text@;
    if let Some(description) = &texts.description {
        text.append(" -d ");
        text.append(description.as_str());
        assert(text@ =~= head + (" -d "@ + description@));
    } else {
        assert(text@ =~= head + Seq::<char>::empty());
    }
    let ghost with_description = text@;
    if let Some(changelog) = &texts.changelog {
        text.append(" -c ");
        text.append(changelog.as_str());
        assert(text@ =~= with_description + (" -c "@ + changelog@));
    } else {
        assert(text@ =~= with_description + Seq::<char>::empty());
    }
    let ghost with_changes = text@;
    if let Some(visibility) = texts.visibility {
        text.append(" --visibility ");
        text.append(decimal_text(visibility as u64).as_str());
        assert(text@ =~= with_changes + (" --visibility "@ + decimal(visibility as nat)));
    } else {
        assert(text@ =~= with_changes + Seq::<char>::empty());
    }
    text.append(" & exit");
    text
}

/// The texts of an upload as the helper takes them: title, description and
/// changes in base64; an empty description or an empty list of changes is
/// left out.
pub fn upload_mod_to_integration(
    title: &str,
    description: &str,
    tags: &Vec<String>,
    changelog: &str,
    visibility: &Option<u32>,
) -> (r: UploadTexts)
    requires
        title.spec_bytes().len() <= isize::MAX,
        description.spec_bytes().len() <= isize::MAX,
        changelog.spec_bytes().len() <= isize::MAX,
    ensures
        r@ == (UploadTextsView {
            title: base64_standard(title.spec_bytes()),
            description: if description@.len() > 0 {
                Some(base64_standard(description.spec_bytes()))
            } else {
                None
            },
            changelog: if changelog@.len() > 0 {
                Some(base64_standard(changelog.spec_bytes()))
            } else {
                None
            },
            tags: tags.deep_view(),
            visibility: *visibility,
        }),
{
    UploadTexts {
        title: encode_text(title),
        description: if description.is_empty() {
            None
        } else {
            Some(encode_text(description))
        },
        changelog: if changelog.is_empty() {
            None
        } else {
            Some(encode_text(changelog))
        },
        tags: crate::mods::clone_strings(tags),
        visibility: *visibility,
    }
}

/// The number that eight bytes stand for, the lowest byte first.
pub open spec fn little_endian(bytes: Seq<u8>) -> nat
    decreases bytes.len(),
{
    if bytes.len() == 0 {
        0
    } else {
        bytes[0] as nat + 256 * little_endian(bytes.drop_first())
    }
}

/// The number of values that `k` bytes can tell apart, for up to eight bytes.
pub open spec fn span(k: int) -> int {
    if k <= 0 {
        1
    } else if k == 1 {
        0x100
    } else if k == 2 {
        0x1_0000
    } else if k == 3 {
        0x100_0000
    } else if k == 4 {
        0x1_0000_0000
    } else if k == 5 {
        0x100_0000_0000
    } else if k == 6 {
        0x1_0000_0000_0000
    } else if k == 7 {
        0x100_0000_0000_0000
    } else {
        0x1_0000_0000_0000_0000
    }
}

/// The id of the user as the helper sends it: eight bytes, the lowest first.
/// Any other number of bytes is no id.
pub fn user_id(bytes: &Vec<u8>) -> (r: Option<String>)
    ensures
        r is Some <==> bytes@.len() == 8,
        r is Some ==> r->0@ == decimal(little_endian(bytes@)),
{
    if bytes.len() != 8 {
        return None;
    }
    let mut value: u64 = 0;
    let mut i: usize = 8;
    assert(bytes@.skip(8) =~= Seq::empty());
    while i > 0
        invariant
            i <= 8,
            bytes@.len() == 8,
            value == little_endian(bytes@.skip(i as int)),
            value < span(8 - i),
        decreases i,
    {
        i -= 1;
        assert(bytes@.skip(i as int).drop_first() == bytes@.skip(i + 1));
        assert(bytes@.skip(i as int)[0] == bytes@[i as int]);
        assert(span(8 - i) == 256 * span(8 - i - 1));
        value = value * 256 + bytes[i] as u64;
    }
    assert(bytes@.skip(0) =~= bytes@);
    Some(decimal_text(value))
}

/// The file in which Steam keeps what it knows of the game's installation:
/// two folders above the folder of the game.
pub open spec fn manifest_path(steam_id: u32, game_path: Seq<char>) -> Seq<char> {
    file_in(parent(parent(game_path)), "appmanifest_"@ + decimal(steam_id as nat) + ".acf"@)
}

/// The file in which Steam keeps what it knows of the game's installation.
pub fn app_manifest_path(steam_id: u32, game_path: &str) -> (r: String)
    ensures
        r@ == manifest_path(steam_id, game_path@),
{
    let above = parent_of(parent_of(game_path).as_str());
    let mut name = "appmanifest_".to_owned();
    name.append(decimal_text(steam_id as u64).as_str());
    name.append(".acf");
    path_in(above.as_str(), name.as_str())
}

/// The command that starts the game, as the command line of Windows takes
/// it: from the folder of the game, its program with the load order file.
/// The later games are pointed to their mod list by name, and take further
/// arguments; the oldest take the path of the script.
pub open spec fn start_command_text(
    game: GameTraitsView,
    game_path: Seq<char>,
    executable: Seq<char>,
    file_path: Seq<char>,
    extra_args: Seq<Seq<char>>,
) -> Seq<char> {
    let head = "cmd /C start /W /d \""@ + replaced(game_path, '\\', '/') + "\" \""@ + file_name(
        executable,
    ) + "\" \""@ + (if game.raw_db_version >= 1 {
        "mod_list.txt"@
    } else {
        replaced(file_path, '\\', '/')
    }) + "\";"@;
    if game.raw_db_version >= 1 {
        head + spaced(extra_args)
    } else {
        head
    }
}

/// Each text with a blank before it.
pub open spec fn spaced(args: Seq<Seq<char>>) -> Seq<char>
    decreases args.len(),
{
    if args.len() == 0 {
        Seq::empty()
    } else {
        spaced(args.drop_last()) + seq![' '] + args.last()
    }
}

/// The command that starts the game, as the command line of Windows takes
/// it.
pub fn start_command(
    game: &GameTraits,
    game_path: &str,
    executable: &str,
    file_path: &str,
    extra_args: &Vec<String>,
) -> (r: String)
    ensures
        r@ == start_command_text(game@, game_path@, executable@, file_path@, extra_args.deep_view()),
{
    let mut text = "cmd /C start /W /d \"".to_owned();
    text.append(replace_char(game_path, '\\', '/').as_str());
    text.append("\" \"");
    text.append(file_name_of(executable).as_str());
    text.append("\" \"");
    if game.raw_db_version >= 1 {
        text.append("mod_list.txt");
    } else {
        text.append(replace_char(file_path, '\\', '/').as_str());
    }
    text.append("\";");
    if game.raw_db_version >= 1 {
        let ghost head = text@;
        let ghost src = extra_args.deep_view();
        let mut i: usize = 0;
        assert(src.take(0) =~= Seq::empty());
        assert(text@ =~= head + spaced(src.take(0)));
        while i < extra_args.len()
            invariant
                i <= extra_args@.len(),
                src == extra_args.deep_view(),
                text@ == head + spaced(src.take(i as int)),
            decreases extra_args@.len() - i,
        {
            assert(src.take(i + 1).drop_last() == src.take(i as int));
            assert(src.take(i + 1).last() == extra_args@[i as int]@);
            text.push(' ');
            text.append(extra_args[i].as_str());
            assert(text@ =~= head + (spaced(src.take(i as int)) + seq![' '] + src[i as int]));
            i += 1;
        }
        proof {
            crate::seqs::lemma_take_all(src);
        }
    }
    text
}

} // verus!
