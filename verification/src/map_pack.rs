//! Maps of Shogun 2: the file the store ships a map in, and the pack the
//! launcher makes of it so that the game loads the map.
//!
//! The file is a zlib stream. Unpacked it is a row of files, each as its
//! name in UTF-16 with a zero behind it, the length of its data in eight
//! bytes, and the data; four bytes that belong to no file close the row.

use vstd::prelude::*;
use vstd::string::*;
use vstd::utf8::{decode_utf8, valid_utf8};
use crate::launch_options::{parse_bool, parsed_bool};
use crate::settings::{Setting, SettingView};
use crate::scan::{inflate, zlib_inflated};
use crate::steam::little_endian;
use crate::text::{chars_of, lemma_position_is, lemma_position_none, position, str_eq};

verus! {

/// The name that stands in `data` at `at`, zero-terminated in UTF-16, and
/// where the bytes behind its zero begin; `None` where no zero ends it.
pub uninterp spec fn name_at(data: Seq<u8>, at: int) -> Option<NameAt>;

/// A name found in the data, and where the bytes behind its zero begin.
pub ghost struct NameAt {
    pub name: Seq<char>,
    pub behind: int,
}

/// A name read from the data, and where the bytes behind its zero begin.
struct NameRead {
    name: String,
    behind: usize,
}

/// Reads a name with `rpfm_lib`'s `ReadBytes::read_string_u16_0terminated`,
/// from a cursor over `data` set to `at`. Returns the name and the position
/// of the cursor behind it, or `None` where the reader fails. The reader
/// stops behind the first zero unit it finds, so the position has moved on
/// by at least two bytes and lies within the data.
#[verifier::external_body]
fn read_name(data: &[u8], at: usize) -> (r: Option<NameRead>)
    requires
        at <= data@.len(),
    ensures
        r is Some <==> name_at(data@, at as int) is Some,
        r is Some ==> (NameAt { name: r->0.name@, behind: r->0.behind as int }) == name_at(
            data@,
            at as int,
        )->0,
        r is Some ==> at + 2 <= r->0.behind <= data@.len(),
{
    let mut cursor = std::io::Cursor::new(data);
    cursor.set_position(at as u64);
    match rpfm_lib::binary::ReadBytes::read_string_u16_0terminated(&mut cursor) {
        Ok(name) => Some(NameRead { name, behind: cursor.position() as usize }),
        Err(_) => None,
    }
}

/// `String::from_utf8`: the text that the bytes are the UTF-8 form of, if
/// they are the UTF-8 form of a text.
#[verifier::external_body]
fn text_from_utf8(bytes: &Vec<u8>) -> (r: Option<String>)
    ensures
        r is Some <==> valid_utf8(bytes@),
        r is Some ==> r->0@ == decode_utf8(bytes@),
{
    String::from_utf8(bytes.clone()).ok()
}

/// What the first group of the pattern holds where the pattern first matches
/// in the text; `None` where it matches nowhere or the group took no part.
pub uninterp spec fn first_capture(pattern: Seq<char>, text: Seq<char>) -> Option<Seq<char>>;

/// Matches `text` against `pattern` with the `regex` crate (`Regex::new`,
/// `captures`) and returns the text of group 1 of the leftmost match.
/// `None` too where the pattern does not compile.
#[verifier::external_body]
fn capture(pattern: &str, text: &str) -> (r: Option<String>)
    ensures
        r is Some <==> first_capture(pattern@, text@) is Some,
        r is Some ==> r->0@ == first_capture(pattern@, text@)->0,
{
    let found = regex::Regex::new(pattern).ok()?.captures(text)?.get(1)?;
    Some(found.as_str().to_string())
}

/// Why a map file could not be read.
#[derive(Clone, Copy, Debug, PartialEq, Eq, Structural)]
pub enum MapError {
    /// A name without its closing zero.
    BadName,
    /// The data ends before a file does.
    Truncated,
}

impl MapError {
    /// The failure in words.
    pub open spec fn words(self) -> Seq<char> {
        match self {
            MapError::BadName => "The name of a file of the map has no end."@,
            MapError::Truncated => "The data of the map ends in the middle of a file."@,
        }
    }

    /// The failure in words.
    pub fn message(&self) -> (r: String)
        ensures
            r@ == self.words(),
    {
        match self {
            MapError::BadName => "The name of a file of the map has no end.".to_owned(),
            MapError::Truncated => "The data of the map ends in the middle of a file.".to_owned(),
        }
    }
}

/// A file of a map.
#[derive(Debug, PartialEq, Eq)]
pub struct MapFile {
    pub name: String,
    pub data: Vec<u8>,
}

/// A [`MapFile`] with its name as a sequence of characters.
pub ghost struct MapFileView {
    pub name: Seq<char>,
    pub data: Seq<u8>,
}

impl DeepView for MapFile {
    type V = MapFileView;

    open spec fn deep_view(&self) -> MapFileView {
        MapFileView { name: self.name@, data: self.data@ }
    }
}

impl View for MapFile {
    type V = MapFileView;

    open spec fn view(&self) -> MapFileView {
        self.deep_view()
    }
}

/// The names of the files.
pub open spec fn file_names(files: Seq<MapFileView>) -> Seq<Seq<char>> {
    files.map_values(|f: MapFileView| f.name)
}

/// The files with one more: in place of the one with the same name, or at
/// the end.
pub open spec fn with_file(files: Seq<MapFileView>, file: MapFileView) -> Seq<MapFileView> {
    if position(file_names(files), file.name) >= 0 {
        files.update(position(file_names(files), file.name), file)
    } else {
        files.push(file)
    }
}

/// A file found in the data, and where the next one begins.
pub ghost struct FileAt {
    pub file: MapFileView,
    pub next: int,
}

/// The file that stands in `data` at `at`, and where the next one begins;
/// the failure where none stands there whole.
pub open spec fn file_at(data: Seq<u8>, at: int) -> Result<FileAt, MapError> {
    match name_at(data, at) {
        None => Err(MapError::BadName),
        Some(found) => {
            if found.behind + 8 > data.len() {
                Err(MapError::Truncated)
            } else {
                let size = little_endian(data.subrange(found.behind, found.behind + 8));
                if size > data.len() - (found.behind + 8) {
                    Err(MapError::Truncated)
                } else {
                    Ok(
                        FileAt {
                            file: MapFileView {
                                name: found.name,
                                data: data.subrange(
                                    found.behind + 8,
                                    found.behind + 8 + size,
                                ),
                            },
                            next: found.behind + 8 + size,
                        },
                    )
                }
            }
        },
    }
}

/// Whether files are still to be read at `at`: more than the four closing
/// bytes are left.
pub open spec fn more_files(data: Seq<u8>, at: int) -> bool {
    data.len() >= 4 && at < data.len() - 4
}

/// The files read from `data` from `at` on, added to `files` one after the
/// other, a later file taking the place of an earlier one of the same name;
/// or the failure of the first file that does not stand there whole.
pub open spec fn files_from(data: Seq<u8>, at: int, files: Seq<MapFileView>) -> Result<
    Seq<MapFileView>,
    MapError,
>
    decreases data.len() - at,
{
    if !more_files(data, at) {
        Ok(files)
    } else {
        match file_at(data, at) {
            Err(e) => Err(e),
            Ok(found) => if found.next <= at {
                Err(MapError::BadName)
            } else {
                files_from(data, found.next, with_file(files, found.file))
            },
        }
    }
}

/// The number in eight bytes, the lowest byte first.
fn read_u64(data: &[u8], at: usize) -> (r: u64)
    requires
        at + 8 <= data@.len(),
    ensures
        r == little_endian(data@.subrange(at as int, at + 8)),
{
    let ghost bytes = data@.subrange(at as int, at + 8);
    let total: usize = data.len();
    let mut value: u64 = 0;
    let mut i: usize = 8;
    assert(bytes.skip(8) =~= Seq::empty());
    while i > 0
        invariant
            i <= 8,
            at + 8 <= data@.len(),
            data@.len() == total,
            bytes == data@.subrange(at as int, at + 8),
            value == little_endian(bytes.skip(i as int)),
            value < crate::steam::span(8 - i),
        decreases i,
    {
        i -= 1;
        assert(bytes.skip(i as int).drop_first() == bytes.skip(i + 1));
        assert(bytes.skip(i as int)[0] == data@[at + i]);
        assert(crate::steam::span(8 - i) == 256 * crate::steam::span(8 - i - 1));
        value = value * 256 + data[at + i] as u64;
    }
    assert(bytes.skip(0) =~= bytes);
    value
}

/// The index of the file called `name`.
pub fn find_file(files: &Vec<MapFile>, name: &str) -> (r: Option<usize>)
    ensures
        r is None <==> position(file_names(files.deep_view()), name@) < 0,
        r is Some ==> r->0 as int == position(file_names(files.deep_view()), name@) && r->0
            < files@.len(),
{
    let ghost keys = file_names(files.deep_view());
    let mut i: usize = 0;
    while i < files.len()
        invariant
            i <= files@.len(),
            keys == file_names(files.deep_view()),
            keys.len() == files@.len(),
            forall|j: int| 0 <= j < i ==> keys[j] != name@,
        decreases files@.len() - i,
    {
        assert(keys[i as int] == files@[i as int].name@);
        if str_eq(files[i].name.as_str(), name) {
            proof {
                lemma_position_is(keys, name@, i as int);
            }
            return Some(i);
        }
        i += 1;
    }
    proof {
        lemma_position_none(keys, name@);
    }
    None
}

/// The files of a map, read from its unpacked data. Reading stops where no
/// more than the four closing bytes are left. Fails where a name has no end
/// or the data ends before a file does.
pub fn read_map_files(data: &[u8]) -> (r: Result<Vec<MapFile>, MapError>)
    ensures
        r is Ok <==> files_from(data@, 0, Seq::empty()) is Ok,
        r is Ok ==> r->Ok_0.deep_view() == files_from(data@, 0, Seq::empty())->Ok_0,
        r is Err ==> r->Err_0 == files_from(data@, 0, Seq::empty())->Err_0,
{
    let len: usize = data.len();
    let mut files: Vec<MapFile> = Vec::new();
    let mut at: usize = 0;
    assert(files.deep_view() =~= Seq::empty());
    while len >= 4 && at < len - 4
        invariant
            len == data@.len(),
            at <= len,
            files_from(data@, 0, Seq::empty()) == files_from(data@, at as int, files.deep_view()),
        decreases len - at,
    {
        let ghost before = files.deep_view();
        let (name, behind) = match read_name(data, at) {
            Some(found) => (found.name, found.behind),
            None => {
                return Err(MapError::BadName);
            },
        };
        if len < 8 || behind > len - 8 {
            return Err(MapError::Truncated);
        }
        let size = read_u64(data, behind);
        let start: usize = behind + 8;
        if size > (len - start) as u64 {
            return Err(MapError::Truncated);
        }
        let end: usize = start + size as usize;
        let mut bytes: Vec<u8> = Vec::new();
        let mut i: usize = start;
        while i < end
            invariant
                start <= i <= end <= len,
                len == data@.len(),
                bytes@ == data@.subrange(start as int, i as int),
            decreases end - i,
        {
            bytes.push(data[i]);
            assert(data@.subrange(start as int, i + 1) == data@.subrange(
                start as int,
                i as int,
            ).push(data@[i as int]));
            i += 1;
        }
        let file = MapFile { name, data: bytes };
        assert(Ok::<FileAt, MapError>(FileAt { file: file@, next: end as int }) == file_at(
            data@,
            at as int,
        ));
        let ghost f = file@;
        match find_file(&files, file.name.as_str()) {
            Some(k) => {
                files[k] = file;
                assert(files.deep_view() =~= before.update(k as int, f));
            },
            None => {
                files.push(file);
                assert(files.deep_view() =~= before.push(f));
            },
        }
        assert(files.deep_view() == with_file(before, f));
        at = end;
    }
    Ok(files)
}

/// The value of a decimal digit, or -1 for any other character.
pub open spec fn digit_value(c: char) -> int {
    if c == '0' {
        0
    } else if c == '1' {
        1
    } else if c == '2' {
        2
    } else if c == '3' {
        3
    } else if c == '4' {
        4
    } else if c == '5' {
        5
    } else if c == '6' {
        6
    } else if c == '7' {
        7
    } else if c == '8' {
        8
    } else if c == '9' {
        9
    } else {
        -1
    }
}

/// Whether every character is a decimal digit.
pub open spec fn all_digits(s: Seq<char>) -> bool {
    forall|i: int| 0 <= i < s.len() ==> digit_value(#[trigger] s[i]) >= 0
}

/// The number that decimal digits write.
pub open spec fn number(digits: Seq<char>) -> int
    decreases digits.len(),
{
    if digits.len() == 0 {
        0
    } else {
        number(digits.drop_last()) * 10 + digit_value(digits.last())
    }
}

/// The digits of a number text: the text without its sign.
pub open spec fn unsigned_part(text: Seq<char>) -> Seq<char> {
    if text.len() > 0 && (text[0] == '-' || text[0] == '+') {
        text.drop_first()
    } else {
        text
    }
}

/// The number that a text writes, if it writes one that fits in 32 bits:
/// decimal digits, at least one, with a sign before them or without.
pub open spec fn parsed_i32(text: Seq<char>) -> Option<int> {
    let digits = unsigned_part(text);
    let value = if text.len() > 0 && text[0] == '-' {
        -number(digits)
    } else {
        number(digits)
    };
    if digits.len() > 0 && all_digits(digits) && -0x8000_0000 <= value <= 0x7fff_ffff {
        Some(value)
    } else {
        None
    }
}

/// The value of a decimal digit, or -1 for any other character.
fn digit_of(c: char) -> (r: i64)
    ensures
        r == digit_value(c),
        -1 <= r <= 9,
{
    if c == '0' {
        0
    } else if c == '1' {
        1
    } else if c == '2' {
        2
    } else if c == '3' {
        3
    } else if c == '4' {
        4
    } else if c == '5' {
        5
    } else if c == '6' {
        6
    } else if c == '7' {
        7
    } else if c == '8' {
        8
    } else if c == '9' {
        9
    } else {
        -1
    }
}

/// The number that a text writes, if it writes one that fits in 32 bits.
pub fn parse_i32(text: &str) -> (r: Option<i32>)
    ensures
        r is Some <==> parsed_i32(text@) is Some,
        r is Some ==> r->0 as int == parsed_i32(text@)->0,
{
    let v = chars_of(text);
    let negative = v.len() > 0 && v[0] == '-';
    let start: usize = if v.len() > 0 && (v[0] == '-' || v[0] == '+') {
        1
    } else {
        0
    };
    let ghost digits = unsigned_part(text@);
    assert(digits =~= v@.skip(start as int));
    if start == v.len() {
        return None;
    }
    let mut value: i64 = 0;
    let mut over = false;
    let mut i: usize = start;
    assert(digits.take(0) =~= Seq::empty());
    while i < v.len()
        invariant
            start <= i <= v@.len(),
            digits == v@.skip(start as int),
            digits == unsigned_part(text@),
            all_digits(digits.take(i - start)),
            !over ==> value == number(digits.take(i - start)) && 0 <= value <= 0x8000_0000,
            over ==> number(digits.take(i - start)) > 0x8000_0000,
        decreases v@.len() - i,
    {
        let d = digit_of(v[i]);
        assert(digits[i - start] == v@[i as int]);
        if d < 0 {
            assert(digit_value(digits[i - start]) < 0);
            return None;
        }
        proof {
            let next = digits.take(i - start + 1);
            assert(next.drop_last() == digits.take(i - start));
            assert(next.last() == v@[i as int]);
            assert forall|j: int| 0 <= j < next.len() implies digit_value(#[trigger] next[j])
                >= 0 by {
                if j < next.len() - 1 {
                    assert(next[j] == digits.take(i - start)[j]);
                }
            }
        }
        if !over {
            value = value * 10 + d;
            if value > 0x8000_0000 {
                over = true;
            }
        }
        i += 1;
    }
    assert(digits.take(digits.len() as int) =~= digits);
    if over {
        return None;
    }
    if negative {
        Some((0 - value) as i32)
    } else if value <= 0x7fff_ffff {
        Some(value as i32)
    } else {
        None
    }
}

/// What the description of a map says of it, as far as the launcher reads
/// it: the text of each of seven tags, if the tag is there.
#[derive(Debug, PartialEq, Eq)]
pub struct MapInfo {
    pub display_name: Option<String>,
    pub description: Option<String>,
    pub battle_type: Option<String>,
    pub team_size_1: Option<String>,
    pub team_size_2: Option<String>,
    pub defender_funds_ratio: Option<String>,
    pub has_key_buildings: Option<String>,
}

/// A text that may be missing, as a sequence of characters.
pub open spec fn text_view(text: Option<String>) -> Option<Seq<char>> {
    match text {
        Some(t) => Some(t@),
        None => None,
    }
}

/// A [`MapInfo`] with its texts as sequences of characters.
pub ghost struct MapInfoView {
    pub display_name: Option<Seq<char>>,
    pub description: Option<Seq<char>>,
    pub battle_type: Option<Seq<char>>,
    pub team_size_1: Option<Seq<char>>,
    pub team_size_2: Option<Seq<char>>,
    pub defender_funds_ratio: Option<Seq<char>>,
    pub has_key_buildings: Option<Seq<char>>,
}

impl DeepView for MapInfo {
    type V = MapInfoView;

    open spec fn deep_view(&self) -> MapInfoView {
        MapInfoView {
            display_name: text_view(self.display_name),
            description: text_view(self.description),
            battle_type: text_view(self.battle_type),
            team_size_1: text_view(self.team_size_1),
            team_size_2: text_view(self.team_size_2),
            defender_funds_ratio: text_view(self.defender_funds_ratio),
            has_key_buildings: text_view(self.has_key_buildings),
        }
    }
}

impl View for MapInfo {
    type V = MapInfoView;

    open spec fn view(&self) -> MapInfoView {
        self.deep_view()
    }
}

/// What the description `xml` of a map says of it.
pub open spec fn map_info_of(xml: Seq<char>) -> MapInfoView {
    MapInfoView {
        display_name: first_capture("<display_name>(.*)</display_name>"@, xml),
        description: first_capture("<description>(.*)</description>"@, xml),
        battle_type: first_capture("<type>(.*)</type>"@, xml),
        team_size_1: first_capture("<team_size_1>(.*)</team_size_1>"@, xml),
        team_size_2: first_capture("<team_size_2>(.*)</team_size_2>"@, xml),
        defender_funds_ratio: first_capture(
            "<defender_funds_ratio>(.*)</defender_funds_ratio>"@,
            xml,
        ),
        has_key_buildings: first_capture("<has_key_buildings>(.*)</has_key_buildings>"@, xml),
    }
}

/// What the description `xml` of a map says of it.
pub fn read_map_info(xml: &str) -> (r: MapInfo)
    ensures
        r@ == map_info_of(xml@),
{
    MapInfo {
        display_name: capture("<display_name>(.*)</display_name>", xml),
        description: capture("<description>(.*)</description>", xml),
        battle_type: capture("<type>(.*)</type>", xml),
        team_size_1: capture("<team_size_1>(.*)</team_size_1>", xml),
        team_size_2: capture("<team_size_2>(.*)</team_size_2>", xml),
        defender_funds_ratio: capture("<defender_funds_ratio>(.*)</defender_funds_ratio>", xml),
        has_key_buildings: capture("<has_key_buildings>(.*)</has_key_buildings>", xml),
    }
}

/// The row that makes a map known to the game as a battle. A value that is
/// `None` leaves the column as the table has it.
#[derive(Debug, PartialEq, Eq)]
pub struct BattleRow {
    pub key: String,
    pub battle_type: Option<String>,
    pub specification: String,
    pub screenshot_path: String,
    pub team_size_1: Option<i32>,
    pub team_size_2: Option<i32>,
    pub release: bool,
    pub multiplayer: bool,
    pub singleplayer: bool,
    /// The share of the funds that the defender gets, as its decimal text.
    pub defender_funds_ratio: Option<String>,
    pub has_key_buildings: Option<bool>,
    pub matchmaking: bool,
}

/// A [`BattleRow`] with its texts as sequences of characters.
pub ghost struct BattleRowView {
    pub key: Seq<char>,
    pub battle_type: Option<Seq<char>>,
    pub specification: Seq<char>,
    pub screenshot_path: Seq<char>,
    pub team_size_1: Option<int>,
    pub team_size_2: Option<int>,
    pub release: bool,
    pub multiplayer: bool,
    pub singleplayer: bool,
    pub defender_funds_ratio: Option<Seq<char>>,
    pub has_key_buildings: Option<bool>,
    pub matchmaking: bool,
}

/// A number that may be missing, as an integer.
pub open spec fn number_view(n: Option<i32>) -> Option<int> {
    match n {
        Some(v) => Some(v as int),
        None => None,
    }
}

impl DeepView for BattleRow {
    type V = BattleRowView;

    open spec fn deep_view(&self) -> BattleRowView {
        BattleRowView {
            key: self.key@,
            battle_type: text_view(self.battle_type),
            specification: self.specification@,
            screenshot_path: self.screenshot_path@,
            team_size_1: number_view(self.team_size_1),
            team_size_2: number_view(self.team_size_2),
            release: self.release,
            multiplayer: self.multiplayer,
            singleplayer: self.singleplayer,
            defender_funds_ratio: text_view(self.defender_funds_ratio),
            has_key_buildings: self.has_key_buildings,
            matchmaking: self.matchmaking,
        }
    }
}

impl View for BattleRow {
    type V = BattleRowView;

    open spec fn view(&self) -> BattleRowView {
        self.deep_view()
    }
}

/// The folder of a map inside its pack.
pub open spec fn map_folder(map_name: Seq<char>) -> Seq<char> {
    "battleterrain/presets/"@ + map_name + "/"@
}

/// The number that a tag gives, if the tag is there and holds one.
pub open spec fn number_of(text: Option<Seq<char>>) -> Option<int> {
    match text {
        Some(t) => parsed_i32(t),
        None => None,
    }
}

/// The row that makes the map known to the game as a battle: a land battle
/// is called a classic one; sizes and the switch for key buildings are taken
/// only from tags that hold a number or a switch.
pub open spec fn battle_row(map_name: Seq<char>, info: MapInfoView) -> BattleRowView {
    BattleRowView {
        key: map_name,
        battle_type: match info.battle_type {
            Some(kind) => if kind == "land"@ {
                Some("classic"@)
            } else {
                Some(kind)
            },
            None => None,
        },
        specification: map_folder(map_name),
        screenshot_path: map_folder(map_name) + "icon.tga"@,
        team_size_1: number_of(info.team_size_1),
        team_size_2: number_of(info.team_size_2),
        release: true,
        multiplayer: true,
        singleplayer: true,
        defender_funds_ratio: info.defender_funds_ratio,
        has_key_buildings: match info.has_key_buildings {
            Some(text) => parsed_bool(text),
            None => None,
        },
        matchmaking: true,
    }
}

/// The texts that give the map its name and its description in the game.
pub open spec fn battle_texts(map_name: Seq<char>, info: MapInfoView) -> Seq<SettingView> {
    (match info.display_name {
        Some(text) => seq![
            SettingView { key: "battles_localised_name_"@ + map_name, value: text },
        ],
        None => Seq::empty(),
    }) + (match info.description {
        Some(text) => seq![SettingView { key: "battles_description_"@ + map_name, value: text }],
        None => Seq::empty(),
    })
}

/// The folder of a map inside its pack.
fn folder_of_map(map_name: &str) -> (r: String)
    ensures
        r@ == map_folder(map_name@),
{
    let mut path = "battleterrain/presets/".to_owned();
    path.append(map_name);
    path.append("/");
    path
}

/// The number that a tag gives.
fn number_from(text: &Option<String>) -> (r: Option<i32>)
    ensures
        number_view(r) == number_of(text_view(*text)),
{
    match text {
        Some(t) => parse_i32(t.as_str()),
        None => None,
    }
}

/// The row that makes the map known to the game as a battle.
pub fn describe_battle(map_name: &str, info: &MapInfo) -> (r: BattleRow)
    ensures
        r@ == battle_row(map_name@, info@),
{
    let mut screenshot_path = folder_of_map(map_name);
    screenshot_path.append("icon.tga");
    BattleRow {
        key: map_name.to_owned(),
        battle_type: match &info.battle_type {
            Some(kind) => if str_eq(kind.as_str(), "land") {
                Some("classic".to_owned())
            } else {
                Some(kind.clone())
            },
            None => None,
        },
        specification: folder_of_map(map_name),
        screenshot_path,
        team_size_1: number_from(&info.team_size_1),
        team_size_2: number_from(&info.team_size_2),
        release: true,
        multiplayer: true,
        singleplayer: true,
        defender_funds_ratio: match &info.defender_funds_ratio {
            Some(text) => Some(text.clone()),
            None => None,
        },
        has_key_buildings: match &info.has_key_buildings {
            Some(text) => parse_bool(text.as_str()),
            None => None,
        },
        matchmaking: true,
    }
}

/// The texts that give the map its name and its description in the game.
pub fn describe_texts(map_name: &str, info: &MapInfo) -> (r: Vec<Setting>)
    ensures
        r.deep_view() == battle_texts(map_name@, info@),
{
    let mut out: Vec<Setting> = Vec::new();
    assert(out.deep_view() =~= Seq::empty());
    if let Some(text) = &info.display_name {
        let mut key = "battles_localised_name_".to_owned();
        key.append(map_name);
        out.push(Setting { key, value: text.clone() });
        assert(out.deep_view() =~= seq![
            SettingView { key: "battles_localised_name_"@ + map_name@, value: text@ },
        ]);
    }
    let ghost first = out.deep_view();
    if let Some(text) = &info.description {
        let mut key = "battles_description_".to_owned();
        key.append(map_name);
        out.push(Setting { key, value: text.clone() });
        assert(out.deep_view() =~= first + seq![
            SettingView { key: "battles_description_"@ + map_name@, value: text@ },
        ]);
    } else {
        assert(out.deep_view() =~= first + Seq::<SettingView>::empty());
    }
    out
}

/// The two tables that make a map known to the game.
#[derive(Debug, PartialEq, Eq)]
pub struct MapTables {
    /// Where the table of battles goes in the pack.
    pub battle_path: String,
    pub battle: BattleRow,
    /// Where the table of texts goes in the pack.
    pub texts_path: String,
    pub texts: Vec<Setting>,
}

/// A [`MapTables`] with its texts as sequences of characters.
pub ghost struct MapTablesView {
    pub battle_path: Seq<char>,
    pub battle: BattleRowView,
    pub texts_path: Seq<char>,
    pub texts: Seq<SettingView>,
}

impl DeepView for MapTables {
    type V = MapTablesView;

    open spec fn deep_view(&self) -> MapTablesView {
        MapTablesView {
            battle_path: self.battle_path@,
            battle: self.battle@,
            texts_path: self.texts_path@,
            texts: self.texts.deep_view(),
        }
    }
}

impl View for MapTables {
    type V = MapTablesView;

    open spec fn view(&self) -> MapTablesView {
        self.deep_view()
    }
}

/// The two tables that make the map known to the game.
pub open spec fn map_tables(map_name: Seq<char>, info: MapInfoView) -> MapTablesView {
    MapTablesView {
        battle_path: "db/battles_tables/"@ + map_name,
        battle: battle_row(map_name, info),
        texts_path: "text/db/"@ + map_name + ".loc"@,
        texts: battle_texts(map_name, info),
    }
}

/// The two tables that make the map known to the game.
pub fn describe_map(map_name: &str, info: &MapInfo) -> (r: MapTables)
    ensures
        r@ == map_tables(map_name@, info@),
{
    let mut battle_path = "db/battles_tables/".to_owned();
    battle_path.append(map_name);
    let mut texts_path = "text/db/".to_owned();
    texts_path.append(map_name);
    texts_path.append(".loc");
    MapTables {
        battle_path,
        battle: describe_battle(map_name, info),
        texts_path,
        texts: describe_texts(map_name, info),
    }
}

/// The pack to make of a map.
#[derive(Debug, PartialEq, Eq)]
pub struct MapPack {
    pub pack_name: String,
    /// The files of the map, each with its path in the pack.
    pub files: Vec<MapFile>,
    /// The tables, where the map describes itself and the table of battles
    /// is known.
    pub tables: Option<MapTables>,
}

/// A [`MapPack`] with its texts as sequences of characters.
pub ghost struct MapPackView {
    pub pack_name: Seq<char>,
    pub files: Seq<MapFileView>,
    pub tables: Option<MapTablesView>,
}

impl DeepView for MapPack {
    type V = MapPackView;

    open spec fn deep_view(&self) -> MapPackView {
        MapPackView {
            pack_name: self.pack_name@,
            files: self.files.deep_view(),
            tables: match self.tables {
                Some(tables) => Some(tables@),
                None => None,
            },
        }
    }
}

impl View for MapPack {
    type V = MapPackView;

    open spec fn view(&self) -> MapPackView {
        self.deep_view()
    }
}

/// The file with the folder of the map before its name.
pub open spec fn placed(folder: Seq<char>) -> spec_fn(MapFileView) -> MapFileView {
    |f: MapFileView| MapFileView { name: folder + f.name, data: f.data }
}

/// The description of the map among its files, if it is there and is text.
pub open spec fn description_of(files: Seq<MapFileView>) -> Option<Seq<char>> {
    let k = position(file_names(files), "map_info.xml"@);
    if k >= 0 && valid_utf8(files[k].data) {
        Some(decode_utf8(files[k].data))
    } else {
        None
    }
}

/// The pack to make of the files of a map: the files go into the folder of
/// the map, and the tables are added where the map describes itself and the
/// table of battles is known.
pub open spec fn map_pack(
    files: Seq<MapFileView>,
    pack_name: Seq<char>,
    map_name: Seq<char>,
    table_known: bool,
) -> MapPackView {
    MapPackView {
        pack_name,
        files: files.map_values(placed(map_folder(map_name))),
        tables: match description_of(files) {
            Some(xml) => if table_known {
                Some(map_tables(map_name, map_info_of(xml)))
            } else {
                None
            },
            None => None,
        },
    }
}

/// The pack to make of the files of a map.
pub fn pack_of_files(files: &Vec<MapFile>, pack_name: &str, map_name: &str, table_known: bool) -> (r:
    MapPack)
    ensures
        r@ == map_pack(files.deep_view(), pack_name@, map_name@, table_known),
{
    let ghost src = files.deep_view();
    let folder = folder_of_map(map_name);
    let ghost f = placed(map_folder(map_name@));
    let mut out: Vec<MapFile> = Vec::new();
    let mut i: usize = 0;
    while i < files.len()
        invariant
            i <= files@.len(),
            src == files.deep_view(),
            folder@ == map_folder(map_name@),
            f == placed(map_folder(map_name@)),
            out@.len() == i,
            forall|j: int| 0 <= j < i ==> out@[j]@ == f(src[j]),
        decreases files@.len() - i,
    {
        assert(src[i as int] == files@[i as int]@);
        let mut name = folder.clone();
        name.append(files[i].name.as_str());
        out.push(MapFile { name, data: files[i].data.clone() });
        i += 1;
    }
    assert(out.deep_view() =~= src.map_values(f));
    let xml = match find_file(files, "map_info.xml") {
        Some(k) => {
            assert(src[k as int] == files@[k as int]@);
            text_from_utf8(&files[k].data)
        },
        None => None,
    };
    let tables = match xml {
        Some(text) => {
            if table_known {
                let info = read_map_info(text.as_str());
                Some(describe_map(map_name, &info))
            } else {
                None
            }
        },
        None => None,
    };
    MapPack { pack_name: pack_name.to_owned(), files: out, tables }
}

/// The pack to make of a map, from its unpacked data. `table_known` tells
/// whether the layout of the table of battles is known.
pub fn generate_map_pack(data_dec: &[u8], pack_name: &str, map_name: &str, table_known: bool) -> (r:
    Result<MapPack, MapError>)
    ensures
        r is Ok <==> files_from(data_dec@, 0, Seq::empty()) is Ok,
        r is Ok ==> r->Ok_0@ == map_pack(
            files_from(data_dec@, 0, Seq::empty())->Ok_0,
            pack_name@,
            map_name@,
            table_known,
        ),
        r is Err ==> r->Err_0 == files_from(data_dec@, 0, Seq::empty())->Err_0,
{
    match read_map_files(data_dec) {
        Ok(files) => Ok(pack_of_files(&files, pack_name, map_name, table_known)),
        Err(e) => Err(e),
    }
}

/// The unpacked data of a map file, if the file is a zlib stream.
pub fn unpack_map(contents: &[u8]) -> (r: Option<Vec<u8>>)
    ensures
        r is Some <==> zlib_inflated(contents@) is Some,
        r is Some ==> r->0@ == zlib_inflated(contents@)->0,
{
    inflate(contents)
}

} // verus!
