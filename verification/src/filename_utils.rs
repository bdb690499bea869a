//! The names of save files and of snapshot folders.

use vstd::prelude::*;
use crate::lookup::index_of;
use crate::lookup::lemma_index_of_is;
use crate::paths::file_name;
use crate::paths::has_extension;
use crate::paths::parent;
use crate::paths::path_file_name;
use crate::paths::path_has_extension;
use crate::paths::path_parent;
use crate::text::chars_of;
use crate::text::decimal;
use crate::text::equals_at;
use crate::text::find_char;
use crate::text::has_prefix;
use crate::text::lemma_decimal_digits;
use crate::text::parse_u32;
use crate::text::parse_u32_at;
use crate::text::push_decimal;
use crate::text::result_text;
use crate::text::starts_with_at;
use crate::text::string_of;
use crate::text::text_of;
use crate::timestamp::LocalDateTime;
use crate::timestamp::format_timestamp;
use crate::timestamp::parse_timestamp;
use crate::timestamp::parsed_timestamp;
use crate::timestamp::reads_back;
use crate::timestamp::timestamp_text;

verus! {

/// What the name of a save file tells.
#[derive(Clone, Copy, Debug, PartialEq, Eq, Structural)]
pub struct SaveFileInfo {
    /// The zero-based slot number in the name.
    pub game_number: u32,
    /// True for the `.bak` sibling, false for the main save file.
    pub is_bak: bool,
}

/// The name of the main save file of `slot`: `gamesave_{slot}.sav`.
pub open spec fn main_filename(slot: u32) -> Seq<char> {
    "gamesave_"@ + decimal(slot as nat) + ".sav"@
}

/// The name of the backup sibling of `slot`: `gamesave_{slot}.sav.bak`.
pub open spec fn bak_filename(slot: u32) -> Seq<char> {
    "gamesave_"@ + decimal(slot as nat) + ".sav.bak"@
}

/// What a file name tells: it must begin with `gamesave_`, go on with a
/// decimal `u32` up to the first dot, and end in `.sav` or `.sav.bak`.
pub open spec fn parsed_filename(name: Seq<char>) -> Option<SaveFileInfo> {
    if !has_prefix(name, "gamesave_"@) {
        None
    } else {
        let rest = name.skip("gamesave_"@.len() as int);
        match index_of(rest, '.') {
            None => None,
            Some(dot) => match parse_u32(rest.take(dot)) {
                None => None,
                Some(n) => if rest.skip(dot) == ".sav"@ {
                    Some(SaveFileInfo { game_number: n, is_bak: false })
                } else if rest.skip(dot) == ".sav.bak"@ {
                    Some(SaveFileInfo { game_number: n, is_bak: true })
                } else {
                    None
                },
            },
        }
    }
}

/// Reads slot number and kind from the name of a save file.
pub fn parse_filename(filename: &str) -> (r: Option<SaveFileInfo>)
    ensures
        r == parsed_filename(filename@),
{
    let v = chars_of(filename);
    proof {
        reveal_strlit("gamesave_");
    }
    if !starts_with_at(&v, 0, "gamesave_") {
        assert(v@.skip(0) =~= v@);
        return None;
    }
    assert(v@.skip(0) =~= v@);
    let ghost rest = v@.skip(9);
    let dot = match find_char(&v, 9, '.') {
        Some(d) => d,
        None => {
            return None;
        },
    };
    proof {
        crate::lookup::lemma_index_of(rest, '.');
    }
    assert(rest.take(dot as int) =~= v@.subrange(9, 9 + dot));
    assert(rest.skip(dot as int) =~= v@.skip(9 + dot));
    let number = match parse_u32_at(&v, 9, 9 + dot) {
        Some(n) => n,
        None => {
            return None;
        },
    };
    if equals_at(&v, 9 + dot, ".sav") {
        Some(SaveFileInfo { game_number: number, is_bak: false })
    } else if equals_at(&v, 9 + dot, ".sav.bak") {
        Some(SaveFileInfo { game_number: number, is_bak: true })
    } else {
        None
    }
}

/// The names that the save files of a slot carry are read back as that slot:
/// the main file as the main file, the sibling as the sibling.
pub proof fn lemma_filenames_parse(slot: u32)
    ensures
        parsed_filename(main_filename(slot)) == Some(
            SaveFileInfo { game_number: slot, is_bak: false },
        ),
        parsed_filename(bak_filename(slot)) == Some(
            SaveFileInfo { game_number: slot, is_bak: true },
        ),
        main_filename(slot) != bak_filename(slot),
{
    reveal_strlit("gamesave_");
    reveal_strlit(".sav");
    reveal_strlit(".sav.bak");
    lemma_decimal_digits(slot as nat);
    let d = decimal(slot as nat);
    let m = main_filename(slot);
    let b = bak_filename(slot);
    assert(m.take(9) =~= "gamesave_"@);
    assert(b.take(9) =~= "gamesave_"@);
    assert(m.skip(9) =~= d + ".sav"@);
    assert(b.skip(9) =~= d + ".sav.bak"@);
    assert forall|j: int| 0 <= j < d.len() implies (d + ".sav"@)[j] != '.' && (d + ".sav.bak"@)[j]
        != '.' by {
        assert(crate::text::is_digit(d[j]));
    }
    lemma_index_of_is(d + ".sav"@, '.', d.len() as int);
    lemma_index_of_is(d + ".sav.bak"@, '.', d.len() as int);
    assert((d + ".sav"@).take(d.len() as int) =~= d);
    assert((d + ".sav.bak"@).take(d.len() as int) =~= d);
    assert((d + ".sav"@).skip(d.len() as int) =~= ".sav"@);
    assert((d + ".sav.bak"@).skip(d.len() as int) =~= ".sav.bak"@);
    assert(".sav"@.len() != ".sav.bak"@.len());
    assert(m.len() != b.len());
}

/// Builds the name of the main save file of `slot`.
pub fn main_file_name(slot: u32) -> (r: String)
    ensures
        r@ == main_filename(slot),
{
    let mut r = String::from_str("gamesave_");
    push_decimal(&mut r, slot as u64);
    r.append(".sav");
    r
}

/// Builds the name of the backup sibling of `slot`.
pub fn bak_file_name(slot: u32) -> (r: String)
    ensures
        r@ == bak_filename(slot),
{
    let mut r = String::from_str("gamesave_");
    push_decimal(&mut r, slot as u64);
    r.append(".sav.bak");
    r
}

/// What the final component of `path` tells as a save file name; nothing for
/// a path without a final component.
pub open spec fn parsed_path(path: Seq<char>) -> Option<SaveFileInfo> {
    match path_file_name(path) {
        Some(name) => parsed_filename(name),
        None => None,
    }
}

/// Reads slot number and kind from the final component of `path`.
pub fn parse_path(path: &str) -> (r: Option<SaveFileInfo>)
    ensures
        r == parsed_path(path@),
{
    match file_name(path) {
        Some(name) => parse_filename(name.as_str()),
        None => None,
    }
}

/// The directory that `path` stands for, given whether the path has an
/// extension and what its parent is: the parent of a file, the parent of a
/// path that does not exist but has an extension, and the path itself
/// otherwise. `Err` where the parent is wanted and there is none.
pub open spec fn chosen_directory(
    path: Seq<char>,
    is_file: bool,
    path_exists: bool,
    has_extension: bool,
    parent: Option<Seq<char>>,
) -> Result<Seq<char>, Seq<char>> {
    if is_file || (!path_exists && has_extension) {
        match parent {
            Some(p) => Ok(p),
            None => Err("Invalid file path: has no parent"@),
        }
    } else {
        Ok(path)
    }
}

/// The directory that `path` stands for, with extension and parent as the
/// platform's path rules give them.
pub open spec fn normalized_directory(path: Seq<char>, is_file: bool, path_exists: bool) -> Result<
    Seq<char>,
    Seq<char>,
> {
    chosen_directory(path, is_file, path_exists, path_has_extension(path), path_parent(path))
}

/// Chooses the directory to work in from what is known of `path`: whether
/// it names an existing file, whether it names anything at all, whether it has
/// an extension, and what its parent is.
pub fn choose_directory(
    path: &str,
    is_file: bool,
    path_exists: bool,
    has_extension: bool,
    parent: Option<String>,
) -> (r: Result<String, String>)
    ensures
        result_text(r) == chosen_directory(
            path@,
            is_file,
            path_exists,
            has_extension,
            text_of(parent),
        ),
{
    if is_file || (!path_exists && has_extension) {
        match parent {
            Some(p) => Ok(p),
            None => Err(String::from_str("Invalid file path: has no parent")),
        }
    } else {
        Ok(String::from_str(path))
    }
}

/// Turns a path into the directory to work in. `is_file` says whether the
/// path names an existing file, `path_exists` whether it names anything at all.
pub fn normalize_to_directory(path: &str, is_file: bool, path_exists: bool) -> (r: Result<
    String,
    String,
>)
    ensures
        result_text(r) == normalized_directory(path@, is_file, path_exists),
{
    choose_directory(path, is_file, path_exists, has_extension(path), parent(path))
}

/// The name of the snapshot folder of `slot` taken at the moment `t`:
/// `Game {slot + 1} - {moment}`.
pub open spec fn folder_name(slot: u32, t: LocalDateTime) -> Seq<char> {
    "Game "@ + decimal((slot + 1) as nat) + " - "@ + timestamp_text(t)
}

/// Formats the name of a snapshot folder from the slot and the moment the
/// save file was last modified. The name is read back as the same slot and
/// the same moment, but for the last slot, whose display number does not fit.
pub fn format_backup_folder_name(game_number: u32, timestamp: LocalDateTime) -> (r: String)
    requires
        timestamp.is_valid(),
    ensures
        r@ == folder_name(game_number, timestamp),
        reads_back(timestamp),
        game_number < u32::MAX ==> parsed_folder_name(r@) == Some(
            BackupFolderInfo { game_number, timestamp },
        ),
{
    proof {
        if game_number < u32::MAX {
            lemma_folder_name_parse(game_number, timestamp);
        }
    }
    let mut r = String::from_str("Game ");
    push_decimal(&mut r, game_number as u64 + 1);
    r.append(" - ");
    match format_timestamp(timestamp) {
        Some(t) => {
            r.append(t.as_str());
        },
        None => {},
    }
    r
}

/// What the name of a snapshot folder tells.
#[derive(Clone, Copy, Debug, PartialEq, Eq, Structural)]
pub struct BackupFolderInfo {
    /// The zero-based slot number.
    pub game_number: u32,
    /// The moment in the name, in local time.
    pub timestamp: LocalDateTime,
}

/// Whether the separator ` - ` stands at position `i` of `s`.
pub open spec fn is_separator_at(s: Seq<char>, i: int) -> bool {
    0 <= i && i + 3 <= s.len() && s[i] == ' ' && s[i + 1] == '-' && s[i + 2] == ' '
}

/// The first position from `from` on at which the separator stands.
pub open spec fn first_separator_from(s: Seq<char>, from: int) -> Option<int>
    decreases s.len() - from,
{
    if from < 0 || from + 3 > s.len() {
        None
    } else if is_separator_at(s, from) {
        Some(from)
    } else {
        first_separator_from(s, from + 1)
    }
}

/// The first position of `s` at which the separator ` - ` stands.
pub open spec fn first_separator(s: Seq<char>) -> Option<int> {
    first_separator_from(s, 0)
}

/// A position with the separator and none between `from` and it is the one
/// that `first_separator_from` finds.
pub proof fn lemma_first_separator_is(s: Seq<char>, from: int, at: int)
    requires
        0 <= from <= at,
        is_separator_at(s, at),
        forall|j: int| from <= j < at ==> !is_separator_at(s, j),
    ensures
        first_separator_from(s, from) == Some(at),
    decreases at - from,
{
    if from < at {
        lemma_first_separator_is(s, from + 1, at);
    }
}

/// Where no position from `from` on has the separator, none is found.
pub proof fn lemma_first_separator_none(s: Seq<char>, from: int)
    requires
        0 <= from,
        forall|j: int| from <= j ==> !is_separator_at(s, j),
    ensures
        first_separator_from(s, from) is None,
    decreases s.len() - from,
{
    if from + 3 <= s.len() {
        lemma_first_separator_none(s, from + 1);
    }
}

/// The display number and the date part of a folder name. The name is cut
/// at the first ` - `; the part before must be `Game ` and a decimal `u32`,
/// the display number; the part after is the date part.
pub open spec fn split_folder_name(name: Seq<char>) -> Option<(u32, Seq<char>)> {
    match first_separator(name) {
        None => None,
        Some(at) => {
            let prefix = name.take(at);
            if !has_prefix(prefix, "Game "@) {
                None
            } else {
                match parse_u32(prefix.skip("Game "@.len() as int)) {
                    None => None,
                    Some(display) => Some((display, name.skip(at + 3))),
                }
            }
        },
    }
}

/// What a display number and the moment read from the date part tell. The
/// display number is one more than the slot (a display number 0 counts as slot
/// 0). Without a moment the name tells nothing.
pub open spec fn folder_info_of(display: u32, timestamp: Option<LocalDateTime>) -> Option<
    BackupFolderInfo,
> {
    match timestamp {
        Some(t) => Some(
            BackupFolderInfo {
                game_number: if display == 0 {
                    0
                } else {
                    (display - 1) as u32
                },
                timestamp: t,
            },
        ),
        None => None,
    }
}

/// What a folder name tells: its display number gives the slot, and its
/// date part must be a moment that chrono reads.
pub open spec fn parsed_folder_name(name: Seq<char>) -> Option<BackupFolderInfo> {
    match split_folder_name(name) {
        None => None,
        Some((display, date_part)) => folder_info_of(display, parsed_timestamp(date_part)),
    }
}

/// Cuts a folder name into its display number and its date part.
pub fn split_backup_folder_name(folder_name: &str) -> (r: Option<(u32, String)>)
    ensures
        match r {
            Some((display, date_part)) => split_folder_name(folder_name@) == Some(
                (display, date_part@),
            ),
            None => split_folder_name(folder_name@) is None,
        },
{
    let v = chars_of(folder_name);
    let mut at: usize = 0;
    let mut found = false;
    while !found && v.len() >= 3 && at <= v.len() - 3
        invariant
            at <= v.len(),
            forall|j: int| 0 <= j < at ==> !is_separator_at(v@, j),
            found ==> is_separator_at(v@, at as int),
        decreases v.len() - at + (if found { 0int } else { 1int }),
    {
        if v[at] == ' ' && v[at + 1] == '-' && v[at + 2] == ' ' {
            found = true;
        } else {
            at += 1;
        }
    }
    if !found {
        proof {
            assert forall|j: int| 0 <= j implies !is_separator_at(v@, j) by {}
            lemma_first_separator_none(v@, 0);
        }
        return None;
    }
    proof {
        lemma_first_separator_is(v@, 0, at as int);
        reveal_strlit("Game ");
    }
    let ghost prefix = v@.take(at as int);
    if at < 5 || !starts_with_at(&v, 0, "Game ") {
        assert(v@.skip(0) =~= v@);
        assert(at >= 5 ==> v@.take(5) =~= prefix.take(5));
        return None;
    }
    assert(v@.skip(0) =~= v@);
    assert(v@.take(5) =~= prefix.take(5));
    assert(prefix.skip(5) =~= v@.subrange(5, at as int));
    let display = match parse_u32_at(&v, 5, at) {
        Some(n) => n,
        None => {
            return None;
        },
    };
    let date_part = string_of(&v, at + 3, v.len());
    assert(v@.skip(at + 3) =~= v@.subrange(at + 3, v@.len() as int));
    Some((display, date_part))
}

/// Puts together what a folder name tells from its display number and the
/// moment that was read from its date part, if one was.
pub fn backup_folder_info(display_number: u32, timestamp: Option<LocalDateTime>) -> (r: Option<
    BackupFolderInfo,
>)
    ensures
        r == folder_info_of(display_number, timestamp),
{
    match timestamp {
        Some(t) => Some(
            BackupFolderInfo {
                game_number: if display_number == 0 {
                    0
                } else {
                    display_number - 1
                },
                timestamp: t,
            },
        ),
        None => None,
    }
}

/// Reads slot and moment from the name of a snapshot folder.
pub fn parse_backup_folder_name(folder_name: &str) -> (r: Option<BackupFolderInfo>)
    ensures
        r == parsed_folder_name(folder_name@),
{
    match split_backup_folder_name(folder_name) {
        Some((display, date_part)) => backup_folder_info(
            display,
            parse_timestamp(date_part.as_str()),
        ),
        None => None,
    }
}

/// The parts of a text made of `Game `, the digits of a display number, the
/// separator and a rest: the first separator is the one that was put in, and
/// the parts around it are the digits and the rest.
proof fn lemma_folder_name_parts(display: nat, rest: Seq<char>)
    ensures
        ({
            let d = decimal(display);
            let name = "Game "@ + d + " - "@ + rest;
            &&& first_separator(name) == Some(5 + d.len() as int)
            &&& has_prefix(name.take(5 + d.len() as int), "Game "@)
            &&& name.take(5 + d.len() as int).skip("Game "@.len() as int) == d
            &&& name.skip(5 + d.len() as int + 3) == rest
        }),
{
    reveal_strlit("Game ");
    reveal_strlit(" - ");
    let d = decimal(display);
    let name = "Game "@ + d + " - "@ + rest;
    lemma_decimal_digits(display);
    let at = 5 + d.len() as int;
    assert forall|j: int| 0 <= j < at implies !is_separator_at(name, j) by {
        if j == 4 {
            assert(name[5] == d[0]);
            assert(crate::text::is_digit(d[0]));
        } else if j >= 5 {
            assert(name[j] == d[j - 5]);
            assert(crate::text::is_digit(d[j - 5]));
        }
    }
    assert(is_separator_at(name, at));
    lemma_first_separator_is(name, 0, at);
    let prefix = name.take(at);
    assert(prefix =~= "Game "@ + d);
    assert(prefix.take(5) =~= "Game "@);
    assert(prefix.skip(5) =~= d);
    assert(name.skip(at + 3) =~= rest);
}

/// Reading back a folder name that was formatted for `slot` and `t` recovers
/// the slot, and hands to chrono exactly the text that was rendered for `t`:
/// the name is read as the slot with whatever moment chrono reads from that
/// text, and is refused only where chrono refuses it.
pub proof fn lemma_folder_name_parse(slot: u32, t: LocalDateTime)
    requires
        slot < u32::MAX,
    ensures
        parsed_folder_name(folder_name(slot, t)) == match parsed_timestamp(timestamp_text(t)) {
            Some(read) => Some(BackupFolderInfo { game_number: slot, timestamp: read }),
            None => None,
        },
{
    lemma_folder_name_parts((slot + 1) as nat, timestamp_text(t));
    lemma_decimal_digits((slot + 1) as nat);
}

/// The folder names of different slots differ, whatever their moments: a
/// snapshot of one slot never takes the folder of another.
pub proof fn lemma_folder_names_differ(a: u32, at: LocalDateTime, b: u32, bt: LocalDateTime)
    requires
        a != b,
    ensures
        folder_name(a, at) != folder_name(b, bt),
{
    lemma_folder_name_parts((a + 1) as nat, timestamp_text(at));
    lemma_folder_name_parts((b + 1) as nat, timestamp_text(bt));
    lemma_decimal_digits((a + 1) as nat);
    lemma_decimal_digits((b + 1) as nat);
}

/// A folder name that was formatted for a slot is read as that slot or not
/// at all, never as another slot.
pub proof fn lemma_folder_name_slot(slot: u32, t: LocalDateTime)
    ensures
        parsed_folder_name(folder_name(slot, t)) matches Some(info) ==> info.game_number == slot,
{
    lemma_folder_name_parts((slot + 1) as nat, timestamp_text(t));
    lemma_decimal_digits((slot + 1) as nat);
}

/// A folder name that was formatted for a slot and a moment that chrono
/// reads back is read as that slot and that moment.
pub proof fn lemma_folder_name_round_trip(slot: u32, t: LocalDateTime)
    requires
        slot < u32::MAX,
        reads_back(t),
    ensures
        parsed_folder_name(folder_name(slot, t)) == Some(
            BackupFolderInfo { game_number: slot, timestamp: t },
        ),
{
    lemma_folder_name_parse(slot, t);
}

} // verus!
