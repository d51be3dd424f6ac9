//! The words that the browser shows: counts, summaries, sizes and permissions.
use vstd::prelude::*;
use vstd::string::*;

use crate::entry::{entries_of, FileEntry, FileEntryView};
use crate::text::{
    chars_of, count_text, decimal, digit, join, joined, last_position, lemma_last_position,
    position_from_end, push_decimal, text_between,
};

verus! {

/// What is shown in the place of what is not known.
pub open spec fn dash() -> Seq<char> {
    "—"@
}

/// A text, or a dash where there is none.
pub fn or_dash(text: Option<String>) -> (shown: String)
    ensures
        shown@ == match text {
            Some(known) => known@,
            None => dash(),
        },
{
    match text {
        Some(known) => known,
        None => "—".to_owned(),
    }
}

/// A number of items in words.
pub open spec fn item_count(count: nat) -> Seq<char> {
    if count == 1 {
        "1 item"@
    } else {
        decimal(count) + " items"@
    }
}

/// A number of items in words.
pub fn item_count_label(count: usize) -> (label: String)
    ensures
        label@ == item_count(count as nat),
{
    if count == 1 {
        "1 item".to_owned()
    } else {
        let mut label = count_text(count);
        label.append(" items");
        label
    }
}

/// The number of entries that can be browsed.
pub open spec fn directory_count(entries: Seq<FileEntryView>) -> nat {
    entries.filter(|entry: FileEntryView| entry.is_directory()).len()
}

/// How many entries there are, and of which kind, where all are of one kind.
pub open spec fn kind_summary(entries: Seq<FileEntryView>) -> Seq<char> {
    let directories = directory_count(entries);
    let files = (entries.len() - directories) as nat;
    if directories == 0 {
        if files == 1 {
            "1 file"@
        } else {
            decimal(files) + " files"@
        }
    } else if files == 0 {
        if directories == 1 {
            "1 folder"@
        } else {
            decimal(directories) + " folders"@
        }
    } else {
        item_count(entries.len())
    }
}

/// How many entries there are, and of which kind, where all are of one kind.
pub fn entry_kind_summary(entries: &Vec<FileEntry>) -> (summary: String)
    ensures
        summary@ == kind_summary(entries_of(entries@)),
{
    let ghost views = entries_of(entries@);
    let ghost browsable = |entry: FileEntryView| entry.is_directory();
    let mut directories: usize = 0;
    let mut i: usize = 0;
    proof {
        reveal(Seq::filter);
        assert(views.take(0).filter(browsable).len() == 0);
    }
    while i < entries.len()
        invariant
            views == entries_of(entries@),
            browsable == (|entry: FileEntryView| entry.is_directory()),
            i <= entries@.len(),
            directories <= i,
            directories == views.take(i as int).filter(browsable).len(),
        decreases entries@.len() - i,
    {
        proof {
            let next = views.take(i + 1);
            assert(next.drop_last() =~= views.take(i as int));
            assert(next.last() == entries@[i as int]@);
            reveal(Seq::filter);
        }
        if entries[i].is_directory() {
            directories += 1;
        }
        i += 1;
    }
    proof {
        assert(views.take(i as int) =~= views);
    }
    let files: usize = entries.len() - directories;
    if directories == 0 {
        if files == 1 {
            "1 file".to_owned()
        } else {
            let mut summary = count_text(files);
            summary.append(" files");
            summary
        }
    } else if files == 0 {
        if directories == 1 {
            "1 folder".to_owned()
        } else {
            let mut summary = count_text(directories);
            summary.append(" folders");
            summary
        }
    } else {
        item_count_label(entries.len())
    }
}

/// What stands in an empty filter of a column with so many rows.
pub open spec fn placeholder(count: nat) -> Seq<char> {
    "Filter "@ + decimal(count) + (if count == 1 {
        " item…"@
    } else {
        " items…"@
    })
}

/// What stands in an empty filter of a column with so many rows.
pub fn filter_placeholder(count: usize) -> (text: String)
    ensures
        text@ == placeholder(count as nat),
{
    let mut text = "Filter ".to_owned();
    push_decimal(&mut text, count as u64);
    if count == 1 {
        text.append(" item…");
    } else {
        text.append(" items…");
    }
    text
}

/// The display names of the first `count` entries.
pub open spec fn first_names(entries: Seq<FileEntryView>, count: int) -> Seq<Seq<char>> {
    Seq::new(
        (if entries.len() < count {
            entries.len() as int
        } else {
            count
        }) as nat,
        |k: int| entries[k].display_name,
    )
}

/// The names of the first three entries, and a sign where there are more.
pub open spec fn names_summary(entries: Seq<FileEntryView>) -> Seq<char> {
    joined(first_names(entries, 3), ", "@) + (if entries.len() > 3 {
        ", …"@
    } else {
        Seq::empty()
    })
}

/// The names of the first three entries, and a sign where there are more.
pub fn selected_items_summary(entries: &Vec<FileEntry>) -> (summary: String)
    ensures
        summary@ == names_summary(entries_of(entries@)),
{
    let mut names: Vec<String> = Vec::new();
    let mut i: usize = 0;
    while i < entries.len() && i < 3
        invariant
            i <= entries@.len(),
            i <= 3,
            names@.len() == i,
            forall|k: int| 0 <= k < i ==> (#[trigger] names@[k])@ == entries@[k].display_name@,
        decreases entries@.len() - i,
    {
        names.push(entries[i].display_name.clone());
        i += 1;
    }
    assert(names@.map_values(|t: String| t@) =~= first_names(entries_of(entries@), 3));
    let mut summary = join(&names, ", ");
    if entries.len() > 3 {
        summary.append(", …");
    }
    assert(summary@ =~= names_summary(entries_of(entries@)));
    summary
}

/// How many characters of a name come before its ending: all of them, where the name has none or
/// starts with the only dot.
pub open spec fn stem_length(name: Seq<char>) -> int {
    if last_position(name, '.') > 0 {
        last_position(name, '.')
    } else {
        name.len() as int
    }
}

/// How many characters of a name are selected when it is to be edited: those before its ending.
pub fn rename_stem_end(name: &str) -> (end: i32)
    ensures
        end == if stem_length(name@) > i32::MAX {
            i32::MAX as int
        } else {
            stem_length(name@)
        },
{
    let chars = chars_of(name);
    proof {
        lemma_last_position(name@, '.');
    }
    let end: usize = match position_from_end(&chars, '.') {
        Some(position) => if position > 0 {
            position
        } else {
            chars.len()
        },
        None => chars.len(),
    };
    if end > 2147483647 {
        2147483647
    } else {
        end as i32
    }
}

/// The unit in which a size is shown.
#[derive(Debug, Clone, Copy, PartialEq, Eq, Structural)]
pub enum SizeUnit {
    Bytes,
    Kilobytes,
    Megabytes,
    Gigabytes,
    Terabytes,
}

/// The unit in which a size is shown: the largest of which it holds at least one.
pub open spec fn unit_of(bytes: int) -> SizeUnit {
    if bytes < 1_000 {
        SizeUnit::Bytes
    } else if bytes < 1_000_000 {
        SizeUnit::Kilobytes
    } else if bytes < 1_000_000_000 {
        SizeUnit::Megabytes
    } else if bytes < 1_000_000_000_000 {
        SizeUnit::Gigabytes
    } else {
        SizeUnit::Terabytes
    }
}

/// The sign of a unit.
pub open spec fn unit_sign(unit: SizeUnit) -> Seq<char> {
    match unit {
        SizeUnit::Bytes => "B"@,
        SizeUnit::Kilobytes => "kB"@,
        SizeUnit::Megabytes => "MB"@,
        SizeUnit::Gigabytes => "GB"@,
        SizeUnit::Terabytes => "TB"@,
    }
}

/// The unit in which a size is shown.
pub fn size_unit(bytes: u64) -> (unit: SizeUnit)
    ensures
        unit == unit_of(bytes as int),
{
    if bytes < 1_000 {
        SizeUnit::Bytes
    } else if bytes < 1_000_000 {
        SizeUnit::Kilobytes
    } else if bytes < 1_000_000_000 {
        SizeUnit::Megabytes
    } else if bytes < 1_000_000_000_000 {
        SizeUnit::Gigabytes
    } else {
        SizeUnit::Terabytes
    }
}

/// A number without a decimal place that says nothing.
pub open spec fn trimmed(number: Seq<char>) -> Seq<char>
    decreases number.len(),
{
    let n = number.len() as int;
    if n >= 2 && number[n - 2] == '.' && number[n - 1] == '0' {
        trimmed(number.take(n - 2))
    } else {
        number
    }
}

/// A size in words. `rounded` is the size in the unit that it is shown in, to one decimal place.
/// Bytes are counted exactly.
pub open spec fn size_text(bytes: int, rounded: Seq<char>) -> Seq<char> {
    if bytes < 1_000 {
        decimal(bytes as nat) + " B"@
    } else {
        trimmed(rounded) + " "@ + unit_sign(unit_of(bytes))
    }
}

/// A size in words. `rounded` is the size in the unit that it is shown in, to one decimal place.
pub fn format_file_size(bytes: u64, rounded: &str) -> (text: String)
    ensures
        text@ == size_text(bytes as int, rounded@),
{
    if bytes < 1_000 {
        let mut text = String::new();
        push_decimal(&mut text, bytes);
        text.append(" B");
        assert(text@ =~= decimal(bytes as nat) + " B"@);
        return text;
    }
    let chars = chars_of(rounded);
    let mut end: usize = chars.len();
    assert(chars@.take(end as int) =~= rounded@);
    while end >= 2 && chars[end - 2] == '.' && chars[end - 1] == '0'
        invariant
            end <= chars@.len(),
            trimmed(chars@.take(end as int)) == trimmed(rounded@),
        decreases end,
    {
        assert(chars@.take(end as int).take(end - 2) =~= chars@.take(end - 2));
        end -= 2;
    }
    let mut text = text_between(&chars, 0, end);
    assert(text@ =~= chars@.take(end as int));
    text.append(" ");
    text.append(
        match size_unit(bytes) {
            SizeUnit::Bytes => "B",
            SizeUnit::Kilobytes => "kB",
            SizeUnit::Megabytes => "MB",
            SizeUnit::Gigabytes => "GB",
            SizeUnit::Terabytes => "TB",
        },
    );
    text
}

/// What stands for a permission: its letter, or a dash where it is not given.
pub open spec fn permission_sign(mode: u32, mask: u32, letter: char) -> char {
    if mode & mask != 0 {
        letter
    } else {
        '-'
    }
}

/// The permissions of a file in letters, after a sign for what it is.
pub open spec fn symbolic_mode(mode: u32) -> Seq<char> {
    seq![
        if mode & 0o170000 == 0o040000 {
            'd'
        } else {
            '-'
        },
        permission_sign(mode, 0o400, 'r'),
        permission_sign(mode, 0o200, 'w'),
        permission_sign(mode, 0o100, 'x'),
        permission_sign(mode, 0o040, 'r'),
        permission_sign(mode, 0o020, 'w'),
        permission_sign(mode, 0o010, 'x'),
        permission_sign(mode, 0o004, 'r'),
        permission_sign(mode, 0o002, 'w'),
        permission_sign(mode, 0o001, 'x'),
    ]
}

/// The permissions of a file as three octal digits: those of its owner, its group and others.
pub open spec fn octal_mode(mode: u32) -> Seq<char> {
    seq![
        digit(((mode >> 6) & 7) as int),
        digit(((mode >> 3) & 7) as int),
        digit((mode & 7) as int),
    ]
}

/// The letter of a permission, or a dash.
fn permission_letter(mode: u32, mask: u32, letter: char) -> (sign: char)
    ensures
        sign == permission_sign(mode, mask, letter),
{
    if mode & mask != 0 {
        letter
    } else {
        '-'
    }
}

/// An octal digit of a mode.
fn octal_digit(mode: u32, shift: u32) -> (sign: char)
    requires
        shift < 32,
    ensures
        sign == digit(((mode >> shift) & 7) as int),
{
    let value: u32 = (mode >> shift) & 7;
    proof {
        assert(((mode >> shift) & 7) <= 7) by (bit_vector);
    }
    (48u8 + value as u8) as char
}

/// The permissions of a file, in letters and in digits.
pub fn format_permissions(mode: u32) -> (text: String)
    ensures
        text@ == symbolic_mode(mode) + "  "@ + octal_mode(mode),
{
    let mut text = String::new();
    text.push(
        if mode & 0o170000 == 0o040000 {
            'd'
        } else {
            '-'
        },
    );
    text.push(permission_letter(mode, 0o400, 'r'));
    text.push(permission_letter(mode, 0o200, 'w'));
    text.push(permission_letter(mode, 0o100, 'x'));
    text.push(permission_letter(mode, 0o040, 'r'));
    text.push(permission_letter(mode, 0o020, 'w'));
    text.push(permission_letter(mode, 0o010, 'x'));
    text.push(permission_letter(mode, 0o004, 'r'));
    text.push(permission_letter(mode, 0o002, 'w'));
    text.push(permission_letter(mode, 0o001, 'x'));
    assert(text@ =~= symbolic_mode(mode));
    text.append("  ");
    text.push(octal_digit(mode, 6));
    text.push(octal_digit(mode, 3));
    text.push(octal_digit(mode, 0));
    proof {
        assert((mode >> 0u32) == mode) by (bit_vector);
        assert(text@ =~= symbolic_mode(mode) + "  "@ + octal_mode(mode));
    }
    text
}

/// The permissions to read, to write and to execute of one of the three groups of users: those of
/// the owner, shifted by six bits, those of the group, shifted by three, or those of others.
pub fn permission_row(mode: u32, shift: u32) -> (given: (bool, bool, bool))
    requires
        shift < 32,
    ensures
        given.0 == ((mode >> shift) & 4 != 0),
        given.1 == ((mode >> shift) & 2 != 0),
        given.2 == ((mode >> shift) & 1 != 0),
{
    let value: u32 = (mode >> shift) & 7;
    proof {
        assert(((mode >> shift) & 7) & 4 == (mode >> shift) & 4) by (bit_vector);
        assert(((mode >> shift) & 7) & 2 == (mode >> shift) & 2) by (bit_vector);
        assert(((mode >> shift) & 7) & 1 == (mode >> shift) & 1) by (bit_vector);
    }
    (value & 4 != 0, value & 2 != 0, value & 1 != 0)
}

/// The three octal digits of a mode are the digits of its permissions.
pub proof fn lemma_octal_mode(mode: u32)
    ensures
        (mode & 0o777) == 64 * ((mode >> 6) & 7) + 8 * ((mode >> 3) & 7) + (mode & 7),
{
    assert((mode & 0o777) == 64 * ((mode >> 6) & 7) + 8 * ((mode >> 3) & 7) + (mode & 7))
        by (bit_vector);
}

/// Every size of at least a thousand bytes is at least one, and less than a thousand, of the unit
/// that it is shown in. There is no larger unit than the last.
pub proof fn lemma_size_unit(bytes: int)
    requires
        bytes >= 0,
    ensures
        ({
            let one: int = match unit_of(bytes) {
                SizeUnit::Bytes => 1,
                SizeUnit::Kilobytes => 1_000,
                SizeUnit::Megabytes => 1_000_000,
                SizeUnit::Gigabytes => 1_000_000_000,
                SizeUnit::Terabytes => 1_000_000_000_000,
            };
            &&& unit_of(bytes) != SizeUnit::Bytes ==> one <= bytes
            &&& unit_of(bytes) != SizeUnit::Terabytes ==> bytes < 1_000 * one
        }),
{
}

} // verus!
