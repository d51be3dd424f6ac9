//! What the words and signs that are shown mean.
use vstd::prelude::*;
use vstd::string::*;

use crate::dialogs::{
    column_width, confirmation, entry_properties, is_hidden_name, path_lines, place_properties,
    size_of, size_words, total_width, SizeLabel,
};
use crate::entry::{EntryKind, FileEntryView, MetadataValue};
use crate::labels::{
    directory_count, first_names, item_count, kind_summary, lemma_octal_mode, names_summary,
    octal_mode, placeholder, size_text, stem_length, symbolic_mode, trimmed,
};
use crate::location_bar::compact_text;
use crate::model::{name_text, path_text, LocationView};
use crate::names::{
    location_error_text, rename_error_text, rename_verdict, typed_location, LocationValidationError,
    RenameError,
};
use crate::order_laws::is_folder;
use crate::rows::{
    ending, icon_of, is_archive, is_code, is_picture, is_script, is_video,
    lemma_row_keeps_the_entry, lemma_shown_below, row_of, row_shown, rows_of, shown_rows,
    source_position, Icon,
};
use crate::text::{
    ascii_lower, contains_text, decimal, digit, has_prefix, joined, lemma_last_position,
    lemma_last_position_unique, lowercase, occurs_at,
};
use crate::view::menus::menu_of;

verus! {

// Numbers and texts.

/// The number that digits stand for.
pub open spec fn value_of(digits: Seq<char>) -> int
    decreases digits.len(),
{
    if digits.len() == 0 {
        0
    } else {
        10 * value_of(digits.drop_last()) + (digits.last() as int - '0' as int)
    }
}

/// A number in decimal notation is made of digits that stand for it, and starts with a zero only
/// where it is zero.
pub proof fn lemma_decimal(n: nat)
    ensures
        decimal(n).len() > 0,
        forall|k: int| 0 <= k < decimal(n).len() ==> '0' <= #[trigger] decimal(n)[k] <= '9',
        value_of(decimal(n)) == n,
        n > 0 ==> decimal(n)[0] != '0',
        n == 0 ==> decimal(n).len() == 1,
    decreases n,
{
    let text = decimal(n);
    if n < 10 {
        assert(text.drop_last() =~= Seq::empty());
        assert(value_of(text.drop_last()) == 0);
        assert(text.last() == digit(n as int));
    } else {
        lemma_decimal(n / 10);
        let rest = decimal(n / 10);
        assert(text.drop_last() =~= rest);
        assert(text.last() == digit((n % 10) as int));
        assert(text[0] == rest[0]);
        assert forall|k: int| 0 <= k < text.len() implies '0' <= #[trigger] text[k] <= '9' by {
            if k < rest.len() {
                assert(text[k] == rest[k]);
            }
        }
    }
}

/// Different numbers are written differently.
pub proof fn lemma_decimals_differ(m: nat, n: nat)
    requires
        m != n,
    ensures
        decimal(m) != decimal(n),
{
    lemma_decimal(m);
    lemma_decimal(n);
}

/// Texts are joined one by one, with the separator before each but the first.
pub proof fn lemma_joining(texts: Seq<Seq<char>>, text: Seq<char>, separator: Seq<char>)
    ensures
        joined(Seq::<Seq<char>>::empty(), separator).len() == 0,
        joined(seq![text], separator) == text,
        texts.len() > 0 ==> joined(texts.push(text), separator) == joined(texts, separator)
            + separator + text,
{
    assert(texts.push(text).drop_last() =~= texts);
}

/// A text is contained where there is something before it and something after it that make up the
/// whole with it.
pub proof fn lemma_containing(before: Seq<char>, part: Seq<char>, after: Seq<char>, whole: Seq<char>)
    ensures
        contains_text(before + part + after, part),
        contains_text(whole, part) ==> exists|at: int|
            0 <= at <= whole.len() - part.len() && #[trigger] whole.subrange(at, at + part.len())
                == part,
        has_prefix(part + after, part),
        has_prefix(whole, part) ==> whole == part + whole.skip(part.len() as int),
{
    let all = before + part + after;
    let n = before.len() as int;
    assert(all.subrange(n, n + part.len()) =~= part);
    assert(occurs_at(all, part, n));
    assert((part + after).subrange(0, part.len() as int) =~= part);
    if contains_text(whole, part) {
        let at = choose|at: int| occurs_at(whole, part, at);
        assert(whole.subrange(at, at + part.len()) == part);
    }
    if has_prefix(whole, part) {
        assert(whole.subrange(0, part.len() as int) + whole.skip(part.len() as int) =~= whole);
    }
}

/// Of the letters from A to Z each has its small one, and every other character stays.
pub proof fn lemma_small_letters(c: char)
    ensures
        'A' <= c <= 'Z' ==> ascii_lower(c) as int == c as int + 32 && 'a' <= ascii_lower(c) <= 'z',
        !('A' <= c <= 'Z') ==> ascii_lower(c) == c,
        ascii_lower(ascii_lower(c)) == ascii_lower(c),
{
}

// Counts.

proof fn lemma_directory_count(entries: Seq<FileEntryView>)
    ensures
        directory_count(entries) <= entries.len(),
        directory_count(entries) == 0 <==> forall|k: int|
            0 <= k < entries.len() ==> !is_folder(#[trigger] entries[k]),
        directory_count(entries) == entries.len() <==> forall|k: int|
            0 <= k < entries.len() ==> is_folder(#[trigger] entries[k]),
    decreases entries.len(),
{
    reveal(Seq::filter);
    if entries.len() > 0 {
        let before = entries.drop_last();
        let last = entries[entries.len() - 1];
        lemma_directory_count(before);
        assert(entries.last() == last);
        assert(last.is_directory() == is_folder(last));
        let n = directory_count(entries);
        assert(n == directory_count(before) + if is_folder(last) {
            1nat
        } else {
            0nat
        });
        if n == 0 {
            assert forall|k: int| 0 <= k < entries.len() implies !is_folder(
                #[trigger] entries[k],
            ) by {
                if k < before.len() {
                    assert(before[k] == entries[k]);
                }
            }
        }
        if forall|k: int| 0 <= k < entries.len() ==> !is_folder(#[trigger] entries[k]) {
            assert forall|k: int| 0 <= k < before.len() implies !is_folder(#[trigger] before[k]) by {
                assert(before[k] == entries[k]);
            }
        }
        if n == entries.len() {
            assert forall|k: int| 0 <= k < entries.len() implies is_folder(#[trigger] entries[k]) by {
                if k < before.len() {
                    assert(before[k] == entries[k]);
                }
            }
        }
        if forall|k: int| 0 <= k < entries.len() ==> is_folder(#[trigger] entries[k]) {
            assert forall|k: int| 0 <= k < before.len() implies is_folder(#[trigger] before[k]) by {
                assert(before[k] == entries[k]);
            }
        }
    }
}

/// Entries are counted as files where none is a folder, as folders where all are, and as items
/// where there are both. One is counted as one, and any other number of them as that number.
pub proof fn lemma_summaries(entries: Seq<FileEntryView>)
    ensures
        ({
            let n = entries.len();
            let none = forall|k: int|
                0 <= k < entries.len() ==> !is_folder(#[trigger] entries[k]);
            let all = forall|k: int| 0 <= k < entries.len() ==> is_folder(#[trigger] entries[k]);
            &&& none && n == 1 ==> kind_summary(entries) == "1 file"@
            &&& none && n != 1 ==> kind_summary(entries) == decimal(n) + " files"@
            &&& all && n == 1 ==> kind_summary(entries) == "1 folder"@
            &&& all && n > 1 ==> kind_summary(entries) == decimal(n) + " folders"@
            &&& !none && !all ==> kind_summary(entries) == decimal(n) + " items"@
        }),
{
    lemma_directory_count(entries);
    if entries.len() == 1 {
        let first = entries[0];
        assert(is_folder(first) || !is_folder(first));
    }
}

/// A count of one is told as one, and any other count by its number. An empty filter tells how many
/// rows there are.
pub proof fn lemma_counts(count: nat)
    ensures
        count == 1 ==> item_count(count) == "1 item"@,
        count != 1 ==> item_count(count) == decimal(count) + " items"@,
        count == 1 ==> placeholder(count) == "Filter "@ + decimal(1) + " item…"@,
        count != 1 ==> placeholder(count) == "Filter "@ + decimal(count) + " items…"@,
{
}

/// Up to three entries are told by all of their names. Of more the first three names are told, with
/// a sign that there are others.
pub proof fn lemma_names_told(entries: Seq<FileEntryView>)
    ensures
        entries.len() == 0 ==> names_summary(entries).len() == 0,
        entries.len() == 1 ==> names_summary(entries) == entries[0].display_name,
        entries.len() == 2 ==> names_summary(entries) == entries[0].display_name + ", "@
            + entries[1].display_name,
        entries.len() == 3 ==> names_summary(entries) == entries[0].display_name + ", "@
            + entries[1].display_name + ", "@ + entries[2].display_name,
        entries.len() > 3 ==> names_summary(entries) == entries[0].display_name + ", "@
            + entries[1].display_name + ", "@ + entries[2].display_name + ", …"@,
{
    let names = first_names(entries, 3);
    let none = Seq::<char>::empty();
    let whole = joined(names, ", "@);
    assert(whole + none =~= whole);
    if entries.len() == 2 {
        assert(names.drop_last() =~= seq![entries[0].display_name]);
        reveal_with_fuel(joined, 2);
    } else if entries.len() >= 3 {
        assert(names.drop_last().drop_last() =~= seq![entries[0].display_name]);
        reveal_with_fuel(joined, 3);
    }
}

// Names.

/// The stem of a name ends before its last dot. A name without a dot, or with one at its start
/// only, is all stem.
pub proof fn lemma_stems(name: Seq<char>)
    ensures
        ({
            let end = stem_length(name);
            &&& 0 <= end <= name.len()
            &&& end < name.len() ==> end > 0 && name[end] == '.'
            &&& forall|i: int| end < i < name.len() ==> #[trigger] name[i] != '.'
            &&& end == name.len() ==> forall|i: int|
                0 < i < name.len() ==> #[trigger] name[i] != '.'
        }),
{
    lemma_last_position(name, '.');
}

/// A name is refused where it is empty, where it stands for a directory as such, and where it holds
/// a slash, each with its own sentence; every other name is fine.
pub proof fn lemma_refused_names(name: Seq<char>)
    ensures
        ({
            let verdict = rename_verdict(name);
            let reserved = name == seq!['.'] || name == seq!['.', '.'];
            &&& name.len() == 0 <==> verdict == Err::<(), RenameError>(RenameError::Empty)
            &&& reserved <==> verdict == Err::<(), RenameError>(RenameError::Reserved)
            &&& name.contains('/') <==> verdict == Err::<(), RenameError>(RenameError::Nested)
        }),
        rename_error_text(RenameError::Empty) == "Enter a name"@,
        rename_error_text(RenameError::Reserved) == "This name is reserved"@,
        rename_error_text(RenameError::Nested) == "A name cannot contain a slash"@,
{
    reveal_strlit(".");
    reveal_strlit("..");
    assert("."@ =~= seq!['.']);
    assert(".."@ =~= seq!['.', '.']);
    if name == seq!['.'] || name == seq!['.', '.'] {
        assert(!name.contains('/'));
    }
    if name.len() == 0 {
        assert(!name.contains('/'));
    }
}

/// A typed text names a place exactly where it starts with a slash: the native path of its bytes.
/// Else it is told what is wrong.
pub proof fn lemma_typed_locations(input: Seq<char>)
    ensures
        input.len() == 0 ==> typed_location(input) == Err::<LocationView, LocationValidationError>(
            LocationValidationError::Empty,
        ),
        input.len() > 0 && input[0] != '/' ==> typed_location(input) == Err::<
            LocationView,
            LocationValidationError,
        >(LocationValidationError::NotAbsolute),
        input.len() > 0 && input[0] == '/' ==> typed_location(input) == Ok::<
            LocationView,
            LocationValidationError,
        >(LocationView::Local(vstd::utf8::encode_utf8(input))),
        location_error_text(LocationValidationError::Empty) == "Enter a location"@,
        location_error_text(LocationValidationError::NotAbsolute) == "Enter an absolute path"@,
        location_error_text(LocationValidationError::Inaccessible)
            == "This location cannot be opened"@,
{
}

// Sizes.

/// A decimal place that says nothing is left out, and nothing else is.
pub proof fn lemma_trimming(number: Seq<char>)
    ensures
        trimmed(number.push('.').push('0')) == trimmed(number),
        !(number.len() >= 2 && number[number.len() - 2] == '.' && number[number.len() - 1] == '0')
            ==> trimmed(number) == number,
{
    let longer = number.push('.').push('0');
    assert(longer.take(longer.len() - 2) =~= number);
}

/// A size below a thousand bytes is told exactly. Any larger one is told as it was rounded, in the
/// largest unit of which it is at least one.
pub proof fn lemma_sizes(bytes: int, rounded: Seq<char>)
    requires
        bytes >= 0,
    ensures
        bytes < 1_000 ==> size_text(bytes, rounded) == decimal(bytes as nat) + " B"@,
        1_000 <= bytes < 1_000_000 ==> size_text(bytes, rounded) == trimmed(rounded) + " "@ + "kB"@,
        1_000_000 <= bytes < 1_000_000_000 ==> size_text(bytes, rounded) == trimmed(rounded) + " "@
            + "MB"@,
        1_000_000_000 <= bytes < 1_000_000_000_000 ==> size_text(bytes, rounded) == trimmed(rounded)
            + " "@ + "GB"@,
        1_000_000_000_000 <= bytes ==> size_text(bytes, rounded) == trimmed(rounded) + " "@ + "TB"@,
{
}

/// The size of a folder is not told, that of a file is told where it is known.
pub proof fn lemma_sizes_of_entries(entry: FileEntryView, rounded: Seq<char>)
    ensures
        is_folder(entry) ==> size_words(size_of(entry), rounded) == "Folder"@,
        !is_folder(entry) ==> match entry.size {
            MetadataValue::Known(bytes) => size_of(entry) == SizeLabel::Bytes(bytes) && size_words(
                size_of(entry),
                rounded,
            ) == size_text(bytes as int, rounded),
            _ => size_words(size_of(entry), rounded) == "—"@,
        },
{
}

// Permissions.

/// The letters tell what is permitted: to read, to write and to execute, to the owner, to the group
/// and to others. A directory is told by its letter.
pub proof fn lemma_permission_letters(mode: u32)
    ensures
        ({
            let letters = symbolic_mode(mode);
            &&& letters.len() == 10
            &&& letters[0] == if mode & 0o170000 == 0o040000 {
                'd'
            } else {
                '-'
            }
            &&& letters[1] == (if mode & 0o400 != 0 { 'r' } else { '-' })
            &&& letters[2] == (if mode & 0o200 != 0 { 'w' } else { '-' })
            &&& letters[3] == (if mode & 0o100 != 0 { 'x' } else { '-' })
            &&& letters[4] == (if mode & 0o040 != 0 { 'r' } else { '-' })
            &&& letters[5] == (if mode & 0o020 != 0 { 'w' } else { '-' })
            &&& letters[6] == (if mode & 0o010 != 0 { 'x' } else { '-' })
            &&& letters[7] == (if mode & 0o004 != 0 { 'r' } else { '-' })
            &&& letters[8] == (if mode & 0o002 != 0 { 'w' } else { '-' })
            &&& letters[9] == (if mode & 0o001 != 0 { 'x' } else { '-' })
        }),
{
}

/// The three digits are octal and stand for all that is permitted.
pub proof fn lemma_permission_digits(mode: u32)
    ensures
        ({
            let digits = octal_mode(mode);
            &&& digits.len() == 3
            &&& forall|k: int| 0 <= k < 3 ==> '0' <= #[trigger] digits[k] <= '7'
            &&& 64 * (digits[0] as int - 48) + 8 * (digits[1] as int - 48) + (digits[2] as int - 48)
                == mode & 0o777
        }),
{
    assert(((mode >> 6) & 7) <= 7) by (bit_vector);
    assert(((mode >> 3) & 7) <= 7) by (bit_vector);
    assert((mode & 7) <= 7) by (bit_vector);
    lemma_octal_mode(mode);
    let digits = octal_mode(mode);
    assert(digits[0] as int == 48 + ((mode >> 6) & 7));
    assert(digits[1] as int == 48 + ((mode >> 3) & 7));
    assert(digits[2] as int == 48 + (mode & 7));
}

// Pictures and rows.

/// A row begins with the sign of what its entry is, and a tab: a link that leads nowhere, a folder,
/// a link to a file, or a file. Behind it stands the name.
pub proof fn lemma_what_rows_hold(entry: FileEntryView, entries: Seq<FileEntryView>, k: int)
    ensures
        row_of(entry).len() == entry.display_name.len() + 2,
        row_of(entry)[0] == match entry.kind {
            EntryKind::BrokenLink => 'x',
            EntryKind::Directory | EntryKind::DirectoryLink => 'd',
            EntryKind::FileLink => 's',
            EntryKind::File => 'f',
        },
        row_of(entry)[1] == '\t',
        row_of(entry).skip(2) == entry.display_name,
        rows_of(entries).len() == entries.len(),
        0 <= k < entries.len() ==> rows_of(entries)[k] == row_of(entries[k]),
{
    assert(row_of(entry).skip(2) =~= entry.display_name);
}

/// The ending of a name is what follows its last dot, in lower case. A name without a dot has none.
pub proof fn lemma_endings(stem: Seq<char>, rest: Seq<char>)
    requires
        !rest.contains('.'),
    ensures
        ending(rest) is None,
        ending(stem.push('.') + rest) == Some(rest.map_values(|c: char| ascii_lower(c))),
{
    assert forall|i: int| -1 < i < rest.len() implies #[trigger] rest[i] != '.' by {
        if rest[i] == '.' {
            assert(rest.contains('.'));
        }
    }
    lemma_last_position_unique(rest, '.', -1);
    let name = stem.push('.') + rest;
    let at = stem.len() as int;
    assert forall|i: int| at < i < name.len() implies #[trigger] name[i] != '.' by {
        assert(name[i] == rest[i - at - 1]);
    }
    lemma_last_position_unique(name, '.', at);
    assert(name.skip(at + 1) =~= rest);
}

/// The endings that are known are those of scripts, pictures, films, archives and source code.
pub proof fn lemma_known_endings(e: Seq<char>)
    ensures
        is_script(e) <==> seq![
            "sh"@,
            "bash"@,
            "zsh"@,
            "fish"@,
        ].contains(e),
        is_picture(e) <==> seq![
            "png"@,
            "jpg"@,
            "jpeg"@,
            "gif"@,
            "webp"@,
            "svg"@,
            "bmp"@,
            "avif"@,
        ].contains(e),
        is_video(e) <==> seq![
            "mp4"@,
            "mkv"@,
            "webm"@,
            "mov"@,
            "avi"@,
            "m4v"@,
        ].contains(e),
        is_archive(e) <==> seq![
            "zip"@,
            "tar"@,
            "gz"@,
            "bz2"@,
            "xz"@,
            "7z"@,
            "rar"@,
            "zst"@,
        ].contains(e),
        is_code(e) <==> seq![
            "rs"@,
            "c"@,
            "h"@,
            "cpp"@,
            "go"@,
            "py"@,
            "rb"@,
            "java"@,
            "js"@,
            "jsx"@,
            "ts"@,
            "tsx"@,
            "lua"@,
            "php"@,
            "html"@,
            "css"@,
            "scss"@,
            "json"@,
        ].contains(e),
{
    let scripts = seq![
        "sh"@,
        "bash"@,
        "zsh"@,
        "fish"@,
    ];
    assert(scripts[0] == "sh"@);
    assert(scripts[1] == "bash"@);
    assert(scripts[2] == "zsh"@);
    assert(scripts[3] == "fish"@);
    let pictures = seq![
        "png"@,
        "jpg"@,
        "jpeg"@,
        "gif"@,
        "webp"@,
        "svg"@,
        "bmp"@,
        "avif"@,
    ];
    assert(pictures[0] == "png"@);
    assert(pictures[1] == "jpg"@);
    assert(pictures[2] == "jpeg"@);
    assert(pictures[3] == "gif"@);
    assert(pictures[4] == "webp"@);
    assert(pictures[5] == "svg"@);
    assert(pictures[6] == "bmp"@);
    assert(pictures[7] == "avif"@);
    let videos = seq![
        "mp4"@,
        "mkv"@,
        "webm"@,
        "mov"@,
        "avi"@,
        "m4v"@,
    ];
    assert(videos[0] == "mp4"@);
    assert(videos[1] == "mkv"@);
    assert(videos[2] == "webm"@);
    assert(videos[3] == "mov"@);
    assert(videos[4] == "avi"@);
    assert(videos[5] == "m4v"@);
    let archives = seq![
        "zip"@,
        "tar"@,
        "gz"@,
        "bz2"@,
        "xz"@,
        "7z"@,
        "rar"@,
        "zst"@,
    ];
    assert(archives[0] == "zip"@);
    assert(archives[1] == "tar"@);
    assert(archives[2] == "gz"@);
    assert(archives[3] == "bz2"@);
    assert(archives[4] == "xz"@);
    assert(archives[5] == "7z"@);
    assert(archives[6] == "rar"@);
    assert(archives[7] == "zst"@);
    let codes = seq![
        "rs"@,
        "c"@,
        "h"@,
        "cpp"@,
        "go"@,
        "py"@,
        "rb"@,
        "java"@,
        "js"@,
        "jsx"@,
        "ts"@,
        "tsx"@,
        "lua"@,
        "php"@,
        "html"@,
        "css"@,
        "scss"@,
        "json"@,
    ];
    assert(codes[0] == "rs"@);
    assert(codes[1] == "c"@);
    assert(codes[2] == "h"@);
    assert(codes[3] == "cpp"@);
    assert(codes[4] == "go"@);
    assert(codes[5] == "py"@);
    assert(codes[6] == "rb"@);
    assert(codes[7] == "java"@);
    assert(codes[8] == "js"@);
    assert(codes[9] == "jsx"@);
    assert(codes[10] == "ts"@);
    assert(codes[11] == "tsx"@);
    assert(codes[12] == "lua"@);
    assert(codes[13] == "php"@);
    assert(codes[14] == "html"@);
    assert(codes[15] == "css"@);
    assert(codes[16] == "scss"@);
    assert(codes[17] == "json"@);
}

/// A link that leads nowhere and a folder have pictures of their own. A file has the picture of its
/// ending, and one without a known ending that of a document.
pub proof fn lemma_pictures(entry: FileEntryView)
    ensures
        entry.kind is BrokenLink ==> icon_of(entry) == Icon::Missing,
        is_folder(entry) ==> icon_of(entry) == Icon::Folder,
        entry.kind is File || entry.kind is FileLink ==> match ending(entry.display_name) {
            Some(e) => {
                &&& is_script(e) ==> icon_of(entry) == Icon::Terminal
                &&& !is_script(e) && is_picture(e) ==> icon_of(entry) == Icon::Pictures
                &&& !is_script(e) && !is_picture(e) && is_video(e) ==> icon_of(entry)
                    == Icon::Videos
                &&& !is_script(e) && !is_picture(e) && !is_video(e) && is_archive(e) ==> icon_of(
                    entry,
                ) == Icon::Archive
                &&& !is_script(e) && !is_picture(e) && !is_video(e) && !is_archive(e) && is_code(e)
                    ==> icon_of(entry) == Icon::Code
                &&& !is_script(e) && !is_picture(e) && !is_video(e) && !is_archive(e) && !is_code(
                    e,
                ) ==> icon_of(entry) == Icon::Documents
            },
            None => icon_of(entry) == Icon::Documents,
        },
{
}

/// A filter shows a row exactly where nothing is asked for, or where what is asked for stands
/// somewhere in the name of the entry in lower case.
pub proof fn lemma_rows_that_are_shown(entry: FileEntryView, query: Seq<char>)
    ensures
        ({
            let name = lowercase(entry.display_name);
            row_shown(row_of(entry), query) <==> query.len() == 0 || exists|at: int|
                0 <= at <= name.len() - query.len() && #[trigger] name.subrange(
                    at,
                    at + query.len(),
                ) == query
        }),
{
    lemma_row_keeps_the_entry(entry);
    let name = lowercase(entry.display_name);
    if contains_text(name, query) {
        let at = choose|at: int| occurs_at(name, query, at);
        assert(name.subrange(at, at + query.len()) == query);
    }
    if exists|at: int|
        0 <= at <= name.len() - query.len() && #[trigger] name.subrange(at, at + query.len())
            == query {
        let at = choose|at: int|
            0 <= at <= name.len() - query.len() && #[trigger] name.subrange(at, at + query.len())
                == query;
        assert(occurs_at(name, query, at));
    }
}

/// The filtered list holds exactly the rows that the filter shows, in their order. Its positions
/// are those of that list.
pub proof fn lemma_filtered_list(rows: Seq<Seq<char>>, query: Seq<char>, row: int, k: int, l: int)
    ensures
        ({
            let shown = shown_rows(rows, query);
            &&& shown.contains(row) <==> 0 <= row < rows.len() && row_shown(rows[row], query)
            &&& 0 <= k < l < shown.len() ==> shown[k] < shown[l]
            &&& source_position(rows, query, k) == if 0 <= k < shown.len() {
                Some(shown[k])
            } else {
                None
            }
        }),
{
    lemma_shown_below(rows, query, rows.len() as int);
    let shown = shown_rows(rows, query);
    if shown.contains(row) {
        let j = choose|j: int| 0 <= j < shown.len() && shown[j] == row;
        assert(row_shown(rows[shown[j]], query));
    }
}

// Dialogs.

/// The question before a deletion is about all of the entries, one row for each, in their order,
/// and about the way in which they are to be deleted.
pub proof fn lemma_question_before_a_deletion(entries: Seq<FileEntryView>, permanent: bool, k: int)
    requires
        0 <= k < entries.len(),
    ensures
        ({
            let asked = confirmation(entries, permanent);
            let count = item_count(entries.len());
            &&& asked.entries == entries
            &&& asked.permanent == permanent
            &&& asked.rows.len() == entries.len()
            &&& asked.rows[k].name == entries[k].display_name
            &&& asked.rows[k].path == path_text(entries[k].location)
            &&& asked.rows[k].icon == icon_of(entries[k])
            &&& asked.rows[k].size == size_of(entries[k])
            &&& asked.summary == kind_summary(entries)
            &&& asked.scrolls == (entries.len() > 10)
            &&& permanent ==> {
                &&& asked.question == "Permanently delete "@ + count + "?"@
                &&& asked.confirm == "Permanently delete "@ + count
                &&& asked.explanation
                    == "These items will be permanently deleted. This action cannot be undone."@
            }
            &&& !permanent ==> {
                &&& asked.question == "Move "@ + count + " to trash?"@
                &&& asked.confirm == "Move "@ + count
                &&& asked.explanation
                    == "The items will be moved to trash. You can restore them later."@
            }
        }),
{
}

/// The properties of an entry are what is known of it. Those of a place name no size and no time,
/// and a place cannot be renamed.
pub proof fn lemma_properties(entry: FileEntryView, location: LocationView, home: LocationView)
    ensures
        ({
            let told = entry_properties(entry, home);
            &&& told.name == entry.display_name
            &&& told.path == path_text(entry.location)
            &&& told.location == compact_text(entry.location, home)
            &&& told.directory == is_folder(entry)
            &&& told.icon == icon_of(entry)
            &&& match entry.size {
                MetadataValue::Known(bytes) => told.size == Some(bytes),
                _ => told.size is None,
            }
            &&& match entry.modified_unix_seconds {
                MetadataValue::Known(seconds) => told.modified == Some(seconds),
                _ => told.modified is None,
            }
            &&& told.hidden == (entry.display_name.len() > 0 && entry.display_name[0] == '.')
            &&& told.can_rename
        }),
        ({
            let told = place_properties(location, home);
            let name = name_text(location);
            &&& told.name == name
            &&& told.path == path_text(location)
            &&& told.location == compact_text(location, home)
            &&& told.directory && told.icon == Icon::Folder
            &&& told.size is None && told.modified is None
            &&& told.hidden == (name.len() > 0 && name[0] == '.')
            &&& !told.can_rename
        }),
{
    lemma_hidden(entry.display_name);
    lemma_hidden(name_text(location));
}

proof fn lemma_hidden(name: Seq<char>)
    ensures
        is_hidden_name(name) == (name.len() > 0 && name[0] == '.'),
{
    reveal_strlit(".");
    if name.len() > 0 {
        assert(name.subrange(0, 1)[0] == name[0]);
        if name[0] == '.' {
            assert(name.subrange(0, 1) =~= "."@);
        } else {
            assert("."@[0] == '.');
        }
    }
}

/// Paths are copied one in a line, in the order of the entries.
pub proof fn lemma_copied_paths(entries: Seq<FileEntryView>, entry: FileEntryView)
    ensures
        path_lines(Seq::empty()).len() == 0,
        path_lines(seq![entry]) == path_text(entry.location),
        entries.len() > 0 ==> path_lines(entries.push(entry)) == path_lines(entries) + "\n"@
            + path_text(entry.location),
{
    let path = |entry: FileEntryView| path_text(entry.location);
    assert(Seq::<FileEntryView>::empty().map_values(path) =~= Seq::empty());
    assert(seq![entry].map_values(path) =~= seq![path_text(entry.location)]);
    assert(entries.push(entry).map_values(path) =~= entries.map_values(path).push(
        path_text(entry.location),
    ));
    lemma_joining(entries.map_values(path), path_text(entry.location), "\n"@);
}

/// A column is never narrower than a new one, and columns take as much room together as each of
/// them takes.
pub proof fn lemma_widths(widths: Seq<i32>, width: i32)
    ensures
        column_width(width) >= 300 && column_width(width) >= width,
        column_width(width) == 300 || column_width(width) == width,
        total_width(Seq::empty()) == 0,
        total_width(widths.push(width)) == total_width(widths) + column_width(width),
{
    assert(widths.push(width).drop_last() =~= widths);
}

/// The menu of a row is headed by the name of its entry, or by the number of those that are
/// selected where there are more than one. A file can be looked at, a folder cannot.
pub proof fn lemma_menu_heading(
    entry: FileEntryView,
    selected: Seq<FileEntryView>,
    home: LocationView,
)
    ensures
        ({
            let menu = menu_of(entry, selected, home);
            &&& menu.multiple == (selected.len() > 1)
            &&& menu.can_preview == !is_folder(entry)
            &&& selected.len() > 1 ==> menu.heading == decimal(selected.len())
                + " items selected"@ && menu.summary == names_summary(selected)
            &&& selected.len() <= 1 ==> menu.heading == entry.display_name && menu.summary
                == compact_text(entry.location, home)
        }),
{
}

} // verus!
