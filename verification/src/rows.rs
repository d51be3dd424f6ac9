//! The rows of a list: what stands in them, what is drawn, and which of them a filter shows.
use vstd::prelude::*;
use vstd::string::*;

use crate::entry::{entries_of, EntryKind, FileEntry, FileEntryView};
use crate::event::position_of;
use crate::presentation::peek_room;
use crate::text::{
    ascii_lower, chars_of, contains, contains_text, last_position, lemma_last_position, lowercase,
    position_from_end, same_text, text_between, to_ascii_lower, to_lower,
};

verus! {

/// The sign of what an entry is.
pub open spec fn kind_sign(kind: EntryKind) -> char {
    match kind {
        EntryKind::BrokenLink => 'x',
        EntryKind::Directory => 'd',
        EntryKind::DirectoryLink => 'd',
        EntryKind::FileLink => 's',
        EntryKind::File => 'f',
    }
}

/// What a row holds of an entry: the sign of what it is, and its name.
pub open spec fn row_of(entry: FileEntryView) -> Seq<char> {
    seq![kind_sign(entry.kind), '\t'] + entry.display_name
}

/// What the rows of a list of entries hold.
pub open spec fn rows_of(entries: Seq<FileEntryView>) -> Seq<Seq<char>> {
    entries.map_values(|entry: FileEntryView| row_of(entry))
}

/// The texts of a list of strings.
pub open spec fn texts_of(texts: Seq<String>) -> Seq<Seq<char>> {
    texts.map_values(|text: String| text@)
}

/// The position of the first tab from `at` on, or the length of the text where there is none.
pub open spec fn tab_from(text: Seq<char>, at: int) -> int
    decreases text.len() - at,
{
    if at < 0 || at >= text.len() {
        text.len() as int
    } else if text[at] == '\t' {
        at
    } else {
        tab_from(text, at + 1)
    }
}

/// The name that a row shows: what follows its first tab, or all of it where it holds none.
pub open spec fn row_name(row: Seq<char>) -> Seq<char> {
    let tab = tab_from(row, 0);
    if tab < row.len() {
        row.skip(tab + 1)
    } else {
        row
    }
}

/// Whether a row stands for a directory.
pub open spec fn row_is_directory(row: Seq<char>) -> bool {
    row.len() >= 2 && row[0] == 'd' && row[1] == '\t'
}

/// What a row holds of an entry.
pub fn entry_model_value(entry: &FileEntry) -> (row: String)
    ensures
        row@ == row_of(entry@),
{
    let sign = if entry.is_broken_symbolic_link() {
        'x'
    } else if entry.is_directory() {
        'd'
    } else if entry.is_symbolic_link() {
        's'
    } else {
        'f'
    };
    let mut row = String::new();
    row.push(sign);
    row.push('\t');
    assert(row@ =~= seq![kind_sign(entry.kind), '\t']);
    row.append(entry.display_name.as_str());
    row
}

/// What the rows of a list of entries hold.
pub fn entry_model_values(entries: &Vec<FileEntry>) -> (rows: Vec<String>)
    ensures
        texts_of(rows@) == rows_of(entries_of(entries@)),
{
    let mut rows: Vec<String> = Vec::new();
    let mut i: usize = 0;
    while i < entries.len()
        invariant
            i <= entries@.len(),
            rows@.len() == i,
            forall|k: int| 0 <= k < i ==> (#[trigger] rows@[k])@ == row_of(entries@[k]@),
        decreases entries@.len() - i,
    {
        rows.push(entry_model_value(&entries[i]));
        i += 1;
    }
    assert(texts_of(rows@) =~= rows_of(entries_of(entries@)));
    rows
}

/// The name that a row shows.
pub fn model_display_name(row: &str) -> (name: String)
    ensures
        name@ == row_name(row@),
{
    let chars = chars_of(row);
    let mut i: usize = 0;
    while i < chars.len()
        invariant
            chars@ == row@,
            i <= chars@.len(),
            tab_from(row@, 0) == tab_from(row@, i as int),
        decreases chars@.len() - i,
    {
        if chars[i] == '\t' {
            let name = text_between(&chars, i + 1, chars.len());
            assert(name@ =~= row@.skip(i + 1));
            return name;
        }
        i += 1;
    }
    row.to_owned()
}

/// Whether a row stands for a directory.
pub fn model_is_directory(row: &str) -> (directory: bool)
    ensures
        directory == row_is_directory(row@),
{
    let chars = chars_of(row);
    chars.len() >= 2 && chars[0] == 'd' && chars[1] == '\t'
}

/// A row gives back the name of its entry, whatever the name holds, and whether the entry can be
/// browsed.
pub proof fn lemma_row_keeps_the_entry(entry: FileEntryView)
    ensures
        row_name(row_of(entry)) == entry.display_name,
        row_is_directory(row_of(entry)) == entry.is_directory(),
{
    let row = row_of(entry);
    assert(row[0] == kind_sign(entry.kind));
    assert(row[1] == '\t');
    assert(tab_from(row, 0) == tab_from(row, 1));
    assert(row.skip(2) =~= entry.display_name);
}

/// The pictures that entries are drawn with.
#[derive(Debug, Clone, Copy, PartialEq, Eq, Structural)]
pub enum Icon {
    Missing,
    Folder,
    Terminal,
    Pictures,
    Videos,
    Archive,
    Code,
    Documents,
}

/// The ending of a name, in lower case: what follows its last dot.
pub open spec fn ending(name: Seq<char>) -> Option<Seq<char>> {
    let dot = last_position(name, '.');
    if dot < 0 {
        None
    } else {
        Some(name.skip(dot + 1).map_values(|c: char| ascii_lower(c)))
    }
}

/// Whether a name with this ending is a script for a shell.
pub open spec fn is_script(e: Seq<char>) -> bool {
    e == "sh"@ || e == "bash"@ || e == "zsh"@ || e == "fish"@
}

/// Whether a name with this ending is a picture.
pub open spec fn is_picture(e: Seq<char>) -> bool {
    e == "png"@ || e == "jpg"@ || e == "jpeg"@ || e == "gif"@ || e == "webp"@ || e == "svg"@ || e
        == "bmp"@ || e == "avif"@
}

/// Whether a name with this ending is a film.
pub open spec fn is_video(e: Seq<char>) -> bool {
    e == "mp4"@ || e == "mkv"@ || e == "webm"@ || e == "mov"@ || e == "avi"@ || e == "m4v"@
}

/// Whether a name with this ending is an archive.
pub open spec fn is_archive(e: Seq<char>) -> bool {
    e == "zip"@ || e == "tar"@ || e == "gz"@ || e == "bz2"@ || e == "xz"@ || e == "7z"@ || e
        == "rar"@ || e == "zst"@
}

/// Whether a name with this ending is source code.
pub open spec fn is_code(e: Seq<char>) -> bool {
    e == "rs"@ || e == "c"@ || e == "h"@ || e == "cpp"@ || e == "go"@ || e == "py"@ || e == "rb"@
        || e == "java"@ || e == "js"@ || e == "jsx"@ || e == "ts"@ || e == "tsx"@ || e == "lua"@
        || e == "php"@ || e == "html"@ || e == "css"@ || e == "scss"@ || e == "json"@
}

/// The picture of a file with this name.
pub open spec fn name_icon(name: Seq<char>) -> Icon {
    match ending(name) {
        Some(e) => if is_script(e) {
            Icon::Terminal
        } else if is_picture(e) {
            Icon::Pictures
        } else if is_video(e) {
            Icon::Videos
        } else if is_archive(e) {
            Icon::Archive
        } else if is_code(e) {
            Icon::Code
        } else {
            Icon::Documents
        },
        None => Icon::Documents,
    }
}

/// The picture of an entry.
pub open spec fn icon_of(entry: FileEntryView) -> Icon {
    if entry.kind == EntryKind::BrokenLink {
        Icon::Missing
    } else if entry.is_directory() {
        Icon::Folder
    } else {
        name_icon(entry.display_name)
    }
}

fn script_ending(e: &str) -> (found: bool)
    ensures
        found == is_script(e@),
{
    same_text(e, "sh") || same_text(e, "bash") || same_text(e, "zsh") || same_text(e, "fish")
}

fn picture_ending(e: &str) -> (found: bool)
    ensures
        found == is_picture(e@),
{
    same_text(e, "png") || same_text(e, "jpg") || same_text(e, "jpeg") || same_text(e, "gif")
        || same_text(e, "webp") || same_text(e, "svg") || same_text(e, "bmp") || same_text(
        e,
        "avif",
    )
}

fn video_ending(e: &str) -> (found: bool)
    ensures
        found == is_video(e@),
{
    same_text(e, "mp4") || same_text(e, "mkv") || same_text(e, "webm") || same_text(e, "mov")
        || same_text(e, "avi") || same_text(e, "m4v")
}

fn archive_ending(e: &str) -> (found: bool)
    ensures
        found == is_archive(e@),
{
    same_text(e, "zip") || same_text(e, "tar") || same_text(e, "gz") || same_text(e, "bz2")
        || same_text(e, "xz") || same_text(e, "7z") || same_text(e, "rar") || same_text(e, "zst")
}

fn code_ending(e: &str) -> (found: bool)
    ensures
        found == is_code(e@),
{
    same_text(e, "rs") || same_text(e, "c") || same_text(e, "h") || same_text(e, "cpp")
        || same_text(e, "go") || same_text(e, "py") || same_text(e, "rb") || same_text(e, "java")
        || same_text(e, "js") || same_text(e, "jsx") || same_text(e, "ts") || same_text(e, "tsx")
        || same_text(e, "lua") || same_text(e, "php") || same_text(e, "html") || same_text(
        e,
        "css",
    ) || same_text(e, "scss") || same_text(e, "json")
}

/// The picture of a file with this name.
pub fn icon_for_name(name: &str) -> (icon: Icon)
    ensures
        icon == name_icon(name@),
{
    let chars = chars_of(name);
    proof {
        lemma_last_position(name@, '.');
    }
    match position_from_end(&chars, '.') {
        None => Icon::Documents,
        Some(dot) => {
            let lower = to_ascii_lower(&chars, dot + 1);
            let e = text_between(&lower, 0, lower.len());
            assert(e@ =~= name@.skip(dot + 1).map_values(|c: char| ascii_lower(c)));
            if script_ending(e.as_str()) {
                Icon::Terminal
            } else if picture_ending(e.as_str()) {
                Icon::Pictures
            } else if video_ending(e.as_str()) {
                Icon::Videos
            } else if archive_ending(e.as_str()) {
                Icon::Archive
            } else if code_ending(e.as_str()) {
                Icon::Code
            } else {
                Icon::Documents
            }
        },
    }
}

/// The picture of an entry.
pub fn entry_icon(entry: &FileEntry) -> (icon: Icon)
    ensures
        icon == icon_of(entry@),
{
    if entry.is_broken_symbolic_link() {
        return Icon::Missing;
    }
    if entry.is_directory() {
        return Icon::Folder;
    }
    icon_for_name(entry.display_name.as_str())
}

/// How a row without further knowledge of its entry is drawn.
#[derive(Debug)]
pub struct PlainRow {
    pub name: String,
    pub icon: Icon,
    pub directory: bool,
}

/// How a row is drawn where nothing but the row is known.
pub fn plain_row(row: &str) -> (drawn: PlainRow)
    ensures
        drawn.name@ == row_name(row@),
        drawn.directory == row_is_directory(row@),
        drawn.icon == if row_is_directory(row@) {
            Icon::Folder
        } else {
            name_icon(row_name(row@))
        },
{
    let name = model_display_name(row);
    let directory = model_is_directory(row);
    let icon = if directory {
        Icon::Folder
    } else {
        icon_for_name(name.as_str())
    };
    PlainRow { name, icon, directory }
}

// Filtering.

/// Whether a name in lower case answers a query in lower case.
pub open spec fn answers_query(lower_name: Seq<char>, query: Seq<char>) -> bool {
    query.len() == 0 || contains_text(lower_name, query)
}

/// Whether a filter shows a row.
pub open spec fn row_shown(row: Seq<char>, query: Seq<char>) -> bool {
    answers_query(lowercase(row_name(row)), query)
}

/// Whether a name in lower case answers a query in lower case.
pub fn name_answers_query(lower_name: &str, query: &str) -> (found: bool)
    ensures
        found == answers_query(lower_name@, query@),
{
    query.unicode_len() == 0 || contains(lower_name, query)
}

/// Whether a filter shows a row. The query is in lower case.
pub fn row_is_shown(row: &str, query: &str) -> (shown: bool)
    ensures
        shown == row_shown(row@, query@),
{
    let name = model_display_name(row);
    name_answers_query(to_lower(name.as_str()).as_str(), query)
}

/// The query that a filter goes by: what was typed, in lower case.
pub fn filter_query(typed: &str) -> (query: String)
    ensures
        query@ == lowercase(typed@),
{
    to_lower(typed)
}

/// The rows among the first `n` that a filter shows, in order.
pub open spec fn shown_below(rows: Seq<Seq<char>>, query: Seq<char>, n: int) -> Seq<int>
    decreases n,
{
    if n <= 0 {
        Seq::empty()
    } else if row_shown(rows[n - 1], query) {
        shown_below(rows, query, n - 1).push(n - 1)
    } else {
        shown_below(rows, query, n - 1)
    }
}

/// The rows that a filter shows, in order. Their positions here are those in the list that the
/// user sees.
pub open spec fn shown_rows(rows: Seq<Seq<char>>, query: Seq<char>) -> Seq<int> {
    shown_below(rows, query, rows.len() as int)
}

/// The row behind a position in the filtered list.
pub open spec fn source_position(rows: Seq<Seq<char>>, query: Seq<char>, shown: int) -> Option<int> {
    let all = shown_rows(rows, query);
    if 0 <= shown < all.len() {
        Some(all[shown])
    } else {
        None
    }
}

/// The first position from `at` on that holds `value`.
pub open spec fn index_from(positions: Seq<int>, value: int, at: int) -> Option<int>
    decreases positions.len() - at,
{
    if at < 0 || at >= positions.len() {
        None
    } else if positions[at] == value {
        Some(at)
    } else {
        index_from(positions, value, at + 1)
    }
}

/// The position of a row in the filtered list, where the filter shows it.
pub open spec fn filtered_position(rows: Seq<Seq<char>>, query: Seq<char>, row: int) -> Option<int> {
    index_from(shown_rows(rows, query), row, 0)
}

/// The rows that a filter shows are in order, and are those that answer the query.
pub proof fn lemma_shown_below(rows: Seq<Seq<char>>, query: Seq<char>, n: int)
    requires
        0 <= n <= rows.len(),
    ensures
        shown_below(rows, query, n).len() <= n,
        forall|k: int|
            0 <= k < shown_below(rows, query, n).len() ==> {
                &&& 0 <= #[trigger] shown_below(rows, query, n)[k] < n
                &&& row_shown(rows[shown_below(rows, query, n)[k]], query)
            },
        forall|j: int, k: int|
            0 <= j < k < shown_below(rows, query, n).len() ==> #[trigger] shown_below(
                rows,
                query,
                n,
            )[j] < #[trigger] shown_below(rows, query, n)[k],
        forall|row: int|
            0 <= row < n && row_shown(#[trigger] rows[row], query) ==> shown_below(
                rows,
                query,
                n,
            ).contains(row),
    decreases n,
{
    if n > 0 {
        lemma_shown_below(rows, query, n - 1);
        let before = shown_below(rows, query, n - 1);
        let all = shown_below(rows, query, n);
        assert forall|row: int| 0 <= row < n && row_shown(#[trigger] rows[row], query) implies all.contains(
            row,
        ) by {
            if row == n - 1 {
                assert(all.last() == row);
            } else {
                let k = choose|k: int| 0 <= k < before.len() && before[k] == row;
                assert(all[k] == row);
            }
        }
    }
}

proof fn lemma_index_from(positions: Seq<int>, value: int, at: int)
    requires
        0 <= at,
    ensures
        index_from(positions, value, at) matches Some(found) ==> at <= found < positions.len()
            && positions[found] == value,
        index_from(positions, value, at) is None ==> forall|k: int|
            at <= k < positions.len() ==> #[trigger] positions[k] != value,
    decreases positions.len() - at,
{
    if at < positions.len() && positions[at] != value {
        lemma_index_from(positions, value, at + 1);
    }
}

/// Going from a shown row to the list behind it and back leads to the same row, and the other way
/// round. A row has a position in the filtered list exactly where it answers the query.
pub proof fn lemma_filter_positions(rows: Seq<Seq<char>>, query: Seq<char>)
    ensures
        forall|shown: int|
            (#[trigger] source_position(rows, query, shown)) matches Some(row) ==> filtered_position(
                rows,
                query,
                row,
            ) == Some(shown),
        forall|row: int|
            (#[trigger] filtered_position(rows, query, row)) matches Some(shown)
                ==> source_position(rows, query, shown) == Some(row),
        forall|row: int|
            0 <= row < rows.len() ==> ((#[trigger] filtered_position(rows, query, row)) is Some
                <==> row_shown(rows[row], query)),
{
    let all = shown_rows(rows, query);
    lemma_shown_below(rows, query, rows.len() as int);
    assert forall|shown: int|
        (#[trigger] source_position(rows, query, shown)) matches Some(row) implies filtered_position(
        rows,
        query,
        source_position(rows, query, shown)->0,
    ) == Some(shown) by {
        let row = all[shown];
        lemma_index_from(all, row, 0);
        match index_from(all, row, 0) {
            Some(found) => {
                if found < shown {
                    assert(all[found] < all[shown]);
                } else if shown < found {
                    assert(all[shown] < all[found]);
                }
            },
            None => {
                assert(all[shown] != row);
            },
        }
    }
    assert forall|row: int|
        (#[trigger] filtered_position(rows, query, row)) matches Some(shown) implies source_position(
        rows,
        query,
        filtered_position(rows, query, row)->0,
    ) == Some(row) by {
        lemma_index_from(all, row, 0);
    }
    assert forall|row: int| 0 <= row < rows.len() implies ((#[trigger] filtered_position(
        rows,
        query,
        row,
    )) is Some <==> row_shown(rows[row], query)) by {
        lemma_index_from(all, row, 0);
        if row_shown(rows[row], query) {
            assert(all.contains(row));
            let k = choose|k: int| 0 <= k < all.len() && all[k] == row;
            assert(all[k] == row);
        }
    }
}

/// An empty query shows every row in its place.
pub proof fn lemma_empty_query_shows_all(rows: Seq<Seq<char>>)
    ensures
        shown_rows(rows, Seq::empty()) == Seq::new(rows.len(), |k: int| k),
{
    lemma_empty_query_below(rows, rows.len() as int);
}

proof fn lemma_empty_query_below(rows: Seq<Seq<char>>, n: int)
    requires
        0 <= n <= rows.len(),
    ensures
        shown_below(rows, Seq::empty(), n) =~= Seq::new(n as nat, |k: int| k),
    decreases n,
{
    if n > 0 {
        lemma_empty_query_below(rows, n - 1);
    }
}

/// The rows that a filter shows, in order.
pub fn visible_rows(rows: &Vec<String>, query: &str) -> (shown: Vec<usize>)
    ensures
        shown@.len() == shown_rows(texts_of(rows@), query@).len(),
        forall|k: int|
            0 <= k < shown@.len() ==> #[trigger] shown@[k] == shown_rows(texts_of(rows@), query@)[k],
{
    let ghost texts = texts_of(rows@);
    let mut shown: Vec<usize> = Vec::new();
    let mut i: usize = 0;
    while i < rows.len()
        invariant
            texts == texts_of(rows@),
            i <= rows@.len(),
            shown@.len() == shown_below(texts, query@, i as int).len(),
            forall|k: int|
                0 <= k < shown@.len() ==> #[trigger] shown@[k] == shown_below(
                    texts,
                    query@,
                    i as int,
                )[k],
        decreases rows@.len() - i,
    {
        assert(texts[i as int] == rows@[i as int]@);
        if row_is_shown(rows[i].as_str(), query) {
            shown.push(i);
        }
        i += 1;
    }
    shown
}

/// The row behind a position in the filtered list.
pub fn source_position_for_filtered(rows: &Vec<String>, query: &str, shown: usize) -> (row: Option<
    usize,
>)
    ensures
        match row {
            Some(at) => source_position(texts_of(rows@), query@, shown as int) == Some(at as int)
                && at < rows@.len(),
            None => source_position(texts_of(rows@), query@, shown as int) is None,
        },
{
    let all = visible_rows(rows, query);
    proof {
        lemma_shown_below(texts_of(rows@), query@, rows@.len() as int);
    }
    if shown < all.len() {
        assert(shown_rows(texts_of(rows@), query@)[shown as int] < rows@.len());
        Some(all[shown])
    } else {
        None
    }
}

/// The position of a row in the filtered list, where the filter shows it.
pub fn filtered_position_for_source(rows: &Vec<String>, query: &str, row: usize) -> (shown: Option<
    usize,
>)
    ensures
        match shown {
            Some(at) => filtered_position(texts_of(rows@), query@, row as int) == Some(at as int),
            None => filtered_position(texts_of(rows@), query@, row as int) is None,
        },
{
    let all = visible_rows(rows, query);
    let ghost positions = shown_rows(texts_of(rows@), query@);
    let mut i: usize = 0;
    while i < all.len()
        invariant
            positions == shown_rows(texts_of(rows@), query@),
            all@.len() == positions.len(),
            forall|k: int| 0 <= k < all@.len() ==> #[trigger] all@[k] == positions[k],
            i <= all@.len(),
            index_from(positions, row as int, 0) == index_from(positions, row as int, i as int),
        decreases all@.len() - i,
    {
        if all[i] == row {
            return Some(i);
        }
        i += 1;
    }
    None
}

// Filling a list.

/// How many of the entries that are offered a list takes which holds some rows already. Without a
/// limit it takes all. With a limit it takes them up to the limit, and holds at least one.
pub open spec fn fitting(offered: int, held: int, limit: Option<int>) -> int {
    match limit {
        Some(most) => if peek_room(most, held) < offered {
            peek_room(most, held)
        } else {
            offered
        },
        None => offered,
    }
}

/// The rows of a list once entries have been offered to it.
pub open spec fn appended(
    rows: Seq<Seq<char>>,
    entries: Seq<FileEntryView>,
    limit: Option<int>,
) -> Seq<Seq<char>> {
    rows + rows_of(entries.take(fitting(entries.len() as int, rows.len() as int, limit)))
}

/// Puts as many of the entries into a list as fit. The rows that came in are returned.
pub fn append_entries(rows: &mut Vec<String>, entries: Vec<FileEntry>, limit: Option<usize>) -> (added:
    Vec<String>)
    ensures
        texts_of(final(rows)@) == appended(
            texts_of(old(rows)@),
            entries_of(entries@),
            position_of(limit),
        ),
        texts_of(added@) == rows_of(
            entries_of(entries@).take(
                fitting(entries@.len() as int, old(rows)@.len() as int, position_of(limit)),
            ),
        ),
{
    let ghost held = rows@;
    let mut taken = entries;
    if let Some(limit) = limit {
        let most: usize = if limit < 1 {
            1
        } else {
            limit
        };
        let shown: usize = rows.len();
        let room: usize = if shown < most {
            most - shown
        } else {
            0
        };
        if room < taken.len() {
            taken.truncate(room);
        }
    }
    let added = entry_model_values(&taken);
    proof {
        let count = fitting(entries@.len() as int, held.len() as int, position_of(limit));
        assert(entries_of(taken@) =~= entries_of(entries@).take(count));
    }
    let mut more = copy_texts(&added);
    let ghost copies = more@;
    rows.append(&mut more);
    assert(texts_of(rows@) =~= texts_of(held) + texts_of(copies));
    added
}

/// A copy of a list of texts.
pub fn copy_texts(texts: &Vec<String>) -> (copies: Vec<String>)
    ensures
        texts_of(copies@) == texts_of(texts@),
{
    let mut copies: Vec<String> = Vec::new();
    let mut i: usize = 0;
    while i < texts.len()
        invariant
            i <= texts@.len(),
            copies@.len() == i,
            forall|k: int| 0 <= k < i ==> (#[trigger] copies@[k])@ == texts@[k]@,
        decreases texts@.len() - i,
    {
        copies.push(texts[i].clone());
        i += 1;
    }
    assert(texts_of(copies@) =~= texts_of(texts@));
    copies
}

/// A list takes the longest run of the first entries that its limit allows: all of them where it
/// has none.
pub proof fn lemma_longest_run_fits(rows: Seq<Seq<char>>, entries: Seq<FileEntryView>, limit: Option<int>)
    ensures
        ({
            let count = appended(rows, entries, limit).len() - rows.len();
            &&& 0 <= count <= entries.len()
            &&& appended(rows, entries, limit) == rows + rows_of(entries.take(count))
            &&& limit is None ==> count == entries.len()
            &&& limit matches Some(most) ==> {
                &&& count > 0 ==> rows.len() + count <= most || rows.len() + count <= 1
                &&& count < entries.len() ==> rows.len() + count >= most && rows.len() + count >= 1
            }
        }),
{
    let count = fitting(entries.len() as int, rows.len() as int, limit);
    assert(rows_of(entries.take(count)).len() == count);
}

/// Offering entries in two parts fills a list as offering them at once does.
pub proof fn lemma_appending_in_parts(
    rows: Seq<Seq<char>>,
    a: Seq<FileEntryView>,
    b: Seq<FileEntryView>,
    limit: Option<int>,
)
    ensures
        appended(appended(rows, a, limit), b, limit) == appended(rows, a + b, limit),
{
    let held = rows.len() as int;
    let first = fitting(a.len() as int, held, limit);
    let second = fitting(b.len() as int, held + first, limit);
    let both = fitting((a + b).len() as int, held, limit);
    assert(rows_of(a.take(first)).len() == first);
    assert(both == first + second);
    assert((a + b).take(both) =~= a.take(first) + b.take(second));
    assert(rows_of(a.take(first) + b.take(second)) =~= rows_of(a.take(first)) + rows_of(
        b.take(second),
    ));
    assert(appended(appended(rows, a, limit), b, limit) =~= appended(rows, a + b, limit));
}

} // verus!
