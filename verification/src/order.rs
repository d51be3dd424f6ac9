//! The order of the entries in a column.
use vstd::prelude::*;
use vstd::string::*;

use crate::entry::{EntryKind, FileEntryView, MetadataValue};

verus! {

/// What a column is sorted by.
#[derive(Debug, Clone, Copy, PartialEq, Eq, Structural)]
pub enum SortKey {
    Name,
    Size,
    Modified,
    Type,
}

/// Which end of a sorted column comes first.
#[derive(Debug, Clone, Copy, PartialEq, Eq, Structural)]
pub enum SortDirection {
    Ascending,
    Descending,
}

/// How a column is sorted.
#[derive(Debug, Clone, Copy, PartialEq, Eq, Structural)]
pub struct SortPreference {
    pub key: SortKey,
    pub direction: SortDirection,
    pub folders_first: bool,
}

/// Names ascending, folders before files.
pub open spec fn default_sort() -> SortPreference {
    SortPreference { key: SortKey::Name, direction: SortDirection::Ascending, folders_first: true }
}

impl Default for SortPreference {
    fn default() -> (sort: Self)
        ensures
            sort == default_sort(),
    {
        SortPreference { key: SortKey::Name, direction: SortDirection::Ascending, folders_first: true }
    }
}

/// Negative, zero or positive as `a` comes before, with or after `b`.
pub open spec fn int_order(a: int, b: int) -> int {
    if a < b {
        -1
    } else if a > b {
        1
    } else {
        0
    }
}

/// Texts are ordered by their first different character; a text comes before its extensions.
pub open spec fn text_order(a: Seq<char>, b: Seq<char>) -> int
    decreases a.len(),
{
    if a.len() == 0 || b.len() == 0 {
        int_order(a.len() as int, b.len() as int)
    } else if a[0] != b[0] {
        int_order(a[0] as int, b[0] as int)
    } else {
        text_order(a.drop_first(), b.drop_first())
    }
}

/// Sizes that are not known come before all others.
pub open spec fn size_rank(size: MetadataValue<u64>) -> int {
    match size {
        MetadataValue::Known(bytes) => bytes as int,
        _ => -1,
    }
}

/// Times that are not known come before all others.
pub open spec fn time_rank(time: MetadataValue<i64>) -> int {
    match time {
        MetadataValue::Known(seconds) => seconds as int,
        _ => i64::MIN - 1,
    }
}

/// Directories, then files, then links.
pub open spec fn kind_rank(kind: EntryKind) -> int {
    match kind {
        EntryKind::Directory => 0,
        EntryKind::File => 1,
        EntryKind::DirectoryLink => 2,
        EntryKind::FileLink => 3,
        EntryKind::BrokenLink => 4,
    }
}

/// The order by one key; entries that the key does not tell apart are ordered by name.
pub open spec fn key_order(key: SortKey, a: FileEntryView, b: FileEntryView) -> int {
    let by_key = match key {
        SortKey::Name => 0,
        SortKey::Size => int_order(size_rank(a.size), size_rank(b.size)),
        SortKey::Modified => int_order(
            time_rank(a.modified_unix_seconds),
            time_rank(b.modified_unix_seconds),
        ),
        SortKey::Type => int_order(kind_rank(a.kind), kind_rank(b.kind)),
    };
    if by_key != 0 {
        by_key
    } else {
        text_order(a.display_name, b.display_name)
    }
}

/// The order of a column. Where folders come first, they do so in both directions.
pub open spec fn entry_order(sort: SortPreference, a: FileEntryView, b: FileEntryView) -> int {
    if sort.folders_first && a.is_directory() != b.is_directory() {
        if a.is_directory() {
            -1
        } else {
            1
        }
    } else if sort.direction == SortDirection::Descending {
        key_order(sort.key, b, a)
    } else {
        key_order(sort.key, a, b)
    }
}

/// No entry comes after its successor.
pub open spec fn is_sorted(sort: SortPreference, entries: Seq<FileEntryView>) -> bool {
    forall|i: int, j: int|
        0 <= i <= j < entries.len() ==> entry_order(sort, entries[i], entries[j]) <= 0
}

/// The two sequences in one, by order; where two entries tie, the one out of `a` comes first.
pub open spec fn merged(sort: SortPreference, a: Seq<FileEntryView>, b: Seq<FileEntryView>) -> Seq<
    FileEntryView,
>
    decreases a.len() + b.len(),
{
    if b.len() == 0 {
        a
    } else if a.len() == 0 {
        b
    } else if entry_order(sort, b[0], a[0]) < 0 {
        seq![b[0]] + merged(sort, a, b.drop_first())
    } else {
        seq![a[0]] + merged(sort, a.drop_first(), b)
    }
}

/// The entries in the order of the column; entries that tie keep the order they came in.
pub open spec fn sorted(sort: SortPreference, entries: Seq<FileEntryView>) -> Seq<FileEntryView>
    decreases entries.len(),
{
    if entries.len() <= 1 {
        entries
    } else {
        let half = entries.len() / 2;
        merged(
            sort,
            sorted(sort, entries.take(half as int)),
            sorted(sort, entries.skip(half as int)),
        )
    }
}

proof fn lemma_text_order_flip(a: Seq<char>, b: Seq<char>)
    ensures
        text_order(a, b) == -text_order(b, a),
        -1 <= text_order(a, b) <= 1,
    decreases a.len(),
{
    if a.len() > 0 && b.len() > 0 && a[0] == b[0] {
        lemma_text_order_flip(a.drop_first(), b.drop_first());
    }
}

proof fn lemma_text_order_chain(a: Seq<char>, b: Seq<char>, c: Seq<char>)
    requires
        text_order(a, b) <= 0,
        text_order(b, c) <= 0,
    ensures
        text_order(a, c) <= 0,
        text_order(a, b) < 0 || text_order(b, c) < 0 ==> text_order(a, c) < 0,
    decreases a.len(),
{
    if a.len() > 0 && b.len() > 0 && c.len() > 0 && a[0] == b[0] && b[0] == c[0] {
        lemma_text_order_chain(a.drop_first(), b.drop_first(), c.drop_first());
    }
}

proof fn lemma_key_order(key: SortKey, a: FileEntryView, b: FileEntryView, c: FileEntryView)
    ensures
        key_order(key, a, b) == -key_order(key, b, a),
        key_order(key, a, b) <= 0 && key_order(key, b, c) <= 0 ==> key_order(key, a, c) <= 0,
{
    lemma_text_order_flip(a.display_name, b.display_name);
    if text_order(a.display_name, b.display_name) <= 0 && text_order(b.display_name, c.display_name)
        <= 0 {
        lemma_text_order_chain(a.display_name, b.display_name, c.display_name);
    }
}

/// The order of a column is antisymmetric and transitive, whatever the preference: it is a
/// total preorder of the entries.
pub proof fn lemma_entry_order_is_total(
    sort: SortPreference,
    a: FileEntryView,
    b: FileEntryView,
    c: FileEntryView,
)
    ensures
        entry_order(sort, a, a) == 0,
        entry_order(sort, a, b) == -entry_order(sort, b, a),
        entry_order(sort, a, b) <= 0 && entry_order(sort, b, c) <= 0 ==> entry_order(sort, a, c) <= 0,
{
    lemma_key_order(sort.key, a, b, c);
    lemma_key_order(sort.key, c, b, a);
    lemma_key_order(sort.key, a, a, a);
}

/// Merging keeps every entry, and keeps sorted sequences sorted.
pub proof fn lemma_merged(sort: SortPreference, a: Seq<FileEntryView>, b: Seq<FileEntryView>)
    ensures
        merged(sort, a, b).to_multiset() == a.to_multiset().add(b.to_multiset()),
        merged(sort, a, b).len() == a.len() + b.len(),
        is_sorted(sort, a) && is_sorted(sort, b) ==> is_sorted(sort, merged(sort, a, b)),
    decreases a.len() + b.len(),
{
    broadcast use vstd::seq_lib::group_to_multiset_ensures;

    let whole = merged(sort, a, b);
    if b.len() == 0 {
        assert(b =~= Seq::empty());
        assert(whole.to_multiset() =~= a.to_multiset().add(b.to_multiset()));
    } else if a.len() == 0 {
        assert(a =~= Seq::empty());
        assert(whole.to_multiset() =~= a.to_multiset().add(b.to_multiset()));
    } else if entry_order(sort, b[0], a[0]) < 0 {
        let rest = b.drop_first();
        lemma_merged(sort, a, rest);
        lemma_front(b);
        lemma_front(whole);
        assert(whole.drop_first() =~= merged(sort, a, rest));
        assert(whole.to_multiset() =~= a.to_multiset().add(b.to_multiset()));
        if is_sorted(sort, a) && is_sorted(sort, b) {
            lemma_tail_sorted(sort, b);
            assert forall|e: FileEntryView| merged(sort, a, rest).contains(e) implies entry_order(
                sort,
                b[0],
                e,
            ) <= 0 by {
                assert(merged(sort, a, rest).to_multiset().contains(e));
                if a.to_multiset().contains(e) {
                    let k = choose|k: int| 0 <= k < a.len() && a[k] == e;
                    lemma_entry_order_is_total(sort, b[0], a[0], a[k]);
                } else {
                    assert(rest.to_multiset().contains(e));
                    let k = choose|k: int| 0 <= k < rest.len() && rest[k] == e;
                    assert(b[k + 1] == e);
                }
            }
            lemma_put_first(sort, b[0], merged(sort, a, rest));
        }
    } else {
        let rest = a.drop_first();
        lemma_merged(sort, rest, b);
        lemma_front(a);
        lemma_front(whole);
        assert(whole.drop_first() =~= merged(sort, rest, b));
        assert(whole.to_multiset() =~= a.to_multiset().add(b.to_multiset()));
        if is_sorted(sort, a) && is_sorted(sort, b) {
            lemma_tail_sorted(sort, a);
            lemma_entry_order_is_total(sort, b[0], a[0], a[0]);
            assert forall|e: FileEntryView| merged(sort, rest, b).contains(e) implies entry_order(
                sort,
                a[0],
                e,
            ) <= 0 by {
                assert(merged(sort, rest, b).to_multiset().contains(e));
                if b.to_multiset().contains(e) {
                    let k = choose|k: int| 0 <= k < b.len() && b[k] == e;
                    lemma_entry_order_is_total(sort, a[0], b[0], b[k]);
                } else {
                    assert(rest.to_multiset().contains(e));
                    let k = choose|k: int| 0 <= k < rest.len() && rest[k] == e;
                    assert(a[k + 1] == e);
                }
            }
            lemma_put_first(sort, a[0], merged(sort, rest, b));
        }
    }
}

proof fn lemma_front(s: Seq<FileEntryView>)
    requires
        s.len() > 0,
    ensures
        s.to_multiset() == s.drop_first().to_multiset().insert(s[0]),
{
    broadcast use vstd::seq_lib::group_to_multiset_ensures;

    assert(s =~= seq![s[0]] + s.drop_first());
    vstd::seq_lib::lemma_multiset_commutative(seq![s[0]], s.drop_first());
    assert(seq![s[0]] =~= Seq::<FileEntryView>::empty().push(s[0]));
    assert(s.to_multiset() =~= s.drop_first().to_multiset().insert(s[0]));
}

proof fn lemma_tail_sorted(sort: SortPreference, s: Seq<FileEntryView>)
    requires
        s.len() > 0,
        is_sorted(sort, s),
    ensures
        is_sorted(sort, s.drop_first()),
{
    assert forall|i: int, j: int| 0 <= i <= j < s.drop_first().len() implies entry_order(
        sort,
        s.drop_first()[i],
        s.drop_first()[j],
    ) <= 0 by {
        assert(entry_order(sort, s[i + 1], s[j + 1]) <= 0);
    }
}

proof fn lemma_put_first(sort: SortPreference, e: FileEntryView, s: Seq<FileEntryView>)
    requires
        is_sorted(sort, s),
        forall|x: FileEntryView| s.contains(x) ==> entry_order(sort, e, x) <= 0,
    ensures
        is_sorted(sort, seq![e] + s),
{
    let whole = seq![e] + s;
    assert forall|i: int, j: int| 0 <= i <= j < whole.len() implies entry_order(
        sort,
        whole[i],
        whole[j],
    ) <= 0 by {
        if i == 0 && j == 0 {
            lemma_entry_order_is_total(sort, e, e, e);
        } else if i == 0 {
            assert(s.contains(s[j - 1]));
        } else {
            assert(entry_order(sort, s[i - 1], s[j - 1]) <= 0);
        }
    }
}

/// Sorting yields the same entries, in the order of the column.
pub proof fn lemma_sorted(sort: SortPreference, entries: Seq<FileEntryView>)
    ensures
        is_sorted(sort, sorted(sort, entries)),
        sorted(sort, entries).to_multiset() == entries.to_multiset(),
        sorted(sort, entries).len() == entries.len(),
    decreases entries.len(),
{
    broadcast use vstd::seq_lib::group_to_multiset_ensures;

    if entries.len() <= 1 {
        if entries.len() == 1 {
            lemma_entry_order_is_total(sort, entries[0], entries[0], entries[0]);
        }
    } else {
        let half = (entries.len() / 2) as int;
        lemma_sorted(sort, entries.take(half));
        lemma_sorted(sort, entries.skip(half));
        lemma_merged(sort, sorted(sort, entries.take(half)), sorted(sort, entries.skip(half)));
        assert(entries =~= entries.take(half) + entries.skip(half));
        vstd::seq_lib::lemma_multiset_commutative(entries.take(half), entries.skip(half));
    }
}

/// The entries of `entries` that tie with `x`, in order.
pub open spec fn tied(sort: SortPreference, entries: Seq<FileEntryView>, x: FileEntryView) -> Seq<
    FileEntryView,
>
    decreases entries.len(),
{
    if entries.len() == 0 {
        Seq::empty()
    } else if entry_order(sort, entries[0], x) == 0 {
        seq![entries[0]] + tied(sort, entries.drop_first(), x)
    } else {
        tied(sort, entries.drop_first(), x)
    }
}

proof fn lemma_tied_append(
    sort: SortPreference,
    a: Seq<FileEntryView>,
    b: Seq<FileEntryView>,
    x: FileEntryView,
)
    ensures
        tied(sort, a + b, x) == tied(sort, a, x) + tied(sort, b, x),
    decreases a.len(),
{
    if a.len() == 0 {
        assert(a + b =~= b);
        assert(tied(sort, a, x) + tied(sort, b, x) =~= tied(sort, b, x));
    } else {
        lemma_tied_append(sort, a.drop_first(), b, x);
        assert((a + b).drop_first() =~= a.drop_first() + b);
        assert(tied(sort, a + b, x) =~= tied(sort, a, x) + tied(sort, b, x));
    }
}

proof fn lemma_none_tied(sort: SortPreference, s: Seq<FileEntryView>, x: FileEntryView)
    requires
        forall|k: int| 0 <= k < s.len() ==> entry_order(sort, #[trigger] s[k], x) != 0,
    ensures
        tied(sort, s, x) == Seq::<FileEntryView>::empty(),
    decreases s.len(),
{
    if s.len() > 0 {
        assert forall|k: int| 0 <= k < s.drop_first().len() implies entry_order(
            sort,
            #[trigger] s.drop_first()[k],
            x,
        ) != 0 by {
            assert(entry_order(sort, s[k + 1], x) != 0);
        }
        lemma_none_tied(sort, s.drop_first(), x);
    }
}

proof fn lemma_merged_tied(
    sort: SortPreference,
    a: Seq<FileEntryView>,
    b: Seq<FileEntryView>,
    x: FileEntryView,
)
    requires
        is_sorted(sort, a),
        is_sorted(sort, b),
    ensures
        tied(sort, merged(sort, a, b), x) == tied(sort, a, x) + tied(sort, b, x),
    decreases a.len() + b.len(),
{
    let whole = merged(sort, a, b);
    if b.len() == 0 {
        assert(tied(sort, a, x) + tied(sort, b, x) =~= tied(sort, a, x));
    } else if a.len() == 0 {
        assert(tied(sort, a, x) + tied(sort, b, x) =~= tied(sort, b, x));
    } else if entry_order(sort, b[0], a[0]) < 0 {
        lemma_tail_sorted(sort, b);
        lemma_merged_tied(sort, a, b.drop_first(), x);
        assert(whole.drop_first() =~= merged(sort, a, b.drop_first()));
        if entry_order(sort, b[0], x) == 0 {
            assert forall|k: int| 0 <= k < a.len() implies entry_order(sort, #[trigger] a[k], x)
                != 0 by {
                lemma_entry_order_is_total(sort, a[0], a[k], x);
                lemma_entry_order_is_total(sort, a[0], x, b[0]);
                lemma_entry_order_is_total(sort, b[0], x, a[0]);
                lemma_entry_order_is_total(sort, b[0], a[0], a[0]);
            }
            lemma_none_tied(sort, a, x);
            assert(tied(sort, whole, x) =~= tied(sort, a, x) + tied(sort, b, x));
        }
    } else {
        lemma_tail_sorted(sort, a);
        lemma_merged_tied(sort, a.drop_first(), b, x);
        assert(whole.drop_first() =~= merged(sort, a.drop_first(), b));
        assert(tied(sort, whole, x) =~= tied(sort, a, x) + tied(sort, b, x));
    }
}

/// Sorting is stable: entries that tie keep the order they came in.
pub proof fn lemma_sorted_is_stable(
    sort: SortPreference,
    entries: Seq<FileEntryView>,
    x: FileEntryView,
)
    ensures
        tied(sort, sorted(sort, entries), x) == tied(sort, entries, x),
    decreases entries.len(),
{
    if entries.len() > 1 {
        let half = (entries.len() / 2) as int;
        let a = entries.take(half);
        let b = entries.skip(half);
        lemma_sorted(sort, a);
        lemma_sorted(sort, b);
        lemma_sorted_is_stable(sort, a, x);
        lemma_sorted_is_stable(sort, b, x);
        lemma_merged_tied(sort, sorted(sort, a), sorted(sort, b), x);
        assert(entries =~= a + b);
        lemma_tied_append(sort, a, b, x);
    }
}

} // verus!
