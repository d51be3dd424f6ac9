//! Sorting columns, and placing new entries in sorted columns.
use vstd::prelude::*;
use vstd::string::*;

use crate::entry::{entries_of, EntryKind, FileEntry, FileEntryView, MetadataValue};
use crate::order::{
    entry_order, int_order, key_order, kind_rank, merged, size_rank, sorted, text_order, time_rank,
    SortDirection, SortKey, SortPreference,
};

verus! {

/// A run of entries that comes into a column at a position.
#[derive(Debug)]
pub struct Insertion {
    pub position: usize,
    pub entries: Vec<FileEntry>,
}

/// What an insertion holds.
#[verifier::ext_equal]
pub struct InsertionView {
    pub position: int,
    pub entries: Seq<FileEntryView>,
}

impl View for Insertion {
    type V = InsertionView;

    open spec fn view(&self) -> InsertionView {
        InsertionView { position: self.position as int, entries: entries_of(self.entries@) }
    }
}

/// The views of a list of insertions.
pub open spec fn insertions_of(insertions: Seq<Insertion>) -> Seq<InsertionView> {
    insertions.map_values(|insertion: Insertion| insertion@)
}

/// `rows` with `removed` items from `position` on replaced by `added`. Where the rows do not
/// reach that far, they stay as they are.
pub open spec fn spliced<T>(rows: Seq<T>, position: int, removed: int, added: Seq<T>) -> Seq<T> {
    if 0 <= position && 0 <= removed && position + removed <= rows.len() {
        rows.take(position) + added + rows.skip(position + removed)
    } else {
        rows
    }
}

/// The rows after all insertions, one after the other.
pub open spec fn with_insertions(rows: Seq<FileEntryView>, insertions: Seq<InsertionView>) -> Seq<
    FileEntryView,
>
    decreases insertions.len(),
{
    if insertions.len() == 0 {
        rows
    } else {
        with_insertions(
            spliced(rows, insertions[0].position, 0, insertions[0].entries),
            insertions.drop_first(),
        )
    }
}

/// How many of the first entries of `batch` come before `entry`.
pub open spec fn leading_run(sort: SortPreference, batch: Seq<FileEntryView>, entry: FileEntryView) -> int
    decreases batch.len(),
{
    if batch.len() > 0 && entry_order(sort, batch[0], entry) < 0 {
        1 + leading_run(sort, batch.drop_first(), entry)
    } else {
        0
    }
}

/// The runs of `batch` that come into the column `entries`, whose first entry stands at `at`.
pub open spec fn merge_insertions(
    sort: SortPreference,
    entries: Seq<FileEntryView>,
    batch: Seq<FileEntryView>,
    at: int,
) -> Seq<InsertionView>
    decreases entries.len() + batch.len(),
{
    if batch.len() == 0 {
        Seq::empty()
    } else if entries.len() == 0 {
        seq![InsertionView { position: at, entries: batch }]
    } else {
        let run = leading_run(sort, batch, entries[0]);
        if 0 < run <= batch.len() {
            seq![InsertionView { position: at, entries: batch.take(run) }] + merge_insertions(
                sort,
                entries,
                batch.skip(run),
                at + run,
            )
        } else {
            merge_insertions(sort, entries.drop_first(), batch, at + 1)
        }
    }
}

proof fn lemma_leading_run(sort: SortPreference, batch: Seq<FileEntryView>, entry: FileEntryView)
    ensures
        0 <= leading_run(sort, batch, entry) <= batch.len(),
        forall|k: int|
            0 <= k < leading_run(sort, batch, entry) ==> entry_order(sort, #[trigger] batch[k], entry)
                < 0,
        leading_run(sort, batch, entry) < batch.len() ==> entry_order(
            sort,
            batch[leading_run(sort, batch, entry)],
            entry,
        ) >= 0,
    decreases batch.len(),
{
    if batch.len() > 0 && entry_order(sort, batch[0], entry) < 0 {
        let rest = batch.drop_first();
        lemma_leading_run(sort, rest, entry);
        assert forall|k: int| 0 <= k < leading_run(sort, batch, entry) implies entry_order(
            sort,
            #[trigger] batch[k],
            entry,
        ) < 0 by {
            if k > 0 {
                assert(rest[k - 1] == batch[k]);
            }
        }
        let n = leading_run(sort, rest, entry);
        if n < rest.len() {
            assert(rest[n] == batch[n + 1]);
        }
    }
}

proof fn lemma_leading_run_unique(
    sort: SortPreference,
    batch: Seq<FileEntryView>,
    entry: FileEntryView,
    run: int,
)
    requires
        0 <= run <= batch.len(),
        forall|k: int| 0 <= k < run ==> entry_order(sort, #[trigger] batch[k], entry) < 0,
        run < batch.len() ==> entry_order(sort, batch[run], entry) >= 0,
    ensures
        leading_run(sort, batch, entry) == run,
{
    lemma_leading_run(sort, batch, entry);
}

proof fn lemma_merged_run(
    sort: SortPreference,
    entries: Seq<FileEntryView>,
    batch: Seq<FileEntryView>,
    run: int,
)
    requires
        entries.len() > 0,
        0 <= run <= batch.len(),
        forall|k: int| 0 <= k < run ==> entry_order(sort, #[trigger] batch[k], entries[0]) < 0,
    ensures
        merged(sort, entries, batch) == batch.take(run) + merged(sort, entries, batch.skip(run)),
    decreases run,
{
    if run == 0 {
        assert(batch.skip(0) =~= batch);
        assert(batch.take(0) + merged(sort, entries, batch) =~= merged(sort, entries, batch));
    } else {
        let rest = batch.drop_first();
        assert forall|k: int| 0 <= k < run - 1 implies entry_order(
            sort,
            #[trigger] rest[k],
            entries[0],
        ) < 0 by {
            assert(rest[k] == batch[k + 1]);
        }
        assert(entry_order(sort, batch[0], entries[0]) < 0);
        lemma_merged_run(sort, entries, rest, run - 1);
        assert(rest.skip(run - 1) =~= batch.skip(run));
        assert(seq![batch[0]] + rest.take(run - 1) =~= batch.take(run));
        assert(merged(sort, entries, batch) =~= batch.take(run) + merged(
            sort,
            entries,
            batch.skip(run),
        ));
    }
}

proof fn lemma_insertions_after(
    sort: SortPreference,
    shown: Seq<FileEntryView>,
    entries: Seq<FileEntryView>,
    batch: Seq<FileEntryView>,
)
    ensures
        with_insertions(
            shown + entries,
            merge_insertions(sort, entries, batch, shown.len() as int),
        ) == shown + merged(sort, entries, batch),
    decreases entries.len() + batch.len(),
{
    let at = shown.len() as int;
    let insertions = merge_insertions(sort, entries, batch, at);
    if batch.len() == 0 {
    } else if entries.len() == 0 {
        assert(insertions.drop_first() =~= Seq::empty());
        assert(spliced(shown + entries, at, 0, batch) =~= shown + batch);
        assert(with_insertions(shown + batch, insertions.drop_first()) == shown + batch);
    } else {
        let run = leading_run(sort, batch, entries[0]);
        lemma_leading_run(sort, batch, entries[0]);
        if run > 0 {
            let more = shown + batch.take(run);
            let rest = merge_insertions(sort, entries, batch.skip(run), at + run);
            lemma_insertions_after(sort, more, entries, batch.skip(run));
            lemma_merged_run(sort, entries, batch, run);
            assert(insertions.drop_first() =~= rest);
            assert(spliced(shown + entries, at, 0, batch.take(run)) =~= more + entries);
            assert(more + merged(sort, entries, batch.skip(run)) =~= shown + merged(
                sort,
                entries,
                batch,
            ));
        } else {
            let more = shown.push(entries[0]);
            let tail = entries.drop_first();
            lemma_insertions_after(sort, more, tail, batch);
            assert(more + tail =~= shown + entries);
            assert(more + merged(sort, tail, batch) =~= shown + merged(sort, entries, batch));
        }
    }
}

/// The insertions that a batch gives rise to turn the rows of the column as it was into the
/// rows of the column as it is.
pub proof fn lemma_insertions_replay(
    sort: SortPreference,
    entries: Seq<FileEntryView>,
    batch: Seq<FileEntryView>,
)
    ensures
        with_insertions(entries, merge_insertions(sort, entries, batch, 0)) == merged(
            sort,
            entries,
            batch,
        ),
{
    lemma_insertions_after(sort, Seq::empty(), entries, batch);
    assert(Seq::<FileEntryView>::empty() + entries =~= entries);
    assert(Seq::<FileEntryView>::empty() + merged(sort, entries, batch) =~= merged(
        sort,
        entries,
        batch,
    ));
}

/// Negative, zero or positive as `a` comes before, with or after `b`.
fn order_of_texts(a: &str, b: &str) -> (order: i8)
    ensures
        order == text_order(a@, b@),
{
    let a_len: usize = a.unicode_len();
    let b_len: usize = b.unicode_len();
    let mut i: usize = 0;
    assert(a@.skip(0) =~= a@);
    assert(b@.skip(0) =~= b@);
    while i < a_len && i < b_len
        invariant
            a_len == a@.len(),
            b_len == b@.len(),
            i <= a_len,
            i <= b_len,
            text_order(a@, b@) == text_order(a@.skip(i as int), b@.skip(i as int)),
        decreases a_len - i,
    {
        let left = a.get_char(i);
        let right = b.get_char(i);
        if left != right {
            return if left < right {
                -1
            } else {
                1
            };
        }
        assert(a@.skip(i as int).drop_first() =~= a@.skip(i + 1));
        assert(b@.skip(i as int).drop_first() =~= b@.skip(i + 1));
        i += 1;
    }
    if a_len < b_len {
        -1
    } else if a_len > b_len {
        1
    } else {
        0
    }
}

fn order_of_sizes(a: MetadataValue<u64>, b: MetadataValue<u64>) -> (order: i8)
    ensures
        order == int_order(size_rank(a), size_rank(b)),
{
    match (a, b) {
        (MetadataValue::Known(x), MetadataValue::Known(y)) => if x < y {
            -1
        } else if x > y {
            1
        } else {
            0
        },
        (MetadataValue::Known(_), _) => 1,
        (_, MetadataValue::Known(_)) => -1,
        _ => 0,
    }
}

fn order_of_times(a: MetadataValue<i64>, b: MetadataValue<i64>) -> (order: i8)
    ensures
        order == int_order(time_rank(a), time_rank(b)),
{
    match (a, b) {
        (MetadataValue::Known(x), MetadataValue::Known(y)) => if x < y {
            -1
        } else if x > y {
            1
        } else {
            0
        },
        (MetadataValue::Known(_), _) => 1,
        (_, MetadataValue::Known(_)) => -1,
        _ => 0,
    }
}

fn rank_of_kind(kind: EntryKind) -> (rank: i8)
    ensures
        rank == kind_rank(kind),
{
    match kind {
        EntryKind::Directory => 0,
        EntryKind::File => 1,
        EntryKind::DirectoryLink => 2,
        EntryKind::FileLink => 3,
        EntryKind::BrokenLink => 4,
    }
}

fn order_by_key(key: SortKey, a: &FileEntry, b: &FileEntry) -> (order: i8)
    ensures
        order == key_order(key, a@, b@),
{
    let by_key: i8 = match key {
        SortKey::Name => 0,
        SortKey::Size => order_of_sizes(a.size, b.size),
        SortKey::Modified => order_of_times(a.modified_unix_seconds, b.modified_unix_seconds),
        SortKey::Type => {
            let x: i8 = rank_of_kind(a.kind);
            let y: i8 = rank_of_kind(b.kind);
            if x < y {
                -1
            } else if x > y {
                1
            } else {
                0
            }
        },
    };
    if by_key != 0 {
        by_key
    } else {
        order_of_texts(a.display_name.as_str(), b.display_name.as_str())
    }
}

/// Negative, zero or positive as `a` comes before, with or after `b` in the column.
pub fn order_of_entries(sort: SortPreference, a: &FileEntry, b: &FileEntry) -> (order: i8)
    ensures
        order == entry_order(sort, a@, b@),
{
    if sort.folders_first && a.is_directory() != b.is_directory() {
        if a.is_directory() {
            -1
        } else {
            1
        }
    } else {
        match sort.direction {
            SortDirection::Descending => order_by_key(sort.key, b, a),
            SortDirection::Ascending => order_by_key(sort.key, a, b),
        }
    }
}

/// The entries the other way round, so that the first one can be taken off the end.
fn reversed(entries: Vec<FileEntry>) -> (stack: Vec<FileEntry>)
    ensures
        stack@ == entries@.reverse(),
{
    let mut source = entries;
    let mut stack: Vec<FileEntry> = Vec::new();
    while source.len() > 0
        invariant
            source@.len() + stack@.len() == entries@.len(),
            source@ == entries@.take(source@.len() as int),
            stack@ == entries@.skip(source@.len() as int).reverse(),
        decreases source@.len(),
    {
        let ghost n = source@.len() as int;
        if let Some(entry) = source.pop() {
            stack.push(entry);
            assert(source@ =~= entries@.take(n - 1));
            assert(stack@ =~= entries@.skip(n - 1).reverse());
        }
    }
    assert(stack@ =~= entries@.reverse());
    stack
}

/// The entries of a stack, the topmost one first.
spec fn unstacked(stack: Seq<FileEntry>) -> Seq<FileEntryView> {
    entries_of(stack.reverse())
}

proof fn lemma_unstacked(stack: Seq<FileEntry>)
    ensures
        unstacked(stack).len() == stack.len(),
        stack.len() > 0 ==> unstacked(stack)[0] == stack.last()@ && unstacked(stack).drop_first()
            == unstacked(stack.drop_last()),
{
    if stack.len() > 0 {
        assert(unstacked(stack).drop_first() =~= unstacked(stack.drop_last()));
    }
}

proof fn lemma_entries_push(entries: Seq<FileEntry>, entry: FileEntry)
    ensures
        entries_of(entries.push(entry)) == entries_of(entries).push(entry@),
{
    assert(entries_of(entries.push(entry)) =~= entries_of(entries).push(entry@));
}

/// The two lists in one, by order; where two entries tie, the one out of `a` comes first.
pub fn merge(sort: SortPreference, a: Vec<FileEntry>, b: Vec<FileEntry>) -> (whole: Vec<FileEntry>)
    ensures
        entries_of(whole@) == merged(sort, entries_of(a@), entries_of(b@)),
{
    let ghost all = merged(sort, entries_of(a@), entries_of(b@));
    let mut left = reversed(a);
    let mut right = reversed(b);
    let mut whole: Vec<FileEntry> = Vec::new();
    proof {
        assert(left@.reverse() =~= a@);
        assert(right@.reverse() =~= b@);
        assert(all =~= entries_of(whole@) + all);
    }
    while left.len() > 0 || right.len() > 0
        invariant
            all == entries_of(whole@) + merged(sort, unstacked(left@), unstacked(right@)),
        decreases left@.len() + right@.len(),
    {
        proof {
            lemma_unstacked(left@);
            lemma_unstacked(right@);
        }
        let from_right = if right.len() == 0 {
            false
        } else if left.len() == 0 {
            true
        } else {
            order_of_entries(sort, &right[right.len() - 1], &left[left.len() - 1]) < 0
        };
        let ghost rest = merged(sort, unstacked(left@), unstacked(right@));
        let ghost done = whole@;
        let taken = if from_right {
            right.pop()
        } else {
            left.pop()
        };
        if let Some(entry) = taken {
            whole.push(entry);
            proof {
                lemma_entries_push(done, entry);
                let next = merged(sort, unstacked(left@), unstacked(right@));
                assert(rest =~= seq![entry@] + next);
                assert(all =~= entries_of(whole@) + next);
            }
        }
    }
    proof {
        lemma_unstacked(left@);
        lemma_unstacked(right@);
        assert(all =~= entries_of(whole@));
    }
    whole
}

/// The entries in the order of the column.
pub fn sort_entries(sort: SortPreference, entries: Vec<FileEntry>) -> (result: Vec<FileEntry>)
    ensures
        entries_of(result@) == sorted(sort, entries_of(entries@)),
    decreases entries@.len(),
{
    if entries.len() <= 1 {
        return entries;
    }
    let ghost views = entries_of(entries@);
    let half: usize = entries.len() / 2;
    let mut first = entries;
    let second = first.split_off(half);
    proof {
        assert(entries_of(first@) =~= views.take(half as int));
        assert(entries_of(second@) =~= views.skip(half as int));
    }
    merge(sort, sort_entries(sort, first), sort_entries(sort, second))
}

/// Places a sorted batch in a sorted column, and tells which runs came in where.
pub fn merge_batch(sort: SortPreference, entries: Vec<FileEntry>, batch: Vec<FileEntry>) -> (result: (
    Vec<FileEntry>,
    Vec<Insertion>,
))
    ensures
        entries_of(result.0@) == merged(sort, entries_of(entries@), entries_of(batch@)),
        insertions_of(result.1@) == merge_insertions(
            sort,
            entries_of(entries@),
            entries_of(batch@),
            0,
        ),
{
    let ghost all = merged(sort, entries_of(entries@), entries_of(batch@));
    let ghost all_insertions = merge_insertions(sort, entries_of(entries@), entries_of(batch@), 0);
    let mut left = reversed(entries);
    let mut right = reversed(batch);
    let mut whole: Vec<FileEntry> = Vec::new();
    let mut insertions: Vec<Insertion> = Vec::new();
    proof {
        assert(left@.reverse() =~= entries@);
        assert(right@.reverse() =~= batch@);
        assert(all =~= entries_of(whole@) + all);
        assert(all_insertions =~= insertions_of(insertions@) + all_insertions);
    }
    while right.len() > 0
        invariant
            all == entries_of(whole@) + merged(sort, unstacked(left@), unstacked(right@)),
            all_insertions == insertions_of(insertions@) + merge_insertions(
                sort,
                unstacked(left@),
                unstacked(right@),
                whole@.len() as int,
            ),
        decreases left@.len() + right@.len(),
    {
        let at: usize = whole.len();
        let ghost done = whole@;
        let ghost a = unstacked(left@);
        let ghost b = unstacked(right@);
        let mut run: Vec<FileEntry> = Vec::new();
        proof {
            lemma_unstacked(left@);
            lemma_unstacked(right@);
            assert(b.skip(0) =~= b);
            assert(entries_of(run@) =~= b.take(0));
            assert(entries_of(whole@) =~= entries_of(done) + b.take(0));
        }
        while right.len() > 0 && (left.len() == 0 || order_of_entries(
            sort,
            &right[right.len() - 1],
            &left[left.len() - 1],
        ) < 0)
            invariant
                a == unstacked(left@),
                run@.len() + right@.len() == b.len(),
                whole@.len() == done.len() + run@.len(),
                unstacked(right@) == b.skip(run@.len() as int),
                entries_of(run@) == b.take(run@.len() as int),
                entries_of(whole@) == entries_of(done) + b.take(run@.len() as int),
                left@.len() > 0 ==> forall|k: int|
                    0 <= k < run@.len() ==> entry_order(sort, #[trigger] b[k], a[0]) < 0,
            decreases right@.len(),
        {
            let ghost n = run@.len() as int;
            let ghost before_run = run@;
            let ghost before_whole = whole@;
            proof {
                lemma_unstacked(right@);
                lemma_unstacked(left@);
                assert(b.skip(n).drop_first() =~= b.skip(n + 1));
                assert(b.skip(n)[0] == b[n]);
            }
            if let Some(entry) = right.pop() {
                run.push(entry.clone());
                whole.push(entry);
                proof {
                    lemma_entries_push(before_run, run@.last());
                    lemma_entries_push(before_whole, entry);
                    assert(b.take(n + 1) =~= b.take(n).push(b[n]));
                    assert(entries_of(whole@) =~= entries_of(done) + b.take(n + 1));
                }
            }
        }
        proof {
            lemma_unstacked(right@);
            lemma_unstacked(left@);
        }
        let ghost n = run@.len() as int;
        if run.len() > 0 {
            proof {
                if left@.len() > 0 {
                    if n < b.len() {
                        assert(b.skip(n)[0] == b[n]);
                    }
                    lemma_leading_run_unique(sort, b, a[0], n);
                    lemma_merged_run(sort, a, b, n);
                } else {
                    assert(b.take(n) =~= b);
                    assert(merged(sort, a, b.skip(n)) =~= Seq::empty());
                    assert(merged(sort, a, b) =~= b);
                    assert(merge_insertions(sort, a, b.skip(n), at + n) =~= Seq::empty());
                }
                assert(all =~= entries_of(whole@) + merged(sort, a, b.skip(n)));
            }
            let ghost before = insertions@;
            insertions.push(Insertion { position: at, entries: run });
            proof {
                let view = InsertionView { position: at as int, entries: b.take(n) };
                assert(insertions@.last()@ == view);
                assert(insertions_of(insertions@) =~= insertions_of(before).push(view));
                assert(all_insertions =~= insertions_of(insertions@) + merge_insertions(
                    sort,
                    a,
                    b.skip(n),
                    at + n,
                ));
            }
        } else {
            proof {
                assert(b.skip(0) =~= b);
                assert(left@.len() > 0);
                lemma_leading_run_unique(sort, b, a[0], 0);
            }
            let ghost before = whole@;
            if let Some(entry) = left.pop() {
                whole.push(entry);
                proof {
                    lemma_entries_push(before, entry);
                    assert(merged(sort, a, b) =~= seq![entry@] + merged(
                        sort,
                        unstacked(left@),
                        unstacked(right@),
                    ));
                    assert(all =~= entries_of(whole@) + merged(
                        sort,
                        unstacked(left@),
                        unstacked(right@),
                    ));
                }
            }
        }
    }
    proof {
        lemma_unstacked(left@);
        lemma_unstacked(right@);
        assert(all_insertions =~= insertions_of(insertions@));
    }
    while left.len() > 0
        invariant
            all == entries_of(whole@) + unstacked(left@),
        decreases left@.len(),
    {
        proof {
            lemma_unstacked(left@);
        }
        let ghost before = whole@;
        let ghost rest = unstacked(left@);
        if let Some(entry) = left.pop() {
            whole.push(entry);
            proof {
                lemma_entries_push(before, entry);
                assert(rest =~= seq![entry@] + unstacked(left@));
                assert(all =~= entries_of(whole@) + unstacked(left@));
            }
        }
    }
    proof {
        lemma_unstacked(left@);
        assert(all =~= entries_of(whole@));
    }
    (whole, insertions)
}

} // verus!
