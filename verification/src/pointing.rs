//! What pointing at rows selects.
use vstd::prelude::*;

use crate::event::{lemma_positions_contain, position_of, positions_of};
use crate::observers::copy_positions;

verus! {

/// The last of the positions that lies in a range.
pub open spec fn last_within(positions: Seq<int>, from: int, end: int) -> Option<int>
    decreases positions.len(),
{
    if positions.len() == 0 {
        None
    } else if from <= positions.last() < end {
        Some(positions.last())
    } else {
        last_within(positions.drop_last(), from, end)
    }
}

/// The selected row that has the focus after the rows from `from` up to `end` were selected or
/// left out: the last of them that is selected, or else the row that had the focus, where it is
/// selected, or else the last selected row.
pub open spec fn focus_choice(
    positions: Seq<int>,
    from: int,
    end: int,
    previous: Option<int>,
) -> Option<int> {
    if last_within(positions, from, end) is Some {
        last_within(positions, from, end)
    } else if previous is Some && positions.contains(previous->0) {
        previous
    } else if positions.len() > 0 {
        Some(positions.last())
    } else {
        None
    }
}

/// The end of a range of rows.
pub open spec fn range_end(from: int, count: int) -> int {
    if from + count > usize::MAX {
        usize::MAX as int
    } else {
        from + count
    }
}

/// Whether a position is among the positions.
pub fn holds_position(positions: &Vec<usize>, position: usize) -> (found: bool)
    ensures
        found == positions@.contains(position),
{
    let mut i: usize = 0;
    while i < positions.len()
        invariant
            i <= positions@.len(),
            forall|k: int| 0 <= k < i ==> positions@[k] != position,
        decreases positions@.len() - i,
    {
        if positions[i] == position {
            return true;
        }
        i += 1;
    }
    false
}

/// The selected row that has the focus after `count` rows from `from` on were selected or left
/// out.
pub fn focused_row(positions: &Vec<usize>, from: usize, count: usize, previous: Option<usize>) -> (row:
    Option<usize>)
    ensures
        position_of(row) == focus_choice(
            positions_of(positions@),
            from as int,
            range_end(from as int, count as int),
            position_of(previous),
        ),
{
    let ghost views = positions_of(positions@);
    let end: usize = from.saturating_add(count);
    let mut i: usize = positions.len();
    assert(views.take(i as int) =~= views);
    while i > 0
        invariant
            views == positions_of(positions@),
            end == range_end(from as int, count as int),
            i <= positions@.len(),
            last_within(views, from as int, end as int) == last_within(
                views.take(i as int),
                from as int,
                end as int,
            ),
        decreases i,
    {
        i -= 1;
        proof {
            assert(views.take(i + 1).drop_last() =~= views.take(i as int));
            assert(views.take(i + 1).last() == positions@[i as int]);
        }
        if positions[i] >= from && positions[i] < end {
            return Some(positions[i]);
        }
    }
    if let Some(row) = previous {
        let held = holds_position(positions, row);
        proof {
            lemma_positions_contain(positions@, row);
        }
        if held {
            return Some(row);
        }
    }
    if positions.len() > 0 {
        Some(positions[positions.len() - 1])
    } else {
        None
    }
}

/// What pressing on a row does to the selection of a list.
#[derive(Debug, Clone, Copy, PartialEq, Eq, Structural)]
pub enum RowSelection {
    /// Exactly these rows are selected.
    Range { start: usize, count: usize },
    /// The row is left out.
    Remove { row: usize },
    /// The row is selected too.
    Include { row: usize },
    /// Exactly this row is selected.
    Only { row: usize },
}

/// The rows that are selected after a change.
pub open spec fn selected_after(selected: Set<int>, change: RowSelection) -> Set<int> {
    match change {
        RowSelection::Range { start, count } => Set::new(
            |row: int| start <= row < start + count,
        ),
        RowSelection::Remove { row } => selected.remove(row as int),
        RowSelection::Include { row } => selected.insert(row as int),
        RowSelection::Only { row } => Set::empty().insert(row as int),
    }
}

/// What pressing on a row does: alone it selects the row, with the control key it takes the row in
/// or leaves it out, and with the shift key it selects all rows from the anchor to the row.
pub open spec fn press(
    anchor: Option<usize>,
    row: usize,
    control: bool,
    shift: bool,
    selected: bool,
) -> RowSelection {
    if shift {
        let from = match anchor {
            Some(at) => at,
            None => row,
        };
        if from <= row {
            RowSelection::Range { start: from, count: (row - from + 1) as usize }
        } else {
            RowSelection::Range { start: row, count: (from - row + 1) as usize }
        }
    } else if control {
        if selected {
            RowSelection::Remove { row }
        } else {
            RowSelection::Include { row }
        }
    } else {
        RowSelection::Only { row }
    }
}

/// The anchor after pressing on a row. The shift key leaves it where it is.
pub open spec fn anchor_after(anchor: Option<usize>, row: usize, shift: bool) -> Option<usize> {
    if shift {
        anchor
    } else {
        Some(row)
    }
}

/// What pressing on a row does to the selection.
pub fn press_row(
    anchor: Option<usize>,
    row: usize,
    control: bool,
    shift: bool,
    selected: bool,
) -> (change: RowSelection)
    requires
        row < usize::MAX,
        anchor matches Some(at) ==> at < usize::MAX,
    ensures
        change == press(anchor, row, control, shift, selected),
{
    if shift {
        let from: usize = match anchor {
            Some(at) => at,
            None => row,
        };
        if from <= row {
            RowSelection::Range { start: from, count: row - from + 1 }
        } else {
            RowSelection::Range { start: row, count: from - row + 1 }
        }
    } else if control {
        if selected {
            RowSelection::Remove { row }
        } else {
            RowSelection::Include { row }
        }
    } else {
        RowSelection::Only { row }
    }
}

/// Pressing with the shift key selects the rows between the anchor and the row, whichever of the
/// two comes first, and no others. Without an anchor it selects the row alone.
pub proof fn lemma_shift_selects_between(
    anchor: Option<usize>,
    row: usize,
    control: bool,
    selected: Set<int>,
)
    requires
        row < usize::MAX,
        anchor matches Some(at) ==> at < usize::MAX,
    ensures
        forall|other: int|
            selected_after(
                selected,
                press(anchor, row, control, true, selected.contains(row as int)),
            ).contains(other) <==> match anchor {
                Some(at) => at <= other <= row || row <= other <= at,
                None => other == row,
            },
{
}

/// Pressing with the control key changes whether the row is selected, and nothing else. Pressing
/// twice leaves the selection as it was.
pub proof fn lemma_control_toggles(anchor: Option<usize>, row: usize, selected: Set<int>)
    ensures
        ({
            let once = selected_after(
                selected,
                press(anchor, row, true, false, selected.contains(row as int)),
            );
            let twice = selected_after(
                once,
                press(anchor, row, true, false, once.contains(row as int)),
            );
            &&& once.contains(row as int) == !selected.contains(row as int)
            &&& forall|other: int|
                other != row ==> once.contains(other) == selected.contains(other)
            &&& twice == selected
        }),
{
    let once = selected_after(
        selected,
        press(anchor, row, true, false, selected.contains(row as int)),
    );
    let twice = selected_after(once, press(anchor, row, true, false, once.contains(row as int)));
    assert(twice =~= selected);
}

/// Whether a drag over the list draws a frame: always where it starts beside the rows, and on a
/// row only where that is forced.
pub fn marquee_can_start(starts_on_row: bool, forced: bool) -> (can_start: bool)
    ensures
        can_start == (forced || !starts_on_row),
{
    forced || !starts_on_row
}

/// Whether a frame leaves a row selected. `initial` tells whether it was selected when the frame
/// was begun, `hit` whether the frame touches it.
pub open spec fn marquee_selects(initial: bool, hit: bool, control: bool, shift: bool) -> bool {
    if hit {
        !(control && initial)
    } else {
        (control || shift) && initial
    }
}

/// The rows that are selected while a frame touches the rows `hits`.
pub fn marquee_selection(initial: &Vec<usize>, hits: &Vec<usize>, control: bool, shift: bool) -> (rows:
    Vec<usize>)
    ensures
        forall|row: usize| #[trigger]
            rows@.contains(row) <==> marquee_selects(
                initial@.contains(row),
                hits@.contains(row),
                control,
                shift,
            ),
{
    let mut rows: Vec<usize> = Vec::new();
    let mut i: usize = 0;
    while i < initial.len()
        invariant
            i <= initial@.len(),
            forall|row: usize| #[trigger]
                rows@.contains(row) <==> {
                    &&& initial@.take(i as int).contains(row)
                    &&& (control || shift)
                    &&& !(control && hits@.contains(row))
                },
        decreases initial@.len() - i,
    {
        let row: usize = initial[i];
        let ghost before = rows@;
        let hit = holds_position(hits, row);
        if (control || shift) && !(control && hit) {
            rows.push(row);
        }
        proof {
            let next = initial@.take(i + 1);
            lemma_take_contains(initial@, i as int);
            assert forall|other: usize| #[trigger] rows@.contains(other) <==> {
                &&& next.contains(other)
                &&& (control || shift)
                &&& !(control && hits@.contains(other))
            } by {
                if (control || shift) && !(control && hits@.contains(row)) {
                    lemma_push_contains(before, row, other);
                }
            }
        }
        i += 1;
    }
    assert(initial@.take(i as int) =~= initial@);
    let ghost kept = rows@;
    let mut j: usize = 0;
    while j < hits.len()
        invariant
            j <= hits@.len(),
            forall|row: usize| #[trigger]
                kept.contains(row) <==> {
                    &&& initial@.contains(row)
                    &&& (control || shift)
                    &&& !(control && hits@.contains(row))
                },
            forall|row: usize| #[trigger]
                rows@.contains(row) <==> {
                    ||| kept.contains(row)
                    ||| hits@.take(j as int).contains(row) && !(control && initial@.contains(row))
                },
        decreases hits@.len() - j,
    {
        let row: usize = hits[j];
        let ghost before = rows@;
        if !(control && holds_position(initial, row)) {
            rows.push(row);
        }
        proof {
            let next = hits@.take(j + 1);
            lemma_take_contains(hits@, j as int);
            assert forall|other: usize| #[trigger] rows@.contains(other) <==> {
                ||| kept.contains(other)
                ||| next.contains(other) && !(control && initial@.contains(other))
            } by {
                if !(control && initial@.contains(row)) {
                    lemma_push_contains(before, row, other);
                }
            }
        }
        j += 1;
    }
    assert(hits@.take(j as int) =~= hits@);
    rows
}

proof fn lemma_push_contains(positions: Seq<usize>, added: usize, position: usize)
    ensures
        positions.push(added).contains(position) <==> positions.contains(position) || position
            == added,
{
    let all = positions.push(added);
    if positions.contains(position) {
        let k = choose|k: int| 0 <= k < positions.len() && positions[k] == position;
        assert(all[k] == position);
    }
    if position == added {
        assert(all.last() == position);
    }
    if all.contains(position) && position != added {
        let k = choose|k: int| 0 <= k < all.len() && all[k] == position;
        assert(positions[k] == position);
    }
}

proof fn lemma_take_contains(positions: Seq<usize>, at: int)
    requires
        0 <= at < positions.len(),
    ensures
        forall|position: usize| #[trigger]
            positions.take(at + 1).contains(position) <==> positions.take(at).contains(position)
                || position == positions[at],
{
    assert(positions.take(at + 1) =~= positions.take(at).push(positions[at]));
    assert forall|position: usize| #[trigger]
        positions.take(at + 1).contains(position) <==> positions.take(at).contains(position)
            || position == positions[at] by {
        lemma_push_contains(positions.take(at), positions[at], position);
    }
}

/// The rows that the menu of a row is for: all that are selected, where it is among them, else it
/// alone.
pub open spec fn rows_for_menu(row: usize, selected: Seq<usize>) -> Seq<usize> {
    if selected.contains(row) {
        selected
    } else {
        seq![row]
    }
}

/// The rows that the menu of a row is for.
pub fn menu_rows(row: usize, selected: &Vec<usize>) -> (rows: Vec<usize>)
    ensures
        rows@ == rows_for_menu(row, selected@),
{
    if holds_position(selected, row) {
        copy_positions(selected)
    } else {
        let mut rows: Vec<usize> = Vec::new();
        rows.push(row);
        assert(rows@ =~= seq![row]);
        rows
    }
}

/// The menu of a row is for that row, whatever is selected, and for no row besides it that is not
/// selected.
pub proof fn lemma_menu_is_for_the_row(row: usize, selected: Seq<usize>, other: usize)
    ensures
        rows_for_menu(row, selected).contains(row),
        rows_for_menu(row, selected).contains(other) ==> other == row || selected.contains(other),
{
    if !selected.contains(row) {
        assert(seq![row][0] == row);
    }
}

/// A frame that touches nothing leaves the selection as it was where a modifier is held, and
/// clears it where none is.
pub proof fn lemma_empty_marquee(initial: bool, control: bool, shift: bool)
    ensures
        marquee_selects(initial, false, control, shift) == ((control || shift) && initial),
{
}

/// Pressing alone selects the row and no other. The anchor goes to the row that is pressed, unless
/// the shift key is held.
pub proof fn lemma_press_selects_the_row(
    anchor: Option<usize>,
    row: usize,
    selected: Set<int>,
    other: int,
)
    ensures
        selected_after(
            selected,
            press(anchor, row, false, false, selected.contains(row as int)),
        ).contains(other) <==> other == row,
        anchor_after(anchor, row, false) == Some(row),
        anchor_after(anchor, row, true) == anchor,
{
}

/// A frame without keys selects exactly what it touches. With the shift key it adds that to what
/// was selected, and with the control key it turns it over.
pub proof fn lemma_frames(initial: bool, hit: bool, shift: bool)
    ensures
        marquee_selects(initial, hit, false, false) == hit,
        marquee_selects(initial, hit, false, true) == (initial || hit),
        marquee_selects(initial, hit, true, shift) == (initial != hit),
{
}

/// The menu of a row that is selected is for all that is selected, and the menu of another row for
/// that row alone.
pub proof fn lemma_menu_is_for_the_selection(row: usize, selected: Seq<usize>)
    ensures
        selected.contains(row) ==> rows_for_menu(row, selected) == selected,
        !selected.contains(row) ==> rows_for_menu(row, selected).len() == 1,
{
}

proof fn lemma_last_within(positions: Seq<int>, from: int, end: int)
    ensures
        match last_within(positions, from, end) {
            Some(row) => from <= row < end && exists|k: int|
                0 <= k < positions.len() && #[trigger] positions[k] == row && forall|l: int|
                    k < l < positions.len() ==> !(from <= #[trigger] positions[l] < end),
            None => forall|k: int|
                0 <= k < positions.len() ==> !(from <= #[trigger] positions[k] < end),
        },
    decreases positions.len(),
{
    if positions.len() > 0 {
        let fewer = positions.drop_last();
        let last = positions.len() - 1;
        assert(positions[last] == positions.last());
        if !(from <= positions.last() < end) {
            lemma_last_within(fewer, from, end);
            match last_within(fewer, from, end) {
                Some(row) => {
                    let k = choose|k: int|
                        0 <= k < fewer.len() && #[trigger] fewer[k] == row && forall|l: int|
                            k < l < fewer.len() ==> !(from <= #[trigger] fewer[l] < end);
                    assert(positions[k] == row);
                    assert forall|l: int| k < l < positions.len() implies !(from
                        <= #[trigger] positions[l] < end) by {
                        if l < fewer.len() {
                            assert(fewer[l] == positions[l]);
                        }
                    }
                },
                None => {
                    assert forall|k: int| 0 <= k < positions.len() implies !(from
                        <= #[trigger] positions[k] < end) by {
                        if k < fewer.len() {
                            assert(fewer[k] == positions[k]);
                        }
                    }
                },
            }
        }
    }
}

/// The focus is on a selected row, where there is one. It goes to the last selected row among those
/// that have just changed; where none of those is selected, it stays where it was, or goes to the
/// last selected row.
pub proof fn lemma_focus_follows_the_change(
    positions: Seq<int>,
    from: int,
    end: int,
    previous: Option<int>,
)
    ensures
        ({
            let focus = focus_choice(positions, from, end, previous);
            let changed = exists|k: int|
                0 <= k < positions.len() && from <= #[trigger] positions[k] < end;
            &&& positions.len() == 0 ==> focus is None
            &&& positions.len() > 0 ==> focus is Some && positions.contains(focus->0)
            &&& changed ==> from <= focus->0 < end && exists|k: int|
                0 <= k < positions.len() && #[trigger] positions[k] == focus->0 && forall|l: int|
                    k < l < positions.len() ==> !(from <= #[trigger] positions[l] < end)
            &&& !changed && previous is Some && positions.contains(previous->0) ==> focus
                == previous
            &&& !changed && positions.len() > 0 && !(previous is Some && positions.contains(
                previous->0,
            )) ==> focus->0 == positions.last()
        }),
{
    lemma_last_within(positions, from, end);
    if positions.len() > 0 {
        assert(positions[positions.len() - 1] == positions.last());
    }
}

} // verus!
