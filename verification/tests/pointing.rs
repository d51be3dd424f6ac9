//! What pointing at rows selects.
use strata::pointing::{
    focused_row, marquee_can_start, marquee_selection, menu_rows, press_row, RowSelection,
};

#[test]
fn the_last_row_that_changed_has_the_focus() {
    assert_eq!(focused_row(&vec![1, 3, 5], 2, 2, Some(1)), Some(3));
    assert_eq!(focused_row(&vec![1, 3, 5], 0, 6, Some(1)), Some(5));
}

#[test]
fn a_row_keeps_the_focus_while_it_is_selected() {
    assert_eq!(focused_row(&vec![1, 3, 5], 2, 1, Some(1)), Some(1));
    assert_eq!(focused_row(&vec![1, 3, 5], 2, 1, Some(2)), Some(5));
    assert_eq!(focused_row(&vec![1, 3, 5], 2, 1, None), Some(5));
    assert_eq!(focused_row(&vec![], 0, 9, Some(1)), None);
    assert_eq!(focused_row(&vec![4], usize::MAX, usize::MAX, None), Some(4));
}

#[test]
fn pressing_selects_one_row() {
    assert_eq!(press_row(Some(7), 3, false, false, true), RowSelection::Only { row: 3 });
}

#[test]
fn control_toggles_a_row() {
    assert_eq!(press_row(None, 3, true, false, true), RowSelection::Remove { row: 3 });
    assert_eq!(press_row(None, 3, true, false, false), RowSelection::Include { row: 3 });
}

#[test]
fn shift_selects_from_the_anchor_in_either_direction() {
    assert_eq!(press_row(Some(2), 5, false, true, false), RowSelection::Range { start: 2, count: 4 });
    assert_eq!(press_row(Some(5), 2, true, true, false), RowSelection::Range { start: 2, count: 4 });
    assert_eq!(press_row(None, 5, false, true, false), RowSelection::Range { start: 5, count: 1 });
}

fn sorted(mut rows: Vec<usize>) -> Vec<usize> {
    rows.sort();
    rows.dedup();
    rows
}

#[test]
fn a_frame_selects_what_it_touches() {
    let initial = vec![1, 2];
    assert_eq!(sorted(marquee_selection(&initial, &vec![2, 3], false, false)), vec![2, 3]);
    assert_eq!(sorted(marquee_selection(&initial, &vec![2, 3], false, true)), vec![1, 2, 3]);
    assert_eq!(sorted(marquee_selection(&initial, &vec![2, 3], true, false)), vec![1, 3]);
    assert_eq!(sorted(marquee_selection(&initial, &vec![2, 3], true, true)), vec![1, 3]);
}

#[test]
fn a_frame_that_touches_nothing() {
    let initial = vec![1, 2];
    assert_eq!(marquee_selection(&initial, &vec![], false, false), Vec::<usize>::new());
    assert_eq!(sorted(marquee_selection(&initial, &vec![], true, false)), vec![1, 2]);
}

#[test]
fn frames_start_beside_rows_or_by_force() {
    assert!(marquee_can_start(false, false));
    assert!(!marquee_can_start(true, false));
    assert!(marquee_can_start(true, true));
}

#[test]
fn a_menu_is_for_the_selection_around_its_row() {
    assert_eq!(menu_rows(2, &vec![1, 2, 5]), vec![1, 2, 5]);
    assert_eq!(menu_rows(3, &vec![1, 2, 5]), vec![3]);
    assert_eq!(menu_rows(0, &vec![]), vec![0]);
}
