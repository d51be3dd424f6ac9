# Strata

Strata is a keyboard-first file manager for Linux with Miller columns and folder peeking. What it
decides is a Verus library under `src/`: every function there is proved to meet its contract. What
it draws, and how it reaches the file system, is a GTK program under `app/`, which asks the library
what to do and does it.

## What is proved

- **The browser** (`src/browser.rs`) holds the columns, their listings and the history. `state.rs`
  says what each command and each reply makes of them: the events that observers are told and the
  requests that services are asked. Replies to requests that are no longer current change nothing.
- **The view** (`src/view.rs` and `src/view/`) turns the events of the browser and the gestures of
  the user into actions on the screen. `screen.rs` and `gestures.rs` say which. `view_laws.rs` shows
  that a screen that performs them mirrors the browser, and `view_laws/` what holds of its counts and
  of its sort menu.
- **File operations** (`src/operations.rs`, `copy_walk.rs`, `delete_walk.rs`) are tasks that ask for
  one step on one file at a time. `operation_laws.rs` and `walk_laws.rs` show where such a task may
  reach, that it goes through all it was asked for, and that it ends with one event.
- **Values**: locations and names (`model.rs`, `names.rs`, `entry.rs`), the order of entries
  (`order.rs`, `sorting.rs`), rows and their filter (`rows.rs`), selections (`pointing.rs`), the trail
  of a location (`location_bar.rs`), labels (`labels.rs`), dialogs (`dialogs.rs`), what is shown of a
  load (`presentation.rs`) and the menu by which a column is sorted (`sort_menu.rs`).

`src/text.rs` holds all that is believed without proof: what three functions of the standard library
return.

## Layout

- `src/`: the library.
- `tests/`: its tests.
- `app/`: the program. It needs GTK 4.12 or newer.
