//! Labels, rows and short paths.
use strata::dialogs::{
    clipboard_failure, copied_paths, delete_confirmation, empty_trash_confirmation, entry_size,
    folder_properties, occupied_width, properties_of_entry, queried_size, size_label, uri_list,
    SizeLabel,
};
use strata::entry::{entry_kind, EntryKind, FileEntry, MetadataValue};
use strata::labels::{
    entry_kind_summary, filter_placeholder, format_file_size, format_permissions, item_count_label,
    or_dash, permission_row, rename_stem_end, selected_items_summary, size_unit, SizeUnit,
};
use strata::location_bar::{compact_display_path, location_crumbs};
use strata::model::Location;
use strata::names::{
    parse_location, validate_rename, LocationValidationError, RenameError,
};
use strata::order::SortKey;
use strata::presentation::{Generation, LoadPresentation, Page, PeekBehavior};
use strata::rows::{
    append_entries, entry_icon, entry_model_value, filter_query, filtered_position_for_source,
    icon_for_name, model_display_name, model_is_directory, name_answers_query, plain_row,
    row_is_shown, source_position_for_filtered, visible_rows, Icon,
};
use strata::sort_menu::{sort_direction_tip, sort_field_label, sort_fields};

fn local(path: &str) -> Location {
    Location::local(path.as_bytes().to_vec())
}

fn entry(path: &str, kind: EntryKind, size: MetadataValue<u64>) -> FileEntry {
    let name = path.rsplit('/').next().unwrap_or(path);
    FileEntry {
        location: local(path),
        native_name: name.as_bytes().to_vec(),
        display_name: name.to_string(),
        kind,
        size,
        modified_unix_seconds: MetadataValue::Unknown,
    }
}

fn file(path: &str) -> FileEntry {
    entry(path, EntryKind::File, MetadataValue::Known(12))
}

fn folder(path: &str) -> FileEntry {
    entry(path, EntryKind::Directory, MetadataValue::Unknown)
}

fn rounded(bytes: u64) -> String {
    let one = match size_unit(bytes) {
        SizeUnit::Bytes => 1.0,
        SizeUnit::Kilobytes => 1e3,
        SizeUnit::Megabytes => 1e6,
        SizeUnit::Gigabytes => 1e9,
        SizeUnit::Terabytes => 1e12,
    };
    format!("{:.1}", bytes as f64 / one)
}

fn size(bytes: u64) -> String {
    format_file_size(bytes, &rounded(bytes))
}

#[test]
fn sizes_are_shown_in_the_largest_unit_that_fits() {
    assert_eq!(size(0), "0 B");
    assert_eq!(size(999), "999 B");
    assert_eq!(size(1_000), "1 kB");
    assert_eq!(size(1_500), "1.5 kB");
    assert_eq!(size(999_949), "999.9 kB");
    assert_eq!(size(1_000_000), "1 MB");
    assert_eq!(size(2_400_000_000), "2.4 GB");
    assert_eq!(size(1_000_000_000_000), "1 TB");
    assert_eq!(size(12_345_000_000_000_000), "12345 TB");
}

#[test]
fn the_unit_of_a_size_is_the_one_that_repeated_division_finds() {
    for bytes in [
        1u64, 999, 1_000, 1_001, 999_999, 1_000_000, 1_000_001, 999_999_999, 1_000_000_000,
        999_999_999_999, 1_000_000_000_000, 1_000_000_000_001, u64::MAX,
    ] {
        let mut value = bytes as f64;
        let mut unit = 0;
        while value >= 1_000.0 && unit < 4 {
            value /= 1_000.0;
            unit += 1;
        }
        let units = [
            SizeUnit::Bytes,
            SizeUnit::Kilobytes,
            SizeUnit::Megabytes,
            SizeUnit::Gigabytes,
            SizeUnit::Terabytes,
        ];
        assert_eq!(size_unit(bytes), units[unit]);
    }
}

#[test]
fn all_empty_decimal_places_are_trimmed() {
    assert_eq!(format_file_size(5_000, "5.0"), "5 kB");
    assert_eq!(format_file_size(5_000, "5.0.0"), "5 kB");
    assert_eq!(format_file_size(5_000, "10"), "10 kB");
    assert_eq!(format_file_size(5_000, ""), " kB");
}

#[test]
fn counts_in_words() {
    assert_eq!(item_count_label(0), "0 items");
    assert_eq!(item_count_label(1), "1 item");
    assert_eq!(item_count_label(1_024), "1024 items");
    assert_eq!(filter_placeholder(0), "Filter 0 items…");
    assert_eq!(filter_placeholder(1), "Filter 1 item…");
    assert_eq!(filter_placeholder(12), "Filter 12 items…");
}

#[test]
fn kinds_are_named_where_all_entries_are_of_one_kind() {
    assert_eq!(entry_kind_summary(&vec![]), "0 files");
    assert_eq!(entry_kind_summary(&vec![file("/a")]), "1 file");
    assert_eq!(entry_kind_summary(&vec![file("/a"), file("/b")]), "2 files");
    assert_eq!(entry_kind_summary(&vec![folder("/a")]), "1 folder");
    assert_eq!(entry_kind_summary(&vec![folder("/a"), folder("/b")]), "2 folders");
    assert_eq!(entry_kind_summary(&vec![folder("/a"), file("/b")]), "2 items");
}

#[test]
fn summaries_name_the_first_three_entries() {
    assert_eq!(selected_items_summary(&vec![]), "");
    assert_eq!(selected_items_summary(&vec![file("/a"), file("/b")]), "a, b");
    let three = vec![file("/a"), file("/b"), file("/c")];
    assert_eq!(selected_items_summary(&three), "a, b, c");
    let four = vec![file("/a"), file("/b"), file("/c"), file("/d")];
    assert_eq!(selected_items_summary(&four), "a, b, c, …");
}

#[test]
fn renaming_selects_the_name_without_its_ending() {
    assert_eq!(rename_stem_end("archive.tar.gz"), 11);
    assert_eq!(rename_stem_end("README"), 6);
    assert_eq!(rename_stem_end(".bashrc"), 7);
    assert_eq!(rename_stem_end("été.txt"), 3);
    assert_eq!(rename_stem_end(""), 0);
    assert_eq!(rename_stem_end("name."), 4);
}

#[test]
fn permissions_in_letters_and_digits() {
    assert_eq!(format_permissions(0o040755), "drwxr-xr-x  755");
    assert_eq!(format_permissions(0o100644), "-rw-r--r--  644");
    assert_eq!(format_permissions(0o100000), "----------  000");
    assert_eq!(format_permissions(0o120777), "-rwxrwxrwx  777");
    assert_eq!(permission_row(0o754, 6), (true, true, true));
    assert_eq!(permission_row(0o754, 3), (true, false, true));
    assert_eq!(permission_row(0o754, 0), (true, false, false));
}

#[test]
fn unknown_texts_are_dashes() {
    assert_eq!(or_dash(None), "—");
    assert_eq!(or_dash(Some("here".to_string())), "here");
}

#[test]
fn rows_hold_the_kind_and_the_name() {
    assert_eq!(entry_model_value(&file("/a/x.txt")), "f\tx.txt");
    assert_eq!(entry_model_value(&folder("/a/x")), "d\tx");
    let link = entry("/a/l", EntryKind::FileLink, MetadataValue::Unknown);
    assert_eq!(entry_model_value(&link), "s\tl");
    let folder_link = entry("/a/l", EntryKind::DirectoryLink, MetadataValue::Unknown);
    assert_eq!(entry_model_value(&folder_link), "d\tl");
    let broken = entry("/a/l", EntryKind::BrokenLink, MetadataValue::Unknown);
    assert_eq!(entry_model_value(&broken), "x\tl");
}

#[test]
fn rows_give_the_name_back_even_with_tabs() {
    for name in ["plain", "", "with\ttab", "\t", "d\tlooks like a row"] {
        for kind in [EntryKind::File, EntryKind::Directory, EntryKind::BrokenLink] {
            let mut held = entry("/a", kind, MetadataValue::Unknown);
            held.display_name = name.to_string();
            let row = entry_model_value(&held);
            assert_eq!(model_display_name(&row), name);
            assert_eq!(model_is_directory(&row), held.is_directory());
        }
    }
    assert_eq!(model_display_name("no tab"), "no tab");
    assert!(!model_is_directory("d"));
}

#[test]
fn icons_follow_the_ending_of_a_name() {
    assert_eq!(icon_for_name("install.SH"), Icon::Terminal);
    assert_eq!(icon_for_name("photo.jpeg"), Icon::Pictures);
    assert_eq!(icon_for_name("film.mkv"), Icon::Videos);
    assert_eq!(icon_for_name("backup.tar.zst"), Icon::Archive);
    assert_eq!(icon_for_name("main.rs"), Icon::Code);
    assert_eq!(icon_for_name("style.scss"), Icon::Code);
    assert_eq!(icon_for_name("notes.txt"), Icon::Documents);
    assert_eq!(icon_for_name("png"), Icon::Documents);
    assert_eq!(icon_for_name(".png"), Icon::Pictures);
    assert_eq!(icon_for_name("7z.7z"), Icon::Archive);
    assert_eq!(entry_icon(&folder("/photos.png")), Icon::Folder);
    assert_eq!(entry_icon(&entry("/a.png", EntryKind::BrokenLink, MetadataValue::Unknown)), Icon::Missing);
    assert_eq!(entry_icon(&file("/a.png")), Icon::Pictures);
}

#[test]
fn plain_rows_are_drawn_from_the_row_alone() {
    let drawn = plain_row("d\tmusic.mp4");
    assert_eq!((drawn.name.as_str(), drawn.icon, drawn.directory), ("music.mp4", Icon::Folder, true));
    let drawn = plain_row("f\tmusic.mp4");
    assert_eq!((drawn.name.as_str(), drawn.icon, drawn.directory), ("music.mp4", Icon::Videos, false));
}

fn rows(names: &[&str]) -> Vec<String> {
    names.iter().map(|name| format!("f\t{name}")).collect()
}

#[test]
fn filters_ignore_case() {
    assert!(row_is_shown("f\tReadMe.md", &filter_query("READ")));
    assert!(row_is_shown("f\tÉTÉ.txt", &filter_query("été")));
    assert!(!row_is_shown("f\tnotes", &filter_query("read")));
    assert!(row_is_shown("f\tanything", &filter_query("")));
    assert_eq!(filter_query("MiXeD É"), "mixed é");
}

#[test]
fn filters_look_at_names_only() {
    assert!(!row_is_shown("f\tnotes", "f\t"));
    assert!(name_answers_query("notes.txt", "tes"));
    assert!(!name_answers_query("notes.txt", "tests"));
}

#[test]
fn positions_lead_from_the_filtered_list_and_back() {
    let all = rows(&["Alpha", "beta", "gamma", "ALPHABET"]);
    let query = filter_query("alpha");
    assert_eq!(visible_rows(&all, &query), vec![0, 3]);
    assert_eq!(source_position_for_filtered(&all, &query, 1), Some(3));
    assert_eq!(source_position_for_filtered(&all, &query, 2), None);
    assert_eq!(filtered_position_for_source(&all, &query, 3), Some(1));
    assert_eq!(filtered_position_for_source(&all, &query, 1), None);
    for shown in 0..2 {
        let row = source_position_for_filtered(&all, &query, shown).unwrap();
        assert_eq!(filtered_position_for_source(&all, &query, row), Some(shown));
    }
}

#[test]
fn an_empty_query_shows_every_row() {
    let all = rows(&["a", "b", "c"]);
    assert_eq!(visible_rows(&all, ""), vec![0, 1, 2]);
    assert_eq!(filtered_position_for_source(&all, "", 2), Some(2));
}

#[test]
fn equal_names_are_told_apart_by_position() {
    let all = rows(&["same", "other", "same"]);
    assert_eq!(filtered_position_for_source(&all, "same", 2), Some(1));
    assert_eq!(source_position_for_filtered(&all, "same", 1), Some(2));
}

fn trail(path: &str, home: &str) -> Vec<(String, bool, bool, bool)> {
    location_crumbs(&local(path), &local(home))
        .into_iter()
        .map(|crumb| (crumb.label, crumb.separated, crumb.current, crumb.root))
        .collect()
}

#[test]
fn trails_start_at_the_root() {
    assert_eq!(
        trail("/srv/data", "/home/ada"),
        vec![
            ("/".to_string(), false, false, true),
            ("srv".to_string(), false, false, false),
            ("data".to_string(), true, true, false),
        ],
    );
    assert_eq!(trail("/", "/home/ada"), vec![("/".to_string(), false, true, false)]);
}

#[test]
fn trails_start_at_home_where_it_is_on_the_way() {
    assert_eq!(
        trail("/home/ada/music/new", "/home/ada/"),
        vec![
            ("~".to_string(), false, false, false),
            ("music".to_string(), true, false, false),
            ("new".to_string(), true, true, false),
        ],
    );
    assert_eq!(trail("/home/ada", "/home/ada"), vec![("~".to_string(), false, true, false)]);
}

#[test]
fn trails_of_virtual_places_are_one_crumb() {
    let crumbs = location_crumbs(&Location::uri("trash:///".to_string()), &local("/home/ada"));
    assert_eq!(crumbs.len(), 1);
    assert_eq!(crumbs[0].label, "trash:///");
    assert!(crumbs[0].current && !crumbs[0].separated);
}

#[test]
fn short_paths_start_at_home() {
    let home = local("/home/ada");
    assert_eq!(compact_display_path(&local("/home/ada"), &home), "~");
    assert_eq!(compact_display_path(&local("/home/ada/"), &home), "~");
    assert_eq!(compact_display_path(&local("/home/ada/music"), &home), "~/music");
    assert_eq!(compact_display_path(&local("/home/ada//a/./b/"), &home), "~/a/./b");
    assert_eq!(compact_display_path(&local("/home/adam"), &home), "/home/adam");
    assert_eq!(compact_display_path(&local("/srv"), &home), "/srv");
    let trash = Location::uri("trash:///x".to_string());
    assert_eq!(compact_display_path(&trash, &home), "trash:///x");
}

#[test]
fn short_paths_behind_an_unknown_home() {
    let home = local("");
    assert_eq!(compact_display_path(&local("/srv/a/"), &home), "~//srv/a");
    assert_eq!(compact_display_path(&local("srv/a"), &home), "~/srv/a");
    assert_eq!(compact_display_path(&local("/"), &home), "~//");
}

#[test]
fn names_that_are_no_text_are_shown_with_signs() {
    let odd = Location::local(b"/srv/caf\xe9".to_vec());
    assert_eq!(odd.display_name(), "caf\u{fffd}");
    assert_eq!(odd.native_path(), Some(&b"/srv/caf\xe9".to_vec()));
    let home = local("/srv");
    assert_eq!(compact_display_path(&odd, &home), "~/caf\u{fffd}");
}

#[test]
fn each_bad_name_has_its_reason() {
    assert_eq!(validate_rename(""), Err(RenameError::Empty));
    assert_eq!(validate_rename("."), Err(RenameError::Reserved));
    assert_eq!(validate_rename(".."), Err(RenameError::Reserved));
    assert_eq!(validate_rename("a/b"), Err(RenameError::Nested));
    assert_eq!(validate_rename("..."), Ok(()));
    assert_eq!(RenameError::Empty.message(), "Enter a name");
}

#[test]
fn each_bad_location_has_its_reason() {
    assert_eq!(parse_location("").err(), Some(LocationValidationError::Empty));
    assert_eq!(parse_location("music").err(), Some(LocationValidationError::NotAbsolute));
    let parsed = parse_location("/srv/été").unwrap();
    assert!(parsed == local("/srv/été"));
    assert_eq!(
        LocationValidationError::Inaccessible.message(),
        "This location cannot be opened",
    );
}

#[test]
fn questions_before_deleting() {
    let question = delete_confirmation(vec![file("/srv/a.txt"), folder("/srv/b")], false);
    assert_eq!(question.question, "Move 2 items to trash?");
    assert_eq!(question.summary, "2 items");
    assert_eq!(question.confirm, "Move 2 items");
    assert_eq!(
        question.explanation,
        "The items will be moved to trash. You can restore them later.",
    );
    assert!(!question.scrolls);
    assert_eq!(question.rows[0].path, "/srv/a.txt");
    assert_eq!(question.rows[0].size, SizeLabel::Bytes(12));
    assert_eq!(question.rows[1].size, SizeLabel::Folder);

    let question = delete_confirmation((0..11).map(|_| file("/srv/a.txt")).collect(), true);
    assert_eq!(question.question, "Permanently delete 11 items?");
    assert_eq!(question.confirm, "Permanently delete 11 items");
    assert!(question.scrolls);
    assert_eq!(delete_confirmation(vec![file("/a")], true).question, "Permanently delete 1 item?");
}

#[test]
fn sizes_of_entries_in_words() {
    assert_eq!(size_label(entry_size(&folder("/a")), ""), "Folder");
    assert_eq!(size_label(entry_size(&file("/a")), "12.0"), "12 B");
    let unknown = entry("/a", EntryKind::File, MetadataValue::Unavailable);
    assert_eq!(size_label(entry_size(&unknown), ""), "—");
}

#[test]
fn properties_of_places_and_entries() {
    let home = local("/home/ada");
    let place = folder_properties(&local("/home/ada/.config"), &home);
    assert_eq!(place.name, ".config");
    assert_eq!(place.location, "~/.config");
    assert!(place.hidden && place.directory && !place.can_rename);
    let known = properties_of_entry(&file("/home/ada/a.rs"), &home);
    assert_eq!((known.size, known.modified, known.icon), (Some(12), None, Icon::Code));
    assert!(!known.hidden && !known.directory && known.can_rename);
    assert_eq!(queried_size(true, 5), None);
    assert_eq!(queried_size(false, -5), Some(0));
    assert_eq!(queried_size(false, 5), Some(5));
}

#[test]
fn texts_for_the_clipboard() {
    assert_eq!(copied_paths(&vec![file("/a"), file("/b")]), "/a\n/b");
    assert_eq!(copied_paths(&vec![]), "");
    assert_eq!(uri_list(&vec![]), None);
    let uris = vec!["file:///a".to_string(), "file:///b".to_string()];
    assert_eq!(uri_list(&uris), Some("file:///a\r\nfile:///b\r\n".to_string()));
    assert_eq!(clipboard_failure("no"), "The clipboard does not contain files: no");
}

#[test]
fn columns_take_at_least_their_width() {
    assert_eq!(occupied_width(&vec![]), 0);
    assert_eq!(occupied_width(&vec![0, 450, 299]), 1_050);
    assert_eq!(occupied_width(&vec![i32::MAX, 1]), i32::MAX);
}

#[test]
fn states_of_a_list_are_distinct() {
    let mut list = LoadPresentation::new(true);
    assert_eq!(list.page, Page::Loading);
    list.show_error("broken".to_string());
    assert!(list.page == Page::Feedback && list.error && list.retry_shown);
    assert_eq!(list.message, "broken");
    list.show_empty();
    assert!(list.page == Page::Feedback && !list.error && !list.retry_shown);
    assert_eq!(list.message, "This directory is empty");
    list.show_content();
    assert_eq!(list.page, Page::Content);
    list.show_loading();
    assert_eq!(list.page, Page::Loading);
    let mut peek = LoadPresentation::new(false);
    peek.show_error("broken".to_string());
    assert!(!peek.retry_shown);
}

#[test]
fn peeks_behave_as_documented() {
    let behavior = PeekBehavior::default();
    assert_eq!(
        (behavior.open_delay, behavior.close_delay, behavior.fade_duration, behavior.item_limit),
        (180, 80, 100, 8),
    );
    assert_eq!(behavior.transition_duration(), 100);
    let slow = PeekBehavior { fade_duration: u64::MAX, ..behavior };
    assert_eq!(slow.transition_duration(), u32::MAX);
}

#[test]
fn a_later_animation_takes_the_place_of_an_earlier_one() {
    let mut generation = Generation::new();
    let first = generation.advance();
    assert!(generation.is_current(first));
    let second = generation.advance();
    assert!(!generation.is_current(first));
    assert!(generation.is_current(second));
}

#[test]
fn links_are_told_by_what_they_lead_to() {
    assert_eq!(entry_kind(false, Some(true)), EntryKind::Directory);
    assert_eq!(entry_kind(false, Some(false)), EntryKind::File);
    assert_eq!(entry_kind(false, None), EntryKind::File);
    assert_eq!(entry_kind(true, Some(true)), EntryKind::DirectoryLink);
    assert_eq!(entry_kind(true, Some(false)), EntryKind::FileLink);
    assert_eq!(entry_kind(true, None), EntryKind::BrokenLink);
}

#[test]
fn the_question_before_the_trash_is_emptied() {
    let question = empty_trash_confirmation();
    assert_eq!(question.question, "Empty trash?");
    assert_eq!(question.summary, "Everything in the trash");
    assert_eq!(
        question.explanation,
        "All items in the trash will be permanently deleted. This action cannot be undone."
    );
    assert_eq!(question.confirm, "Empty Trash");
}

#[test]
fn the_sort_menu_offers_four_fields() {
    assert_eq!(
        sort_fields(),
        vec![SortKey::Name, SortKey::Size, SortKey::Modified, SortKey::Type]
    );
    let labels: Vec<String> = sort_fields().into_iter().map(sort_field_label).collect();
    assert_eq!(labels, vec!["Name", "Size", "Modified", "Type"]);
    assert_eq!(sort_direction_tip(false), "Ascending — click to reverse");
    assert_eq!(sort_direction_tip(true), "Descending — click to reverse");
}

#[test]
fn lists_are_filled_up_to_their_limit() {
    for (limit, most) in [(None, 5), (Some(0), 1), (Some(2), 2), (Some(4), 4), (Some(9), 5)] {
        let mut at_once = Vec::new();
        let added = append_entries(
            &mut at_once,
            vec![file("/a"), file("/b"), file("/c"), file("/d"), file("/e")],
            limit,
        );
        assert_eq!(added, at_once);
        assert_eq!(at_once.len(), most);
        assert_eq!(at_once[0], "f\ta");
        let mut in_parts = Vec::new();
        append_entries(&mut in_parts, vec![file("/a"), file("/b"), file("/c")], limit);
        append_entries(&mut in_parts, vec![file("/d"), file("/e")], limit);
        assert_eq!(in_parts, at_once);
    }
}
