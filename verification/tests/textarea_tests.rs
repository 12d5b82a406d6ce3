use tuipaz_textarea::{Link, LinkStore, TextArea};

fn line(s: &str) -> Vec<char> {
    s.chars().collect()
}

fn lines(ss: &[&str]) -> Vec<Vec<char>> {
    ss.iter().map(|s| line(s)).collect()
}

fn ta(ss: &[&str]) -> TextArea {
    TextArea::new(lines(ss), LinkStore::new(), 140)
}

fn link(id: usize, row: usize, start_col: usize, end_col: usize) -> Link {
    Link { id, row, start_col, end_col, edited: false, deleted: false }
}

#[test]
fn test_delete_piece_includes_link() {
    let mut textarea = ta(&["Hello [world]!"]);
    textarea.links.insert(link(0, 0, 6, 11));

    textarea.delete_piece(5, 10);

    assert_eq!(textarea.links.get(0), None);
}

#[test]
fn test_delete_entire_link() {
    let mut textarea = ta(&["[Link]"]);
    textarea.links.insert(link(0, 0, 0, 5));

    textarea.delete_piece(0, 5);

    assert_eq!(textarea.links.get(0), None);
}

#[test]
fn test_delete_part_of_link() {
    let mut textarea = ta(&["[Example Link]"]);
    textarea.links.insert(link(0, 0, 0, 21));

    textarea.delete_piece(7, 9);

    assert_eq!(textarea.links.get(0), None);
}

#[test]
fn test_links_shift_on_insert_char() {
    let mut textarea = ta(&["Hello [world]!"]);
    textarea.links.insert(link(0, 0, 6, 11));
    textarea.move_cursor(0, 5);
    textarea.insert_char(' ');

    assert_eq!(textarea.links.get(0).unwrap().start_col, 7);
    assert_eq!(textarea.links.get(0).unwrap().end_col, 12);
}

#[test]
fn test_links_shift_on_delete_char() {
    let mut textarea = ta(&["Hello [world]!"]);
    textarea.links.insert(link(0, 0, 6, 11));
    textarea.move_cursor(0, 5);
    textarea.delete_char();

    assert_eq!(textarea.links.get(0).unwrap().start_col, 5);
    assert_eq!(textarea.links.get(0).unwrap().end_col, 10);
}

#[test]
fn test_deletion_on_different_rows_does_not_affect_links() {
    let mut textarea = ta(&["Line without link.", "[Link]"]);
    textarea.links.insert(link(0, 1, 0, 5));

    textarea.delete_piece(0, 5);

    assert_eq!(textarea.links.get(0), Some(link(0, 1, 0, 5)));
}

#[test]
fn test_deletion_range_does_not_delete_links_but_shifts_it() {
    let mut textarea = ta(&["Before [link] and after."]);
    textarea.links.insert(link(0, 0, 7, 12));

    textarea.delete_piece(0, 6);
    textarea.delete_piece(23, 13);

    assert_eq!(textarea.links.get(0), Some(link(0, 0, 0, 6)));
}

#[test]
fn test_inserting_newline_above_and_below_link() {
    let mut textarea = ta(&["[Link]", "Some text below."]);
    textarea.links.insert(link(0, 0, 0, 5));
    textarea.move_cursor(1, 0);
    textarea.insert_newline();

    assert_eq!(textarea.links.get(0), Some(link(0, 0, 0, 5)));

    textarea.move_cursor(0, 0);
    textarea.insert_newline();

    assert_eq!(textarea.links.get(0), Some(link(0, 1, 0, 5)));
}

#[test]
fn test_deleting_line_by_head_above_and_below_link() {
    let mut textarea = ta(&["Some text above", "[Link]", "Some text below."]);
    textarea.links.insert(link(0, 1, 0, 5));
    textarea.move_cursor(2, 0);
    textarea.delete_line_by_head();

    assert_eq!(textarea.links.get(0), Some(link(0, 1, 0, 5)));

    textarea.move_cursor(0, 0);
    textarea.delete_line_by_head();

    assert_eq!(textarea.links.get(0), Some(link(0, 0, 0, 5)));
}

#[test]
fn test_deleting_line_by_end_above_and_below_link() {
    let mut textarea = ta(&["Some text above", "[Link]", "Some text below."]);
    textarea.links.insert(link(0, 1, 0, 5));
    textarea.move_cursor(2, 0);
    textarea.move_cursor_to_end();
    textarea.delete_line_by_end();

    assert_eq!(textarea.links.get(0), Some(link(0, 1, 0, 5)));

    textarea.move_cursor(0, 0);
    textarea.move_cursor_to_end();
    textarea.delete_line_by_end();

    assert_eq!(textarea.links.get(0), Some(link(0, 0, 0, 5)));
}

#[test]
fn test_link_full_row_selection_deletion() {
    let mut textarea = ta(&["Before [link] after"]);
    textarea.links.insert(link(0, 0, 7, 12));

    textarea.selection_start = Some((0, 0));
    textarea.move_cursor_to_end();
    textarea.delete_selection(false);

    assert_eq!(textarea.links.get(0), None);
}

#[test]
fn test_link_full_link_selection_deletion() {
    let mut textarea = ta(&["Before [link] after"]);
    textarea.links.insert(link(0, 0, 7, 12));

    textarea.selection_start = Some((0, 7));
    textarea.move_cursor(0, 12);
    textarea.delete_selection(false);

    assert_eq!(textarea.links.get(0), None);
}

#[test]
fn test_link_partial_link_selection_deletion() {
    let mut textarea = ta(&["Before [link] after"]);
    textarea.links.insert(link(0, 0, 7, 12));

    textarea.selection_start = Some((0, 6));
    textarea.move_cursor(0, 8);
    textarea.delete_selection(false);

    assert_eq!(textarea.links.get(0), None);
}

#[test]
fn test_link_shift_after_selection_deletion_same_row() {
    let mut textarea = ta(&["Before [link] after"]);
    textarea.links.insert(link(0, 0, 7, 12));

    textarea.selection_start = Some((0, 0));
    textarea.move_cursor(0, 5);
    textarea.delete_selection(false);

    assert_eq!(textarea.links.get(0), Some(link(0, 0, 2, 7)));
}

#[test]
fn test_link_shift_after_selection_deletion_multiple_rows_above() {
    let mut textarea = ta(&["Text above 1", "Text above 2", "Before [link] after"]);
    textarea.links.insert(link(0, 2, 7, 12));

    textarea.selection_start = Some((0, 0));
    textarea.move_cursor(1, 11);
    textarea.delete_selection(false);

    assert_eq!(textarea.links.get(0), Some(link(0, 0, 7, 12)));
}

#[test]
fn test_link_shift_after_selection_deletion_above_up_to_link_row_and_start_col() {
    let mut textarea = ta(&["Text above 1", "Text above 2", "Before [link] after"]);
    textarea.links.insert(link(0, 2, 7, 12));

    textarea.selection_start = Some((0, 0));
    textarea.move_cursor(2, 6);
    textarea.delete_selection(false);

    assert_eq!(textarea.links.get(0), Some(link(0, 0, 0, 5)));
}

#[test]
fn test_link_shift_after_selection_deletion_below_from_link_row_and_end_col() {
    let mut textarea = ta(&["Before [link] after", "Text below 1", "Text below 2"]);
    textarea.links.insert(link(0, 0, 7, 12));

    textarea.selection_start = Some((0, 13));
    textarea.move_cursor(2, 11);
    textarea.delete_selection(false);

    assert_eq!(textarea.links.get(0), Some(link(0, 0, 7, 12)));
}

#[test]
fn test_delete_newline_no_links() {
    let mut textarea = ta(&["Line 1", "Line 2"]);
    textarea.cursor = (1, 0);

    assert!(textarea.delete_newline());
    assert_eq!(textarea.lines(), vec!["Line 1Line 2".to_string()]);
}

#[test]
fn test_delete_newline_with_links_next_line() {
    let mut textarea = ta(&["Line 1", "[Link]"]);
    textarea.links.insert(link(0, 1, 0, 5));
    textarea.cursor = (1, 0);

    assert!(textarea.delete_newline());
    assert_eq!(textarea.links.get(0).unwrap(), link(0, 0, 5, 10));
    assert_eq!(textarea.lines(), vec!["Line 1[Link]".to_string()]);
}

#[test]
fn test_delete_newline_with_links_both_lines() {
    let mut textarea = ta(&["[Link1]", "[Link2]"]);
    textarea.links.insert(link(0, 0, 0, 6));
    textarea.links.insert(link(1, 1, 0, 6));
    textarea.cursor = (1, 0);

    assert!(textarea.delete_newline());
    assert_eq!(textarea.links.get(0).unwrap(), link(0, 0, 0, 6));
    assert_eq!(textarea.links.get(1).unwrap(), link(1, 0, 7, 13));
    assert_eq!(textarea.lines(), vec!["[Link1][Link2]".to_string()]);
}
