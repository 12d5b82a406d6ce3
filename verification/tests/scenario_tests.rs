use tuipaz_textarea::util::{num_digits, spaces};
use tuipaz_textarea::{Edit, EditKind, History, Link, LinkStore, Pos, TextArea};

fn line(s: &str) -> Vec<char> {
    s.chars().collect()
}

fn lines(ss: &[&str]) -> Vec<Vec<char>> {
    ss.iter().map(|s| line(s)).collect()
}

fn ta(ss: &[&str]) -> TextArea {
    TextArea::new(lines(ss), LinkStore::new(), 140)
}

fn link(id: usize, row: usize, start_col: usize, end_col: usize) -> Link {
    Link { id, row, start_col, end_col, edited: false, deleted: false }
}

fn strings(ss: &[&str]) -> Vec<String> {
    ss.iter().map(|s| s.to_string()).collect()
}

#[test]
fn chunk_insert_then_delete_restores_buffer() {
    let mut textarea = ta(&["ab", "cd", "ef"]);
    textarea.cursor = (1, 1);
    assert!(textarea.insert_str("x\ny", None));
    assert_eq!(textarea.lines(), strings(&["ab", "cx", "yd", "ef"]));
    assert_eq!(textarea.cursor(), (2, 1));
    assert!(textarea.undo());
    assert_eq!(textarea.lines(), strings(&["ab", "cd", "ef"]));
}

#[test]
fn link_shift_round_trip_on_one_row() {
    let mut textarea = ta(&["Hello [world]!"]);
    textarea.links.insert(link(0, 0, 6, 11));
    textarea.move_cursor(0, 5);
    textarea.insert_char(' ');
    assert_eq!(textarea.lines(), strings(&["Hello  [world]!"]));
    let l = textarea.links.get(0).unwrap();
    assert_eq!((l.row, l.start_col, l.end_col), (0, 7, 12));
    textarea.delete_char();
    assert_eq!(textarea.lines(), strings(&["Hello [world]!"]));
    let l = textarea.links.get(0).unwrap();
    assert_eq!((l.row, l.start_col, l.end_col), (0, 6, 11));
}

#[test]
fn deleting_selection_with_link_then_undo_resurrects_it() {
    let mut textarea = ta(&["Before [link] after"]);
    textarea.links.insert(link(0, 0, 7, 12));

    textarea.move_cursor(0, 6);
    textarea.start_selection();
    textarea.move_cursor(0, 13);
    assert!(textarea.delete_selection(false));
    assert_eq!(textarea.links.get(0), None);
    assert_eq!(textarea.lines(), strings(&["Before after"]));

    assert!(textarea.undo());
    assert_eq!(textarea.lines(), strings(&["Before [link] after"]));
    let l = textarea.links.get(0).unwrap();
    assert_eq!((l.row, l.start_col, l.end_col, l.deleted), (0, 7, 12, false));
}

#[test]
fn undo_and_redo_replay_insertions_exactly() {
    let mut textarea = ta(&[""]);
    textarea.insert_char('a');
    textarea.insert_char('b');
    assert_eq!(textarea.lines(), strings(&["ab"]));
    assert!(textarea.undo());
    assert_eq!(textarea.lines(), strings(&["a"]));
    assert!(textarea.redo());
    assert_eq!(textarea.lines(), strings(&["ab"]));
    assert!(textarea.undo());
    assert!(textarea.undo());
    assert_eq!(textarea.lines(), strings(&[""]));
    assert!(!textarea.undo());
}

#[test]
fn undo_on_fresh_session_reports_no_change() {
    let mut textarea = ta(&["abc"]);
    assert!(!textarea.undo());
    assert_eq!(textarea.lines(), strings(&["abc"]));
    assert_eq!(textarea.cursor(), (0, 0));
    assert!(!textarea.redo());
    assert_eq!(textarea.lines(), strings(&["abc"]));
}

#[test]
fn push_after_undo_kills_redo_tail() {
    let mut textarea = ta(&[""]);
    textarea.insert_char('a');
    textarea.insert_char('b');
    assert!(textarea.undo());
    textarea.insert_char('c');
    assert_eq!(textarea.lines(), strings(&["ac"]));
    assert!(!textarea.redo());
    assert_eq!(textarea.lines(), strings(&["ac"]));
}

#[test]
fn capacity_bounds_undo_depth() {
    let mut textarea = ta(&[""]);
    textarea.set_max_histories(2);
    textarea.insert_char('a');
    textarea.insert_char('b');
    textarea.insert_char('c');
    assert!(textarea.undo());
    assert!(textarea.undo());
    assert!(!textarea.undo());
    assert_eq!(textarea.lines(), strings(&["a"]));
}

#[test]
fn insert_str_single_line_and_multi_line() {
    let mut textarea = ta(&[""]);
    assert!(textarea.insert_str("hello", None));
    assert_eq!(textarea.lines(), strings(&["hello"]));
    assert!(textarea.insert_str(", world\ngoodbye, world", None));
    assert_eq!(textarea.lines(), strings(&["hello, world", "goodbye, world"]));
}

#[test]
fn insert_newline_splits_and_delete_newline_joins() {
    let mut textarea = ta(&["hi"]);
    textarea.move_cursor(0, 1);
    textarea.insert_newline();
    assert_eq!(textarea.lines(), strings(&["h", "i"]));
    assert_eq!(textarea.cursor(), (1, 0));
    assert!(textarea.delete_newline());
    assert_eq!(textarea.lines(), strings(&["hi"]));
}

#[test]
fn delete_str_spans_rows_counting_newlines() {
    let mut textarea = ta(&["🐱", "🐶", "🐰", "🐮"]);
    textarea.move_cursor(1, 0);
    assert!(textarea.delete_str(4));
    assert_eq!(textarea.lines(), strings(&["🐱", "🐮"]));
    assert_eq!(textarea.yank_text(), "🐶\n🐰\n");
}

#[test]
fn delete_str_within_one_row() {
    let mut textarea = ta(&["🐱🐶🐰🐮"]);
    textarea.move_cursor(0, 1);
    assert!(textarea.delete_str(2));
    assert_eq!(textarea.lines(), strings(&["🐱🐮"]));
    assert_eq!(textarea.yank_text(), "🐶🐰");
}

#[test]
fn cut_and_paste_moves_a_link() {
    let mut textarea = ta(&["Before [link] after"]);
    textarea.links.insert(link(0, 0, 7, 12));
    textarea.move_cursor(0, 6);
    textarea.start_selection();
    textarea.move_cursor(0, 13);
    assert!(textarea.cut());
    assert_eq!(textarea.lines(), strings(&["Before after"]));
    assert_eq!(textarea.yank_text(), " [link]");
    assert_eq!(textarea.links.get(0), None);

    textarea.move_cursor_to_end();
    assert!(textarea.paste());
    assert_eq!(textarea.lines(), strings(&["Before after [link]"]));
    let l = textarea.links.get(0).unwrap();
    assert_eq!((l.row, l.start_col, l.end_col, l.deleted), (0, 13, 18, false));
}

#[test]
fn copy_then_paste_duplicates_a_link_under_a_fresh_id() {
    let mut store = LinkStore::new();
    store.insert(link(0, 0, 0, 3));
    let mut textarea = TextArea::new(lines(&["[ab] tail"]), store, 140);
    textarea.move_cursor(0, 0);
    textarea.start_selection();
    textarea.move_cursor(0, 4);
    textarea.copy();
    assert_eq!(textarea.yank_text(), "[ab]");
    // The original stays live where it was.
    assert_eq!(textarea.links.get(0), Some(link(0, 0, 0, 3)));

    textarea.move_cursor_to_end();
    assert!(textarea.paste());
    assert_eq!(textarea.lines(), strings(&["[ab] tail[ab]"]));
    let copy = textarea.links.get(1).unwrap();
    assert_eq!((copy.row, copy.start_col, copy.end_col), (0, 9, 12));
    assert_eq!(textarea.copied_link_ids, vec![(1, 0)]);
}

#[test]
fn set_yank_text_then_paste() {
    let mut textarea = ta(&[""]);
    textarea.set_yank_text("hello\nworld");
    assert!(textarea.paste());
    assert_eq!(textarea.lines(), strings(&["hello", "world"]));
}

#[test]
fn bracket_typing_creates_a_link() {
    let mut textarea = ta(&[""]);
    textarea.insert_char('[');
    textarea.insert_char('a');
    textarea.insert_char(']');
    assert_eq!(textarea.lines(), strings(&["[a]"]));
    let l = textarea.links.get(0).unwrap();
    assert_eq!((l.row, l.start_col, l.end_col), (0, 0, 2));
    assert_eq!(textarea.next_link_id, 1);
}

#[test]
fn insert_tab_advances_to_next_stop() {
    let mut textarea = ta(&["hi"]);
    textarea.move_cursor_to_end();
    assert!(textarea.insert_tab());
    assert_eq!(textarea.lines(), strings(&["hi  "]));
    assert!(textarea.insert_tab());
    assert_eq!(textarea.lines(), strings(&["hi      "]));
}

#[test]
fn delete_word_and_delete_next_word() {
    let mut textarea = ta(&["aaa bbb ccc"]);
    textarea.move_cursor_to_end();
    assert!(textarea.delete_word());
    assert_eq!(textarea.lines(), strings(&["aaa bbb "]));
    assert!(textarea.delete_word());
    assert_eq!(textarea.lines(), strings(&["aaa "]));

    let mut textarea = ta(&["aaa bbb ccc"]);
    assert!(textarea.delete_next_word());
    assert_eq!(textarea.lines(), strings(&[" bbb ccc"]));
    assert!(textarea.delete_next_word());
    assert_eq!(textarea.lines(), strings(&[" ccc"]));
}

#[test]
fn select_all_then_cut_empties_the_buffer() {
    let mut textarea = ta(&["aaa", "bbb", "ccc"]);
    textarea.select_all();
    assert!(textarea.cut());
    assert_eq!(textarea.lines(), strings(&[""]));
    assert_eq!(textarea.yank_text(), "aaa\nbbb\nccc");
    assert!(textarea.is_empty());
}

#[test]
fn reflow_wraps_an_overhanging_row() {
    let mut textarea = TextArea::new(lines(&["aaaa bbbb"]), LinkStore::new(), 8);
    textarea.move_cursor_to_end();
    textarea.insert_char('c');
    let all = textarea.lines().join("|");
    // Nothing was lost and the row was split at the word boundary.
    assert_eq!(all.replace('|', ""), "aaaa bbbbc");
    assert!(textarea.lines().len() > 1);
    assert_eq!(textarea.lines()[0], "aaaa ");
}

#[test]
fn util_digit_counts_and_spaces() {
    assert_eq!(num_digits(0), 1);
    assert_eq!(num_digits(9), 1);
    assert_eq!(num_digits(10), 2);
    assert_eq!(num_digits(5432), 4);
    assert_eq!(spaces(3), "   ");
    assert_eq!(spaces(0), "");
}

#[test]
fn backspace_at_origin_changes_nothing() {
    let mut textarea = ta(&["[ab] tail"]);
    textarea.links.insert(link(0, 0, 0, 3));
    // The link covers the origin, yet a delete that removes nothing
    // must not touch it.
    assert!(!textarea.delete_char());
    assert_eq!(textarea.lines(), strings(&["[ab] tail"]));
    assert_eq!(textarea.links.get(0), Some(link(0, 0, 0, 3)));
    let l = textarea.links.get(0).unwrap();
    assert_eq!((l.start_col, l.end_col, l.deleted), (0, 3, false));
    assert!(textarea.deleted_link_ids.is_empty());
}

#[test]
fn refused_replay_raises_the_divergence_flag() {
    let mut buf = lines(&["ab"]);
    let mut links = LinkStore::new();
    let mut h = History::new(10);
    // Nothing to undo is an ordinary no-op, not a divergence.
    assert_eq!(h.undo(&mut buf, &mut links), None);
    assert!(!h.has_diverged());
    // A record whose position lies outside the buffer is a divergence.
    h.push(Edit::new(
        EditKind::InsertChar('x', None),
        Pos::new(5, 0, 0),
        Pos::new(5, 1, 1),
    ));
    assert_eq!(h.undo(&mut buf, &mut links), None);
    assert!(h.has_diverged());
    assert_eq!(buf, lines(&["ab"]));
}

#[test]
fn newline_shift_skips_a_just_repositioned_link() {
    let mut textarea = ta(&["one", "two"]);
    textarea.links.insert(Link {
        id: 0,
        row: 1,
        start_col: 0,
        end_col: 2,
        edited: true,
        deleted: false,
    });
    textarea.links.insert(link(1, 1, 1, 2));
    textarea.shift_links_newline((0, 0));
    // The flagged link stays put (the flag is spent by the pass that
    // follows a wrap); the unflagged one moves down.
    let l0 = textarea.links.get(0).unwrap();
    assert_eq!((l0.row, l0.start_col, l0.end_col), (1, 0, 2));
    let l1 = textarea.links.get(1).unwrap();
    assert_eq!((l1.row, l1.start_col, l1.end_col), (2, 1, 2));
}

#[test]
fn prevline_shift_freezes_soft_deleted_links() {
    let mut textarea = ta(&["one", "two"]);
    textarea.links.insert(Link {
        id: 0,
        row: 1,
        start_col: 0,
        end_col: 2,
        edited: false,
        deleted: true,
    });
    textarea.links.insert(link(1, 1, 1, 2));
    textarea.shift_links_prevline((1, 0), 3);
    // The soft-deleted record is frozen; the live one folds up.
    let l0 = textarea.links.get_any(0).unwrap();
    assert_eq!((l0.row, l0.start_col, l0.end_col, l0.deleted), (1, 0, 2, true));
    let l1 = textarea.links.get(1).unwrap();
    assert_eq!((l1.row, l1.start_col, l1.end_col), (0, 4, 5));
}
