use tuipaz_textarea::{Edit, EditKind, History, LinkStore, Pos};

fn line(s: &str) -> Vec<char> {
    s.chars().collect()
}

fn lines(ss: &[&str]) -> Vec<Vec<char>> {
    ss.iter().map(|s| line(s)).collect()
}

#[test]
fn insert_delete_chunk() {
    let tests = [
        (
            &["ab", "cd", "ef"][..],
            (0, 0),
            &["x", "y"][..],
            &["x", "yab", "cd", "ef"][..],
        ),
        (
            &["ab", "cd", "ef"][..],
            (0, 1),
            &["x", "y"][..],
            &["ax", "yb", "cd", "ef"][..],
        ),
        (
            &["ab", "cd", "ef"][..],
            (0, 2),
            &["x", "y"][..],
            &["abx", "y", "cd", "ef"][..],
        ),
        (
            &["ab", "cd", "ef"][..],
            (1, 0),
            &["x", "y"][..],
            &["ab", "x", "ycd", "ef"][..],
        ),
        (
            &["ab", "cd", "ef"][..],
            (1, 1),
            &["x", "y"][..],
            &["ab", "cx", "yd", "ef"][..],
        ),
        (
            &["ab", "cd", "ef"][..],
            (1, 2),
            &["x", "y"][..],
            &["ab", "cdx", "y", "ef"][..],
        ),
        (
            &["ab", "cd", "ef"][..],
            (2, 0),
            &["x", "y"][..],
            &["ab", "cd", "x", "yef"][..],
        ),
        (
            &["ab", "cd", "ef"][..],
            (2, 1),
            &["x", "y"][..],
            &["ab", "cd", "ex", "yf"][..],
        ),
        (
            &["ab", "cd", "ef"][..],
            (2, 2),
            &["x", "y"][..],
            &["ab", "cd", "efx", "y"][..],
        ),
        (
            &["ab", "cd", "ef"][..],
            (1, 1),
            &["x", "y", "z", "w"][..],
            &["ab", "cx", "y", "z", "wd", "ef"][..],
        ),
        (
            &["", "", ""][..],
            (0, 0),
            &["x", "y", "z"][..],
            &["x", "y", "z", "", ""][..],
        ),
        (
            &["", "", ""][..],
            (1, 0),
            &["x", "y", "z"][..],
            &["", "x", "y", "z", ""][..],
        ),
        (
            &["", "", ""][..],
            (2, 0),
            &["x", "y", "z"][..],
            &["", "", "x", "y", "z"][..],
        ),
        (
            &[""][..],
            (0, 0),
            &["x", "y", "z"][..],
            &["x", "y", "z"][..],
        ),
        (
            &["ab", "cd", "ef"][..],
            (0, 0),
            &["", "", ""][..],
            &["", "", "ab", "cd", "ef"][..],
        ),
        (
            &["ab", "cd", "ef"][..],
            (1, 0),
            &["", "", ""][..],
            &["ab", "", "", "cd", "ef"][..],
        ),
        (
            &["ab", "cd", "ef"][..],
            (1, 1),
            &["", "", ""][..],
            &["ab", "c", "", "d", "ef"][..],
        ),
        (
            &["ab", "cd", "ef"][..],
            (1, 2),
            &["", "", ""][..],
            &["ab", "cd", "", "", "ef"][..],
        ),
        (
            &["ab", "cd", "ef"][..],
            (2, 2),
            &["", "", ""][..],
            &["ab", "cd", "ef", "", ""][..],
        ),
        (
            &["🐶🐱", "🐮🐰", "🐧🐭"][..],
            (0, 0),
            &["🐷", "🐼", "🐴"][..],
            &["🐷", "🐼", "🐴🐶🐱", "🐮🐰", "🐧🐭"][..],
        ),
        (
            &["🐶🐱", "🐮🐰", "🐧🐭"][..],
            (0, 2),
            &["🐷", "🐼", "🐴"][..],
            &["🐶🐱🐷", "🐼", "🐴", "🐮🐰", "🐧🐭"][..],
        ),
        (
            &["🐶🐱", "🐮🐰", "🐧🐭"][..],
            (1, 0),
            &["🐷", "🐼", "🐴"][..],
            &["🐶🐱", "🐷", "🐼", "🐴🐮🐰", "🐧🐭"][..],
        ),
        (
            &["🐶🐱", "🐮🐰", "🐧🐭"][..],
            (1, 1),
            &["🐷", "🐼", "🐴"][..],
            &["🐶🐱", "🐮🐷", "🐼", "🐴🐰", "🐧🐭"][..],
        ),
        (
            &["🐶🐱", "🐮🐰", "🐧🐭"][..],
            (2, 2),
            &["🐷", "🐼", "🐴"][..],
            &["🐶🐱", "🐮🐰", "🐧🐭🐷", "🐼", "🐴"][..],
        ),
    ];

    for test in tests {
        let (before, pos, input, expected) = test;
        let (row, col) = pos;
        let before_pos = {
            let offset = col.min(before[row].chars().count());
            Pos::new(row, col, offset)
        };
        let mut buf = lines(before);
        let mut links = LinkStore::new();
        let chunk = lines(input);
        let after_pos = {
            let row = row + input.len() - 1;
            let last = input.last().unwrap();
            let col = last.chars().count();
            Pos::new(row, col, last.chars().count())
        };

        let edit = EditKind::InsertChunk(chunk.clone(), None);
        assert!(edit.apply(&mut buf, &mut links, &before_pos, &after_pos), "{test:?}");
        assert_eq!(buf, lines(expected), "{test:?}");

        let edit = EditKind::DeleteChunk(chunk, None);
        assert!(edit.apply(&mut buf, &mut links, &after_pos, &before_pos), "{test:?}");
        assert_eq!(buf, lines(before), "{test:?}");
    }
}

#[test]
fn history_undo_on_empty_is_no_change() {
    let mut h = History::new(50);
    let mut buf = lines(&["abc"]);
    let mut links = LinkStore::new();
    assert_eq!(h.undo(&mut buf, &mut links), None);
    assert_eq!(buf, lines(&["abc"]));
    assert_eq!(h.redo(&mut buf, &mut links), None);
    assert_eq!(buf, lines(&["abc"]));
}

#[test]
fn history_capacity_eviction() {
    let mut h = History::new(3);
    let mut buf = lines(&[""]);
    let mut links = LinkStore::new();
    for k in 0..4usize {
        let before = Pos::new(0, k, k);
        let after = Pos::new(0, k + 1, k + 1);
        let edit = Edit::new(EditKind::InsertChar('a', None), before, after);
        let ok = edit.redo(&mut buf, &mut links);
        assert!(ok);
        h.push(edit);
    }
    assert_eq!(buf, lines(&["aaaa"]));
    // Exactly three of the four edits are undoable: the oldest is gone.
    assert!(h.undo(&mut buf, &mut links).is_some());
    assert!(h.undo(&mut buf, &mut links).is_some());
    assert!(h.undo(&mut buf, &mut links).is_some());
    assert_eq!(h.undo(&mut buf, &mut links), None);
    assert_eq!(buf, lines(&["a"]));
}

#[test]
fn history_push_truncates_redo_tail() {
    let mut h = History::new(10);
    let mut buf = lines(&[""]);
    let mut links = LinkStore::new();
    for k in 0..2usize {
        let edit = Edit::new(
            EditKind::InsertChar('x', None),
            Pos::new(0, k, k),
            Pos::new(0, k + 1, k + 1),
        );
        assert!(edit.redo(&mut buf, &mut links));
        h.push(edit);
    }
    assert!(h.undo(&mut buf, &mut links).is_some());
    assert_eq!(buf, lines(&["x"]));
    let edit = Edit::new(
        EditKind::InsertChar('y', None),
        Pos::new(0, 1, 1),
        Pos::new(0, 2, 2),
    );
    assert!(edit.redo(&mut buf, &mut links));
    h.push(edit);
    // The old redo tail is gone.
    assert_eq!(h.redo(&mut buf, &mut links), None);
    assert_eq!(buf, lines(&["xy"]));
}

#[test]
fn edit_kinds_apply_and_invert_round_trip() {
    let cases: Vec<EditKind> = vec![
        EditKind::InsertChar('q', None),
        EditKind::InsertStr(line("hey"), None),
        EditKind::InsertLine(line("new line"), None),
        EditKind::InsertNewline,
    ];
    for kind in cases {
        let start = lines(&["alpha", "beta"]);
        let mut buf = start.clone();
        let mut links = LinkStore::new();
        let (before, after) = match &kind {
            EditKind::InsertChar(_, _) => (Pos::new(0, 2, 2), Pos::new(0, 3, 3)),
            EditKind::InsertStr(_, _) => (Pos::new(0, 2, 2), Pos::new(0, 5, 5)),
            EditKind::InsertLine(_, _) => (Pos::new(1, 0, 0), Pos::new(1, 0, 0)),
            EditKind::InsertNewline => (Pos::new(0, 2, 2), Pos::new(1, 0, 0)),
            _ => unreachable!(),
        };
        assert!(kind.apply(&mut buf, &mut links, &before, &after));
        assert_ne!(buf, start);
        let inv = kind.invert();
        assert!(inv.apply(&mut buf, &mut links, &after, &before));
        assert_eq!(buf, start);
    }
}
