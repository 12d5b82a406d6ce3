use vstd::prelude::*;

use crate::history::{
    copy_chars, copy_lines, copy_vec_all, lines_view, opt_ids_view, push_range, spec_hist_pushed,
    spec_ids_present, spec_insert_chunk, spec_line_insert, spec_push_pre, Edit, EditKind,
    EditModel, History, LineBuffer, MaybeLinkIds,
};
use crate::links::{seq_has_id, seq_idx_of, seq_link, Link, LinkStore};
use crate::util::{chars_to_string, spec_word_end, spec_word_start, Pos};

verus! {

/// The links an operation touched, as relative snapshots, if it touched any.
pub type MaybeLinks = Option<Vec<Link>>;

/// The clipboard payload: a single-line piece or a multi-line chunk, each
/// carrying the text, the relative snapshots of the links it covered, and
/// the absolute position at capture time. One most-recent-wins buffer.
#[derive(Debug)]
pub enum YankText {
    Piece(Vec<char>, MaybeLinks, (usize, usize)),
    Chunk(Vec<Vec<char>>, MaybeLinks, (usize, usize)),
}

/// The mathematical view of a clipboard payload.
pub enum YankModel {
    Piece(Seq<char>, Option<Seq<Link>>, (usize, usize)),
    Chunk(Seq<Seq<char>>, Option<Seq<Link>>, (usize, usize)),
}

pub open spec fn opt_links_view(l: Option<Vec<Link>>) -> Option<Seq<Link>> {
    match l {
        Some(v) => Some(v@),
        None => None,
    }
}

impl YankText {
    pub open spec fn model(self) -> YankModel {
        match self {
            YankText::Piece(s, l, p) => YankModel::Piece(s@, opt_links_view(l), p),
            YankText::Chunk(c, l, p) => YankModel::Chunk(lines_view(c@), opt_links_view(l), p),
        }
    }
}

/// `x` moved by the signed column or row delta `d`, pinned to the usize
/// range: a shift below zero stops at zero.
pub open spec fn shifted(x: int, d: int) -> int {
    if x + d < 0 {
        0
    } else if x + d > usize::MAX {
        usize::MAX as int
    } else {
        x + d
    }
}

/// `x` moved by the delta `to - from`, as [`shifted`] says.
pub fn shift_usize(x: usize, from: usize, to: usize) -> (r: usize)
    ensures
        r as int == shifted(x as int, to - from),
{
    if to >= from {
        let d = to - from;
        if x > usize::MAX - d {
            usize::MAX
        } else {
            x + d
        }
    } else {
        let d = from - to;
        if x < d {
            0
        } else {
            x - d
        }
    }
}

/// The same-row shift of one link: text of length `dcol` entered before
/// every live link on `row` that starts at or after `sc`, and those links
/// slide right by that length.
pub open spec fn spec_shift_same_row(l: Link, row: int, sc: int, dcol: int) -> Link {
    if !l.deleted && l.row == row && l.start_col >= sc {
        Link {
            start_col: shifted(l.start_col as int, dcol) as usize,
            end_col: shifted(l.end_col as int, dcol) as usize,
            ..l
        }
    } else {
        l
    }
}

/// The after-insert shift of one link: a link the applying step already
/// repositioned has its one-shot flag cleared and moves no further; a
/// live link on the start row at or after the start column takes both the
/// row and the column delta; a live link strictly below the start row
/// takes the row delta alone.
pub open spec fn spec_shift_after_insert(l: Link, sr: int, sc: int, drow: int, dcol: int) -> Link {
    if l.deleted {
        l
    } else if l.edited {
        Link { edited: false, ..l }
    } else if l.row == sr && l.start_col >= sc {
        Link {
            row: shifted(l.row as int, drow) as usize,
            start_col: shifted(l.start_col as int, dcol) as usize,
            end_col: shifted(l.end_col as int, dcol) as usize,
            ..l
        }
    } else if l.row > sr {
        Link { row: shifted(l.row as int, drow) as usize, ..l }
    } else {
        l
    }
}

/// The after-delete shift of one link: a live link at or below the
/// deleted span's start row takes the column delta when it sits on the
/// start row at or after the start column; it then takes the row delta,
/// unless its end column reaches the configured maximum row width — the
/// reflow pin — in which case it instead slides left by the number of
/// characters that were folded onto the previous line.
pub open spec fn spec_shift_after_delete(
    l: Link,
    sr: int,
    sc: int,
    drow: int,
    dcol: int,
    max_col: int,
    to_prevline: int,
) -> Link {
    if l.deleted || l.row < sr {
        l
    } else {
        let s1 = if l.row == sr && l.start_col >= sc {
            shifted(l.start_col as int, dcol) as usize
        } else {
            l.start_col
        };
        let e1 = if l.row == sr && l.start_col >= sc {
            shifted(l.end_col as int, dcol) as usize
        } else {
            l.end_col
        };
        if (e1 as int) < max_col {
            Link {
                row: shifted(l.row as int, drow) as usize,
                start_col: s1,
                end_col: e1,
                ..l
            }
        } else {
            Link {
                start_col: shifted(l.start_col as int, -to_prevline) as usize,
                end_col: shifted(l.end_col as int, -to_prevline) as usize,
                ..l
            }
        }
    }
}

/// The history-replay shift of one link: a link the replayed edit itself
/// repositioned merely has its one-shot flag cleared; any other live link
/// at or below the start row takes the row delta, and also the column
/// delta when it sits on the end row at or after the start column, or on
/// the start row of a span that crosses rows.
pub open spec fn spec_shift_after_edit(
    l: Link,
    sr: int,
    sc: int,
    er: int,
    drow: int,
    dcol: int,
) -> Link {
    if l.deleted {
        l
    } else if l.row >= sr && !l.edited {
        let takes_cols = (l.row == er && l.start_col >= sc) || (l.row == sr && er != sr);
        let s1 = if takes_cols {
            shifted(l.start_col as int, dcol) as usize
        } else {
            l.start_col
        };
        let e1 = if takes_cols {
            shifted(l.end_col as int, dcol) as usize
        } else {
            l.end_col
        };
        Link { row: shifted(l.row as int, drow) as usize, start_col: s1, end_col: e1, ..l }
    } else if l.edited {
        Link { edited: false, ..l }
    } else {
        l
    }
}

/// The previous-line shift of one link: content folded up into the
/// previous line, so every live link at or below `row` moves one row up
/// and `dcol` columns right; soft-deleted links are frozen until
/// resurrected.
pub open spec fn spec_shift_prevline(l: Link, row: int, dcol: int) -> Link {
    if l.deleted {
        l
    } else if l.row >= row {
        Link {
            row: shifted(l.row as int, -1) as usize,
            start_col: shifted(l.start_col as int, dcol) as usize,
            end_col: shifted(l.end_col as int, dcol) as usize,
            ..l
        }
    } else {
        l
    }
}

/// The newline-split shift of one link: a line split at (`row`, `col`),
/// so every live link strictly below the split row moves one row down,
/// and a live link on the split row at or after the split column moves
/// one row down with its columns rebased to the new line. A link the
/// current logical edit has already repositioned — its one-shot flag
/// set — is skipped whole; the flag stays, for the after-insert pass
/// that follows a wrap to clear, so that the link moves exactly once.
pub open spec fn spec_shift_newline(l: Link, row: int, col: int) -> Link {
    if l.deleted || l.edited {
        l
    } else if l.row > row {
        Link { row: shifted(l.row as int, 1) as usize, ..l }
    } else if l.row == row && l.start_col >= col {
        Link {
            row: shifted(l.row as int, 1) as usize,
            start_col: shifted(l.start_col as int, -col) as usize,
            end_col: shifted(l.end_col as int, -col) as usize,
            ..l
        }
    } else {
        l
    }
}

/// The state of one editing session: the line buffer, the cursor, the
/// link store, the bounded edit history, the clipboard, and the
/// selection, plus the session's configuration.
#[derive(Debug)]
pub struct TextArea {
    pub lines: LineBuffer,
    pub cursor: (usize, usize),
    pub links: LinkStore,
    pub pending_link: Option<(usize, usize)>,
    pub next_link_id: usize,
    pub new_link: bool,
    pub deleted_link_ids: Vec<usize>,
    pub copied_link_ids: Vec<(usize, usize)>,
    pub tab_len: u8,
    pub hard_tab_indent: bool,
    pub history: History,
    pub yank: YankText,
    pub selection_start: Option<(usize, usize)>,
    pub max_col: u16,
}

impl TextArea {
    pub open spec fn spec_lines(self) -> Seq<Seq<char>> {
        lines_view(self.lines@)
    }

    pub open spec fn spec_cursor(self) -> (usize, usize) {
        self.cursor
    }

    pub open spec fn spec_selection(self) -> Option<(usize, usize)> {
        self.selection_start
    }

    pub open spec fn spec_pending_link(self) -> Option<(usize, usize)> {
        self.pending_link
    }

    pub open spec fn spec_history(self) -> History {
        self.history
    }

    pub open spec fn spec_yank(self) -> YankModel {
        self.yank.model()
    }

    pub open spec fn spec_tab_len(self) -> u8 {
        self.tab_len
    }

    pub open spec fn spec_hard_tab(self) -> bool {
        self.hard_tab_indent
    }

    pub open spec fn spec_max_col(self) -> u16 {
        self.max_col
    }

    /// Well-formed session state: the buffer is never empty, the cursor
    /// addresses a position inside it, link ids are unique, the history
    /// index stays within its log, and the row width limit leaves room
    /// for at least one character.
    pub open spec fn wf(self) -> bool {
        &&& self.spec_lines().len() >= 1
        &&& (self.spec_cursor().0 as int) < self.spec_lines().len()
        &&& self.spec_cursor().1 <= self.spec_lines()[self.spec_cursor().0 as int].len()
        &&& self.links.wf()
        &&& self.spec_history().wf()
        &&& self.spec_max_col() >= 2
    }

    /// True when `b` carries the very same link state, pending link and
    /// configuration as `a`.
    pub open spec fn same_links_and_config(a: TextArea, b: TextArea) -> bool {
        &&& b.links == a.links
        &&& b.next_link_id == a.next_link_id
        &&& b.new_link == a.new_link
        &&& b.deleted_link_ids == a.deleted_link_ids
        &&& b.copied_link_ids == a.copied_link_ids
        &&& b.spec_pending_link() == a.spec_pending_link()
        &&& b.spec_tab_len() == a.spec_tab_len()
        &&& b.spec_hard_tab() == a.spec_hard_tab()
        &&& b.spec_max_col() == a.spec_max_col()
    }

    /// True when `b` carries the very same history, clipboard and
    /// selection as `a`.
    pub open spec fn same_history_yank_sel(a: TextArea, b: TextArea) -> bool {
        &&& b.history == a.history
        &&& b.yank == a.yank
        &&& b.selection_start == a.selection_start
    }

    /// True when `b` differs from `a` at most in the link store.
    pub open spec fn same_except_links(a: TextArea, b: TextArea) -> bool {
        &&& b.lines == a.lines
        &&& b.cursor == a.cursor
        &&& b.pending_link == a.pending_link
        &&& b.next_link_id == a.next_link_id
        &&& b.new_link == a.new_link
        &&& b.deleted_link_ids == a.deleted_link_ids
        &&& b.copied_link_ids == a.copied_link_ids
        &&& b.tab_len == a.tab_len
        &&& b.hard_tab_indent == a.hard_tab_indent
        &&& b.history == a.history
        &&& b.yank == a.yank
        &&& b.selection_start == a.selection_start
        &&& b.max_col == a.max_col
    }

    /// True when `b` differs from `a` at most in the cursor.
    pub open spec fn same_but_cursor(a: TextArea, b: TextArea) -> bool {
        &&& b.lines == a.lines
        &&& Self::same_links_and_config(a, b)
        &&& Self::same_history_yank_sel(a, b)
    }

    /// The buffer's text, the links, and the configured maximum row
    /// width. An empty buffer becomes one empty line; the next link id
    /// starts past the largest id in the store.
    pub fn new(lines: LineBuffer, links: LinkStore, max_col: u16) -> (r: Self)
        requires
            max_col >= 2,
            links.wf(),
            forall|i: int| 0 <= i < links@.len() ==> (links@[i].id as int) < usize::MAX,
        ensures
            r.wf(),
            r.spec_lines() == if lines@.len() == 0 {
                lines_view(lines@).push(Seq::<char>::empty())
            } else {
                lines_view(lines@)
            },
            r.spec_cursor() == (0usize, 0usize),
            r.links == links,
            r.spec_history().spec_edits().len() == 0,
            r.spec_history().spec_index() == 0,
            r.spec_history().spec_max() == 50,
            r.spec_selection() is None,
            r.spec_pending_link() is None,
            r.spec_max_col() == max_col,
            r.spec_tab_len() == 4,
            !r.spec_hard_tab(),
            r.new_link == false,
            r.deleted_link_ids@ == Seq::<usize>::empty(),
            r.copied_link_ids@ == Seq::<(usize, usize)>::empty(),
            forall|i: int| 0 <= i < links@.len() ==> (links@[i].id as int) < r.next_link_id as int,
    {
        let ghost lines0 = lines@;
        let mut lines = lines;
        if lines.len() == 0 {
            lines.push(Vec::new());
            proof {
                assert(lines_view(lines@) =~~= lines_view(lines0).push(Seq::<char>::empty()));
            }
        }
        let next_link_id = max_link_id_bound(&links);
        Self {
            lines,
            cursor: (0, 0),
            links,
            pending_link: None,
            next_link_id,
            new_link: false,
            deleted_link_ids: Vec::new(),
            copied_link_ids: Vec::new(),
            tab_len: 4,
            hard_tab_indent: false,
            history: History::new(50),
            yank: YankText::Piece(Vec::new(), None, (0, 0)),
            selection_start: None,
            max_col,
        }
    }

    /// The buffer's lines as strings, one per row.
    pub fn lines(&self) -> (r: Vec<String>)
        ensures
            r@.len() == self.spec_lines().len(),
            forall|i: int| 0 <= i < r@.len() ==> r@[i]@ == self.spec_lines()[i],
    {
        let mut r: Vec<String> = Vec::new();
        let mut i: usize = 0;
        while i < self.lines.len()
            invariant
                i <= self.lines@.len(),
                r@.len() == i as nat,
                forall|j: int| 0 <= j < i as int ==> r@[j]@ == self.spec_lines()[j],
            decreases self.lines@.len() - i,
        {
            r.push(chars_to_string(&self.lines[i]));
            i = i + 1;
        }
        r
    }

    /// The buffer's lines as character vectors, one per row.
    pub fn lines_chars(&self) -> (r: &Vec<Vec<char>>)
        ensures
            lines_view(r@) == self.spec_lines(),
    {
        &self.lines
    }

    /// The current 0-based, character-wise (row, column) cursor position.
    pub fn cursor(&self) -> (r: (usize, usize))
        ensures
            r == self.spec_cursor(),
    {
        self.cursor
    }

    /// True when the whole buffer is one empty line.
    pub fn is_empty(&self) -> (r: bool)
        ensures
            r == (self.spec_lines().len() == 1 && self.spec_lines()[0].len() == 0),
    {
        self.lines.len() == 1 && self.lines[0].len() == 0
    }

    /// Moves the cursor to `(row, col)`, pinned into the buffer: the row
    /// is clamped to the last row, the column to the row's length. The
    /// buffer, the links, the history and the selection are untouched.
    pub fn move_cursor(&mut self, row: usize, col: usize)
        requires
            old(self).wf(),
        ensures
            final(self).wf(),
            Self::same_but_cursor(*old(self), *final(self)),
            final(self).spec_cursor() == {
                let r = if (row as int) < old(self).spec_lines().len() {
                    row as int
                } else {
                    old(self).spec_lines().len() - 1
                };
                let c = if col <= old(self).spec_lines()[r].len() {
                    col as int
                } else {
                    old(self).spec_lines()[r].len() as int
                };
                (r as usize, c as usize)
            },
    {
        let r = if row < self.lines.len() {
            row
        } else {
            self.lines.len() - 1
        };
        let len = self.lines[r].len();
        let c = if col <= len {
            col
        } else {
            len
        };
        self.cursor = (r, c);
    }

    /// Moves the cursor to the end of its row.
    pub fn move_cursor_to_end(&mut self)
        requires
            old(self).wf(),
        ensures
            final(self).wf(),
            Self::same_but_cursor(*old(self), *final(self)),
            final(self).spec_cursor() == (
                old(self).spec_cursor().0,
                old(self).spec_lines()[old(self).spec_cursor().0 as int].len() as usize,
            ),
    {
        let r = self.cursor.0;
        let len = self.lines[r].len();
        self.cursor = (r, len);
    }

    /// Starts (or restarts) a text selection at the cursor.
    pub fn start_selection(&mut self)
        ensures
            final(self).spec_selection() == Some(old(self).spec_cursor()),
            final(self).spec_lines() == old(self).spec_lines(),
            final(self).spec_cursor() == old(self).spec_cursor(),
            Self::same_links_and_config(*old(self), *final(self)),
            final(self).spec_history() == old(self).spec_history(),
            final(self).spec_yank() == old(self).spec_yank(),
            old(self).wf() ==> final(self).wf(),
    {
        self.selection_start = Some(self.cursor);
    }

    /// Drops the current selection, if any.
    pub fn cancel_selection(&mut self)
        ensures
            final(self).spec_selection() is None,
            final(self).spec_lines() == old(self).spec_lines(),
            final(self).spec_cursor() == old(self).spec_cursor(),
            Self::same_links_and_config(*old(self), *final(self)),
            final(self).spec_history() == old(self).spec_history(),
            final(self).spec_yank() == old(self).spec_yank(),
            old(self).wf() ==> final(self).wf(),
    {
        self.selection_start = None;
    }

    /// Selects the whole buffer: the cursor jumps to its very end and the
    /// selection starts at the origin.
    pub fn select_all(&mut self)
        requires
            old(self).wf(),
        ensures
            final(self).wf(),
            final(self).spec_cursor() == (
                (old(self).spec_lines().len() - 1) as usize,
                old(self).spec_lines().last().len() as usize,
            ),
            final(self).spec_selection() == Some((0usize, 0usize)),
            final(self).spec_lines() == old(self).spec_lines(),
            Self::same_links_and_config(*old(self), *final(self)),
            final(self).spec_history() == old(self).spec_history(),
            final(self).spec_yank() == old(self).spec_yank(),
    {
        let r = self.lines.len() - 1;
        let len = self.lines[r].len();
        self.cursor = (r, len);
        self.selection_start = Some((0, 0));
    }

    /// True while a selection is ongoing.
    pub fn is_selecting(&self) -> (r: bool)
        ensures
            r == (self.spec_selection() is Some),
    {
        self.selection_start.is_some()
    }

    /// Where the current selection starts, if one is ongoing.
    pub fn get_selection_start(&self) -> (r: Option<(usize, usize)>)
        ensures
            r == self.spec_selection(),
    {
        self.selection_start
    }

    /// True once an undo or redo has met a record that no longer
    /// addressed the buffer and the store: the loud divergence signal of
    /// [`History::has_diverged`].
    pub fn history_diverged(&self) -> (r: bool)
        ensures
            r == self.history.spec_diverged(),
    {
        self.history.has_diverged()
    }

    /// How many edits the history remembers.
    pub fn max_histories(&self) -> (r: usize)
        ensures
            r as int == self.spec_history().spec_max(),
    {
        self.history.max_items()
    }

    /// Replaces the history with an empty one remembering `max` edits;
    /// zero disables undo and redo.
    pub fn set_max_histories(&mut self, max: usize)
        ensures
            final(self).spec_history().spec_max() == max,
            final(self).spec_history().spec_edits().len() == 0,
            final(self).spec_history().spec_index() == 0,
            final(self).spec_history().wf(),
            final(self).spec_lines() == old(self).spec_lines(),
            final(self).spec_cursor() == old(self).spec_cursor(),
            final(self).spec_selection() == old(self).spec_selection(),
            final(self).spec_yank() == old(self).spec_yank(),
            Self::same_links_and_config(*old(self), *final(self)),
            old(self).wf() ==> final(self).wf(),
    {
        self.history = History::new(max);
    }

    pub fn set_tab_length(&mut self, len: u8)
        ensures
            final(self).spec_tab_len() == len,
            final(self).spec_lines() == old(self).spec_lines(),
            final(self).spec_cursor() == old(self).spec_cursor(),
            final(self).spec_hard_tab() == old(self).spec_hard_tab(),
            final(self).spec_max_col() == old(self).spec_max_col(),
            final(self).links == old(self).links,
            Self::same_history_yank_sel(*old(self), *final(self)),
            old(self).wf() ==> final(self).wf(),
    {
        self.tab_len = len;
    }

    pub fn tab_length(&self) -> (r: u8)
        ensures
            r == self.spec_tab_len(),
    {
        self.tab_len
    }

    pub fn set_hard_tab_indent(&mut self, enabled: bool)
        ensures
            final(self).spec_hard_tab() == enabled,
            final(self).spec_lines() == old(self).spec_lines(),
            final(self).spec_cursor() == old(self).spec_cursor(),
            final(self).spec_tab_len() == old(self).spec_tab_len(),
            final(self).spec_max_col() == old(self).spec_max_col(),
            final(self).links == old(self).links,
            Self::same_history_yank_sel(*old(self), *final(self)),
            old(self).wf() ==> final(self).wf(),
    {
        self.hard_tab_indent = enabled;
    }

    pub fn hard_tab_indent(&self) -> (r: bool)
        ensures
            r == self.spec_hard_tab(),
    {
        self.hard_tab_indent
    }

    /// The string one tab key inserts: a hard tab, or `tab_len` spaces.
    pub fn indent(&self) -> (r: String)
        ensures
            self.spec_hard_tab() ==> r@ =~= seq!['\t'],
            !self.spec_hard_tab() ==> r@.len() == self.spec_tab_len() as nat && (forall|k: int|
                0 <= k < r@.len() ==> r@[k] == ' '),
    {
        if self.hard_tab_indent {
            let mut v: Vec<char> = Vec::new();
            v.push('\t');
            chars_to_string(&v)
        } else {
            crate::util::spaces(self.tab_len)
        }
    }

    /// Resets the buffer to one empty line. Links, history and cursor are
    /// deliberately untouched, as in a caller that immediately rebuilds
    /// them.
    pub fn clear_lines(&mut self)
        requires
            old(self).wf(),
        ensures
            final(self).wf(),
            final(self).spec_lines() == seq![Seq::<char>::empty()],
            final(self).spec_cursor() == (0usize, 0usize),
            Self::same_links_and_config(*old(self), *final(self)),
            Self::same_history_yank_sel(*old(self), *final(self)),
    {
        let mut nl: LineBuffer = Vec::new();
        nl.push(Vec::new());
        self.lines = nl;
        self.cursor = (0, 0);
        proof {
            assert(self.spec_lines() =~~= seq![Seq::<char>::empty()]);
        }
    }
}

/// True when the live link `l` covers position (`row`, `col`), both
/// span ends included.
pub open spec fn spec_covers(l: Link, row: int, col: int) -> bool {
    !l.deleted && l.row == row && l.start_col <= col <= l.end_col
}

/// The overlap-inclusive test for a link against a half-open range in
/// (row, column) space: the link's row lies within the range's rows, it
/// does not end before the range starts on the start row, and it does
/// not start after the range ends on the end row. Only live links count.
pub open spec fn spec_in_del_range(l: Link, sr: int, sc: int, er: int, ec: int) -> bool {
    &&& !l.deleted
    &&& sr <= l.row <= er
    &&& !(l.row == sr && l.end_col < sc)
    &&& !(l.row == er && l.start_col > ec)
}

/// The snapshot of a link relative to a range start: the row becomes an
/// offset from the start row, and on the start row the columns are
/// rebased to the start column (a span that begins left of the range is
/// pinned at column zero); the flags start out clear.
pub open spec fn spec_rel_snapshot(l: Link, sr: int, sc: int) -> Link {
    Link {
        id: l.id,
        row: (l.row - sr) as usize,
        start_col: if l.row == sr {
            shifted(l.start_col as int, -sc) as usize
        } else {
            l.start_col
        },
        end_col: if l.row == sr {
            shifted(l.end_col as int, -sc) as usize
        } else {
            l.end_col
        },
        edited: false,
        deleted: false,
    }
}

impl TextArea {
    /// Shifts the live links of `row` that start at or after `cols.0` by
    /// the column delta `cols.1 - cols.0`, as [`spec_shift_same_row`]
    /// says, link by link. Nothing else changes.
    pub fn shift_links_same_row(&mut self, row: usize, cols: (usize, usize))
        requires
            old(self).links.wf(),
        ensures
            final(self).links.wf(),
            final(self).links@.len() == old(self).links@.len(),
            forall|i: int|
                0 <= i < old(self).links@.len() ==> final(self).links@[i] == spec_shift_same_row(
                    old(self).links@[i],
                    row as int,
                    cols.0 as int,
                    cols.1 - cols.0,
                ),
            Self::same_except_links(*old(self), *final(self)),
            final(self).deleted_link_ids == old(self).deleted_link_ids,
            final(self).next_link_id == old(self).next_link_id,
    {
        let ghost pre = self.links@;
        let mut i: usize = 0;
        while i < self.links.len()
            invariant
                i <= self.links@.len(),
                self.links@.len() == pre.len(),
                forall|j: int|
                    0 <= j < i as int ==> self.links@[j] == spec_shift_same_row(
                        pre[j],
                        row as int,
                        cols.0 as int,
                        cols.1 - cols.0,
                    ),
                forall|j: int| i as int <= j < pre.len() ==> self.links@[j] == pre[j],
                Self::same_except_links(*old(self), *self),
                pre == old(self).links@,
            decreases self.links@.len() - i,
        {
            let l = self.links.at(i);
            if !l.deleted && l.row == row && l.start_col >= cols.0 {
                let s1 = shift_usize(l.start_col, cols.0, cols.1);
                let e1 = shift_usize(l.end_col, cols.0, cols.1);
                self.links.set_at(i, Link { start_col: s1, end_col: e1, ..l });
            }
            i = i + 1;
        }
        proof {
            assert(final_links_wf_from_ids(old(self).links@, self.links@));
        }
    }

    /// Shifts every live link after text entered over the span
    /// (`start`..`end`), as [`spec_shift_after_insert`] says, link by
    /// link. Nothing else changes.
    pub fn shift_links_after_insert(&mut self, start: (usize, usize), end: (usize, usize))
        requires
            old(self).links.wf(),
        ensures
            final(self).links.wf(),
            final(self).links@.len() == old(self).links@.len(),
            forall|i: int|
                0 <= i < old(self).links@.len() ==> final(self).links@[i]
                    == spec_shift_after_insert(
                    old(self).links@[i],
                    start.0 as int,
                    start.1 as int,
                    end.0 - start.0,
                    end.1 - start.1,
                ),
            Self::same_except_links(*old(self), *final(self)),
    {
        let ghost pre = self.links@;
        let mut i: usize = 0;
        while i < self.links.len()
            invariant
                i <= self.links@.len(),
                self.links@.len() == pre.len(),
                forall|j: int|
                    0 <= j < i as int ==> self.links@[j] == spec_shift_after_insert(
                        pre[j],
                        start.0 as int,
                        start.1 as int,
                        end.0 - start.0,
                        end.1 - start.1,
                    ),
                forall|j: int| i as int <= j < pre.len() ==> self.links@[j] == pre[j],
                Self::same_except_links(*old(self), *self),
                pre == old(self).links@,
            decreases self.links@.len() - i,
        {
            let l = self.links.at(i);
            if l.deleted {
            } else if l.edited {
                self.links.set_at(i, Link { edited: false, ..l });
            } else if l.row == start.0 && l.start_col >= start.1 {
                let r1 = shift_usize(l.row, start.0, end.0);
                let s1 = shift_usize(l.start_col, start.1, end.1);
                let e1 = shift_usize(l.end_col, start.1, end.1);
                self.links.set_at(i, Link { row: r1, start_col: s1, end_col: e1, ..l });
            } else if l.row > start.0 {
                let r1 = shift_usize(l.row, start.0, end.0);
                self.links.set_at(i, Link { row: r1, ..l });
            }
            i = i + 1;
        }
        proof {
            assert(final_links_wf_from_ids(old(self).links@, self.links@));
        }
    }

    /// Shifts every live link after text was deleted over the span
    /// (`start`..`end`), as [`spec_shift_after_delete`] says, link by
    /// link; `shifted_to_prevline` is the number of characters the
    /// reflow folded onto the previous line, used by the reflow pin.
    /// Nothing else changes.
    pub fn shift_links_after_delete(
        &mut self,
        start: (usize, usize),
        end: (usize, usize),
        shifted_to_prevline: usize,
    )
        requires
            old(self).links.wf(),
        ensures
            final(self).links.wf(),
            final(self).links@.len() == old(self).links@.len(),
            forall|i: int|
                0 <= i < old(self).links@.len() ==> final(self).links@[i]
                    == spec_shift_after_delete(
                    old(self).links@[i],
                    start.0 as int,
                    start.1 as int,
                    end.0 - start.0,
                    end.1 - start.1,
                    old(self).spec_max_col() as int,
                    shifted_to_prevline as int,
                ),
            Self::same_except_links(*old(self), *final(self)),
    {
        let ghost pre = self.links@;
        let mut i: usize = 0;
        while i < self.links.len()
            invariant
                i <= self.links@.len(),
                self.links@.len() == pre.len(),
                forall|j: int|
                    0 <= j < i as int ==> self.links@[j] == spec_shift_after_delete(
                        pre[j],
                        start.0 as int,
                        start.1 as int,
                        end.0 - start.0,
                        end.1 - start.1,
                        old(self).spec_max_col() as int,
                        shifted_to_prevline as int,
                    ),
                forall|j: int| i as int <= j < pre.len() ==> self.links@[j] == pre[j],
                Self::same_except_links(*old(self), *self),
                pre == old(self).links@,
            decreases self.links@.len() - i,
        {
            let l = self.links.at(i);
            if !l.deleted && l.row >= start.0 {
                let takes_cols = l.row == start.0 && l.start_col >= start.1;
                let s1 = if takes_cols {
                    shift_usize(l.start_col, start.1, end.1)
                } else {
                    l.start_col
                };
                let e1 = if takes_cols {
                    shift_usize(l.end_col, start.1, end.1)
                } else {
                    l.end_col
                };
                if e1 < self.max_col as usize {
                    let r1 = shift_usize(l.row, start.0, end.0);
                    self.links.set_at(i, Link { row: r1, start_col: s1, end_col: e1, ..l });
                } else {
                    let s2 = shift_usize(l.start_col, shifted_to_prevline, 0);
                    let e2 = shift_usize(l.end_col, shifted_to_prevline, 0);
                    self.links.set_at(i, Link { start_col: s2, end_col: e2, ..l });
                }
            }
            i = i + 1;
        }
        proof {
            assert(final_links_wf_from_ids(old(self).links@, self.links@));
        }
    }

    /// Reconciles live links after history replayed an edit over the span
    /// (`start`..`end`), as [`spec_shift_after_edit`] says, link by link:
    /// a link the replay itself repositioned only has its one-shot flag
    /// cleared. Nothing else changes.
    pub fn shift_links_after_edit(&mut self, start: (usize, usize), end: (usize, usize))
        requires
            old(self).links.wf(),
        ensures
            final(self).links.wf(),
            final(self).links@.len() == old(self).links@.len(),
            forall|i: int|
                0 <= i < old(self).links@.len() ==> final(self).links@[i] == spec_shift_after_edit(
                    old(self).links@[i],
                    start.0 as int,
                    start.1 as int,
                    end.0 as int,
                    end.0 - start.0,
                    end.1 - start.1,
                ),
            Self::same_except_links(*old(self), *final(self)),
    {
        let ghost pre = self.links@;
        let mut i: usize = 0;
        while i < self.links.len()
            invariant
                i <= self.links@.len(),
                self.links@.len() == pre.len(),
                forall|j: int|
                    0 <= j < i as int ==> self.links@[j] == spec_shift_after_edit(
                        pre[j],
                        start.0 as int,
                        start.1 as int,
                        end.0 as int,
                        end.0 - start.0,
                        end.1 - start.1,
                    ),
                forall|j: int| i as int <= j < pre.len() ==> self.links@[j] == pre[j],
                Self::same_except_links(*old(self), *self),
                pre == old(self).links@,
            decreases self.links@.len() - i,
        {
            let l = self.links.at(i);
            if l.deleted {
            } else if l.row >= start.0 && !l.edited {
                let takes_cols = (l.row == end.0 && l.start_col >= start.1) || (l.row == start.0
                    && end.0 != start.0);
                let s1 = if takes_cols {
                    shift_usize(l.start_col, start.1, end.1)
                } else {
                    l.start_col
                };
                let e1 = if takes_cols {
                    shift_usize(l.end_col, start.1, end.1)
                } else {
                    l.end_col
                };
                let r1 = shift_usize(l.row, start.0, end.0);
                self.links.set_at(i, Link { row: r1, start_col: s1, end_col: e1, ..l });
            } else if l.edited {
                self.links.set_at(i, Link { edited: false, ..l });
            }
            i = i + 1;
        }
        proof {
            assert(final_links_wf_from_ids(old(self).links@, self.links@));
        }
    }

    /// Moves every live link at or below `pos.0` one row up and `dcol`
    /// columns right, as [`spec_shift_prevline`] says: content was folded
    /// up into the previous line. Soft-deleted links stay frozen.
    /// Nothing else changes.
    pub fn shift_links_prevline(&mut self, pos: (usize, usize), dcol: usize)
        requires
            old(self).links.wf(),
        ensures
            final(self).links.wf(),
            final(self).links@.len() == old(self).links@.len(),
            forall|i: int|
                0 <= i < old(self).links@.len() ==> final(self).links@[i] == spec_shift_prevline(
                    old(self).links@[i],
                    pos.0 as int,
                    dcol as int,
                ),
            Self::same_except_links(*old(self), *final(self)),
    {
        let ghost pre = self.links@;
        let mut i: usize = 0;
        while i < self.links.len()
            invariant
                i <= self.links@.len(),
                self.links@.len() == pre.len(),
                forall|j: int|
                    0 <= j < i as int ==> self.links@[j] == spec_shift_prevline(
                        pre[j],
                        pos.0 as int,
                        dcol as int,
                    ),
                forall|j: int| i as int <= j < pre.len() ==> self.links@[j] == pre[j],
                Self::same_except_links(*old(self), *self),
                pre == old(self).links@,
            decreases self.links@.len() - i,
        {
            let l = self.links.at(i);
            if !l.deleted && l.row >= pos.0 {
                let r1 = shift_usize(l.row, 1, 0);
                let s1 = shift_usize(l.start_col, 0, dcol);
                let e1 = shift_usize(l.end_col, 0, dcol);
                self.links.set_at(i, Link { row: r1, start_col: s1, end_col: e1, ..l });
            }
            i = i + 1;
        }
        proof {
            assert(final_links_wf_from_ids(old(self).links@, self.links@));
        }
    }

    /// Renumbers live links after the line at `pos` was split in two, as
    /// [`spec_shift_newline`] says: links below the split move down one
    /// row, links at or after the split point move onto the new line with
    /// their columns rebased. Nothing else changes.
    pub fn shift_links_newline(&mut self, pos: (usize, usize))
        requires
            old(self).links.wf(),
        ensures
            final(self).links.wf(),
            final(self).links@.len() == old(self).links@.len(),
            forall|i: int|
                0 <= i < old(self).links@.len() ==> final(self).links@[i] == spec_shift_newline(
                    old(self).links@[i],
                    pos.0 as int,
                    pos.1 as int,
                ),
            Self::same_except_links(*old(self), *final(self)),
    {
        let ghost pre = self.links@;
        let mut i: usize = 0;
        while i < self.links.len()
            invariant
                i <= self.links@.len(),
                self.links@.len() == pre.len(),
                forall|j: int|
                    0 <= j < i as int ==> self.links@[j] == spec_shift_newline(
                        pre[j],
                        pos.0 as int,
                        pos.1 as int,
                    ),
                forall|j: int| i as int <= j < pre.len() ==> self.links@[j] == pre[j],
                Self::same_except_links(*old(self), *self),
                pre == old(self).links@,
            decreases self.links@.len() - i,
        {
            let l = self.links.at(i);
            if l.deleted || l.edited {
            } else if l.row > pos.0 {
                let r1 = shift_usize(l.row, 0, 1);
                self.links.set_at(i, Link { row: r1, ..l });
            } else if l.row == pos.0 && l.start_col >= pos.1 {
                let r1 = shift_usize(l.row, 0, 1);
                let s1 = shift_usize(l.start_col, pos.1, 0);
                let e1 = shift_usize(l.end_col, pos.1, 0);
                self.links.set_at(i, Link { row: r1, start_col: s1, end_col: e1, ..l });
            }
            i = i + 1;
        }
        proof {
            assert(final_links_wf_from_ids(old(self).links@, self.links@));
        }
    }
}

/// The overlap-inclusive range test used when collecting links for the
/// clipboard: on a single-row range the link must lie inside the columns;
/// on the start row it must start at or after the start column; on the
/// end row it must end at or before the end column; strictly interior
/// rows always qualify.
pub open spec fn spec_link_in_range(l: Link, start: Pos, end: Pos) -> bool {
    if start.row == end.row && l.row == start.row {
        l.start_col >= start.col && l.end_col <= end.col
    } else if l.row == start.row {
        l.start_col >= start.col
    } else if l.row == end.row {
        l.end_col <= end.col
    } else {
        start.row < l.row < end.row
    }
}

impl TextArea {
    /// The range test of [`spec_link_in_range`], executably.
    pub fn link_in_range(l: &Link, start: &Pos, end: &Pos) -> (r: bool)
        ensures
            r == spec_link_in_range(*l, *start, *end),
    {
        if start.row == end.row && l.row == start.row {
            l.start_col >= start.col && l.end_col <= end.col
        } else if l.row == start.row {
            l.start_col >= start.col
        } else if l.row == end.row {
            l.end_col <= end.col
        } else {
            start.row < l.row && l.row < end.row
        }
    }

    /// The id of the first live link in store order that covers `cpos`,
    /// both span ends included, if any does.
    pub fn in_link(&self, cpos: (usize, usize)) -> (r: Option<usize>)
        ensures
            r == if spec_covers_any(self.links@, cpos.0 as int, cpos.1 as int) {
                Some(
                    self.links@[spec_first_cover_idx(
                        self.links@,
                        cpos.0 as int,
                        cpos.1 as int,
                    )].id,
                )
            } else {
                None::<usize>
            },
    {
        let mut i: usize = 0;
        while i < self.links.len()
            invariant
                i <= self.links@.len(),
                forall|j: int|
                    0 <= j < i as int ==> !#[trigger] spec_covers(
                        self.links@[j],
                        cpos.0 as int,
                        cpos.1 as int,
                    ),
            decreases self.links@.len() - i,
        {
            let l = self.links.at(i);
            if !l.deleted && l.row == cpos.0 && l.start_col <= cpos.1 && cpos.1 <= l.end_col {
                proof {
                    assert(spec_covers(self.links@[i as int], cpos.0 as int, cpos.1 as int));
                    lemma_first_cover(self.links@, cpos.0 as int, cpos.1 as int);
                    let f = spec_first_cover_idx(self.links@, cpos.0 as int, cpos.1 as int);
                    assert(!(f < i as int) && !((i as int) < f));
                }
                return Some(l.id);
            }
            i = i + 1;
        }
        None
    }

    /// The ids of the live links of row `cpos.0` that end at or before
    /// column `cpos.1`, in store order; nothing when there is none.
    pub fn links_in_row_before_cursor(&self, cpos: (usize, usize)) -> (r: Option<Vec<usize>>)
        ensures
            ({
                let ids = self.links@.filter(
                    |l: Link| !l.deleted && l.row == cpos.0 && l.end_col <= cpos.1,
                ).map_values(|l: Link| l.id);
                match r {
                    Some(v) => v@ == ids && ids.len() > 0,
                    None => ids.len() == 0,
                }
            }),
    {
        let mut out: Vec<usize> = Vec::new();
        let mut i: usize = 0;
        while i < self.links.len()
            invariant
                i <= self.links@.len(),
                out@ == self.links@.take(i as int).filter(
                    |l: Link| !l.deleted && l.row == cpos.0 && l.end_col <= cpos.1,
                ).map_values(|l: Link| l.id),
            decreases self.links@.len() - i,
        {
            let l = self.links.at(i);
            proof {
                reveal(Seq::filter);
                assert(self.links@.take(i as int + 1).drop_last() =~= self.links@.take(i as int));
                assert(self.links@.take(i as int + 1).last() == self.links@[i as int]);
            }
            if !l.deleted && l.row == cpos.0 && l.end_col <= cpos.1 {
                out.push(l.id);
            }
            i = i + 1;
        }
        proof {
            assert(self.links@.take(self.links@.len() as int) =~= self.links@);
        }
        if out.len() == 0 {
            None
        } else {
            Some(out)
        }
    }

    /// The ids of the live links of row `cpos.0` that start strictly
    /// after column `cpos.1`, in store order; nothing when there is none.
    pub fn links_in_row_after_cursor(&self, cpos: (usize, usize)) -> (r: Option<Vec<usize>>)
        ensures
            ({
                let ids = self.links@.filter(
                    |l: Link| !l.deleted && l.row == cpos.0 && cpos.1 < l.start_col,
                ).map_values(|l: Link| l.id);
                match r {
                    Some(v) => v@ == ids && ids.len() > 0,
                    None => ids.len() == 0,
                }
            }),
    {
        let mut out: Vec<usize> = Vec::new();
        let mut i: usize = 0;
        while i < self.links.len()
            invariant
                i <= self.links@.len(),
                out@ == self.links@.take(i as int).filter(
                    |l: Link| !l.deleted && l.row == cpos.0 && cpos.1 < l.start_col,
                ).map_values(|l: Link| l.id),
            decreases self.links@.len() - i,
        {
            let l = self.links.at(i);
            proof {
                reveal(Seq::filter);
                assert(self.links@.take(i as int + 1).drop_last() =~= self.links@.take(i as int));
                assert(self.links@.take(i as int + 1).last() == self.links@[i as int]);
            }
            if !l.deleted && l.row == cpos.0 && cpos.1 < l.start_col {
                out.push(l.id);
            }
            i = i + 1;
        }
        proof {
            assert(self.links@.take(self.links@.len() as int) =~= self.links@);
        }
        if out.len() == 0 {
            None
        } else {
            Some(out)
        }
    }

    /// Remembers the cursor as the opening end of a link under
    /// construction.
    pub fn init_link(&mut self)
        ensures
            final(self).pending_link == Some(old(self).cursor),
            final(self).lines == old(self).lines,
            final(self).cursor == old(self).cursor,
            final(self).links == old(self).links,
            final(self).next_link_id == old(self).next_link_id,
            final(self).new_link == old(self).new_link,
            final(self).deleted_link_ids == old(self).deleted_link_ids,
            final(self).copied_link_ids == old(self).copied_link_ids,
            final(self).history == old(self).history,
            final(self).yank == old(self).yank,
            final(self).selection_start == old(self).selection_start,
            final(self).tab_len == old(self).tab_len,
            final(self).hard_tab_indent == old(self).hard_tab_indent,
            final(self).max_col == old(self).max_col,
            old(self).wf() ==> final(self).wf(),
    {
        self.pending_link = Some(self.cursor);
    }

    /// Closes the link opened by [`Self::init_link`]: when the pending
    /// position is on the cursor's row at or before its column, a fresh
    /// link spanning from it to the cursor is stored under the next id,
    /// and the id counter moves on. With no id left, or no usable
    /// pending position, nothing changes.
    pub fn insert_link(&mut self)
        requires
            old(self).wf(),
        ensures
            final(self).wf(),
            ({
                let ok = match old(self).pending_link {
                    Some(p) => p.0 == old(self).cursor.0 && p.1 <= old(self).cursor.1 && old(self).next_link_id < usize::MAX,
                    None => false,
                };
                if ok {
                    let p = old(self).pending_link->0;
                    let nl = Link {
                        id: old(self).next_link_id,
                        row: p.0,
                        start_col: p.1,
                        end_col: old(self).cursor.1,
                        edited: false,
                        deleted: false,
                    };
                    &&& final(self).links@ == if seq_has_id(old(self).links@, nl.id) {
                        old(self).links@.update(seq_idx_of(old(self).links@, nl.id), nl)
                    } else {
                        old(self).links@.push(nl)
                    }
                    &&& final(self).next_link_id == old(self).next_link_id + 1
                    &&& final(self).pending_link is None
                    &&& final(self).new_link == true
                } else {
                    final(self).links == old(self).links && final(self).pending_link == old(self).pending_link && final(self).next_link_id == old(self).next_link_id && final(self).new_link == old(self).new_link
                }
            }),
            final(self).lines == old(self).lines,
            final(self).cursor == old(self).cursor,
            final(self).deleted_link_ids == old(self).deleted_link_ids,
            final(self).copied_link_ids == old(self).copied_link_ids,
            final(self).history == old(self).history,
            final(self).yank == old(self).yank,
            final(self).selection_start == old(self).selection_start,
            final(self).tab_len == old(self).tab_len,
            final(self).hard_tab_indent == old(self).hard_tab_indent,
            final(self).max_col == old(self).max_col,
    {
        match self.pending_link {
            Some(link_start) => {
                if link_start.0 == self.cursor.0 && link_start.1 <= self.cursor.1
                    && self.next_link_id < usize::MAX {
                    let new_link = Link::new(
                        self.next_link_id,
                        link_start.0,
                        link_start.1,
                        self.cursor.1,
                    );
                    self.links.insert(new_link);
                    self.next_link_id = self.next_link_id + 1;
                    self.pending_link = None;
                    self.new_link = true;
                }
            },
            None => {
            },
        }
    }

    /// Soft-deletes the link carrying `link_id`: its `deleted` flag is
    /// toggled in place — the record stays, to be resurrected by undo —
    /// and the id is recorded in the deletion log.
    pub fn delete_link(&mut self, link_id: usize) -> (r: usize)
        requires
            old(self).wf(),
            seq_has_id(old(self).links@, link_id),
        ensures
            final(self).wf(),
            r == link_id,
            final(self).links@ == old(self).links@.update(
                seq_idx_of(old(self).links@, link_id),
                Link {
                    deleted: !seq_link(old(self).links@, link_id).deleted,
                    ..seq_link(old(self).links@, link_id)
                },
            ),
            final(self).deleted_link_ids@ == old(self).deleted_link_ids@.push(link_id),
            final(self).lines == old(self).lines,
            final(self).cursor == old(self).cursor,
            final(self).pending_link == old(self).pending_link,
            final(self).next_link_id == old(self).next_link_id,
            final(self).new_link == old(self).new_link,
            final(self).copied_link_ids == old(self).copied_link_ids,
            final(self).history == old(self).history,
            final(self).yank == old(self).yank,
            final(self).selection_start == old(self).selection_start,
            final(self).tab_len == old(self).tab_len,
            final(self).hard_tab_indent == old(self).hard_tab_indent,
            final(self).max_col == old(self).max_col,
    {
        self.deleted_link_ids.push(link_id);
        let idx = match self.links.index_of(link_id) {
            Some(i) => i,
            None => 0,
        };
        proof {
            assert(self.links@[seq_idx_of(self.links@, link_id)].id == link_id);
            assert(seq_idx_of(self.links@, link_id) == idx as int);
        }
        let l = self.links.at(idx);
        self.links.set_at(idx, Link { deleted: !l.deleted, ..l });
        proof {
            assert(final_links_wf_from_ids(old(self).links@, self.links@));
        }
        link_id
    }

    /// Collects every live link that the overlap-inclusive test places
    /// inside the range `start..end` — a link only partially covered is
    /// still taken whole — as snapshots relative to the range start, and
    /// soft-deletes each collected link in place. The snapshots come
    /// back in store order; nothing comes back when no link qualified.
    pub fn delete_links_in_range(&mut self, start: (usize, usize), end: (usize, usize)) -> (r:
        MaybeLinks)
        requires
            old(self).links.wf(),
        ensures
            final(self).links.wf(),
            final(self).links@.len() == old(self).links@.len(),
            forall|i: int|
                0 <= i < old(self).links@.len() ==> final(self).links@[i] == (
                if spec_in_del_range(
                    old(self).links@[i],
                    start.0 as int,
                    start.1 as int,
                    end.0 as int,
                    end.1 as int,
                ) {
                    Link { deleted: true, ..old(self).links@[i] }
                } else {
                    old(self).links@[i]
                }),
            ({
                let snaps = old(self).links@.filter(
                    |l: Link|
                        spec_in_del_range(
                            l,
                            start.0 as int,
                            start.1 as int,
                            end.0 as int,
                            end.1 as int,
                        ),
                ).map_values(|l: Link| spec_rel_snapshot(l, start.0 as int, start.1 as int));
                &&& (match r {
                    Some(v) => v@ == snaps && snaps.len() > 0,
                    None => snaps.len() == 0,
                })
                &&& final(self).deleted_link_ids@ == old(self).deleted_link_ids@ + snaps.map_values(
                    |l: Link| l.id,
                )
            }),
            final(self).lines == old(self).lines,
            final(self).cursor == old(self).cursor,
            final(self).pending_link == old(self).pending_link,
            final(self).next_link_id == old(self).next_link_id,
            final(self).new_link == old(self).new_link,
            final(self).copied_link_ids == old(self).copied_link_ids,
            final(self).history == old(self).history,
            final(self).yank == old(self).yank,
            final(self).selection_start == old(self).selection_start,
            final(self).tab_len == old(self).tab_len,
            final(self).hard_tab_indent == old(self).hard_tab_indent,
            final(self).max_col == old(self).max_col,
    {
        let ghost pre = self.links@;
        let ghost inrange = |l: Link|
            spec_in_del_range(l, start.0 as int, start.1 as int, end.0 as int, end.1 as int);
        let mut out: Vec<Link> = Vec::new();
        let mut i: usize = 0;
        while i < self.links.len()
            invariant
                i <= self.links@.len(),
                self.links@.len() == pre.len(),
                pre == old(self).links@,
                inrange == (|l: Link|
                    spec_in_del_range(
                        l,
                        start.0 as int,
                        start.1 as int,
                        end.0 as int,
                        end.1 as int,
                    )),
                out@ == pre.take(i as int).filter(inrange).map_values(
                    |l: Link| spec_rel_snapshot(l, start.0 as int, start.1 as int),
                ),
                self.deleted_link_ids@ == old(self).deleted_link_ids@ + pre.take(i as int).filter(
                    inrange,
                ).map_values(|l: Link| l.id),
                forall|j: int|
                    0 <= j < i as int ==> self.links@[j] == (if inrange(pre[j]) {
                        Link { deleted: true, ..pre[j] }
                    } else {
                        pre[j]
                    }),
                forall|j: int| i as int <= j < pre.len() ==> self.links@[j] == pre[j],
                self.lines == old(self).lines,
                self.cursor == old(self).cursor,
                self.pending_link == old(self).pending_link,
                self.next_link_id == old(self).next_link_id,
                self.new_link == old(self).new_link,
                self.copied_link_ids == old(self).copied_link_ids,
                self.history == old(self).history,
                self.yank == old(self).yank,
                self.selection_start == old(self).selection_start,
                self.tab_len == old(self).tab_len,
                self.hard_tab_indent == old(self).hard_tab_indent,
                self.max_col == old(self).max_col,
            decreases self.links@.len() - i,
        {
            let l = self.links.at(i);
            proof {
                reveal(Seq::filter);
                assert(pre.take(i as int + 1).drop_last() =~= pre.take(i as int));
                assert(pre.take(i as int + 1).last() == pre[i as int]);
            }
            let in_r = !l.deleted && l.row >= start.0 && l.row <= end.0 && !(l.row == start.0
                && l.end_col < start.1) && !(l.row == end.0 && l.start_col > end.1);
            if in_r {
                let row_offset = l.row - start.0;
                let (s1, e1) = if row_offset == 0 {
                    (shift_usize(l.start_col, start.1, 0), shift_usize(l.end_col, start.1, 0))
                } else {
                    (l.start_col, l.end_col)
                };
                let snap = Link {
                    id: l.id,
                    row: row_offset,
                    start_col: s1,
                    end_col: e1,
                    edited: false,
                    deleted: false,
                };
                proof {
                    assert(snap == spec_rel_snapshot(pre[i as int], start.0 as int, start.1 as int));
                }
                out.push(snap);
                self.deleted_link_ids.push(l.id);
                self.links.set_at(i, Link { deleted: true, ..l });
                proof {
                    assert(out@ =~= pre.take(i as int + 1).filter(inrange).map_values(
                        |l: Link| spec_rel_snapshot(l, start.0 as int, start.1 as int),
                    ));
                    assert(self.deleted_link_ids@ =~= old(self).deleted_link_ids@ + pre.take(
                        i as int + 1,
                    ).filter(inrange).map_values(|l: Link| l.id));
                }
            } else {
                proof {
                    assert(out@ =~= pre.take(i as int + 1).filter(inrange).map_values(
                        |l: Link| spec_rel_snapshot(l, start.0 as int, start.1 as int),
                    ));
                    assert(self.deleted_link_ids@ =~= old(self).deleted_link_ids@ + pre.take(
                        i as int + 1,
                    ).filter(inrange).map_values(|l: Link| l.id));
                }
            }
            i = i + 1;
        }
        proof {
            assert(pre.take(pre.len() as int) =~= pre);
            assert(final_links_wf_from_ids(old(self).links@, self.links@));
        }
        if out.len() == 0 {
            None
        } else {
            Some(out)
        }
    }
}

/// The ids carried by a list of link snapshots, in order.
pub open spec fn spec_links_ids(l: Option<Seq<Link>>) -> Option<Seq<usize>> {
    match l {
        Some(s) => Some(s.map_values(|x: Link| x.id)),
        None => None,
    }
}

/// The offset into row `row` at which column `col` starts, clamped into
/// the row; a row index beyond the buffer falls back to the last row.
pub open spec fn spec_line_offset(v: Seq<Seq<char>>, row: int, col: int) -> int {
    let line = if row < v.len() {
        v[row]
    } else {
        v[v.len() - 1]
    };
    if col <= line.len() {
        col
    } else {
        line.len() as int
    }
}

/// The buffer with the half-open range `s..e` removed: on one row the
/// span between the offsets disappears; across rows the start row keeps
/// its prefix and gains the end row's suffix, and every row in between,
/// the end row included, disappears.
pub open spec fn spec_range_removed(v: Seq<Seq<char>>, s: Pos, e: Pos) -> Seq<Seq<char>> {
    if s.row == e.row {
        v.update(
            s.row as int,
            v[s.row as int].take(s.offset as int) + v[s.row as int].skip(e.offset as int),
        )
    } else {
        v.take(s.row as int) + seq![
            v[s.row as int].take(s.offset as int) + v[e.row as int].skip(e.offset as int),
        ] + v.skip(e.row as int + 1)
    }
}

/// The text the range `s..e` covers, as the rows it crosses: one row's
/// span, or the start row's suffix, the interior rows, and the end row's
/// prefix.
pub open spec fn spec_range_payload(v: Seq<Seq<char>>, s: Pos, e: Pos) -> Seq<Seq<char>> {
    if s.row == e.row {
        seq![v[s.row as int].subrange(s.offset as int, e.offset as int)]
    } else {
        seq![v[s.row as int].skip(s.offset as int)] + v.subrange(s.row as int + 1, e.row as int)
            + seq![v[e.row as int].take(e.offset as int)]
    }
}

impl TextArea {
    /// The ordered selection range, if a selection is ongoing and covers
    /// anything: the stored start and the cursor, each with its clamped
    /// offset, ordered by (row, offset); an empty range is no range.
    pub open spec fn spec_sel_range(a: TextArea) -> Option<(Pos, Pos)> {
        match a.selection_start {
            None => None,
            Some(ss) => {
                let so = spec_line_offset(a.spec_lines(), ss.0 as int, ss.1 as int);
                let eo = spec_line_offset(a.spec_lines(), a.cursor.0 as int, a.cursor.1 as int);
                let s = Pos { row: ss.0, col: ss.1, offset: so as usize };
                let e = Pos { row: a.cursor.0, col: a.cursor.1, offset: eo as usize };
                if ss.0 < a.cursor.0 || (ss.0 == a.cursor.0 && so < eo) {
                    Some((s, e))
                } else if ss.0 == a.cursor.0 && so == eo {
                    None
                } else {
                    Some((e, s))
                }
            },
        }
    }

    /// True when the ordered selection range exists and addresses the
    /// buffer, so that deleting it is meaningful.
    pub open spec fn spec_sel_active(a: TextArea) -> bool {
        match Self::spec_sel_range(a) {
            Some(r) => (r.1.row as int) < a.spec_lines().len(),
            None => false,
        }
    }

    /// The exact effect of deleting the active selection: the links the
    /// overlap test places in the range are snapshotted and soft-deleted,
    /// every remaining live link is shifted by the after-delete pass with
    /// the range's span, the text of the range leaves the buffer, the
    /// cursor lands on the range start, the removed text goes to history
    /// as one invertible delete carrying the snapshot ids — and to the
    /// clipboard when `should_yank` holds — and the selection ends.
    pub open spec fn spec_selection_deleted(a: TextArea, b: TextArea, should_yank: bool) -> bool {
        let r = Self::spec_sel_range(a)->0;
        let s = r.0;
        let e = r.1;
        let snaps = a.links@.filter(
            |l: Link| spec_in_del_range(l, s.row as int, s.col as int, e.row as int, e.col as int),
        ).map_values(|l: Link| spec_rel_snapshot(l, s.row as int, s.col as int));
        let opt_snaps: Option<Seq<Link>> = if snaps.len() == 0 {
            None
        } else {
            Some(snaps)
        };
        let payload = spec_range_payload(a.spec_lines(), s, e);
        let newlines = spec_range_removed(a.spec_lines(), s, e);
        let ccol = if s.col <= newlines[s.row as int].len() {
            s.col as int
        } else {
            newlines[s.row as int].len() as int
        };
        let m = if s.row == e.row {
            EditModel::DeleteStr(payload[0], spec_links_ids(opt_snaps))
        } else {
            EditModel::DeleteChunk(payload, spec_links_ids(opt_snaps))
        };
        &&& b.links@.len() == a.links@.len()
        &&& (forall|i: int|
            0 <= i < a.links@.len() ==> b.links@[i] == spec_shift_after_delete(
                if spec_in_del_range(
                    a.links@[i],
                    s.row as int,
                    s.col as int,
                    e.row as int,
                    e.col as int,
                ) {
                    Link { deleted: true, ..a.links@[i] }
                } else {
                    a.links@[i]
                },
                e.row as int,
                e.col as int,
                s.row - e.row,
                s.col - e.col,
                a.max_col as int,
                0,
            ))
        &&& b.deleted_link_ids@ == a.deleted_link_ids@ + snaps.map_values(|l: Link| l.id)
        &&& b.spec_lines() == newlines
        &&& b.cursor == (s.row, ccol as usize)
        &&& (if should_yank {
            b.yank.model() == (if s.row == e.row {
                YankModel::Piece(payload[0], opt_snaps, (s.row, s.col))
            } else {
                YankModel::Chunk(payload, opt_snaps, (s.row, s.col))
            })
        } else {
            b.yank == a.yank
        })
        &&& spec_hist_pushed(
            a.history,
            b.history,
            m,
            e,
            Pos { row: s.row, col: ccol as usize, offset: s.offset },
        )
        &&& b.selection_start is None
        &&& b.pending_link == a.pending_link
        &&& b.next_link_id == a.next_link_id
        &&& b.new_link == a.new_link
        &&& b.copied_link_ids == a.copied_link_ids
        &&& b.tab_len == a.tab_len
        &&& b.hard_tab_indent == a.hard_tab_indent
        &&& b.max_col == a.max_col
    }

    /// Records one edit: the cursor before it is `before`, the cursor
    /// after it is the current cursor with `after_offset` as its offset.
    fn push_history(&mut self, kind: EditKind, before: Pos, after_offset: usize)
        requires
            old(self).history.wf(),
        ensures
            final(self).history.wf(),
            spec_hist_pushed(
                old(self).history,
                final(self).history,
                kind.model(),
                before,
                Pos { row: old(self).cursor.0, col: old(self).cursor.1, offset: after_offset },
            ),
            final(self).lines == old(self).lines,
            final(self).cursor == old(self).cursor,
            final(self).links == old(self).links,
            final(self).pending_link == old(self).pending_link,
            final(self).next_link_id == old(self).next_link_id,
            final(self).new_link == old(self).new_link,
            final(self).deleted_link_ids == old(self).deleted_link_ids,
            final(self).copied_link_ids == old(self).copied_link_ids,
            final(self).tab_len == old(self).tab_len,
            final(self).hard_tab_indent == old(self).hard_tab_indent,
            final(self).yank == old(self).yank,
            final(self).selection_start == old(self).selection_start,
            final(self).max_col == old(self).max_col,
    {
        let after = Pos::new(self.cursor.0, self.cursor.1, after_offset);
        let edit = Edit::new(kind, before, after);
        self.history.push(edit);
        proof {
            let h0 = old(self).history;
            let h1 = self.history;
            if h0.spec_max() != 0 {
                let pre = spec_push_pre(h0.spec_edits(), h0.spec_index(), h0.spec_max());
                assert(h1.spec_edits() == pre.0.push(edit));
                assert(h1.spec_edits().take(pre.0.len() as int) =~= pre.0);
            }
        }
    }

    /// The offset into row `row` at which column `col` starts, clamped as
    /// [`spec_line_offset`] says.
    fn line_offset(&self, row: usize, col: usize) -> (r: usize)
        requires
            self.wf(),
        ensures
            r as int == spec_line_offset(self.spec_lines(), row as int, col as int),
    {
        let ri = if row < self.lines.len() {
            row
        } else {
            self.lines.len() - 1
        };
        let len = self.lines[ri].len();
        if col <= len {
            col
        } else {
            len
        }
    }

    /// The ordered selection range of [`Self::spec_sel_range`],
    /// executably.
    fn selection_range(&self) -> (r: Option<(Pos, Pos)>)
        requires
            self.wf(),
        ensures
            r == Self::spec_sel_range(*self),
    {
        match self.selection_start {
            None => None,
            Some(ss) => {
                let so = self.line_offset(ss.0, ss.1);
                let eo = self.line_offset(self.cursor.0, self.cursor.1);
                let s = Pos::new(ss.0, ss.1, so);
                let e = Pos::new(self.cursor.0, self.cursor.1, eo);
                if ss.0 < self.cursor.0 || (ss.0 == self.cursor.0 && so < eo) {
                    Some((s, e))
                } else if ss.0 == self.cursor.0 && so == eo {
                    None
                } else {
                    Some((e, s))
                }
            },
        }
    }

    /// Removes the text of `start..end` from the buffer: the cursor
    /// lands on the range start (its column clamped into the merged
    /// row), the removed text goes to history as one invertible delete
    /// carrying the given snapshot ids, and to the clipboard when
    /// `should_yank` holds.
    fn delete_range(&mut self, start: Pos, end: Pos, deleted_links: MaybeLinks, should_yank: bool)
        requires
            old(self).wf(),
            start.row <= end.row,
            (end.row as int) < old(self).spec_lines().len(),
            start.offset <= old(self).spec_lines()[start.row as int].len(),
            end.offset <= old(self).spec_lines()[end.row as int].len(),
            start.row == end.row ==> start.offset <= end.offset,
        ensures
            final(self).wf(),
            final(self).spec_lines() == spec_range_removed(old(self).spec_lines(), start, end),
            ({
                let newlines = spec_range_removed(old(self).spec_lines(), start, end);
                let ccol = if start.col <= newlines[start.row as int].len() {
                    start.col as int
                } else {
                    newlines[start.row as int].len() as int
                };
                let payload = spec_range_payload(old(self).spec_lines(), start, end);
                let m = if start.row == end.row {
                    EditModel::DeleteStr(payload[0], spec_links_ids(opt_links_view(deleted_links)))
                } else {
                    EditModel::DeleteChunk(
                        payload,
                        spec_links_ids(opt_links_view(deleted_links)),
                    )
                };
                &&& final(self).cursor == (start.row, ccol as usize)
                &&& spec_hist_pushed(
                    old(self).history,
                    final(self).history,
                    m,
                    end,
                    Pos { row: start.row, col: ccol as usize, offset: start.offset },
                )
                &&& (if should_yank {
                    final(self).yank.model() == (if start.row == end.row {
                        YankModel::Piece(
                            payload[0],
                            opt_links_view(deleted_links),
                            (start.row, start.col),
                        )
                    } else {
                        YankModel::Chunk(
                            payload,
                            opt_links_view(deleted_links),
                            (start.row, start.col),
                        )
                    })
                } else {
                    final(self).yank == old(self).yank
                })
            }),
            final(self).links == old(self).links,
            final(self).pending_link == old(self).pending_link,
            final(self).next_link_id == old(self).next_link_id,
            final(self).new_link == old(self).new_link,
            final(self).deleted_link_ids == old(self).deleted_link_ids,
            final(self).copied_link_ids == old(self).copied_link_ids,
            final(self).tab_len == old(self).tab_len,
            final(self).hard_tab_indent == old(self).hard_tab_indent,
            final(self).selection_start == old(self).selection_start,
            final(self).max_col == old(self).max_col,
    {
        let nrows = self.lines.len();
        let link_ids = ids_of_links(&deleted_links);
        if start.row == end.row {
            let mut removed: Vec<char> = Vec::new();
            push_range(&mut removed, &self.lines[start.row], start.offset, end.offset);
            let newline = crate::history::splice_out(
                &self.lines[start.row],
                start.offset,
                end.offset - start.offset,
            );
            let ghost nl = newline@;
            let lm = crate::history::line_mut(&mut self.lines, start.row);
            *lm = newline;
            proof {
                assert(self.spec_lines() =~~= spec_range_removed(
                    old(self).spec_lines(),
                    start,
                    end,
                ));
                assert(removed@ =~= spec_range_payload(old(self).spec_lines(), start, end)[0]);
            }
            let merged_len = self.lines[start.row].len();
            let ccol = if start.col <= merged_len {
                start.col
            } else {
                merged_len
            };
            self.cursor = (start.row, ccol);
            if should_yank {
                let mut text: Vec<char> = Vec::new();
                push_range(&mut text, &removed, 0, removed.len());
                proof {
                    assert(text@ =~= removed@);
                }
                self.yank = YankText::Piece(text, deleted_links, (start.row, start.col));
            }
            self.push_history(EditKind::DeleteStr(removed, link_ids), end, start.offset);
        } else {
            let mut payload: LineBuffer = Vec::new();
            let mut head: Vec<char> = Vec::new();
            push_range(&mut head, &self.lines[start.row], start.offset, self.lines[start.row].len());
            crate::history::push_line(&mut payload, head);
            crate::history::push_lines_range(&mut payload, &self.lines, start.row + 1, end.row);
            let mut tailpiece: Vec<char> = Vec::new();
            push_range(&mut tailpiece, &self.lines[end.row], 0, end.offset);
            crate::history::push_line(&mut payload, tailpiece);
            proof {
                assert(lines_view(payload@) =~~= spec_range_payload(
                    old(self).spec_lines(),
                    start,
                    end,
                ));
            }
            let mut out: LineBuffer = Vec::new();
            crate::history::push_lines_range(&mut out, &self.lines, 0, start.row);
            let mut merged: Vec<char> = Vec::new();
            push_range(&mut merged, &self.lines[start.row], 0, start.offset);
            push_range(&mut merged, &self.lines[end.row], end.offset, self.lines[end.row].len());
            crate::history::push_line(&mut out, merged);
            crate::history::push_lines_range(&mut out, &self.lines, end.row + 1, nrows);
            self.lines = out;
            proof {
                assert(self.spec_lines() =~~= spec_range_removed(
                    old(self).spec_lines(),
                    start,
                    end,
                ));
            }
            let merged_len = self.lines[start.row].len();
            let ccol = if start.col <= merged_len {
                start.col
            } else {
                merged_len
            };
            self.cursor = (start.row, ccol);
            if should_yank {
                let text = copy_lines(&payload);
                proof {
                    assert(lines_view(text@) == lines_view(payload@));
                }
                self.yank = YankText::Chunk(text, deleted_links, (start.row, start.col));
            }
            self.push_history(EditKind::DeleteChunk(payload, link_ids), end, start.offset);
        }
    }

    /// Deletes the selected text, if a selection covers anything: the
    /// links in the range are snapshotted and soft-deleted, the rest are
    /// shifted, the text is removed, recorded in history and — when
    /// `should_yank` holds — placed in the clipboard. Reports whether
    /// anything changed; either way the selection ends. A selection
    /// whose range no longer addresses the buffer is merely dropped.
    pub fn delete_selection(&mut self, should_yank: bool) -> (r: bool)
        requires
            old(self).wf(),
        ensures
            final(self).wf(),
            Self::spec_sel_active(*old(self)) ==> r == true && Self::spec_selection_deleted(
                *old(self),
                *final(self),
                should_yank,
            ),
            !Self::spec_sel_active(*old(self)) ==> r == false && final(self).selection_start
                is None && final(self).lines == old(self).lines && final(self).cursor == old(self).cursor && final(self).links == old(self).links && final(self).history == old(self).history && final(self).yank == old(self).yank && final(self).pending_link == old(self).pending_link && final(self).next_link_id == old(self).next_link_id && final(self).new_link == old(self).new_link && final(self).deleted_link_ids == old(self).deleted_link_ids && final(self).copied_link_ids == old(self).copied_link_ids && final(self).tab_len == old(self).tab_len && final(self).hard_tab_indent == old(self).hard_tab_indent && final(self).max_col == old(self).max_col,
    {
        let range = self.selection_range();
        self.selection_start = None;
        match range {
            None => false,
            Some((s, e)) => {
                if e.row < self.lines.len() {
                    let deleted_links = self.delete_links_in_range((s.row, s.col), (e.row, e.col));
                    self.shift_links_after_delete((e.row, e.col), (s.row, s.col), 0);
                    self.delete_range(s, e, deleted_links, should_yank);
                    true
                } else {
                    false
                }
            },
        }
    }

    /// The exact effect of splitting the cursor's row at the cursor: the
    /// suffix becomes a new row below, live links follow the split as
    /// the newline shift says, the cursor lands at the new row's head,
    /// and the split is recorded in history. Any selection is gone.
    pub open spec fn spec_newline_inserted(a: TextArea, b: TextArea) -> bool {
        let row = a.cursor.0 as int;
        let col = a.cursor.1 as int;
        let line = a.spec_lines()[row];
        let off = if col <= line.len() {
            col
        } else {
            line.len() as int
        };
        &&& b.spec_lines() == a.spec_lines().update(row, line.take(off)).insert(
            row + 1,
            line.skip(off),
        )
        &&& b.cursor == ((a.cursor.0 + 1) as usize, 0usize)
        &&& b.links@.len() == a.links@.len()
        &&& (forall|i: int|
            0 <= i < a.links@.len() ==> b.links@[i] == spec_shift_newline(a.links@[i], row, col))
        &&& spec_hist_pushed(
            a.history,
            b.history,
            EditModel::InsertNewline,
            Pos { row: a.cursor.0, col: a.cursor.1, offset: off as usize },
            Pos { row: (a.cursor.0 + 1) as usize, col: 0usize, offset: 0usize },
        )
        &&& b.selection_start is None
        &&& b.yank == a.yank
        &&& b.pending_link == a.pending_link
        &&& b.next_link_id == a.next_link_id
        &&& b.new_link == a.new_link
        &&& b.deleted_link_ids == a.deleted_link_ids
        &&& b.copied_link_ids == a.copied_link_ids
        &&& b.tab_len == a.tab_len
        &&& b.hard_tab_indent == a.hard_tab_indent
        &&& b.max_col == a.max_col
    }

    /// Splits the cursor's row in two at the cursor, after deleting any
    /// selected text first: [`Self::spec_newline_inserted`] relates the
    /// states, through the intermediate state of the selection delete
    /// when one was active.
    pub fn insert_newline(&mut self)
        requires
            old(self).wf(),
        ensures
            final(self).wf(),
            Self::spec_sel_active(*old(self)) ==> exists|mid: TextArea|
                #[trigger] Self::spec_selection_deleted(*old(self), mid, false)
                    && Self::spec_newline_inserted(mid, *final(self)),
            !Self::spec_sel_active(*old(self)) ==> Self::spec_newline_inserted(
                *old(self),
                *final(self),
            ),
    {
        self.delete_selection(false);
        let ghost mid = *self;
        let (row, col) = self.cursor;
        let nrows = self.lines.len();
        let len = self.lines[row].len();
        let offset = if col <= len {
            col
        } else {
            len
        };
        let mut tail: Vec<char> = Vec::new();
        push_range(&mut tail, &self.lines[row], offset, len);
        let lm = crate::history::line_mut(&mut self.lines, row);
        lm.truncate(offset);
        self.lines.insert(row + 1, tail);
        proof {
            assert(self.spec_lines() =~~= mid.spec_lines().update(
                row as int,
                mid.spec_lines()[row as int].take(offset as int),
            ).insert(row as int + 1, mid.spec_lines()[row as int].skip(offset as int)));
        }
        self.shift_links_newline(self.cursor);
        self.cursor = (row + 1, 0);
        self.push_history(
            EditKind::InsertNewline,
            Pos::new(row, col, offset),
            0,
        );
        proof {
            assert(Self::spec_newline_inserted(mid, *self));
            if Self::spec_sel_active(*old(self)) {
                assert(Self::spec_selection_deleted(*old(self), mid, false));
            }
        }
    }
}

impl TextArea {
    /// The exact effect of joining the cursor's row onto the previous
    /// one: when either row is empty or both fit under the width limit
    /// together, the whole row folds up; otherwise only a word-aligned
    /// prefix of at most the remaining width folds up. Live links take
    /// the after-delete shift for the join, with the folded length as
    /// the reflow pin, and the join is recorded in history.
    pub open spec fn spec_newline_deleted(a: TextArea, b: TextArea) -> bool {
        let row = a.cursor.0 as int;
        let prev = a.spec_lines()[row - 1];
        let line = a.spec_lines()[row];
        let mc = a.max_col as int;
        let td0 = if prev.len() < mc {
            mc - prev.len() - 1
        } else {
            0
        };
        let whole = prev.len() == 0 || line.len() == 0 || line.len() + prev.len() < mc;
        let w = spec_word_start(line, td0);
        let d1 = if w == 0 {
            td0
        } else {
            w
        };
        let d = if whole {
            line.len() as int
        } else if d1 <= line.len() {
            d1
        } else {
            line.len() as int
        };
        let pin = if whole {
            td0
        } else {
            d
        };
        &&& b.spec_lines() == (if whole {
            a.spec_lines().update(row - 1, prev + line).remove(row)
        } else {
            a.spec_lines().update(row - 1, prev + line.take(d)).update(row, line.skip(d))
        })
        &&& b.cursor == (((row - 1) as usize, prev.len() as usize))
        &&& b.links@.len() == a.links@.len()
        &&& (forall|i: int|
            0 <= i < a.links@.len() ==> b.links@[i] == spec_shift_after_delete(
                a.links@[i],
                row,
                0,
                -1,
                prev.len() as int,
                a.max_col as int,
                pin,
            ))
        &&& spec_hist_pushed(
            a.history,
            b.history,
            EditModel::DeleteNewline,
            Pos { row: a.cursor.0, col: 0usize, offset: 0usize },
            Pos {
                row: (row - 1) as usize,
                col: prev.len() as usize,
                offset: prev.len() as usize,
            },
        )
        &&& b.selection_start is None
        &&& b.yank == a.yank
        &&& b.pending_link == a.pending_link
        &&& b.next_link_id == a.next_link_id
        &&& b.new_link == a.new_link
        &&& b.deleted_link_ids == a.deleted_link_ids
        &&& b.copied_link_ids == a.copied_link_ids
        &&& b.tab_len == a.tab_len
        &&& b.hard_tab_indent == a.hard_tab_indent
        &&& b.max_col == a.max_col
    }

    /// Joins the cursor's row onto the previous one — whole, or by a
    /// word-aligned prefix when the two together would overhang the
    /// width limit — after deleting any selected text first. At the top
    /// row there is no newline before the cursor and nothing changes.
    /// Reports whether anything changed.
    pub fn delete_newline(&mut self) -> (r: bool)
        requires
            old(self).wf(),
        ensures
            final(self).wf(),
            Self::spec_sel_active(*old(self)) ==> r == true && Self::spec_selection_deleted(
                *old(self),
                *final(self),
                false,
            ),
            !Self::spec_sel_active(*old(self)) && old(self).cursor.0 == 0 ==> r == false
                && Self::spec_sel_cleared(*old(self), *final(self)),
            !Self::spec_sel_active(*old(self)) && old(self).cursor.0 > 0 ==> r == true
                && Self::spec_newline_deleted(*old(self), *final(self)),
    {
        if self.delete_selection(false) {
            return true;
        }
        let row = self.cursor.0;
        if row == 0 {
            return false;
        }
        let prev_len = self.lines[row - 1].len();
        let line_len = self.lines[row].len();
        let mc = self.max_col as usize;
        let td0 = if prev_len < mc {
            mc - prev_len - 1
        } else {
            0
        };
        let whole = prev_len == 0 || line_len == 0 || (prev_len < mc && line_len < mc - prev_len);
        let (moved, pin) = if whole {
            let m = copy_chars(&self.lines[row]);
            let lm = crate::history::line_mut(&mut self.lines, row - 1);
            push_range(lm, &m, 0, m.len());
            self.lines.remove(row);
            (m, td0)
        } else {
            let w = crate::util::find_word_start_backward(&self.lines[row], td0);
            let d1 = if w == 0 {
                td0
            } else {
                w
            };
            let d = if d1 <= line_len {
                d1
            } else {
                line_len
            };
            let mut m: Vec<char> = Vec::new();
            push_range(&mut m, &self.lines[row], 0, d);
            let rest = crate::history::splice_out(&self.lines[row], 0, d);
            let lm = crate::history::line_mut(&mut self.lines, row);
            *lm = rest;
            let pm = crate::history::line_mut(&mut self.lines, row - 1);
            push_range(pm, &m, 0, m.len());
            (m, d)
        };
        proof {
            let a = *old(self);
            let arow = a.cursor.0 as int;
            let prev = a.spec_lines()[arow - 1];
            let line = a.spec_lines()[arow];
            if whole {
                assert(self.spec_lines() =~~= a.spec_lines().update(arow - 1, prev + line).remove(
                    arow,
                ));
            } else {
                assert(self.spec_lines() =~~= a.spec_lines().update(
                    arow - 1,
                    prev + line.take(pin as int),
                ).update(arow, line.skip(pin as int)));
            }
        }
        self.shift_links_after_delete((row, 0), (row - 1, prev_len), pin);
        self.cursor = (row - 1, prev_len);
        self.push_history(EditKind::DeleteNewline, Pos::new(row, 0, 0), prev_len);
        true
    }

    /// The exact effect of deleting the cursor's whole row: every live
    /// link on it is snapshotted and soft-deleted, links below move up
    /// one row, the row leaves the buffer (an emptied buffer becomes one
    /// empty line), the removal is recorded in history, and the cursor
    /// lands per the `shift_up` convention, clamped into the buffer.
    pub open spec fn spec_line_deleted(a: TextArea, b: TextArea, shift_up: bool) -> bool {
        let row = a.cursor.0 as int;
        let line = a.spec_lines()[row];
        let snaps = a.links@.filter(
            |l: Link|
                spec_in_del_range(l, row, 0, row, usize::MAX as int),
        ).map_values(|l: Link| spec_rel_snapshot(l, row, 0));
        let opt_snaps: Option<Seq<usize>> = if snaps.len() == 0 {
            None
        } else {
            Some(snaps.map_values(|l: Link| l.id))
        };
        let removed = a.spec_lines().remove(row);
        let newlines = if removed.len() == 0 {
            removed.push(Seq::<char>::empty())
        } else {
            removed
        };
        let crow = if removed.len() == 0 {
            0
        } else if row == removed.len() {
            row - 1
        } else if shift_up && row > 0 {
            row - 1
        } else {
            row
        };
        let ccol = if removed.len() == 0 {
            0
        } else if a.cursor.1 <= newlines[crow].len() {
            a.cursor.1 as int
        } else {
            newlines[crow].len() as int
        };
        &&& b.spec_lines() == newlines
        &&& b.cursor == ((crow as usize, ccol as usize))
        &&& b.links@.len() == a.links@.len()
        &&& (forall|i: int|
            0 <= i < a.links@.len() ==> b.links@[i] == spec_shift_after_delete(
                if spec_in_del_range(a.links@[i], row, 0, row, usize::MAX as int) {
                    Link { deleted: true, ..a.links@[i] }
                } else {
                    a.links@[i]
                },
                row + 1,
                0,
                -1,
                0,
                a.max_col as int,
                0,
            ))
        &&& b.deleted_link_ids@ == a.deleted_link_ids@ + a.links@.filter(
            |l: Link| spec_in_del_range(l, row, 0, row, usize::MAX as int),
        ).map_values(|l: Link| l.id)
        &&& spec_hist_pushed(
            a.history,
            b.history,
            EditModel::DeleteLine(line, opt_snaps),
            Pos { row: (row + 1) as usize, col: 0usize, offset: 0usize },
            Pos { row: a.cursor.0, col: a.cursor.1, offset: 0usize },
        )
        &&& b.selection_start == a.selection_start
        &&& b.yank == a.yank
        &&& b.pending_link == a.pending_link
        &&& b.next_link_id == a.next_link_id
        &&& b.new_link == a.new_link
        &&& b.copied_link_ids == a.copied_link_ids
        &&& b.tab_len == a.tab_len
        &&& b.hard_tab_indent == a.hard_tab_indent
        &&& b.max_col == a.max_col
    }

    /// Deletes the cursor's whole row, as [`Self::spec_line_deleted`]
    /// says; `shift_up` chooses whether the cursor follows the deleted
    /// row upward. Always reports a change.
    pub fn delete_line(&mut self, shift_up: bool) -> (r: bool)
        requires
            old(self).wf(),
        ensures
            final(self).wf(),
            r == true,
            Self::spec_line_deleted(*old(self), *final(self), shift_up),
    {
        let row = self.cursor.0;
        let nrows = self.lines.len();
        let line = copy_chars(&self.lines[row]);
        self.lines.remove(row);
        proof {
            assert(self.spec_lines() =~~= old(self).spec_lines().remove(row as int));
        }
        let deleted_links = self.delete_links_in_range((row, 0), (row, usize::MAX));
        proof {
            let f = old(self).links@.filter(
                |l: Link| spec_in_del_range(l, row as int, 0, row as int, usize::MAX as int),
            );
            assert(f.map_values(|l: Link| spec_rel_snapshot(l, row as int, 0)).map_values(
                |l: Link| l.id,
            ) =~= f.map_values(|l: Link| l.id));
        }
        self.shift_links_after_delete((row + 1, 0), (row, 0), 0);
        let link_ids = ids_of_links(&deleted_links);
        self.push_history(EditKind::DeleteLine(line, link_ids), Pos::new(row + 1, 0, 0), 0);
        if self.lines.len() == 0 {
            self.lines.push(Vec::new());
            self.cursor = (0, 0);
            proof {
                assert(self.spec_lines() =~~= old(self).spec_lines().remove(
                    old(self).cursor.0 as int,
                ).push(Seq::<char>::empty()));
            }
        } else {
            let crow = if row == self.lines.len() {
                row - 1
            } else if shift_up && row > 0 {
                row - 1
            } else {
                row
            };
            let clen = self.lines[crow].len();
            let ccol = if self.cursor.1 <= clen {
                self.cursor.1
            } else {
                clen
            };
            self.cursor = (crow, ccol);
        }
        true
    }

    /// The exact effect of deleting up to `chars` characters of the
    /// cursor's row from column `col`: the covered links are snapshotted
    /// and soft-deleted, the remaining live links of the row slide left
    /// (from the range end, or from `col` itself when the row came up
    /// empty), the text leaves the buffer into the clipboard, and the
    /// removal is recorded in history. Nothing happens when `chars` is
    /// zero or `col` is past the row's end.
    pub open spec fn spec_piece_deleted(
        a: TextArea,
        b: TextArea,
        col: int,
        chars: int,
        r: bool,
    ) -> bool {
        let row = a.cursor.0 as int;
        let line = a.spec_lines()[row];
        if chars == 0 || col >= line.len() {
            r == false && b == a
        } else {
            let n = if chars <= line.len() - col {
                chars
            } else {
                line.len() - col
            };
            let removed = line.subrange(col, col + n);
            let rng_end = shifted(col, chars);
            let line_empty = line.len() - n == 0;
            let start_col = if line_empty {
                col
            } else {
                shifted(col, chars)
            };
            let snaps = a.links@.filter(
                |l: Link| spec_in_del_range(l, row, col, row, rng_end),
            ).map_values(|l: Link| spec_rel_snapshot(l, row, col));
            let opt_snaps: Option<Seq<Link>> = if snaps.len() == 0 {
                None
            } else {
                Some(snaps)
            };
            &&& r == true
            &&& b.spec_lines() == a.spec_lines().update(row, line.take(col) + line.skip(col + n))
            &&& b.cursor == ((a.cursor.0, col as usize))
            &&& b.links@.len() == a.links@.len()
            &&& (forall|i: int|
                0 <= i < a.links@.len() ==> b.links@[i] == spec_shift_after_delete(
                    if spec_in_del_range(a.links@[i], row, col, row, rng_end) {
                        Link { deleted: true, ..a.links@[i] }
                    } else {
                        a.links@[i]
                    },
                    row,
                    start_col,
                    0,
                    col - start_col,
                    a.max_col as int,
                    0,
                ))
            &&& b.deleted_link_ids@ == a.deleted_link_ids@ + snaps.map_values(|l: Link| l.id)
            &&& b.yank.model() == YankModel::Piece(
                removed,
                opt_snaps,
                (a.cursor.0, start_col as usize),
            )
            &&& spec_hist_pushed(
                a.history,
                b.history,
                EditModel::DeleteStr(removed, spec_links_ids(opt_snaps)),
                Pos { row: a.cursor.0, col: rng_end as usize, offset: (col + n) as usize },
                Pos { row: a.cursor.0, col: col as usize, offset: col as usize },
            )
            &&& b.selection_start == a.selection_start
            &&& b.pending_link == a.pending_link
            &&& b.next_link_id == a.next_link_id
            &&& b.new_link == a.new_link
            &&& b.copied_link_ids == a.copied_link_ids
            &&& b.tab_len == a.tab_len
            &&& b.hard_tab_indent == a.hard_tab_indent
            &&& b.max_col == a.max_col
        }
    }

    /// Deletes up to `chars` characters of the cursor's row starting at
    /// column `col`, as [`Self::spec_piece_deleted`] says. Reports
    /// whether anything was deleted.
    pub fn delete_piece(&mut self, col: usize, chars: usize) -> (r: bool)
        requires
            old(self).wf(),
        ensures
            final(self).wf(),
            Self::spec_piece_deleted(*old(self), *final(self), col as int, chars as int, r),
    {
        if chars == 0 {
            return false;
        }
        let row = self.cursor.0;
        let line_len = self.lines[row].len();
        if col >= line_len {
            return false;
        }
        let n = if chars <= line_len - col {
            chars
        } else {
            line_len - col
        };
        let mut removed: Vec<char> = Vec::new();
        push_range(&mut removed, &self.lines[row], col, col + n);
        let rest = crate::history::splice_out(&self.lines[row], col, n);
        let lm = crate::history::line_mut(&mut self.lines, row);
        *lm = rest;
        proof {
            assert(self.spec_lines() =~~= old(self).spec_lines().update(
                row as int,
                old(self).spec_lines()[row as int].take(col as int) + old(self).spec_lines()[
                    row as int
                ].skip(col as int + n as int),
            ));
            assert(removed@ =~= old(self).spec_lines()[row as int].subrange(
                col as int,
                col as int + n as int,
            ));
        }
        let line_empty = self.lines[row].len() == 0;
        let rng_end = shift_usize(col, 0, chars);
        let deleted_links = self.delete_links_in_range((row, col), (row, rng_end));
        let link_ids = ids_of_links(&deleted_links);
        let start_col = if line_empty {
            col
        } else {
            rng_end
        };
        self.shift_links_after_delete((row, start_col), (row, col), 0);
        self.cursor = (row, col);
        let mut text: Vec<char> = Vec::new();
        push_range(&mut text, &removed, 0, removed.len());
        proof {
            assert(text@ =~= removed@);
        }
        self.push_history(
            EditKind::DeleteStr(removed, link_ids),
            Pos::new(row, rng_end, col + n),
            col,
        );
        self.yank = YankText::Piece(text, deleted_links, (row, start_col));
        true
    }
}

/// True when some live link in `links` covers (`row`, `col`).
pub open spec fn spec_covers_any(links: Seq<Link>, row: int, col: int) -> bool {
    exists|i: int| 0 <= i < links.len() && spec_covers(links[i], row, col)
}

/// The position in store order of the first live link covering
/// (`row`, `col`) — meaningful when one exists.
pub open spec fn spec_first_cover_idx(links: Seq<Link>, row: int, col: int) -> int {
    choose|i: int|
        0 <= i < links.len() && spec_covers(links[i], row, col) && (forall|j: int|
            0 <= j < i ==> !spec_covers(links[j], row, col))
}

/// When a covering link exists, a first one exists, and
/// [`spec_first_cover_idx`] names it.
pub proof fn lemma_first_cover(links: Seq<Link>, row: int, col: int)
    requires
        spec_covers_any(links, row, col),
    ensures
        ({
            let i = spec_first_cover_idx(links, row, col);
            &&& 0 <= i < links.len()
            &&& spec_covers(links[i], row, col)
            &&& forall|j: int| 0 <= j < i ==> !spec_covers(links[j], row, col)
        }),
    decreases links.len(),
{
    if spec_covers(links[0], row, col) {
        assert(0 <= 0 < links.len() && spec_covers(links[0], row, col) && (forall|j: int|
            0 <= j < 0 ==> !spec_covers(links[j], row, col)));
    } else {
        let w = choose|i: int| 0 <= i < links.len() && spec_covers(links[i], row, col);
        let rest = links.skip(1);
        assert(rest[w - 1] == links[w]);
        assert(spec_covers_any(rest, row, col));
        lemma_first_cover(rest, row, col);
        let i1 = spec_first_cover_idx(rest, row, col);
        assert(links[i1 + 1] == rest[i1]);
        assert(forall|j: int| 1 <= j < i1 + 1 ==> links[j] == rest[j - 1]);
        assert(0 <= i1 + 1 < links.len() && spec_covers(links[i1 + 1], row, col) && (forall|
            j: int,
        |
            0 <= j < i1 + 1 ==> !spec_covers(links[j], row, col)));
    }
}

impl TextArea {
    /// True when `b` carries the very same state as `a`, compared by
    /// the mathematical views of the buffer, the store and the history.
    pub open spec fn same_state_view(a: TextArea, b: TextArea) -> bool {
        &&& b.lines@ == a.lines@
        &&& b.cursor == a.cursor
        &&& b.links@ == a.links@
        &&& b.pending_link == a.pending_link
        &&& b.next_link_id == a.next_link_id
        &&& b.new_link == a.new_link
        &&& b.deleted_link_ids == a.deleted_link_ids
        &&& b.copied_link_ids == a.copied_link_ids
        &&& b.tab_len == a.tab_len
        &&& b.hard_tab_indent == a.hard_tab_indent
        &&& b.history.spec_edits() == a.history.spec_edits()
        &&& b.history.spec_index() == a.history.spec_index()
        &&& b.history.spec_max() == a.history.spec_max()
        &&& b.history.spec_diverged() == a.history.spec_diverged()
        &&& b.yank == a.yank
        &&& b.selection_start == a.selection_start
        &&& b.max_col == a.max_col
    }

    /// True when `b` is `a` after a refused replay: a history record no
    /// longer addressed the buffer or the store, so nothing was applied
    /// and the history's divergence flag is up — the loud, unrecoverable
    /// signal that history and state have parted, distinguishable from
    /// an ordinary "nothing to undo".
    pub open spec fn spec_replay_diverged(a: TextArea, b: TextArea) -> bool {
        &&& b.lines@ == a.lines@
        &&& b.cursor == a.cursor
        &&& b.links@ == a.links@
        &&& b.pending_link == a.pending_link
        &&& b.next_link_id == a.next_link_id
        &&& b.new_link == a.new_link
        &&& b.deleted_link_ids == a.deleted_link_ids
        &&& b.copied_link_ids == a.copied_link_ids
        &&& b.tab_len == a.tab_len
        &&& b.hard_tab_indent == a.hard_tab_indent
        &&& b.history.spec_edits() == a.history.spec_edits()
        &&& b.history.spec_index() == a.history.spec_index()
        &&& b.history.spec_max() == a.history.spec_max()
        &&& b.history.spec_diverged() == true
        &&& b.yank == a.yank
        &&& b.selection_start == a.selection_start
        &&& b.max_col == a.max_col
    }

    /// True when every field of `b` equals the one of `a`.
    pub open spec fn same_state(a: TextArea, b: TextArea) -> bool {
        &&& b.lines == a.lines
        &&& b.cursor == a.cursor
        &&& b.links == a.links
        &&& b.pending_link == a.pending_link
        &&& b.next_link_id == a.next_link_id
        &&& b.new_link == a.new_link
        &&& b.deleted_link_ids == a.deleted_link_ids
        &&& b.copied_link_ids == a.copied_link_ids
        &&& b.tab_len == a.tab_len
        &&& b.hard_tab_indent == a.hard_tab_indent
        &&& b.history == a.history
        &&& b.yank == a.yank
        &&& b.selection_start == a.selection_start
        &&& b.max_col == a.max_col
    }

    /// The position a character delete at the cursor targets: the
    /// character left of the cursor, the end of the previous row when
    /// the cursor is at a row's head, the origin at the very start.
    pub open spec fn spec_delete_pos(a: TextArea) -> (int, int) {
        let row = a.cursor.0 as int;
        let col = a.cursor.1 as int;
        if row > 0 && col == 0 {
            (row - 1, a.spec_lines()[row - 1].len() as int)
        } else if col == 0 {
            (0, 0)
        } else {
            (row, col - 1)
        }
    }

    /// The exact effect of soft-deleting the first live link covering
    /// the delete target, when one covers it: that link's `deleted` flag
    /// is toggled and its id recorded; otherwise the store is untouched.
    /// Any selection is gone; everything else stays.
    pub open spec fn spec_hit_link_soft_deleted(a: TextArea, b: TextArea) -> bool {
        let dpos = Self::spec_delete_pos(a);
        &&& (if spec_covers_any(a.links@, dpos.0, dpos.1) {
            let id = a.links@[spec_first_cover_idx(a.links@, dpos.0, dpos.1)].id;
            &&& b.links@ == a.links@.update(
                seq_idx_of(a.links@, id),
                Link {
                    deleted: !seq_link(a.links@, id).deleted,
                    ..seq_link(a.links@, id)
                },
            )
            &&& b.deleted_link_ids@ == a.deleted_link_ids@.push(id)
        } else {
            b.links == a.links && b.deleted_link_ids == a.deleted_link_ids
        })
        &&& b.selection_start is None
        &&& b.lines == a.lines
        &&& b.cursor == a.cursor
        &&& b.pending_link == a.pending_link
        &&& b.next_link_id == a.next_link_id
        &&& b.new_link == a.new_link
        &&& b.copied_link_ids == a.copied_link_ids
        &&& b.tab_len == a.tab_len
        &&& b.hard_tab_indent == a.hard_tab_indent
        &&& b.history == a.history
        &&& b.yank == a.yank
        &&& b.max_col == a.max_col
    }

    /// The exact effect of removing the character left of the cursor on
    /// its own row: the row loses that character, the cursor steps left,
    /// live links of the row at or after the cursor slide one column
    /// left, and the removal is recorded carrying `ids`.
    pub open spec fn spec_char_removed(a: TextArea, b: TextArea, ids: Option<Seq<usize>>) -> bool {
        let row = a.cursor.0 as int;
        let col = a.cursor.1 as int;
        let line = a.spec_lines()[row];
        let c = line[col - 1];
        &&& b.spec_lines() == a.spec_lines().update(row, line.take(col - 1) + line.skip(col))
        &&& b.cursor == ((a.cursor.0, (col - 1) as usize))
        &&& b.links@.len() == a.links@.len()
        &&& (forall|i: int|
            0 <= i < a.links@.len() ==> b.links@[i] == spec_shift_after_delete(
                a.links@[i],
                row,
                col,
                0,
                -1,
                a.max_col as int,
                0,
            ))
        &&& spec_hist_pushed(
            a.history,
            b.history,
            EditModel::DeleteChar(c, ids),
            Pos { row: a.cursor.0, col: a.cursor.1, offset: a.cursor.1 },
            Pos { row: a.cursor.0, col: (col - 1) as usize, offset: (col - 1) as usize },
        )
        &&& b.selection_start == a.selection_start
        &&& b.yank == a.yank
        &&& b.pending_link == a.pending_link
        &&& b.next_link_id == a.next_link_id
        &&& b.new_link == a.new_link
        &&& b.deleted_link_ids == a.deleted_link_ids
        &&& b.copied_link_ids == a.copied_link_ids
        &&& b.tab_len == a.tab_len
        &&& b.hard_tab_indent == a.hard_tab_indent
        &&& b.max_col == a.max_col
    }

    /// The id list a character delete carries: the first live link
    /// covering the delete target, if one covers it.
    pub open spec fn spec_hit_ids(a: TextArea) -> Option<Seq<usize>> {
        let dpos = Self::spec_delete_pos(a);
        if spec_covers_any(a.links@, dpos.0, dpos.1) {
            Some(seq![a.links@[spec_first_cover_idx(a.links@, dpos.0, dpos.1)].id])
        } else {
            None
        }
    }

    /// Deletes one character before the cursor, after deleting any
    /// selected text first. A live link covering the delete target is
    /// soft-deleted beforehand. At a row's head the newline before the
    /// cursor is removed instead; at the buffer's very start the call
    /// is a no-op that touches neither text nor links. Reports whether
    /// anything was deleted.
    pub fn delete_char(&mut self) -> (r: bool)
        requires
            old(self).wf(),
        ensures
            final(self).wf(),
            Self::spec_sel_active(*old(self)) ==> r == true && Self::spec_selection_deleted(
                *old(self),
                *final(self),
                false,
            ),
            !Self::spec_sel_active(*old(self)) ==> Self::spec_char_delete_post(
                *old(self),
                *final(self),
                r,
            ),
    {
        if self.delete_selection(false) {
            return true;
        }
        let (row, col) = self.cursor;
        if row == 0 && col == 0 {
            proof {
                assert(Self::spec_sel_cleared(*old(self), *self));
                assert(Self::spec_char_delete_post(*old(self), *self, false));
            }
            return false;
        }
        let dpos = if row > 0 && col == 0 {
            (row - 1, self.lines[row - 1].len())
        } else if col == 0 {
            (0, 0)
        } else {
            (row, col - 1)
        };
        let hit = self.in_link(dpos);
        let link_ids: MaybeLinkIds = match hit {
            Some(id) => {
                proof {
                    lemma_first_cover(self.links@, dpos.0 as int, dpos.1 as int);
                    assert(seq_has_id(self.links@, id));
                }
                self.delete_link(id);
                let mut v: Vec<usize> = Vec::new();
                v.push(id);
                Some(v)
            },
            None => None,
        };
        let ghost mid = *self;
        proof {
            assert(Self::spec_hit_link_soft_deleted(*old(self), mid));
        }
        if col == 0 {
            let rr = self.delete_newline();
            proof {
                assert(Self::spec_hit_link_soft_deleted(*old(self), mid));
                assert(rr == true && Self::spec_newline_deleted(mid, *self));
                assert(Self::spec_char_delete_post(*old(self), *self, rr));
            }
            return rr;
        }
        self.shift_links_after_delete((row, col), dpos, 0);
        let c = self.lines[row][col - 1];
        let rest = crate::history::splice_out(&self.lines[row], col - 1, 1);
        let lm = crate::history::line_mut(&mut self.lines, row);
        *lm = rest;
        proof {
            assert(self.spec_lines() =~~= mid.spec_lines().update(
                row as int,
                mid.spec_lines()[row as int].take(col as int - 1) + mid.spec_lines()[
                    row as int
                ].skip(col as int),
            ));
        }
        self.cursor = (row, col - 1);
        self.push_history(
            EditKind::DeleteChar(c, link_ids),
            Pos::new(row, col, col),
            col - 1,
        );
        proof {
            assert(opt_ids_view(link_ids) == Self::spec_hit_ids(*old(self)));
            assert(Self::spec_char_removed(mid, *self, Self::spec_hit_ids(*old(self))));
            assert(Self::spec_char_delete_post(*old(self), *self, true));
        }
        true
    }
}

/// The position reached from (`row`, `off`) after stepping over `n`
/// characters, a joining newline counting as one; the walk stops at the
/// end of the last row.
pub open spec fn spec_advance(v: Seq<Seq<char>>, row: int, off: int, n: int) -> (int, int)
    decreases v.len() - row,
{
    if off + n <= v[row].len() {
        (row, off + n)
    } else if row + 1 < v.len() {
        spec_advance(v, row + 1, 0, n - (v[row].len() - off) - 1)
    } else {
        (row, v[row].len() as int)
    }
}

impl TextArea {
    /// True when `b` is `a` with the selection dropped and nothing else
    /// changed.
    pub open spec fn spec_sel_cleared(a: TextArea, b: TextArea) -> bool {
        &&& b.selection_start is None
        &&& b.lines == a.lines
        &&& b.cursor == a.cursor
        &&& b.links == a.links
        &&& b.pending_link == a.pending_link
        &&& b.next_link_id == a.next_link_id
        &&& b.new_link == a.new_link
        &&& b.deleted_link_ids == a.deleted_link_ids
        &&& b.copied_link_ids == a.copied_link_ids
        &&& b.tab_len == a.tab_len
        &&& b.hard_tab_indent == a.hard_tab_indent
        &&& b.history == a.history
        &&& b.yank == a.yank
        &&& b.max_col == a.max_col
    }

    /// True when `b` is `a` with the cursor at `rc`, the selection
    /// dropped, and nothing else changed.
    pub open spec fn spec_cursor_set(a: TextArea, b: TextArea, rc: (usize, usize)) -> bool {
        &&& b.cursor == rc
        &&& b.selection_start is None
        &&& b.lines == a.lines
        &&& b.links == a.links
        &&& b.pending_link == a.pending_link
        &&& b.next_link_id == a.next_link_id
        &&& b.new_link == a.new_link
        &&& b.deleted_link_ids == a.deleted_link_ids
        &&& b.copied_link_ids == a.copied_link_ids
        &&& b.tab_len == a.tab_len
        &&& b.hard_tab_indent == a.hard_tab_indent
        &&& b.history == a.history
        &&& b.yank == a.yank
        &&& b.max_col == a.max_col
    }

    /// What a character delete does once any selection is gone: at the
    /// buffer's very start nothing at all changes — deleting there is a
    /// documented no-op, so no link is touched either; anywhere else the
    /// covering link, if any, is soft-deleted first and then the
    /// character or the newline before the cursor is removed. See
    /// [`Self::delete_char`].
    pub open spec fn spec_char_delete_post(a: TextArea, b: TextArea, r: bool) -> bool {
        if a.cursor.0 == 0 && a.cursor.1 == 0 {
            r == false && Self::spec_sel_cleared(a, b)
        } else {
            exists|mid: TextArea|
                {
                    &&& #[trigger] Self::spec_hit_link_soft_deleted(a, mid)
                    &&& (if a.cursor.1 == 0 {
                        r == true && Self::spec_newline_deleted(mid, b)
                    } else {
                        r == true && Self::spec_char_removed(mid, b, Self::spec_hit_ids(a))
                    })
                }
        }
    }

    /// What a newline delete does once any selection is gone: see
    /// [`Self::delete_newline`].
    pub open spec fn spec_newline_delete_post(a: TextArea, b: TextArea, r: bool) -> bool {
        if a.cursor.0 == 0 {
            r == false && Self::spec_sel_cleared(a, b)
        } else {
            r == true && Self::spec_newline_deleted(a, b)
        }
    }

    /// What a forward character delete does once any selection is gone:
    /// the cursor steps forward — within its row, or onto the next
    /// row's head — and the character delete runs there; with no
    /// position to step to, nothing happens. See
    /// [`Self::delete_next_char`].
    pub open spec fn spec_next_char_delete_post(a: TextArea, b: TextArea, r: bool) -> bool {
        let row = a.cursor.0 as int;
        let col = a.cursor.1 as int;
        let len = a.spec_lines()[row].len() as int;
        if col < len {
            exists|m1: TextArea|
                #[trigger] Self::spec_cursor_set(a, m1, (a.cursor.0, (col + 1) as usize))
                    && Self::spec_char_delete_post(m1, b, r)
        } else if row + 1 < a.spec_lines().len() {
            exists|m1: TextArea|
                #[trigger] Self::spec_cursor_set(a, m1, ((row + 1) as usize, 0usize))
                    && Self::spec_char_delete_post(m1, b, r)
        } else {
            r == false && Self::spec_sel_cleared(a, b)
        }
    }

    /// Deletes the character at the cursor — at a row's end, the newline
    /// after it — after deleting any selected text first. Reports
    /// whether anything was deleted.
    pub fn delete_next_char(&mut self) -> (r: bool)
        requires
            old(self).wf(),
        ensures
            final(self).wf(),
            Self::spec_sel_active(*old(self)) ==> r == true && Self::spec_selection_deleted(
                *old(self),
                *final(self),
                false,
            ),
            !Self::spec_sel_active(*old(self)) ==> Self::spec_next_char_delete_post(
                *old(self),
                *final(self),
                r,
            ),
    {
        if self.delete_selection(false) {
            return true;
        }
        let (row, col) = self.cursor;
        let n = self.lines.len();
        let len = self.lines[row].len();
        if col < len {
            self.cursor = (row, col + 1);
            let ghost m1 = *self;
            let rr = self.delete_char();
            proof {
                assert(Self::spec_cursor_set(*old(self), m1, (row, (col + 1) as usize)));
            }
            rr
        } else if row + 1 < n {
            self.cursor = (row + 1, 0);
            let ghost m1 = *self;
            let rr = self.delete_char();
            proof {
                assert(Self::spec_cursor_set(*old(self), m1, ((row + 1) as usize, 0usize)));
            }
            rr
        } else {
            false
        }
    }

    /// What a piece delete from the cursor's column to the row's end
    /// does, and the forward character delete it falls back to at the
    /// row's end: see [`Self::delete_line_by_end`].
    pub open spec fn spec_line_by_end_post(a: TextArea, b: TextArea, r: bool) -> bool {
        let col = a.cursor.1 as int;
        let len = a.spec_lines()[a.cursor.0 as int].len() as int;
        if col < len {
            r == true && Self::spec_piece_deleted(a, b, col, usize::MAX as int, true)
        } else {
            Self::spec_next_char_delete_post(a, b, r)
        }
    }

    /// Deletes from the cursor to the end of its row; at the row's end,
    /// the newline after the cursor instead. Deletes the selection when
    /// one is active. Reports whether anything was deleted.
    pub fn delete_line_by_end(&mut self) -> (r: bool)
        requires
            old(self).wf(),
        ensures
            final(self).wf(),
            Self::spec_sel_active(*old(self)) ==> r == true && Self::spec_selection_deleted(
                *old(self),
                *final(self),
                false,
            ),
            !Self::spec_sel_active(*old(self)) ==> exists|m1: TextArea|
                #[trigger] Self::spec_sel_cleared(*old(self), m1) && Self::spec_line_by_end_post(
                    m1,
                    *final(self),
                    r,
                ),
    {
        if self.delete_selection(false) {
            return true;
        }
        let ghost m1 = *self;
        let col = self.cursor.1;
        if self.delete_piece(col, usize::MAX) {
            proof {
                assert(Self::spec_sel_cleared(*old(self), m1));
            }
            return true;
        }
        let rr = self.delete_next_char();
        proof {
            assert(Self::spec_sel_cleared(*old(self), m1));
        }
        rr
    }

    /// What a piece delete from the row's head to the cursor does, and
    /// the newline delete it falls back to at a row's head: see
    /// [`Self::delete_line_by_head`].
    pub open spec fn spec_line_by_head_post(a: TextArea, b: TextArea, r: bool) -> bool {
        let col = a.cursor.1 as int;
        if 0 < col && 0 < a.spec_lines()[a.cursor.0 as int].len() {
            r == true && Self::spec_piece_deleted(a, b, 0, col, true)
        } else {
            Self::spec_newline_delete_post(a, b, r)
        }
    }

    /// Deletes from the head of the cursor's row to the cursor; at the
    /// row's head, the newline before the cursor instead. Deletes the
    /// selection when one is active. Reports whether anything was
    /// deleted.
    pub fn delete_line_by_head(&mut self) -> (r: bool)
        requires
            old(self).wf(),
        ensures
            final(self).wf(),
            Self::spec_sel_active(*old(self)) ==> r == true && Self::spec_selection_deleted(
                *old(self),
                *final(self),
                false,
            ),
            !Self::spec_sel_active(*old(self)) ==> exists|m1: TextArea|
                #[trigger] Self::spec_sel_cleared(*old(self), m1) && Self::spec_line_by_head_post(
                    m1,
                    *final(self),
                    r,
                ),
    {
        if self.delete_selection(false) {
            return true;
        }
        let ghost m1 = *self;
        let col = self.cursor.1;
        if self.delete_piece(0, col) {
            proof {
                assert(Self::spec_sel_cleared(*old(self), m1));
            }
            return true;
        }
        let rr = self.delete_newline();
        proof {
            assert(Self::spec_sel_cleared(*old(self), m1));
        }
        rr
    }

    /// What a backward word delete does once any selection is gone: the
    /// word boundary before the cursor bounds the removed piece; at a
    /// row's head the newline before the cursor is removed instead. See
    /// [`Self::delete_word`].
    pub open spec fn spec_word_delete_post(a: TextArea, b: TextArea, r: bool) -> bool {
        let col = a.cursor.1 as int;
        let line = a.spec_lines()[a.cursor.0 as int];
        let ws = spec_word_start(line, col);
        if col > 0 {
            r == true && Self::spec_piece_deleted(a, b, ws, col - ws, true)
        } else {
            Self::spec_newline_delete_post(a, b, r)
        }
    }

    /// Deletes the word before the cursor — at a row's head, the
    /// newline before it. Deletes the selection when one is active.
    /// Reports whether anything was deleted.
    pub fn delete_word(&mut self) -> (r: bool)
        requires
            old(self).wf(),
        ensures
            final(self).wf(),
            Self::spec_sel_active(*old(self)) ==> r == true && Self::spec_selection_deleted(
                *old(self),
                *final(self),
                false,
            ),
            !Self::spec_sel_active(*old(self)) ==> exists|m1: TextArea|
                #[trigger] Self::spec_sel_cleared(*old(self), m1) && Self::spec_word_delete_post(
                    m1,
                    *final(self),
                    r,
                ),
    {
        if self.delete_selection(false) {
            return true;
        }
        let ghost m1 = *self;
        let (row, col) = self.cursor;
        let rr = if col > 0 {
            let ws = crate::util::find_word_start_backward(&self.lines[row], col);
            proof {
                crate::util::lemma_word_start_decreases(self.spec_lines()[row as int], col as int);
            }
            self.delete_piece(ws, col - ws)
        } else {
            self.delete_newline()
        };
        proof {
            assert(Self::spec_sel_cleared(*old(self), m1));
        }
        rr
    }

    /// What a forward word delete does once any selection is gone: the
    /// word boundary after the cursor bounds the removed piece; at a
    /// row's end the next row is joined on instead, and at the buffer's
    /// end nothing happens. See [`Self::delete_next_word`].
    pub open spec fn spec_next_word_delete_post(a: TextArea, b: TextArea, r: bool) -> bool {
        let row = a.cursor.0 as int;
        let col = a.cursor.1 as int;
        let line = a.spec_lines()[row];
        let we = spec_word_end(line, col);
        if col < line.len() {
            r == true && Self::spec_piece_deleted(a, b, col, we - col, true)
        } else if row + 1 < a.spec_lines().len() {
            exists|m1: TextArea|
                #[trigger] Self::spec_cursor_set(a, m1, ((row + 1) as usize, 0usize))
                    && Self::spec_newline_delete_post(m1, b, r)
        } else {
            r == false && Self::spec_sel_cleared(a, b)
        }
    }

    /// Deletes the word after the cursor — at a row's end, the newline
    /// after it; at the buffer's end nothing. Deletes the selection
    /// when one is active. Reports whether anything was deleted.
    pub fn delete_next_word(&mut self) -> (r: bool)
        requires
            old(self).wf(),
        ensures
            final(self).wf(),
            Self::spec_sel_active(*old(self)) ==> r == true && Self::spec_selection_deleted(
                *old(self),
                *final(self),
                false,
            ),
            !Self::spec_sel_active(*old(self)) ==> exists|m1: TextArea|
                #[trigger] Self::spec_sel_cleared(*old(self), m1)
                    && Self::spec_next_word_delete_post(m1, *final(self), r),
    {
        if self.delete_selection(false) {
            return true;
        }
        let ghost m0 = *self;
        let (row, col) = self.cursor;
        let n = self.lines.len();
        let len = self.lines[row].len();
        let rr = if col < len {
            let we = crate::util::find_word_end_forward(&self.lines[row], col);
            proof {
                crate::util::lemma_word_end_advances(self.spec_lines()[row as int], col as int);
            }
            self.delete_piece(col, we - col)
        } else if row + 1 < n {
            self.cursor = (row + 1, 0);
            let ghost m1 = *self;
            let rr2 = self.delete_newline();
            proof {
                assert(Self::spec_cursor_set(m0, m1, ((row + 1) as usize, 0usize)));
            }
            rr2
        } else {
            false
        };
        proof {
            assert(Self::spec_sel_cleared(*old(self), m0));
        }
        rr
    }

    /// Cuts the selected text into the clipboard: the selection delete
    /// of [`Self::spec_selection_deleted`], with the clipboard taking
    /// the removed text. Reports whether anything changed.
    pub fn cut(&mut self) -> (r: bool)
        requires
            old(self).wf(),
        ensures
            final(self).wf(),
            Self::spec_sel_active(*old(self)) ==> r == true && Self::spec_selection_deleted(
                *old(self),
                *final(self),
                true,
            ),
            !Self::spec_sel_active(*old(self)) ==> r == false && Self::spec_sel_cleared(
                *old(self),
                *final(self),
            ),
    {
        self.delete_selection(true)
    }
}

/// The walk of [`spec_advance`] never moves backward: it ends at or
/// below its start row, and on the start row at or after its start
/// offset.
pub proof fn lemma_advance_bounds(v: Seq<Seq<char>>, row: int, off: int, n: int)
    requires
        0 <= row < v.len(),
        0 <= off <= v[row].len(),
        0 <= n,
    ensures
        ({
            let r = spec_advance(v, row, off, n);
            &&& row <= r.0 < v.len()
            &&& (r.0 == row ==> off <= r.1)
            &&& 0 <= r.1 <= v[r.0].len()
        }),
    decreases v.len() - row,
{
    if off + n <= v[row].len() {
    } else if row + 1 < v.len() {
        lemma_advance_bounds(v, row + 1, 0, n - (v[row].len() - off) - 1);
    }
}

impl TextArea {
    /// What deleting `chars` characters forward from the cursor does
    /// once any selection is gone. Within one row, the span leaves the
    /// buffer for the clipboard and history with relative snapshots of
    /// the links it fully covers — without touching the store — and the
    /// cursor stays. Across rows, the range walk of [`spec_advance`]
    /// bounds the span (newlines counting one character each) and the
    /// range delete of [`spec_range_removed`] applies, yanking as it
    /// goes.
    pub open spec fn spec_str_delete_post(a: TextArea, b: TextArea, chars: int, r: bool) -> bool {
        let row = a.cursor.0 as int;
        let col = a.cursor.1 as int;
        let line = a.spec_lines()[row];
        let soff = if col <= line.len() {
            col
        } else {
            line.len() as int
        };
        if chars == 0 {
            r == false && Self::spec_sel_cleared(a, b)
        } else if chars <= line.len() - soff {
            let eoff = soff + chars;
            let s = Pos { row: a.cursor.0, col: a.cursor.1, offset: soff as usize };
            let e = Pos { row: a.cursor.0, col: (col + chars) as usize, offset: eoff as usize };
            let removed = line.subrange(soff, eoff);
            let snaps = a.links@.filter(|l: Link| spec_link_in_range(l, s, e)).map_values(
                |l: Link| spec_rel_snapshot(l, s.row as int, s.col as int),
            );
            let opt_snaps: Option<Seq<Link>> = if snaps.len() == 0 {
                None
            } else {
                Some(snaps)
            };
            &&& r == true
            &&& b.spec_lines() == a.spec_lines().update(row, line.take(soff) + line.skip(eoff))
            &&& b.cursor == a.cursor
            &&& b.links == a.links
            &&& b.deleted_link_ids == a.deleted_link_ids
            &&& b.yank.model() == YankModel::Piece(removed, opt_snaps, (a.cursor.0, a.cursor.1))
            &&& spec_hist_pushed(
                a.history,
                b.history,
                EditModel::DeleteStr(removed, None),
                e,
                Pos { row: a.cursor.0, col: a.cursor.1, offset: soff as usize },
            )
            &&& b.selection_start is None
            &&& b.pending_link == a.pending_link
            &&& b.next_link_id == a.next_link_id
            &&& b.new_link == a.new_link
            &&& b.copied_link_ids == a.copied_link_ids
            &&& b.tab_len == a.tab_len
            &&& b.hard_tab_indent == a.hard_tab_indent
            &&& b.max_col == a.max_col
        } else {
            let epos = spec_advance(a.spec_lines(), row, soff, chars);
            let s = Pos { row: a.cursor.0, col: a.cursor.1, offset: soff as usize };
            let e = Pos { row: epos.0 as usize, col: epos.1 as usize, offset: epos.1 as usize };
            let payload = spec_range_payload(a.spec_lines(), s, e);
            let newlines = spec_range_removed(a.spec_lines(), s, e);
            let ccol = if s.col <= newlines[s.row as int].len() {
                s.col as int
            } else {
                newlines[s.row as int].len() as int
            };
            let m = if s.row == e.row {
                EditModel::DeleteStr(payload[0], None)
            } else {
                EditModel::DeleteChunk(payload, None)
            };
            &&& r == true
            &&& b.spec_lines() == newlines
            &&& b.cursor == (s.row, ccol as usize)
            &&& b.links == a.links
            &&& b.deleted_link_ids == a.deleted_link_ids
            &&& b.yank.model() == (if s.row == e.row {
                YankModel::Piece(payload[0], None, (s.row, s.col))
            } else {
                YankModel::Chunk(payload, None, (s.row, s.col))
            })
            &&& spec_hist_pushed(
                a.history,
                b.history,
                m,
                e,
                Pos { row: s.row, col: ccol as usize, offset: s.offset },
            )
            &&& b.selection_start is None
            &&& b.pending_link == a.pending_link
            &&& b.next_link_id == a.next_link_id
            &&& b.new_link == a.new_link
            &&& b.copied_link_ids == a.copied_link_ids
            &&& b.tab_len == a.tab_len
            &&& b.hard_tab_indent == a.hard_tab_indent
            &&& b.max_col == a.max_col
        }
    }

    /// The walk of [`spec_advance`], executably.
    fn advance_chars(&self, row: usize, off: usize, n: usize) -> (r: (usize, usize))
        requires
            self.wf(),
            (row as int) < self.spec_lines().len(),
            off <= self.spec_lines()[row as int].len(),
        ensures
            (r.0 as int, r.1 as int) == spec_advance(
                self.spec_lines(),
                row as int,
                off as int,
                n as int,
            ),
            (r.0 as int) < self.spec_lines().len(),
            r.1 <= self.spec_lines()[r.0 as int].len(),
    {
        let nrows = self.lines.len();
        let mut rr: usize = row;
        let mut oo: usize = off;
        let mut rem: usize = n;
        loop
            invariant
                self.wf(),
                rr < nrows,
                nrows == self.spec_lines().len(),
                oo <= self.spec_lines()[rr as int].len(),
                spec_advance(self.spec_lines(), row as int, off as int, n as int) == spec_advance(
                    self.spec_lines(),
                    rr as int,
                    oo as int,
                    rem as int,
                ),
            decreases nrows - rr,
        {
            let len = self.lines[rr].len();
            if rem <= len - oo {
                return (rr, oo + rem);
            } else if rr + 1 < nrows {
                rem = rem - (len - oo) - 1;
                rr = rr + 1;
                oo = 0;
            } else {
                return (rr, len);
            }
        }
    }

    /// Deletes `chars` characters forward from the cursor, newlines at
    /// row ends counting one each, as [`Self::spec_str_delete_post`]
    /// says; a selection, when active, is deleted instead. Reports
    /// whether anything was deleted.
    pub fn delete_str(&mut self, chars: usize) -> (r: bool)
        requires
            old(self).wf(),
        ensures
            final(self).wf(),
            Self::spec_sel_active(*old(self)) ==> r == true && Self::spec_selection_deleted(
                *old(self),
                *final(self),
                false,
            ),
            !Self::spec_sel_active(*old(self)) ==> Self::spec_str_delete_post(
                *old(self),
                *final(self),
                chars as int,
                r,
            ),
    {
        if self.delete_selection(false) {
            return true;
        }
        if chars == 0 {
            return false;
        }
        let (srow, scol) = self.cursor;
        let len = self.lines[srow].len();
        let soff = if scol <= len {
            scol
        } else {
            len
        };
        if chars <= len - soff {
            let eoff = soff + chars;
            let s = Pos::new(srow, scol, soff);
            let e = Pos::new(srow, scol + chars, eoff);
            let mut removed: Vec<char> = Vec::new();
            push_range(&mut removed, &self.lines[srow], soff, eoff);
            let rest = crate::history::splice_out(&self.lines[srow], soff, chars);
            let lm = crate::history::line_mut(&mut self.lines, srow);
            *lm = rest;
            proof {
                assert(self.spec_lines() =~~= old(self).spec_lines().update(
                    srow as int,
                    old(self).spec_lines()[srow as int].take(soff as int) + old(
                        self,
                    ).spec_lines()[srow as int].skip(eoff as int),
                ));
                assert(removed@ =~= old(self).spec_lines()[srow as int].subrange(
                    soff as int,
                    eoff as int,
                ));
            }
            let snaps = self.snapshot_links_in_range(&s, &e);
            let opt_snaps: MaybeLinks = if snaps.len() == 0 {
                None
            } else {
                Some(snaps)
            };
            let mut text: Vec<char> = Vec::new();
            push_range(&mut text, &removed, 0, removed.len());
            proof {
                assert(text@ =~= removed@);
            }
            self.yank = YankText::Piece(text, opt_snaps, (srow, scol));
            self.push_history(EditKind::DeleteStr(removed, None), e, soff);
            true
        } else {
            proof {
                lemma_advance_bounds(self.spec_lines(), srow as int, soff as int, chars as int);
            }
            let (er, ec) = self.advance_chars(srow, soff, chars);
            let s = Pos::new(srow, scol, soff);
            let e = Pos::new(er, ec, ec);
            self.delete_range(s, e, None, true);
            true
        }
    }

    /// The relative snapshots of every link — soft-deleted records
    /// included — that [`spec_link_in_range`] places inside `s..e`, in
    /// store order; the store itself is untouched.
    fn snapshot_links_in_range(&self, s: &Pos, e: &Pos) -> (r: Vec<Link>)
        requires
            s.row <= e.row,
        ensures
            r@ == self.links@.filter(|l: Link| spec_link_in_range(l, *s, *e)).map_values(
                |l: Link| spec_rel_snapshot(l, s.row as int, s.col as int),
            ),
    {
        let mut out: Vec<Link> = Vec::new();
        let mut i: usize = 0;
        while i < self.links.len()
            invariant
                i <= self.links@.len(),
                s.row <= e.row,
                out@ == self.links@.take(i as int).filter(
                    |l: Link| spec_link_in_range(l, *s, *e),
                ).map_values(|l: Link| spec_rel_snapshot(l, s.row as int, s.col as int)),
            decreases self.links@.len() - i,
        {
            let l = self.links.at(i);
            proof {
                reveal(Seq::filter);
                assert(self.links@.take(i as int + 1).drop_last() =~= self.links@.take(i as int));
                assert(self.links@.take(i as int + 1).last() == self.links@[i as int]);
            }
            if Self::link_in_range(&l, s, e) {
                let row_offset = l.row - s.row;
                let (s1, e1) = if row_offset == 0 {
                    (shift_usize(l.start_col, s.col, 0), shift_usize(l.end_col, s.col, 0))
                } else {
                    (l.start_col, l.end_col)
                };
                let snap = Link {
                    id: l.id,
                    row: row_offset,
                    start_col: s1,
                    end_col: e1,
                    edited: false,
                    deleted: false,
                };
                proof {
                    assert(snap == spec_rel_snapshot(
                        self.links@[i as int],
                        s.row as int,
                        s.col as int,
                    ));
                }
                out.push(snap);
                proof {
                    assert(out@ =~= self.links@.take(i as int + 1).filter(
                        |l: Link| spec_link_in_range(l, *s, *e),
                    ).map_values(|l: Link| spec_rel_snapshot(l, s.row as int, s.col as int)));
                }
            } else {
                proof {
                    assert(out@ =~= self.links@.take(i as int + 1).filter(
                        |l: Link| spec_link_in_range(l, *s, *e),
                    ).map_values(|l: Link| spec_rel_snapshot(l, s.row as int, s.col as int)));
                }
            }
            i = i + 1;
        }
        proof {
            assert(self.links@.take(self.links@.len() as int) =~= self.links@);
        }
        out
    }

    /// Copies the selected text and the relative snapshots of the links
    /// in its range into the clipboard, without changing the buffer, the
    /// store or the history; the selection ends. Nothing is copied when
    /// nothing is selected or the selection no longer addresses the
    /// buffer.
    pub fn copy(&mut self)
        requires
            old(self).wf(),
        ensures
            final(self).wf(),
            ({
                let sel = Self::spec_sel_range(*old(self));
                if Self::spec_sel_active(*old(self)) {
                    let sr0 = sel->0;
                    let s = sr0.0;
                    let e = sr0.1;
                    let snaps = old(self).links@.filter(
                        |l: Link| spec_link_in_range(l, s, e),
                    ).map_values(|l: Link| spec_rel_snapshot(l, s.row as int, s.col as int));
                    let opt_snaps: Option<Seq<Link>> = if snaps.len() == 0 {
                        None
                    } else {
                        Some(snaps)
                    };
                    let payload = spec_range_payload(old(self).spec_lines(), s, e);
                    final(self).yank.model() == (if s.row == e.row {
                        YankModel::Piece(payload[0], opt_snaps, (s.row, s.col))
                    } else {
                        YankModel::Chunk(payload, opt_snaps, (s.row, s.col))
                    })
                } else {
                    final(self).yank == old(self).yank
                }
            }),
            final(self).selection_start is None,
            final(self).lines == old(self).lines,
            final(self).cursor == old(self).cursor,
            final(self).links == old(self).links,
            final(self).history == old(self).history,
            final(self).pending_link == old(self).pending_link,
            final(self).next_link_id == old(self).next_link_id,
            final(self).new_link == old(self).new_link,
            final(self).deleted_link_ids == old(self).deleted_link_ids,
            final(self).copied_link_ids == old(self).copied_link_ids,
            final(self).tab_len == old(self).tab_len,
            final(self).hard_tab_indent == old(self).hard_tab_indent,
            final(self).max_col == old(self).max_col,
    {
        let range = self.selection_range();
        self.selection_start = None;
        match range {
            None => {
            },
            Some((s, e)) => {
                if e.row < self.lines.len() {
                    let snaps = self.snapshot_links_in_range(&s, &e);
                    let opt_snaps: MaybeLinks = if snaps.len() == 0 {
                        None
                    } else {
                        Some(snaps)
                    };
                    if s.row == e.row {
                        let mut text: Vec<char> = Vec::new();
                        push_range(&mut text, &self.lines[s.row], s.offset, e.offset);
                        proof {
                            assert(text@ =~= spec_range_payload(self.spec_lines(), s, e)[0]);
                        }
                        self.yank = YankText::Piece(text, opt_snaps, (s.row, s.col));
                    } else {
                        let mut chunk: LineBuffer = Vec::new();
                        let mut head: Vec<char> = Vec::new();
                        push_range(&mut head, &self.lines[s.row], s.offset, self.lines[s.row].len());
                        crate::history::push_line(&mut chunk, head);
                        crate::history::push_lines_range(&mut chunk, &self.lines, s.row + 1, e.row);
                        let mut tailpiece: Vec<char> = Vec::new();
                        push_range(&mut tailpiece, &self.lines[e.row], 0, e.offset);
                        crate::history::push_line(&mut chunk, tailpiece);
                        proof {
                            assert(lines_view(chunk@) =~~= spec_range_payload(
                                self.spec_lines(),
                                s,
                                e,
                            ));
                        }
                        self.yank = YankText::Chunk(chunk, opt_snaps, (s.row, s.col));
                    }
                }
            },
        }
    }
}

/// A segment of pasted text with a trailing carriage return stripped.
pub open spec fn spec_strip_cr(l: Seq<char>) -> Seq<char> {
    if l.len() > 0 && l.last() == '\r' {
        l.drop_last()
    } else {
        l
    }
}

/// The lines of `s` from position `i` on, the current line having begun
/// at `start`: text split on newlines, each segment losing a trailing
/// carriage return.
pub open spec fn spec_split_from(s: Seq<char>, i: int, start: int) -> Seq<Seq<char>>
    decreases s.len() - i,
{
    if i < 0 || i >= s.len() {
        seq![spec_strip_cr(s.subrange(start, s.len() as int))]
    } else if s[i] == '\n' {
        seq![spec_strip_cr(s.subrange(start, i))] + spec_split_from(s, i + 1, i + 1)
    } else {
        spec_split_from(s, i + 1, start)
    }
}

pub open spec fn spec_split_lines(s: Seq<char>) -> Seq<Seq<char>> {
    spec_split_from(s, 0, 0)
}

/// Splits text into lines on newlines, stripping one trailing carriage
/// return from each segment, as [`spec_split_lines`] says.
pub(crate) fn split_text(s: &Vec<char>) -> (r: Vec<Vec<char>>)
    ensures
        lines_view(r@) == spec_split_lines(s@),
        r@.len() >= 1,
{
    let mut out: Vec<Vec<char>> = Vec::new();
    let mut cur: Vec<char> = Vec::new();
    let mut i: usize = 0;
    let ghost mut start: int = 0;
    while i < s.len()
        invariant
            i <= s@.len(),
            0 <= start <= i as int,
            cur@ == s@.subrange(start, i as int),
            spec_split_lines(s@) == lines_view(out@) + spec_split_from(s@, i as int, start),
        decreases s@.len() - i,
    {
        let c = s[i];
        if c == '\n' {
            let stripped = strip_cr(cur);
            crate::history::push_line(&mut out, stripped);
            cur = Vec::new();
            proof {
                start = i as int + 1;
                assert(cur@ =~= s@.subrange(start, i as int + 1));
            }
        } else {
            cur.push(c);
            proof {
                assert(cur@ =~= s@.subrange(start, i as int + 1));
            }
        }
        i = i + 1;
    }
    let stripped = strip_cr(cur);
    crate::history::push_line(&mut out, stripped);
    proof {
        assert(lines_view(out@) =~~= spec_split_lines(s@));
    }
    out
}

/// `line` with one trailing carriage return stripped, as
/// [`spec_strip_cr`] says.
fn strip_cr(line: Vec<char>) -> (r: Vec<char>)
    ensures
        r@ == spec_strip_cr(line@),
{
    let ghost l0 = line@;
    let mut line = line;
    let n = line.len();
    if n > 0 && line[n - 1] == '\r' {
        line.truncate(n - 1);
        proof {
            assert(line@ =~= spec_strip_cr(l0));
        }
    }
    line
}

/// The wrap boundary the overhang step picks on `row` near the width
/// limit `mcol`: the word start before the limit, pulled back to the
/// start of the first live link covering it, or pushed to the limit
/// itself when a space stands exactly there.
pub open spec fn spec_wrap_ws(a: TextArea, row: int, mcol: int) -> int {
    let line = a.spec_lines()[row];
    let ws0 = spec_word_start(line, mcol);
    if spec_covers_any(a.links@, row, ws0) {
        a.links@[spec_first_cover_idx(a.links@, row, ws0)].start_col as int
    } else if mcol < line.len() && line[mcol] == ' ' {
        mcol
    } else {
        ws0
    }
}

/// A link that straddles the wrap boundary, moved whole onto the next
/// row's head and flagged as already repositioned.
pub open spec fn spec_wrap_cover(l: Link) -> Link {
    Link {
        row: shifted(l.row as int, 1) as usize,
        start_col: 0,
        end_col: shifted(l.end_col as int, -(l.start_col as int)) as usize,
        edited: true,
        ..l
    }
}

/// A live link past the wrap boundary `ws`, moved down one row and
/// rebased to the wrapped tail, flagged as already repositioned.
pub open spec fn spec_wrap_follow(l: Link, ws: int) -> Link {
    let over = shifted(l.start_col as int, -ws);
    let len = shifted(l.end_col as int, -(l.start_col as int));
    Link {
        row: shifted(l.row as int, 1) as usize,
        start_col: over as usize,
        end_col: shifted(over, len) as usize,
        edited: true,
        ..l
    }
}

/// One link after the whole wrap pass of `row` at limit `mcol`: the
/// first live link covering the word start moves whole; live links of
/// the row past the boundary follow the tail; everything else stays.
pub open spec fn spec_wrap_pass(a: TextArea, i: int, row: int, mcol: int) -> Link {
    let line = a.spec_lines()[row];
    let ws0 = spec_word_start(line, mcol);
    let ws = spec_wrap_ws(a, row, mcol);
    let l = a.links@[i];
    if spec_covers_any(a.links@, row, ws0) && i == spec_first_cover_idx(a.links@, row, ws0) {
        spec_wrap_cover(l)
    } else if !l.deleted && l.row == row && l.start_col > ws {
        spec_wrap_follow(l, ws)
    } else {
        l
    }
}

/// The rows of a buffer as one text, row after row.
pub open spec fn spec_concat_rows(v: Seq<Seq<char>>) -> Seq<char>
    decreases v.len(),
{
    if v.len() == 0 {
        Seq::empty()
    } else {
        v[0] + spec_concat_rows(v.skip(1))
    }
}

/// Splitting one row in two preserves the buffer's text.
pub proof fn lemma_concat_split_insert(v: Seq<Seq<char>>, r: int, x: Seq<char>, y: Seq<char>)
    requires
        0 <= r < v.len(),
        v[r] == x + y,
    ensures
        spec_concat_rows(v.update(r, x).insert(r + 1, y)) == spec_concat_rows(v),
    decreases r,
{
    let w = v.update(r, x).insert(r + 1, y);
    if r == 0 {
        reveal_with_fuel(spec_concat_rows, 3);
        assert(w[0] == x);
        assert(w.skip(1)[0] == y);
        assert(w.skip(1).skip(1) =~= v.skip(1));
        assert(spec_concat_rows(w) == x + (y + spec_concat_rows(v.skip(1))));
        assert(x + (y + spec_concat_rows(v.skip(1))) =~= (x + y) + spec_concat_rows(v.skip(1)));
    } else {
        assert(w[0] == v[0]);
        assert(w.skip(1) =~= v.skip(1).update(r - 1, x).insert(r, y));
        assert(v.skip(1)[r - 1] == v[r]);
        lemma_concat_split_insert(v.skip(1), r - 1, x, y);
    }
}

/// Moving text between two adjacent rows preserves the buffer's text.
pub proof fn lemma_concat_two_rows(v: Seq<Seq<char>>, r: int, x: Seq<char>, z: Seq<char>)
    requires
        0 <= r,
        r + 1 < v.len(),
        x + z == v[r] + v[r + 1],
    ensures
        spec_concat_rows(v.update(r, x).update(r + 1, z)) == spec_concat_rows(v),
    decreases r,
{
    let w = v.update(r, x).update(r + 1, z);
    if r == 0 {
        reveal_with_fuel(spec_concat_rows, 3);
        assert(w[0] == x);
        assert(w.skip(1)[0] == z);
        assert(w.skip(1).skip(1) =~= v.skip(1).skip(1));
        assert(v.skip(1)[0] == v[1]);
        assert(spec_concat_rows(w) == x + (z + spec_concat_rows(v.skip(1).skip(1))));
        assert(spec_concat_rows(v) == v[0] + (v[1] + spec_concat_rows(v.skip(1).skip(1))));
        assert(x + (z + spec_concat_rows(v.skip(1).skip(1))) =~= (x + z) + spec_concat_rows(
            v.skip(1).skip(1),
        ));
        assert(v[0] + (v[1] + spec_concat_rows(v.skip(1).skip(1))) =~= (v[0] + v[1])
            + spec_concat_rows(v.skip(1).skip(1)));
    } else {
        assert(w[0] == v[0]);
        assert(w.skip(1) =~= v.skip(1).update(r - 1, x).update(r, z));
        assert(v.skip(1)[r - 1] == v[r]);
        assert(v.skip(1)[r] == v[r + 1]);
        lemma_concat_two_rows(v.skip(1), r - 1, x, z);
    }
}

/// Where the reflow pass leaves the cursor, given the wrapped length
/// `wo` and the at-the-limit flag `eol` of its last step: after a wrap
/// at the limit the cursor lands at the wrapped length on the next row;
/// otherwise it returns to the starting column, stepping to the next
/// row's head when that column reaches the row's last position. All
/// coordinates are pinned into the buffer.
pub open spec fn spec_reflow_landing(
    v: Seq<Seq<char>>,
    sr: int,
    sc: int,
    wo: int,
    eol: bool,
) -> (int, int) {
    if eol {
        let r1 = if sr < v.len() - 1 {
            sr + 1
        } else {
            v.len() - 1
        };
        let c1 = if wo <= v[r1].len() {
            wo
        } else {
            v[r1].len() as int
        };
        (r1, c1)
    } else {
        let r1 = if sr < v.len() {
            sr
        } else {
            v.len() - 1
        };
        let mlc = if v[r1].len() > 0 {
            v[r1].len() - 1
        } else {
            0
        };
        if sc >= mlc {
            let r2 = if r1 + 1 < v.len() {
                r1 + 1
            } else {
                v.len() - 1
            };
            (r2, 0)
        } else {
            (r1, sc)
        }
    }
}

impl TextArea {
    /// What survives the reflow pass untouched: the links keep their
    /// identities (position and flags may move), and the pending link,
    /// the id counter, the copies record, the clipboard and the
    /// configuration stay; the history keeps its capacity.
    pub open spec fn spec_reflow_frame(a: TextArea, b: TextArea) -> bool {
        &&& b.links@.len() == a.links@.len()
        &&& (forall|i: int| 0 <= i < a.links@.len() ==> b.links@[i].id == a.links@[i].id)
        &&& b.pending_link == a.pending_link
        &&& b.next_link_id == a.next_link_id
        &&& b.new_link == a.new_link
        &&& b.copied_link_ids == a.copied_link_ids
        &&& b.tab_len == a.tab_len
        &&& b.hard_tab_indent == a.hard_tab_indent
        &&& b.max_col == a.max_col
        &&& b.yank == a.yank
        &&& b.history.spec_max() == a.history.spec_max()
    }

    /// Inserts `s` into the cursor's row at the cursor, moving the
    /// cursor past it and shifting the row's live links right by its
    /// length. Nothing is recorded in history: the caller owns the
    /// record. Reports whether anything was inserted.
    fn prepend_next_line(&mut self, s: Vec<char>) -> (r: bool)
        requires
            old(self).wf(),
        ensures
            final(self).wf(),
            s@.len() == 0 ==> r == false && Self::same_state(*old(self), *final(self)),
            s@.len() > 0 ==> r == true && Self::spec_piece_spliced(*old(self), *final(self), s@),
    {
        if s.len() == 0 {
            return false;
        }
        let (row, col) = self.cursor;
        let len = self.lines[row].len();
        let i = if col <= len {
            col
        } else {
            len
        };
        let newline = crate::history::splice_in(&self.lines[row], i, &s);
        let lm = crate::history::line_mut(&mut self.lines, row);
        *lm = newline;
        proof {
            assert(self.spec_lines() =~~= old(self).spec_lines().update(
                row as int,
                spec_line_insert(old(self).spec_lines()[row as int], i as int, s@),
            ));
        }
        let newcol = shift_usize(col, 0, s.len());
        self.cursor = (row, newcol);
        self.shift_links_after_insert((row, col), (row, newcol));
        true
    }

    /// The exact effect of splicing `s` into the cursor's row at the
    /// cursor: the row gains `s` at the cursor's clamped offset, the
    /// cursor moves past it, and the row's live links at or after the
    /// cursor slide right by its length.
    pub open spec fn spec_piece_spliced(a: TextArea, b: TextArea, s: Seq<char>) -> bool {
        let row = a.cursor.0 as int;
        let col = a.cursor.1 as int;
        let line = a.spec_lines()[row];
        let i = if col <= line.len() {
            col
        } else {
            line.len() as int
        };
        let newcol = shifted(col, s.len() as int);
        &&& b.spec_lines() == a.spec_lines().update(row, spec_line_insert(line, i, s))
        &&& b.cursor == ((a.cursor.0, newcol as usize))
        &&& b.links@.len() == a.links@.len()
        &&& (forall|k: int|
            0 <= k < a.links@.len() ==> b.links@[k] == spec_shift_after_insert(
                a.links@[k],
                row,
                col,
                0,
                newcol - col,
            ))
        &&& b.selection_start == a.selection_start
        &&& b.history == a.history
        &&& b.yank == a.yank
        &&& b.pending_link == a.pending_link
        &&& b.next_link_id == a.next_link_id
        &&& b.new_link == a.new_link
        &&& b.deleted_link_ids == a.deleted_link_ids
        &&& b.copied_link_ids == a.copied_link_ids
        &&& b.tab_len == a.tab_len
        &&& b.hard_tab_indent == a.hard_tab_indent
        &&& b.max_col == a.max_col
    }

    /// Picks the wrap boundary of `row` near the width limit `mcol` and
    /// moves the links that must follow the wrapped tail, as
    /// [`spec_wrap_pass`] says, link by link: a link straddling the
    /// boundary moves whole to the next row's head and pulls the
    /// boundary back to its start; a space exactly at the limit breaks
    /// there; live links past the boundary move down one row, rebased to
    /// the wrapped tail. Moved links carry the one-shot flag. The buffer
    /// itself is untouched.
    fn wrap_boundary_links(&mut self, row: usize, mcol: usize) -> (word_start: usize)
        requires
            old(self).wf(),
            (row as int) < old(self).spec_lines().len(),
        ensures
            final(self).wf(),
            word_start as int == spec_wrap_ws(*old(self), row as int, mcol as int),
            final(self).links@.len() == old(self).links@.len(),
            forall|i: int|
                0 <= i < old(self).links@.len() ==> final(self).links@[i] == spec_wrap_pass(
                    *old(self),
                    i,
                    row as int,
                    mcol as int,
                ),
            final(self).lines == old(self).lines,
            final(self).cursor == old(self).cursor,
            final(self).pending_link == old(self).pending_link,
            final(self).next_link_id == old(self).next_link_id,
            final(self).new_link == old(self).new_link,
            final(self).deleted_link_ids == old(self).deleted_link_ids,
            final(self).copied_link_ids == old(self).copied_link_ids,
            final(self).tab_len == old(self).tab_len,
            final(self).hard_tab_indent == old(self).hard_tab_indent,
            final(self).history == old(self).history,
            final(self).yank == old(self).yank,
            final(self).selection_start == old(self).selection_start,
            final(self).max_col == old(self).max_col,
    {
        let ws0 = crate::util::find_word_start_backward(&self.lines[row], mcol);
        let mut word_start = ws0;
        match self.in_link((row, ws0)) {
            Some(id) => {
                proof {
                    lemma_first_cover(self.links@, row as int, ws0 as int);
                    let ci = spec_first_cover_idx(self.links@, row as int, ws0 as int);
                    assert(self.links@[ci].id == id);
                    assert(seq_has_id(self.links@, id));
                }
                word_start = self.wrap_link_to_row_head(id);
                proof {
                    let ci = spec_first_cover_idx(
                        old(self).links@,
                        row as int,
                        ws0 as int,
                    );
                    let ix = seq_idx_of(old(self).links@, id);
                    assert(old(self).links@[ix].id == id);
                    assert(!(ix < ci) && !(ci < ix));
                    assert(word_start == old(self).links@[ci].start_col);
                }
            },
            None => {
                if mcol < self.lines[row].len() && self.lines[row][mcol] == ' ' {
                    word_start = mcol;
                }
            },
        }
        let ghost c1 = *self;
        proof {
            assert(word_start as int == spec_wrap_ws(*old(self), row as int, mcol as int));
        }
        let mut i: usize = 0;
        while i < self.links.len()
            invariant
                i <= self.links@.len(),
                self.links@.len() == c1.links@.len(),
                forall|j: int|
                    0 <= j < i as int ==> self.links@[j] == (
                    if !c1.links@[j].deleted && c1.links@[j].row == row && c1.links@[j].start_col
                        > word_start {
                        spec_wrap_follow(c1.links@[j], word_start as int)
                    } else {
                        c1.links@[j]
                    }),
                forall|j: int| i as int <= j < c1.links@.len() ==> self.links@[j] == c1.links@[j],
                Self::same_except_links(c1, *self),
            decreases self.links@.len() - i,
        {
            let l = self.links.at(i);
            if !l.deleted && l.row == row && l.start_col > word_start {
                let over = shift_usize(l.start_col, word_start, 0);
                let link_len = shift_usize(l.end_col, l.start_col, 0);
                self.links.set_at(
                    i,
                    Link {
                        row: shift_usize(l.row, 0, 1),
                        start_col: over,
                        end_col: shift_usize(over, 0, link_len),
                        edited: true,
                        ..l
                    },
                );
            }
            i = i + 1;
        }
        proof {
            let a = *old(self);
            let ws0i = spec_word_start(a.spec_lines()[row as int], mcol as int);
            assert forall|j: int| 0 <= j < a.links@.len() implies self.links@[j] == spec_wrap_pass(
                a,
                j,
                row as int,
                mcol as int,
            ) by {
                if spec_covers_any(a.links@, row as int, ws0i) {
                    let ci = spec_first_cover_idx(a.links@, row as int, ws0i);
                    lemma_first_cover(a.links@, row as int, ws0i);
                    if j == ci {
                        assert(c1.links@[j] == spec_wrap_cover(a.links@[j]));
                    } else {
                        assert(c1.links@[j] == a.links@[j]);
                    }
                } else {
                    assert(c1.links@[j] == a.links@[j]);
                }
            }
            assert(final_links_wf_from_ids(old(self).links@, self.links@));
        }
        word_start
    }

    /// Moves the link carrying `id` whole onto the head of the next row,
    /// flagging it as already repositioned, and reports where it began:
    /// the wrap boundary pulls back to the link's start. An id that is
    /// not in the store leaves everything unchanged and reports zero.
    fn wrap_link_to_row_head(&mut self, id: usize) -> (r: usize)
        requires
            old(self).links.wf(),
        ensures
            final(self).links.wf(),
            if seq_has_id(old(self).links@, id) {
                &&& final(self).links@ == old(self).links@.update(
                    seq_idx_of(old(self).links@, id),
                    spec_wrap_cover(seq_link(old(self).links@, id)),
                )
                &&& r == seq_link(old(self).links@, id).start_col
            } else {
                final(self).links == old(self).links && r == 0
            },
            final(self).lines == old(self).lines,
            final(self).cursor == old(self).cursor,
            final(self).pending_link == old(self).pending_link,
            final(self).next_link_id == old(self).next_link_id,
            final(self).new_link == old(self).new_link,
            final(self).deleted_link_ids == old(self).deleted_link_ids,
            final(self).copied_link_ids == old(self).copied_link_ids,
            final(self).tab_len == old(self).tab_len,
            final(self).hard_tab_indent == old(self).hard_tab_indent,
            final(self).history == old(self).history,
            final(self).yank == old(self).yank,
            final(self).selection_start == old(self).selection_start,
            final(self).max_col == old(self).max_col,
    {
        match self.links.index_of(id) {
            Some(ix) => {
                proof {
                    assert(self.links@[seq_idx_of(self.links@, id)].id == id);
                    assert(seq_idx_of(self.links@, id) == ix as int);
                }
                let l = self.links.at(ix);
                let end_offset = shift_usize(l.end_col, l.start_col, 0);
                self.links.set_at(
                    ix,
                    Link {
                        row: shift_usize(l.row, 0, 1),
                        start_col: 0,
                        end_col: end_offset,
                        edited: true,
                        ..l
                    },
                );
                proof {
                    assert(final_links_wf_from_ids(old(self).links@, self.links@));
                }
                l.start_col
            },
            None => 0,
        }
    }

    /// The exact effect of one overhang step at the cursor's row: the
    /// links wrap per [`spec_wrap_pass`]; the row's tail from the
    /// (clamped) boundary moves below — split off as a fresh row and
    /// recorded in history as a newline split when the row was the
    /// buffer's last, else prepended to the row beneath — with the
    /// newline and after-insert shifts reconciling the remaining links,
    /// the freshly wrapped ones spending their one-shot flag instead of
    /// moving twice. `wo` is the wrapped length; `eol` says the step
    /// began at the width limit, which decides where the cursor lands.
    pub open spec fn spec_overhang_step(a: TextArea, b: TextArea, wo: int, eol: bool) -> bool {
        let row = a.cursor.0 as int;
        let mcol = a.max_col as int - 1;
        let line = a.spec_lines()[row];
        let wsr = spec_wrap_ws(a, row, mcol);
        let ws = if wsr <= line.len() {
            wsr
        } else {
            line.len() as int
        };
        let moved = line.skip(ws);
        let lastrow = a.spec_lines().len() <= row + 1;
        let blines = if lastrow {
            a.spec_lines().update(row, line.take(ws)).insert(row + 1, moved)
        } else {
            a.spec_lines().update(row, line.take(ws)).update(
                row + 1,
                moved + a.spec_lines()[row + 1],
            )
        };
        &&& b.spec_lines() == blines
        &&& b.links@.len() == a.links@.len()
        &&& (forall|i: int|
            0 <= i < a.links@.len() ==> b.links@[i] == Self::spec_tail_link(
                spec_wrap_pass(a, i, row, mcol),
                row,
                ws,
                moved.len() as int,
                lastrow,
            ))
        &&& (if lastrow {
            spec_hist_pushed(
                a.history,
                b.history,
                EditModel::InsertNewline,
                Pos { row: a.cursor.0, col: ws as usize, offset: ws as usize },
                Pos { row: (row + 1) as usize, col: 0usize, offset: 0usize },
            )
        } else {
            b.history == a.history
        })
        &&& wo == moved.len()
        &&& eol == (a.cursor.1 as int >= mcol)
        &&& b.cursor == (if eol {
            (((row + 1) as usize, shifted(0, moved.len() as int) as usize))
        } else {
            (
                (
                    a.cursor.0,
                    (if a.cursor.1 as int <= ws {
                        a.cursor.1 as int
                    } else {
                        ws
                    }) as usize,
                )
            )
        })
        &&& (if lastrow {
            b.selection_start is None
        } else {
            b.selection_start == a.selection_start
        })
        &&& b.yank == a.yank
        &&& b.pending_link == a.pending_link
        &&& b.next_link_id == a.next_link_id
        &&& b.new_link == a.new_link
        &&& b.deleted_link_ids == a.deleted_link_ids
        &&& b.copied_link_ids == a.copied_link_ids
        &&& b.tab_len == a.tab_len
        &&& b.hard_tab_indent == a.hard_tab_indent
        &&& b.max_col == a.max_col
    }

    /// One link after a tail wrap of row `row` at the clamped boundary
    /// `ws`: the newline shift when the tail became a fresh row, then
    /// the after-insert shift of the prepended tail — a link already
    /// holding the one-shot flag spends it instead of moving twice.
    pub open spec fn spec_tail_link(
        l: Link,
        row: int,
        ws: int,
        moved_len: int,
        lastrow: bool,
    ) -> Link {
        let l2 = if lastrow {
            spec_shift_newline(l, row, ws)
        } else {
            l
        };
        if moved_len == 0 {
            l2
        } else {
            spec_shift_after_insert(l2, row + 1, 0, 0, shifted(0, moved_len))
        }
    }

    /// The exact effect of moving the tail of row `row`, from the
    /// clamped boundary `ws`, down one row: split off as a fresh row —
    /// recorded in history as a newline split, any ongoing selection
    /// dropped first — when `row` was the buffer's last, else prepended
    /// to the row beneath; the newline and after-insert shifts reconcile
    /// the links, a link already holding the one-shot flag spending it
    /// instead of moving twice. The cursor lands past the moved tail on
    /// the next row.
    pub open spec fn spec_tail_wrapped(a: TextArea, b: TextArea, row: int, ws_in: int) -> bool {
        let line = a.spec_lines()[row];
        let ws = if ws_in <= line.len() {
            ws_in
        } else {
            line.len() as int
        };
        let moved = line.skip(ws);
        let lastrow = a.spec_lines().len() <= row + 1;
        let blines = if lastrow {
            a.spec_lines().update(row, line.take(ws)).insert(row + 1, moved)
        } else {
            a.spec_lines().update(row, line.take(ws)).update(
                row + 1,
                moved + a.spec_lines()[row + 1],
            )
        };
        &&& b.spec_lines() == blines
        &&& b.links@.len() == a.links@.len()
        &&& (forall|i: int|
            0 <= i < a.links@.len() ==> b.links@[i] == Self::spec_tail_link(
                a.links@[i],
                row,
                ws,
                moved.len() as int,
                lastrow,
            ))
        &&& (if lastrow {
            spec_hist_pushed(
                a.history,
                b.history,
                EditModel::InsertNewline,
                Pos { row: row as usize, col: ws as usize, offset: ws as usize },
                Pos { row: (row + 1) as usize, col: 0usize, offset: 0usize },
            )
        } else {
            b.history == a.history
        })
        &&& b.cursor == (((row + 1) as usize, shifted(0, moved.len() as int) as usize))
        &&& (if lastrow {
            b.selection_start is None
        } else {
            b.selection_start == a.selection_start
        })
        &&& b.yank == a.yank
        &&& b.pending_link == a.pending_link
        &&& b.next_link_id == a.next_link_id
        &&& b.new_link == a.new_link
        &&& b.deleted_link_ids == a.deleted_link_ids
        &&& b.copied_link_ids == a.copied_link_ids
        &&& b.tab_len == a.tab_len
        &&& b.hard_tab_indent == a.hard_tab_indent
        &&& b.max_col == a.max_col
    }

    /// Moves the tail of row `row` from the clamped boundary down one
    /// row, as [`Self::spec_tail_wrapped`] says, and reports the moved
    /// length.
    #[verifier::rlimit(60)]
    #[verifier::spinoff_prover]
    fn wrap_tail_down(&mut self, row: usize, ws_in: usize) -> (wo: usize)
        requires
            old(self).wf(),
            old(self).cursor.0 == row,
        ensures
            final(self).wf(),
            Self::spec_tail_wrapped(*old(self), *final(self), row as int, ws_in as int),
            wo as int == old(self).spec_lines()[row as int].len() - (if ws_in as int <= old(
                self,
            ).spec_lines()[row as int].len() {
                ws_in as int
            } else {
                old(self).spec_lines()[row as int].len() as int
            }),
    {
        let row_len = self.lines[row].len();
        let ws = if ws_in <= row_len {
            ws_in
        } else {
            row_len
        };
        let mut moved: Vec<char> = Vec::new();
        push_range(&mut moved, &self.lines[row], ws, row_len);
        let lm = crate::history::line_mut(&mut self.lines, row);
        lm.truncate(ws);
        let word_offset = moved.len();
        let ghost c2 = *self;
        proof {
            assert(moved@ =~= old(self).spec_lines()[row as int].skip(ws as int));
            assert(c2.spec_lines() =~~= old(self).spec_lines().update(
                row as int,
                old(self).spec_lines()[row as int].take(ws as int),
            ));
        }
        let lastrow = self.lines.len() <= row + 1;
        if lastrow {
            let e = self.lines[row].len();
            self.cursor = (row, e);
            self.selection_start = None;
            self.insert_newline();
        } else {
            self.cursor = (row + 1, 0);
        }
        let ghost c3 = *self;
        self.prepend_next_line(moved);
        proof {
            let a = *old(self);
            let rowi = row as int;
            let line = a.spec_lines()[rowi];
            let wsi = ws as int;
            let movedv = line.skip(wsi);
            let lastr = a.spec_lines().len() <= rowi + 1;
            if lastr {
                assert(self.spec_lines() =~~= a.spec_lines().update(rowi, line.take(wsi)).insert(
                    rowi + 1,
                    movedv,
                ));
            } else {
                assert(self.spec_lines() =~~= a.spec_lines().update(rowi, line.take(wsi)).update(
                    rowi + 1,
                    movedv + a.spec_lines()[rowi + 1],
                ));
            }
            assert forall|i: int| 0 <= i < a.links@.len() implies self.links@[i]
                == Self::spec_tail_link(a.links@[i], rowi, wsi, movedv.len() as int, lastr) by {
                assert(c2.links@[i] == a.links@[i]);
                if lastr {
                    assert(c3.links@[i] == spec_shift_newline(c2.links@[i], rowi, wsi));
                } else {
                    assert(c3.links@[i] == c2.links@[i]);
                }
                if movedv.len() == 0 {
                    assert(self.links@[i] == c3.links@[i]);
                } else {
                    assert(self.links@[i] == spec_shift_after_insert(
                        c3.links@[i],
                        rowi + 1,
                        0,
                        0,
                        shifted(0, movedv.len() as int),
                    ));
                }
            }
            assert(Self::spec_tail_wrapped(a, *self, rowi, ws_in as int));
        }
        word_offset
    }

    /// One reflow step, as [`Self::spec_overhang_step`] says: the
    /// overhanging tail of the cursor's row, from a word boundary near
    /// the width limit, wraps onto the next row. The wrap's own split
    /// never consumes a selection: on the buffer's last row any ongoing
    /// selection is dropped before the split.
    #[verifier::rlimit(60)]
    #[verifier::spinoff_prover]
    fn shift_overhang_newline(&mut self) -> (r: (usize, bool))
        requires
            old(self).wf(),
            old(self).max_col >= 2,
        ensures
            final(self).wf(),
            Self::spec_reflow_frame(*old(self), *final(self)),
            Self::spec_overhang_step(*old(self), *final(self), r.0 as int, r.1),
    {
        let insert_at_eol = self.cursor.1 >= self.max_col as usize - 1;
        let mcol = self.max_col as usize - 1;
        let (start_row, start_col) = self.cursor;
        let row = start_row;
        let word_start = self.wrap_boundary_links(row, mcol);
        let ghost c1 = *self;
        let word_offset = self.wrap_tail_down(row, word_start);
        let ghost c4 = *self;
        if !insert_at_eol {
            self.move_cursor(start_row, start_col);
            proof {
                assert(Self::same_but_cursor(c4, *self));
            }
        }
        proof {
            let a = *old(self);
            let rowi = row as int;
            let line = a.spec_lines()[rowi];
            let wsr = spec_wrap_ws(a, rowi, mcol as int);
            let wsi = if wsr <= line.len() {
                wsr
            } else {
                line.len() as int
            };
            let movedv = line.skip(wsi);
            let lastr = a.spec_lines().len() <= rowi + 1;
            assert(c1.spec_lines() == a.spec_lines());
            assert(Self::spec_tail_wrapped(c1, c4, rowi, word_start as int));
            assert forall|i: int| 0 <= i < a.links@.len() implies self.links@[i]
                == Self::spec_tail_link(
                spec_wrap_pass(a, i, rowi, mcol as int),
                rowi,
                wsi,
                movedv.len() as int,
                lastr,
            ) by {
                assert(c1.links@[i] == spec_wrap_pass(a, i, rowi, mcol as int));
                assert(c4.links@[i] == Self::spec_tail_link(
                    c1.links@[i],
                    rowi,
                    wsi,
                    movedv.len() as int,
                    lastr,
                ));
                assert(self.links@[i] == c4.links@[i]);
            }
            assert forall|i: int| 0 <= i < old(self).links@.len() implies self.links@[i].id == old(
                self,
            ).links@[i].id by {
                assert(c1.links@[i] == spec_wrap_pass(a, i, rowi, mcol as int));
                assert(c1.links@[i].id == old(self).links@[i].id);
                assert(c4.links@[i] == Self::spec_tail_link(
                    c1.links@[i],
                    rowi,
                    wsi,
                    movedv.len() as int,
                    lastr,
                ));
                assert(self.links@[i] == c4.links@[i]);
            }
            assert(Self::spec_reflow_frame(*old(self), *self));
            assert(Self::spec_overhang_step(a, *self, word_offset as int, insert_at_eol));
        }
        (word_offset, insert_at_eol)
    }

    /// The reflow pass: while the cursor's row still overhangs the width
    /// limit and rows remain below the starting extent, one overhang
    /// step of [`Self::spec_overhang_step`] wraps its tail down; the
    /// cursor then lands per [`spec_reflow_landing`] with the last
    /// step's wrapped length and at-the-limit flag. The pass moves text
    /// between rows but never loses or invents a character — the rows'
    /// concatenated text is preserved — and it preserves the
    /// [`Self::spec_reflow_frame`] of the session. A row that does not
    /// overhang on entry is left untouched and only the landing rule
    /// runs, exactly.
    fn shift_lines_after_insert(&mut self)
        requires
            old(self).wf(),
        ensures
            final(self).wf(),
            Self::spec_reflow_frame(*old(self), *final(self)),
            spec_concat_rows(final(self).spec_lines()) == spec_concat_rows(old(self).spec_lines()),
            exists|wo: int, eol: bool|
                (final(self).cursor.0 as int, final(self).cursor.1 as int)
                    == #[trigger] spec_reflow_landing(
                    final(self).spec_lines(),
                    old(self).cursor.0 as int,
                    old(self).cursor.1 as int,
                    wo,
                    eol,
                ),
            old(self).spec_lines()[old(self).cursor.0 as int].len() < old(self).max_col as int - 1
                ==> Self::same_but_cursor(*old(self), *final(self)) && (
                final(self).cursor.0 as int,
                final(self).cursor.1 as int,
            ) == spec_reflow_landing(
                old(self).spec_lines(),
                old(self).cursor.0 as int,
                old(self).cursor.1 as int,
                0,
                false,
            ),
    {
        let (start_row, start_col) = self.cursor;
        let max_row = self.lines.len();
        let mut insert_at_end_of_line = false;
        let mut word_offset: usize = 0;
        // The counter only serves the termination argument: each step
        // wraps an overhanging tail downward, and the pass gives up on a
        // row that no step can shorten long before the counter runs out.
        let mut guard: usize = usize::MAX;
        while guard > 0 && self.cursor.0 < max_row && self.lines[self.cursor.0].len()
            >= self.max_col as usize - 1
            invariant
                self.wf(),
                Self::spec_reflow_frame(*old(self), *self),
                spec_concat_rows(self.spec_lines()) == spec_concat_rows(old(self).spec_lines()),
                old(self).spec_lines()[old(self).cursor.0 as int].len() < old(
                    self,
                ).max_col as int - 1 ==> Self::same_state(*old(self), *self) && word_offset == 0
                    && !insert_at_end_of_line,
            decreases guard,
        {
            proof {
                if old(self).spec_lines()[old(self).cursor.0 as int].len() < old(
                    self,
                ).max_col as int - 1 {
                    assert(false);
                }
            }
            let ghost pre = *self;
            let (wo, eol) = self.shift_overhang_newline();
            word_offset = wo;
            insert_at_end_of_line = eol;
            guard = guard - 1;
            proof {
                let rowi = pre.cursor.0 as int;
                let line = pre.spec_lines()[rowi];
                let wsr = spec_wrap_ws(pre, rowi, pre.max_col as int - 1);
                let wsi = if wsr <= line.len() {
                    wsr
                } else {
                    line.len() as int
                };
                crate::util::lemma_word_start_bounds(line, pre.max_col as int - 1);
                assert(0 <= wsi <= line.len());
                assert(line.take(wsi) + line.skip(wsi) =~= line);
                if pre.spec_lines().len() <= rowi + 1 {
                    lemma_concat_split_insert(pre.spec_lines(), rowi, line.take(wsi), line.skip(wsi));
                } else {
                    assert(line.take(wsi) + (line.skip(wsi) + pre.spec_lines()[rowi + 1]) =~= line
                        + pre.spec_lines()[rowi + 1]);
                    lemma_concat_two_rows(
                        pre.spec_lines(),
                        rowi,
                        line.take(wsi),
                        line.skip(wsi) + pre.spec_lines()[rowi + 1],
                    );
                }
            }
        }
        if insert_at_end_of_line {
            let r1 = if start_row < self.lines.len() - 1 {
                start_row + 1
            } else {
                self.lines.len() - 1
            };
            let c1len = self.lines[r1].len();
            let c1 = if word_offset <= c1len {
                word_offset
            } else {
                c1len
            };
            self.cursor = (r1, c1);
        } else {
            let r1 = if start_row < self.lines.len() {
                start_row
            } else {
                self.lines.len() - 1
            };
            let row_len = self.lines[r1].len();
            let max_line_col = if row_len > 0 {
                row_len - 1
            } else {
                0
            };
            if start_col >= max_line_col {
                let r2 = if r1 + 1 < self.lines.len() {
                    r1 + 1
                } else {
                    self.lines.len() - 1
                };
                self.cursor = (r2, 0);
            } else {
                self.cursor = (r1, start_col);
            }
        }
        proof {
            assert((self.cursor.0 as int, self.cursor.1 as int) == spec_reflow_landing(
                self.spec_lines(),
                start_row as int,
                start_col as int,
                word_offset as int,
                insert_at_end_of_line,
            ));
        }
    }
}

/// The line payload a chunk edit carries, in model form.
pub open spec fn spec_chunk_of(e: EditKind) -> Seq<Seq<char>> {
    match e {
        EditKind::InsertChunk(c, _) => lines_view(c@),
        EditKind::DeleteChunk(c, _) => lines_view(c@),
        _ => Seq::empty(),
    }
}

impl TextArea {
    /// The exact record an insert leaves last in history, whatever else
    /// ran before: the latest entry carries kind `m` with the given
    /// positions, and the index sits at the end of the log.
    pub open spec fn spec_last_record(b: TextArea, m: EditModel, before: Pos, after: Pos) -> bool {
        b.history.spec_max() == 0 || {
            &&& b.history.spec_edits().len() > 0
            &&& b.history.spec_edits().last().spec_kind().model() == m
            &&& b.history.spec_edits().last().spec_before() == before
            &&& b.history.spec_edits().last().spec_after() == after
            &&& b.history.spec_index() == b.history.spec_edits().len()
        }
    }

    /// What inserting a single-line piece does once any selection is
    /// gone: nothing for an empty piece; otherwise the piece enters the
    /// cursor's row with the same-row link shift of
    /// [`Self::spec_piece_spliced`], the insertion is recorded carrying
    /// `ids`, and — when the grown row overhangs the width limit — the
    /// reflow pass rewraps it first, the cursor landing per the wrap.
    pub open spec fn spec_piece_insert_post(
        a: TextArea,
        b: TextArea,
        s: Seq<char>,
        ids: Option<Seq<usize>>,
        r: bool,
    ) -> bool {
        let row = a.cursor.0 as int;
        let col = a.cursor.1 as int;
        let line = a.spec_lines()[row];
        let i = if col <= line.len() {
            col
        } else {
            line.len() as int
        };
        let before = Pos { row: a.cursor.0, col: a.cursor.1, offset: i as usize };
        let after = Pos { row: b.cursor.0, col: b.cursor.1, offset: shifted(i, s.len() as int) as usize };
        if s.len() == 0 {
            r == false && Self::same_state(a, b)
        } else if line.len() + s.len() < a.max_col as int {
            exists|m: TextArea|
                {
                    &&& #[trigger] Self::spec_piece_spliced(a, m, s)
                    &&& r == true
                    &&& b.spec_lines() == m.spec_lines()
                    &&& b.cursor == m.cursor
                    &&& b.links == m.links
                    &&& spec_hist_pushed(
                        m.history,
                        b.history,
                        EditModel::InsertStr(s, ids),
                        before,
                        after,
                    )
                    &&& b.yank == m.yank
                    &&& b.selection_start == m.selection_start
                    &&& b.pending_link == m.pending_link
                    &&& b.next_link_id == m.next_link_id
                    &&& b.new_link == m.new_link
                    &&& b.deleted_link_ids == m.deleted_link_ids
                    &&& b.copied_link_ids == m.copied_link_ids
                    &&& b.tab_len == m.tab_len
                    &&& b.hard_tab_indent == m.hard_tab_indent
                    &&& b.max_col == m.max_col
                }
        } else {
            exists|m: TextArea|
                {
                    &&& #[trigger] Self::spec_piece_spliced(a, m, s)
                    &&& r == true
                    &&& Self::spec_reflow_frame(m, b)
                    &&& spec_concat_rows(b.spec_lines()) == spec_concat_rows(m.spec_lines())
                    &&& Self::spec_last_record(b, EditModel::InsertStr(s, ids), before, after)
                }
        }
    }

    /// Inserts a single-line piece at the cursor, as
    /// [`Self::spec_piece_insert_post`] says. The links the piece
    /// carries have already been repositioned by the caller and are
    /// recorded with the insertion.
    fn insert_piece(&mut self, s: Vec<char>, insert_links: MaybeLinks) -> (r: bool)
        requires
            old(self).wf(),
        ensures
            final(self).wf(),
            Self::spec_piece_insert_post(
                *old(self),
                *final(self),
                s@,
                spec_links_ids(opt_links_view(insert_links)),
                r,
            ),
    {
        if s.len() == 0 {
            return false;
        }
        let (row, col) = self.cursor;
        let line_len = self.lines[row].len();
        let s_len = s.len();
        let i = if col <= line_len {
            col
        } else {
            line_len
        };
        let end_offset = shift_usize(i, 0, s_len);
        let overhang = line_len >= self.max_col as usize || s_len >= self.max_col as usize
            - line_len;
        let ghost svw = s@;
        let spliced = crate::history::splice_in(&self.lines[row], i, &s);
        let lm = crate::history::line_mut(&mut self.lines, row);
        *lm = spliced;
        proof {
            assert(self.spec_lines() =~~= old(self).spec_lines().update(
                row as int,
                spec_line_insert(old(self).spec_lines()[row as int], i as int, svw),
            ));
        }
        let newcol = shift_usize(col, 0, s_len);
        self.cursor = (row, newcol);
        let start_cursor = self.cursor;
        self.shift_links_after_insert((row, col), (row, newcol));
        let ghost m = *self;
        proof {
            assert(Self::spec_piece_spliced(*old(self), m, svw));
        }
        if overhang {
            let max_col = self.max_col as usize;
            self.shift_lines_after_insert();
            let raw = if start_cursor.1 >= max_col {
                (shift_usize(row, 0, 1), shift_usize(end_offset, max_col, 0))
            } else {
                (row, shift_usize(start_cursor.1, 1, s_len))
            };
            let r0 = if raw.0 < self.lines.len() {
                raw.0
            } else {
                self.lines.len() - 1
            };
            let l0 = self.lines[r0].len();
            let c0 = if raw.1 <= l0 {
                raw.1
            } else {
                l0
            };
            self.cursor = (r0, c0);
        }
        let link_ids = ids_of_links(&insert_links);
        self.push_history(
            EditKind::InsertStr(s, link_ids),
            Pos::new(row, col, i),
            end_offset,
        );
        proof {
            if !(old(self).spec_lines()[row as int].len() + svw.len() < old(self).max_col as int) {
                assert(Self::spec_reflow_frame(m, *self));
            }
        }
        true
    }

    /// What inserting a multi-line chunk does: the cursor jumps to the
    /// end of the chunk, every live link takes the after-insert shift
    /// over the chunk's span, the chunk splices into the buffer as
    /// [`spec_insert_chunk`] says with the carried links' `deleted`
    /// cleared and `edited` toggled, and the insertion is recorded. A
    /// chunk whose carried ids have left the store signals divergence:
    /// only the cursor and the shift pass have happened, and `false`
    /// comes back.
    pub open spec fn spec_chunk_insert_post(
        a: TextArea,
        b: TextArea,
        c: Seq<Seq<char>>,
        ids: Option<Seq<usize>>,
        r: bool,
    ) -> bool {
        let row = a.cursor.0 as int;
        let col = a.cursor.1 as int;
        let line = a.spec_lines()[row];
        let i = if col <= line.len() {
            col
        } else {
            line.len() as int
        };
        let nrow = shifted(row, c.len() - 1);
        let ncol = c.last().len() as int;
        let before = Pos { row: a.cursor.0, col: a.cursor.1, offset: i as usize };
        let after = Pos { row: nrow as usize, col: ncol as usize, offset: ncol as usize };
        let links1 = Seq::new(
            a.links@.len(),
            |k: int|
                spec_shift_after_insert(a.links@[k], row, col, nrow - row, ncol - col),
        );
        let m = EditModel::InsertChunk(c, ids);
        &&& (if spec_ids_present(ids, links1) {
            &&& r == true
            &&& b.cursor == ((nrow as usize, ncol as usize))
            &&& b.spec_lines() == spec_insert_chunk(a.spec_lines(), row, i, c)
            &&& b.links@ == crate::history::spec_apply_links(m, links1)
            &&& spec_hist_pushed(a.history, b.history, m, before, after)
        } else {
            let crow = if nrow < a.spec_lines().len() {
                nrow
            } else {
                a.spec_lines().len() - 1
            };
            let ccol = if ncol <= a.spec_lines()[crow].len() {
                ncol
            } else {
                a.spec_lines()[crow].len() as int
            };
            &&& r == false
            &&& b.cursor == ((crow as usize, ccol as usize))
            &&& b.spec_lines() == a.spec_lines()
            &&& b.links@ == links1
            &&& b.history == a.history
        })
        &&& b.yank == a.yank
        &&& b.selection_start == a.selection_start
        &&& b.pending_link == a.pending_link
        &&& b.next_link_id == a.next_link_id
        &&& b.new_link == a.new_link
        &&& b.deleted_link_ids == a.deleted_link_ids
        &&& b.copied_link_ids == a.copied_link_ids
        &&& b.tab_len == a.tab_len
        &&& b.hard_tab_indent == a.hard_tab_indent
        &&& b.max_col == a.max_col
    }

    /// Inserts a multi-line chunk at the cursor, as
    /// [`Self::spec_chunk_insert_post`] says.
    fn insert_chunk(&mut self, chunk: LineBuffer, insert_links: MaybeLinks) -> (r: bool)
        requires
            old(self).wf(),
            chunk@.len() >= 2,
        ensures
            final(self).wf(),
            Self::spec_chunk_insert_post(
                *old(self),
                *final(self),
                lines_view(chunk@),
                spec_links_ids(opt_links_view(insert_links)),
                r,
            ),
    {
        let (row, col) = self.cursor;
        let line_len = self.lines[row].len();
        let i = if col <= line_len {
            col
        } else {
            line_len
        };
        let before = Pos::new(row, col, i);
        let clen = chunk.len();
        let last_len = chunk[clen - 1].len();
        let new_row = shift_usize(row, 1, clen);
        let new_col = last_len;
        self.cursor = (new_row, new_col);
        self.shift_links_after_insert((row, col), (new_row, new_col));
        let link_ids = ids_of_links(&insert_links);
        let edit = EditKind::InsertChunk(chunk, link_ids);
        let ghost m1 = *self;
        proof {
            assert(m1.links@ =~= Seq::new(
                old(self).links@.len(),
                |k: int|
                    spec_shift_after_insert(
                        old(self).links@[k],
                        row as int,
                        col as int,
                        shifted(row as int, chunk@.len() - 1) - row,
                        chunk@[chunk@.len() - 1]@.len() - col,
                    ),
            ));
        }
        let ok = edit.apply(
            &mut self.lines,
            &mut self.links,
            &before,
            &Pos::new(new_row, new_col, last_len),
        );
        if !ok {
            let crow = if new_row < self.lines.len() {
                new_row
            } else {
                self.lines.len() - 1
            };
            let cl = self.lines[crow].len();
            let ccol = if new_col <= cl {
                new_col
            } else {
                cl
            };
            self.cursor = (crow, ccol);
            return false;
        }
        let nl = self.lines.len();
        proof {
            let c = spec_chunk_of(edit);
            let v0 = old(self).spec_lines();
            let i0 = if (col as int) <= v0[row as int].len() {
                col as int
            } else {
                v0[row as int].len() as int
            };
            assert(self.spec_lines() == spec_insert_chunk(v0, row as int, i0, c));
            assert(self.spec_lines().len() == v0.len() + c.len() - 1);
            assert(nl as int == v0.len() + c.len() - 1);
            assert(row as int + c.len() - 1 < nl as int);
            assert(new_row as int == row as int + c.len() - 1);
            assert(self.spec_lines()[new_row as int] =~= c.last() + v0[row as int].skip(i0));
        }
        self.push_history(edit, before, last_len);
        true
    }
}

impl TextArea {
    /// Inserts text at the cursor, after deleting any selected text
    /// first. Both `\n` and `\r\n` are line breaks: a single segment
    /// enters as a piece, several as a chunk, per
    /// [`Self::spec_piece_insert_post`] and
    /// [`Self::spec_chunk_insert_post`]; the carried links are recorded
    /// with the insertion. Reports whether any text was inserted.
    pub fn insert_str(&mut self, s: &str, insert_links: MaybeLinks) -> (r: bool)
        requires
            old(self).wf(),
        ensures
            final(self).wf(),
            Self::spec_sel_active(*old(self)) ==> exists|m1: TextArea|
                #[trigger] Self::spec_selection_deleted(*old(self), m1, false) && ({
                    let segs = spec_split_lines(s@);
                    let ids = spec_links_ids(opt_links_view(insert_links));
                    if segs.len() == 1 {
                        Self::spec_piece_insert_post(m1, *final(self), segs[0], ids, r)
                    } else {
                        Self::spec_chunk_insert_post(m1, *final(self), segs, ids, r)
                    }
                }),
            !Self::spec_sel_active(*old(self)) ==> exists|m1: TextArea|
                #[trigger] Self::spec_sel_cleared(*old(self), m1) && ({
                    let segs = spec_split_lines(s@);
                    let ids = spec_links_ids(opt_links_view(insert_links));
                    if segs.len() == 1 {
                        Self::spec_piece_insert_post(m1, *final(self), segs[0], ids, r)
                    } else {
                        Self::spec_chunk_insert_post(m1, *final(self), segs, ids, r)
                    }
                }),
    {
        self.delete_selection(false);
        let ghost m1 = *self;
        proof {
            if Self::spec_sel_active(*old(self)) {
                assert(Self::spec_selection_deleted(*old(self), m1, false));
            } else {
                assert(Self::spec_sel_cleared(*old(self), m1));
            }
        }
        let cs = crate::util::str_to_chars(s);
        let segs = split_text(&cs);
        if segs.len() == 1 {
            let mut segs = segs;
            let piece = match segs.pop() {
                Some(p) => p,
                None => Vec::new(),
            };
            let rr = self.insert_piece(piece, insert_links);
            rr
        } else {
            let rr = self.insert_chunk(segs, insert_links);
            rr
        }
    }

    /// The exact effect of entering one character at the cursor: the
    /// row's live links at or after the cursor slide one column right,
    /// the character enters at the cursor's clamped offset, the cursor
    /// steps past it, and the insertion is recorded.
    pub open spec fn spec_char_inserted(a: TextArea, b: TextArea, c: char) -> bool {
        let row = a.cursor.0 as int;
        let col = a.cursor.1 as int;
        let line = a.spec_lines()[row];
        let i = if col <= line.len() {
            col
        } else {
            line.len() as int
        };
        let ncol = shifted(col, 1);
        &&& b.spec_lines() == a.spec_lines().update(row, spec_line_insert(line, i, seq![c]))
        &&& b.cursor == ((a.cursor.0, ncol as usize))
        &&& b.links@.len() == a.links@.len()
        &&& (forall|k: int|
            0 <= k < a.links@.len() ==> b.links@[k] == spec_shift_same_row(
                a.links@[k],
                row,
                col,
                shifted(col, 1) - col,
            ))
        &&& spec_hist_pushed(
            a.history,
            b.history,
            EditModel::InsertChar(c, None),
            Pos { row: a.cursor.0, col: a.cursor.1, offset: i as usize },
            Pos { row: a.cursor.0, col: ncol as usize, offset: shifted(i, 1) as usize },
        )
        &&& b.selection_start == a.selection_start
        &&& b.yank == a.yank
        &&& b.pending_link == a.pending_link
        &&& b.next_link_id == a.next_link_id
        &&& b.new_link == a.new_link
        &&& b.deleted_link_ids == a.deleted_link_ids
        &&& b.copied_link_ids == a.copied_link_ids
        &&& b.tab_len == a.tab_len
        &&& b.hard_tab_indent == a.hard_tab_indent
        &&& b.max_col == a.max_col
    }

    /// What precedes the character entry itself: an opening bracket on a
    /// row that is no heading remembers the cursor as a link's opening
    /// end; a closing bracket closes it into a stored link; a row
    /// already at the width limit is rewrapped by the reflow pass; any
    /// other character changes nothing beforehand.
    pub open spec fn spec_char_prelude(a: TextArea, b: TextArea, c: char) -> bool {
        let line = a.spec_lines()[a.cursor.0 as int];
        let heading = line.len() > 0 && line[0] == '#';
        if c == '[' && !heading {
            &&& b.pending_link == Some(a.cursor)
            &&& b.lines == a.lines
            &&& b.cursor == a.cursor
            &&& b.links == a.links
            &&& b.next_link_id == a.next_link_id
            &&& b.new_link == a.new_link
            &&& b.deleted_link_ids == a.deleted_link_ids
            &&& b.copied_link_ids == a.copied_link_ids
            &&& b.history == a.history
            &&& b.yank == a.yank
            &&& b.selection_start == a.selection_start
            &&& b.tab_len == a.tab_len
            &&& b.hard_tab_indent == a.hard_tab_indent
            &&& b.max_col == a.max_col
        } else if c == ']' && !heading {
            b.lines == a.lines && b.cursor == a.cursor && Self::link_closed(a, b)
        } else if line.len() + 1 >= a.max_col as int {
            &&& Self::spec_reflow_frame(a, b)
            &&& b.wf()
            &&& spec_concat_rows(b.spec_lines()) == spec_concat_rows(a.spec_lines())
        } else {
            Self::same_state(a, b)
        }
    }

    /// The closing-bracket step of [`Self::insert_link`], stated between
    /// two states.
    pub open spec fn link_closed(a: TextArea, b: TextArea) -> bool {
        let ok = match a.pending_link {
            Some(p) => p.0 == a.cursor.0 && p.1 <= a.cursor.1 && a.next_link_id < usize::MAX,
            None => false,
        };
        &&& (if ok {
            let p = a.pending_link->0;
            let nl = Link {
                id: a.next_link_id,
                row: p.0,
                start_col: p.1,
                end_col: a.cursor.1,
                edited: false,
                deleted: false,
            };
            &&& b.links@ == (if seq_has_id(a.links@, nl.id) {
                a.links@.update(seq_idx_of(a.links@, nl.id), nl)
            } else {
                a.links@.push(nl)
            })
            &&& b.next_link_id == a.next_link_id + 1
            &&& b.pending_link is None
            &&& b.new_link == true
        } else {
            b.links == a.links && b.pending_link == a.pending_link && b.next_link_id
                == a.next_link_id && b.new_link == a.new_link
        })
        &&& b.deleted_link_ids == a.deleted_link_ids
        &&& b.copied_link_ids == a.copied_link_ids
        &&& b.history == a.history
        &&& b.yank == a.yank
        &&& b.selection_start == a.selection_start
        &&& b.tab_len == a.tab_len
        &&& b.hard_tab_indent == a.hard_tab_indent
        &&& b.max_col == a.max_col
    }

    /// Enters one character at the cursor: a newline splits the row as
    /// [`Self::insert_newline`] does; any other character follows its
    /// prelude — bracket handling or reflow, see
    /// [`Self::spec_char_prelude`] — and then enters as
    /// [`Self::spec_char_inserted`] says.
    pub fn insert_char(&mut self, c: char)
        requires
            old(self).wf(),
        ensures
            final(self).wf(),
            (c == '\n' || c == '\r') ==> {
                &&& Self::spec_sel_active(*old(self)) ==> exists|mid: TextArea|
                    #[trigger] Self::spec_selection_deleted(*old(self), mid, false)
                        && Self::spec_newline_inserted(mid, *final(self))
                &&& !Self::spec_sel_active(*old(self)) ==> Self::spec_newline_inserted(
                    *old(self),
                    *final(self),
                )
            },
            !(c == '\n' || c == '\r') ==> exists|mid: TextArea|
                #[trigger] Self::spec_char_prelude(*old(self), mid, c)
                    && Self::spec_char_inserted(mid, *final(self), c),
    {
        if c == '\n' || c == '\r' {
            self.insert_newline();
            return ;
        }
        let row0 = self.cursor.0;
        let heading = self.lines[row0].len() > 0 && self.lines[row0][0] == '#';
        if c == '[' && !heading {
            self.init_link();
        } else if c == ']' && !heading {
            self.insert_link();
        } else if self.lines[row0].len() >= self.max_col as usize - 1 {
            self.shift_lines_after_insert();
        }
        let ghost mid = *self;
        proof {
            assert(Self::spec_char_prelude(*old(self), mid, c));
        }
        let (row, col) = self.cursor;
        let len = self.lines[row].len();
        let i = if col <= len {
            col
        } else {
            len
        };
        self.shift_links_same_row(row, (col, shift_usize(col, 0, 1)));
        let lm = crate::history::line_mut(&mut self.lines, row);
        lm.insert(i, c);
        proof {
            assert(self.spec_lines() =~~= mid.spec_lines().update(
                row as int,
                spec_line_insert(mid.spec_lines()[row as int], i as int, seq![c]),
            ));
        }
        let ncol = shift_usize(col, 0, 1);
        self.cursor = (row, ncol);
        self.push_history(
            EditKind::InsertChar(c, None),
            Pos::new(row, col, i),
            shift_usize(i, 0, 1),
        );
    }

    /// Enters a tab at the cursor, after deleting any selected text
    /// first: a hard tab enters as one character; otherwise enough
    /// spaces enter to reach the next stop of the display width the
    /// cursor sits at, per the Unicode width of the characters before
    /// it. A zero tab length disables the key. Reports whether anything
    /// was inserted.
    pub fn insert_tab(&mut self) -> (r: bool)
        requires
            old(self).wf(),
        ensures
            final(self).wf(),
            Self::spec_sel_active(*old(self)) ==> exists|m1: TextArea|
                #[trigger] Self::spec_selection_deleted(*old(self), m1, false)
                    && Self::spec_tab_core(m1, *final(self), true, r),
            !Self::spec_sel_active(*old(self)) ==> exists|m1: TextArea|
                #[trigger] Self::spec_sel_cleared(*old(self), m1) && Self::spec_tab_core(
                    m1,
                    *final(self),
                    false,
                    r,
                ),
    {
        let modified = self.delete_selection(false);
        let ghost m1 = *self;
        proof {
            if Self::spec_sel_active(*old(self)) {
                assert(Self::spec_selection_deleted(*old(self), m1, false));
            } else {
                assert(Self::spec_sel_cleared(*old(self), m1));
            }
        }
        if self.tab_len == 0 {
            return modified;
        }
        if self.hard_tab_indent {
            self.insert_char('\t');
            return true;
        }
        let (row, col) = self.cursor;
        let k = if col <= self.lines[row].len() {
            col
        } else {
            self.lines[row].len()
        };
        let width = crate::width::width_sum(&self.lines[row], k);
        let rem = width % self.tab_len as usize;
        let len = self.tab_len - rem as u8;
        let piece = crate::util::space_chars(len as usize);
        proof {
            assert(piece@ =~= Seq::new(len as nat, |j: int| ' '));
        }
        self.insert_piece(piece, None)
    }

    /// What a tab does from a state whose selection is gone: nothing at
    /// tab length zero (a change is reported only when the selection
    /// delete made one); a hard tab enters as one character; otherwise
    /// spaces enter up to the next stop of the display width before the
    /// cursor.
    pub open spec fn spec_tab_core(a: TextArea, b: TextArea, was_active: bool, r: bool) -> bool {
        if a.tab_len == 0 {
            r == was_active && Self::same_state(a, b)
        } else if a.hard_tab_indent {
            r == true && exists|m2: TextArea|
                #[trigger] Self::spec_char_prelude(a, m2, '\t') && Self::spec_char_inserted(
                    m2,
                    b,
                    '\t',
                )
        } else {
            let row = a.cursor.0 as int;
            let line = a.spec_lines()[row];
            let k = if a.cursor.1 <= line.len() {
                a.cursor.1 as int
            } else {
                line.len() as int
            };
            let width = crate::width::spec_width_sum(line, k);
            let n = a.tab_len as int - (width % (a.tab_len as int));
            Self::spec_piece_insert_post(a, b, Seq::new(n as nat, |j: int| ' '), None, r)
        }
    }
}

/// One clipboard link reconciled on paste at (`row`, `col`), over the
/// running state (store, copied-from record, id counter, links to hand
/// to the insertion): a snapshot whose original is soft-deleted is a cut
/// — the original resurrects at the pasted position, flagged as already
/// repositioned; one whose original is live is a copy — a fresh link
/// with the next id enters the store at the pasted position and the
/// copied-from pair is recorded. A snapshot whose id has left the store,
/// or an exhausted id space, changes nothing.
pub open spec fn spec_paste_one(
    links: Seq<Link>,
    copied: Seq<(usize, usize)>,
    nid: int,
    copies: Seq<Link>,
    yl: Link,
    row: int,
    col: int,
    chunk: bool,
) -> (Seq<Link>, Seq<(usize, usize)>, int, Seq<Link>) {
    if !seq_has_id(links, yl.id) {
        (links, copied, nid, copies)
    } else {
        let cur = seq_link(links, yl.id);
        let ix = seq_idx_of(links, yl.id);
        if cur.deleted {
            let moved = Link {
                id: cur.id,
                row: shifted(row, yl.row as int) as usize,
                start_col: shifted(col, yl.start_col as int) as usize,
                end_col: shifted(col, yl.end_col as int) as usize,
                edited: true,
                deleted: false,
            };
            (links.update(ix, moved), copied, nid, copies)
        } else if nid >= usize::MAX {
            (links, copied, nid, copies)
        } else {
            let r1 = if chunk {
                shifted(row, yl.row as int)
            } else {
                row
            };
            let s1 = if chunk && yl.row != 0 {
                cur.start_col as int
            } else {
                shifted(col, yl.start_col as int)
            };
            let e1 = if chunk && yl.row != 0 {
                cur.end_col as int
            } else {
                shifted(col, yl.end_col as int)
            };
            let newl = Link {
                id: nid as usize,
                row: r1 as usize,
                start_col: s1 as usize,
                end_col: e1 as usize,
                edited: false,
                deleted: false,
            };
            let stored = Link { edited: true, ..newl };
            let links2 = if seq_has_id(links, nid as usize) {
                links.update(seq_idx_of(links, nid as usize), stored)
            } else {
                links.push(stored)
            };
            (links2, copied.push((nid as usize, cur.id)), nid + 1, copies.push(newl))
        }
    }
}

/// The clipboard links reconciled in order, as a fold of
/// [`spec_paste_one`].
pub open spec fn spec_paste_links(
    links: Seq<Link>,
    copied: Seq<(usize, usize)>,
    nid: int,
    copies: Seq<Link>,
    snaps: Seq<Link>,
    row: int,
    col: int,
    chunk: bool,
) -> (Seq<Link>, Seq<(usize, usize)>, int, Seq<Link>)
    decreases snaps.len(),
{
    if snaps.len() == 0 {
        (links, copied, nid, copies)
    } else {
        let st = spec_paste_one(links, copied, nid, copies, snaps[0], row, col, chunk);
        spec_paste_links(st.0, st.1, st.2, st.3, snaps.skip(1), row, col, chunk)
    }
}

impl TextArea {
    /// Reconciles the clipboard's link snapshots at (`row`, `col`), as
    /// [`spec_paste_links`] says, and hands back the fresh copies made
    /// along the way. Only the store, the copied-from record and the id
    /// counter change.
    fn paste_reconcile_links(
        &mut self,
        snaps: &Vec<Link>,
        row: usize,
        col: usize,
        chunk: bool,
    ) -> (copies: Vec<Link>)
        requires
            old(self).links.wf(),
        ensures
            final(self).links.wf(),
            ({
                let st = spec_paste_links(
                    old(self).links@,
                    old(self).copied_link_ids@,
                    old(self).next_link_id as int,
                    Seq::<Link>::empty(),
                    snaps@,
                    row as int,
                    col as int,
                    chunk,
                );
                &&& final(self).links@ == st.0
                &&& final(self).copied_link_ids@ == st.1
                &&& final(self).next_link_id as int == st.2
                &&& copies@ == st.3
            }),
            final(self).lines == old(self).lines,
            final(self).cursor == old(self).cursor,
            final(self).pending_link == old(self).pending_link,
            final(self).new_link == old(self).new_link,
            final(self).deleted_link_ids == old(self).deleted_link_ids,
            final(self).tab_len == old(self).tab_len,
            final(self).hard_tab_indent == old(self).hard_tab_indent,
            final(self).history == old(self).history,
            final(self).yank == old(self).yank,
            final(self).selection_start == old(self).selection_start,
            final(self).max_col == old(self).max_col,
    {
        let mut copies: Vec<Link> = Vec::new();
        let mut k: usize = 0;
        proof {
            assert(snaps@.skip(0) =~= snaps@);
        }
        while k < snaps.len()
            invariant
                k <= snaps@.len(),
                old(self).links.wf(),
                self.links.wf(),
                spec_paste_links(
                    self.links@,
                    self.copied_link_ids@,
                    self.next_link_id as int,
                    copies@,
                    snaps@.skip(k as int),
                    row as int,
                    col as int,
                    chunk,
                ) == spec_paste_links(
                    old(self).links@,
                    old(self).copied_link_ids@,
                    old(self).next_link_id as int,
                    Seq::<Link>::empty(),
                    snaps@,
                    row as int,
                    col as int,
                    chunk,
                ),
                self.lines == old(self).lines,
                self.cursor == old(self).cursor,
                self.pending_link == old(self).pending_link,
                self.new_link == old(self).new_link,
                self.deleted_link_ids == old(self).deleted_link_ids,
                self.tab_len == old(self).tab_len,
                self.hard_tab_indent == old(self).hard_tab_indent,
                self.history == old(self).history,
                self.yank == old(self).yank,
                self.selection_start == old(self).selection_start,
                self.max_col == old(self).max_col,
            decreases snaps@.len() - k,
        {
            let yl = snaps[k];
            let ghost pre = (self.links@, self.copied_link_ids@, self.next_link_id as int, copies@);
            match self.links.index_of(yl.id) {
                None => {
                },
                Some(ix) => {
                    let cur = self.links.at(ix);
                    proof {
                        assert(self.links@[seq_idx_of(self.links@, yl.id)].id == yl.id);
                        assert(seq_idx_of(self.links@, yl.id) == ix as int);
                    }
                    if cur.deleted {
                        let moved = Link {
                            id: cur.id,
                            row: shift_usize(row, 0, yl.row),
                            start_col: shift_usize(col, 0, yl.start_col),
                            end_col: shift_usize(col, 0, yl.end_col),
                            edited: true,
                            deleted: false,
                        };
                        self.links.set_at(ix, moved);
                    } else if self.next_link_id < usize::MAX {
                        let r1 = if chunk {
                            shift_usize(row, 0, yl.row)
                        } else {
                            row
                        };
                        let (s1, e1) = if chunk && yl.row != 0 {
                            (cur.start_col, cur.end_col)
                        } else {
                            (shift_usize(col, 0, yl.start_col), shift_usize(col, 0, yl.end_col))
                        };
                        let newl = Link {
                            id: self.next_link_id,
                            row: r1,
                            start_col: s1,
                            end_col: e1,
                            edited: false,
                            deleted: false,
                        };
                        self.copied_link_ids.push((self.next_link_id, cur.id));
                        copies.push(newl);
                        self.links.insert(Link { edited: true, ..newl });
                        self.next_link_id = self.next_link_id + 1;
                    }
                },
            }
            proof {
                assert((self.links@, self.copied_link_ids@, self.next_link_id as int, copies@)
                    == spec_paste_one(pre.0, pre.1, pre.2, pre.3, snaps@[k as int], row as int, col as int, chunk));
                assert(snaps@.skip(k as int)[0] == snaps@[k as int]);
                assert(snaps@.skip(k as int).skip(1) =~= snaps@.skip(k as int + 1));
            }
            k = k + 1;
        }
        proof {
            assert(snaps@.skip(snaps@.len() as int) =~= Seq::<Link>::empty());
        }
        copies
    }

    /// A clipboard value with the very same contents.
    fn yank_dup(&self) -> (r: YankText)
        ensures
            r.model() == self.yank.model(),
    {
        match &self.yank {
            YankText::Piece(s, l, p) => YankText::Piece(copy_chars(s), dup_links(l), *p),
            YankText::Chunk(c, l, p) => YankText::Chunk(copy_lines(c), dup_links(l), *p),
        }
    }

    /// Pastes the clipboard at the cursor, after deleting any selected
    /// text first: each clipboard link snapshot is reconciled — cut
    /// links move, live ones are copied under fresh ids — per
    /// [`spec_paste_links`], and the text enters as a piece or a chunk
    /// with the fresh copies recorded, per
    /// [`Self::spec_piece_insert_post`] and
    /// [`Self::spec_chunk_insert_post`]. Reports whether any text was
    /// inserted; a chunk of fewer than two rows signals a foreign
    /// clipboard value and nothing is inserted.
    #[verifier::rlimit(100)]
    #[verifier::spinoff_prover]
    pub fn paste(&mut self) -> (r: bool)
        requires
            old(self).wf(),
        ensures
            final(self).wf(),
            Self::spec_sel_active(*old(self)) ==> exists|m1: TextArea|
                #[trigger] Self::spec_selection_deleted(*old(self), m1, false)
                    && Self::spec_paste_core(m1, *final(self), r),
            !Self::spec_sel_active(*old(self)) ==> exists|m1: TextArea|
                #[trigger] Self::spec_sel_cleared(*old(self), m1) && Self::spec_paste_core(
                    m1,
                    *final(self),
                    r,
                ),
    {
        self.delete_selection(false);
        let ghost m1 = *self;
        proof {
            if Self::spec_sel_active(*old(self)) {
                assert(Self::spec_selection_deleted(*old(self), m1, false));
            } else {
                assert(Self::spec_sel_cleared(*old(self), m1));
            }
        }
        let (row, col) = self.cursor;
        let y = self.yank_dup();
        match y {
            YankText::Piece(s, l, _) => {
                match l {
                    Some(yanked) => {
                        let copies = self.paste_reconcile_links(&yanked, row, col, false);
                        let ghost m2 = *self;
                        let r2 = self.insert_piece(s, Some(copies));
                        proof {
                            assert(Self::spec_reconciled(m1, m2, yanked@, false));
                            assert(Self::spec_paste_core(m1, *self, r2));
                        }
                        r2
                    },
                    None => {
                        let r2 = self.insert_piece(s, None);
                        proof {
                            assert(Self::spec_paste_core(m1, *self, r2));
                        }
                        r2
                    },
                }
            },
            YankText::Chunk(c, l, _) => {
                if c.len() < 2 {
                    proof {
                        assert(Self::spec_paste_core(m1, *self, false));
                    }
                    false
                } else {
                    match l {
                        Some(yanked) => {
                            let copies = self.paste_reconcile_links(&yanked, row, col, true);
                            let ghost m2 = *self;
                            let r2 = self.insert_chunk(c, Some(copies));
                            proof {
                                assert(Self::spec_reconciled(m1, m2, yanked@, true));
                                assert(Self::spec_paste_core(m1, *self, r2));
                            }
                            r2
                        },
                        None => {
                            let r2 = self.insert_chunk(c, None);
                            proof {
                                assert(Self::spec_paste_core(m1, *self, r2));
                            }
                            r2
                        },
                    }
                }
            },
        }
    }

    /// The clipboard links reconciled between two states, as the fold of
    /// [`spec_paste_links`] at the second state's own cursor says: only
    /// the store, the copied-from record and the id counter move.
    pub open spec fn spec_reconciled(a: TextArea, b: TextArea, snaps: Seq<Link>, chunk: bool) -> bool {
        let st = spec_paste_links(
            a.links@,
            a.copied_link_ids@,
            a.next_link_id as int,
            Seq::<Link>::empty(),
            snaps,
            a.cursor.0 as int,
            a.cursor.1 as int,
            chunk,
        );
        &&& b.links@ == st.0
        &&& b.copied_link_ids@ == st.1
        &&& b.next_link_id as int == st.2
        &&& b.lines == a.lines
        &&& b.cursor == a.cursor
        &&& b.pending_link == a.pending_link
        &&& b.new_link == a.new_link
        &&& b.deleted_link_ids == a.deleted_link_ids
        &&& b.tab_len == a.tab_len
        &&& b.hard_tab_indent == a.hard_tab_indent
        &&& b.history == a.history
        &&& b.yank == a.yank
        &&& b.selection_start == a.selection_start
        &&& b.max_col == a.max_col
    }

    /// What pasting does from a state whose selection is gone: a piece
    /// or chunk clipboard enters at the cursor with the snapshots first
    /// reconciled per [`Self::spec_reconciled`] and the fresh copies
    /// carried by the insertion; a chunk of fewer than two rows is a
    /// foreign clipboard value and nothing happens.
    pub open spec fn spec_paste_core(a: TextArea, b: TextArea, r: bool) -> bool {
        match a.yank.model() {
            YankModel::Piece(s, lopt, _) => {
                match lopt {
                    Some(snaps) => exists|m2: TextArea|
                        {
                            let st = spec_paste_links(
                                a.links@,
                                a.copied_link_ids@,
                                a.next_link_id as int,
                                Seq::<Link>::empty(),
                                snaps,
                                a.cursor.0 as int,
                                a.cursor.1 as int,
                                false,
                            );
                            &&& #[trigger] Self::spec_reconciled(a, m2, snaps, false)
                            &&& Self::spec_piece_insert_post(
                                m2,
                                b,
                                s,
                                spec_links_ids(Some(st.3)),
                                r,
                            )
                        },
                    None => Self::spec_piece_insert_post(a, b, s, None, r),
                }
            },
            YankModel::Chunk(c, lopt, _) => {
                if c.len() < 2 {
                    r == false && Self::same_state(a, b)
                } else {
                    match lopt {
                        Some(snaps) => exists|m2: TextArea|
                            {
                                let st = spec_paste_links(
                                    a.links@,
                                    a.copied_link_ids@,
                                    a.next_link_id as int,
                                    Seq::<Link>::empty(),
                                    snaps,
                                    a.cursor.0 as int,
                                    a.cursor.1 as int,
                                    true,
                                );
                                &&& #[trigger] Self::spec_reconciled(a, m2, snaps, true)
                                &&& Self::spec_chunk_insert_post(
                                    m2,
                                    b,
                                    c,
                                    spec_links_ids(Some(st.3)),
                                    r,
                                )
                            },
                        None => Self::spec_chunk_insert_post(a, b, c, None, r),
                    }
                }
            },
        }
    }

    /// Undoes the last edit: history applies the inverted record, the
    /// replay shift reconciles the links over the replayed span, and the
    /// cursor lands on the record's before-position, clamped into the
    /// buffer, which is kept non-empty. Reports whether anything
    /// changed: nothing to undo, or a record that no longer addresses
    /// the buffer and the store, changes nothing.
    pub fn undo(&mut self) -> (r: bool)
        requires
            old(self).wf(),
        ensures
            final(self).wf(),
            old(self).spec_history().spec_index() == 0 ==> r == false && Self::same_state_view(
                *old(self),
                *final(self),
            ),
            old(self).spec_history().spec_index() > 0 ==> {
                let e = old(self).spec_history().spec_edits()[old(
                    self,
                ).spec_history().spec_index() - 1];
                let m = crate::history::spec_invert(e.spec_kind().model());
                if crate::history::spec_applicable(
                    m,
                    e.spec_after(),
                    e.spec_before(),
                    old(self).spec_lines(),
                    old(self).links@,
                ) {
                    &&& r == true
                    &&& Self::spec_replayed(*old(self), *final(self), m, e, true)
                } else {
                    r == false && Self::spec_replay_diverged(*old(self), *final(self))
                }
            },
    {
        let ghost h0 = self.history;
        let res = self.history.undo(&mut self.lines, &mut self.links);
        match res {
            None => {
                proof {
                    assert(self.history.spec_edits() == h0.spec_edits());
                }
                false
            },
            Some((cb, ca)) => {
                self.selection_start = None;
                self.shift_links_after_edit(ca, cb);
                self.repair_cursor(cb);
                true
            },
        }
    }

    /// Redoes the last undone edit, the mirror of [`Self::undo`]: the
    /// record applies forward and the cursor lands on its
    /// after-position, clamped into the buffer, which is kept
    /// non-empty.
    pub fn redo(&mut self) -> (r: bool)
        requires
            old(self).wf(),
        ensures
            final(self).wf(),
            old(self).spec_history().spec_index() == old(
                self,
            ).spec_history().spec_edits().len() ==> r == false && Self::same_state_view(
                *old(self),
                *final(self),
            ),
            old(self).spec_history().spec_index() < old(
                self,
            ).spec_history().spec_edits().len() ==> {
                let e = old(self).spec_history().spec_edits()[old(
                    self,
                ).spec_history().spec_index()];
                let m = e.spec_kind().model();
                if crate::history::spec_applicable(
                    m,
                    e.spec_before(),
                    e.spec_after(),
                    old(self).spec_lines(),
                    old(self).links@,
                ) {
                    &&& r == true
                    &&& Self::spec_replayed(*old(self), *final(self), m, e, false)
                } else {
                    r == false && Self::spec_replay_diverged(*old(self), *final(self))
                }
            },
    {
        let res = self.history.redo(&mut self.lines, &mut self.links);
        match res {
            None => false,
            Some((cb, ca)) => {
                self.selection_start = None;
                self.shift_links_after_edit(cb, ca);
                self.repair_cursor(ca);
                true
            },
        }
    }

    /// The exact effect of a history replay: the buffer becomes the
    /// record's application (an emptied buffer becomes one empty line),
    /// the store takes first the record's own link side effect and then
    /// the replay shift over the replayed span, the index steps, the
    /// selection ends, and the cursor lands on the record's target
    /// position clamped into the buffer. For an undo the record applies
    /// inverted with its positions' roles swapped.
    pub open spec fn spec_replayed(
        a: TextArea,
        b: TextArea,
        m: EditModel,
        e: Edit,
        inverted: bool,
    ) -> bool {
        let bp = if inverted {
            e.spec_after()
        } else {
            e.spec_before()
        };
        let ap = if inverted {
            e.spec_before()
        } else {
            e.spec_after()
        };
        let target = if inverted {
            (e.spec_before().row, e.spec_before().col)
        } else {
            (e.spec_after().row, e.spec_after().col)
        };
        let shift_from = if inverted {
            (e.spec_after().row, e.spec_after().col)
        } else {
            (e.spec_before().row, e.spec_before().col)
        };
        let shift_to = target;
        let applied = crate::history::spec_apply_lines(m, bp, ap, a.spec_lines());
        let newlines = if applied.len() == 0 {
            applied.push(Seq::<char>::empty())
        } else {
            applied
        };
        let links1 = crate::history::spec_apply_links(m, a.links@);
        let crow = if (target.0 as int) < newlines.len() {
            target.0 as int
        } else {
            newlines.len() - 1
        };
        let ccol = if target.1 <= newlines[crow].len() {
            target.1 as int
        } else {
            newlines[crow].len() as int
        };
        &&& b.spec_lines() == newlines
        &&& b.links@.len() == links1.len()
        &&& (forall|i: int|
            0 <= i < links1.len() ==> b.links@[i] == spec_shift_after_edit(
                links1[i],
                shift_from.0 as int,
                shift_from.1 as int,
                shift_to.0 as int,
                shift_to.0 - shift_from.0,
                shift_to.1 - shift_from.1,
            ))
        &&& b.history.spec_edits() == a.spec_history().spec_edits()
        &&& b.history.spec_max() == a.spec_history().spec_max()
        &&& b.history.spec_diverged() == a.spec_history().spec_diverged()
        &&& b.history.spec_index() == a.spec_history().spec_index() + (if inverted {
            -1int
        } else {
            1int
        })
        &&& b.cursor == ((crow as usize, ccol as usize))
        &&& b.selection_start is None
        &&& b.yank == a.yank
        &&& b.pending_link == a.pending_link
        &&& b.next_link_id == a.next_link_id
        &&& b.new_link == a.new_link
        &&& b.deleted_link_ids == a.deleted_link_ids
        &&& b.copied_link_ids == a.copied_link_ids
        &&& b.tab_len == a.tab_len
        &&& b.hard_tab_indent == a.hard_tab_indent
        &&& b.max_col == a.max_col
    }

    /// Restores the non-empty-buffer invariant and pins the cursor to
    /// `target`, clamped into the buffer.
    fn repair_cursor(&mut self, target: (usize, usize))
        requires
            old(self).links.wf(),
            old(self).history.wf(),
            old(self).max_col >= 2,
        ensures
            final(self).wf(),
            final(self).spec_lines() == (if old(self).spec_lines().len() == 0 {
                old(self).spec_lines().push(Seq::<char>::empty())
            } else {
                old(self).spec_lines()
            }),
            ({
                let nl = final(self).spec_lines();
                let crow = if (target.0 as int) < nl.len() {
                    target.0 as int
                } else {
                    nl.len() - 1
                };
                let ccol = if target.1 <= nl[crow].len() {
                    target.1 as int
                } else {
                    nl[crow].len() as int
                };
                final(self).cursor == ((crow as usize, ccol as usize))
            }),
            final(self).links == old(self).links,
            final(self).history == old(self).history,
            final(self).yank == old(self).yank,
            final(self).selection_start == old(self).selection_start,
            final(self).pending_link == old(self).pending_link,
            final(self).next_link_id == old(self).next_link_id,
            final(self).new_link == old(self).new_link,
            final(self).deleted_link_ids == old(self).deleted_link_ids,
            final(self).copied_link_ids == old(self).copied_link_ids,
            final(self).tab_len == old(self).tab_len,
            final(self).hard_tab_indent == old(self).hard_tab_indent,
            final(self).max_col == old(self).max_col,
    {
        if self.lines.len() == 0 {
            self.lines.push(Vec::new());
            proof {
                assert(self.spec_lines() =~~= old(self).spec_lines().push(Seq::<char>::empty()));
            }
        }
        let crow = if target.0 < self.lines.len() {
            target.0
        } else {
            self.lines.len() - 1
        };
        let cl = self.lines[crow].len();
        let ccol = if target.1 <= cl {
            target.1
        } else {
            cl
        };
        self.cursor = (crow, ccol);
    }

    /// The clipboard's text: the piece itself, or the chunk's rows
    /// joined with newlines.
    pub fn yank_text(&self) -> (r: String)
        ensures
            ({
                match self.spec_yank() {
                    YankModel::Piece(s, _, _) => r@ == s,
                    YankModel::Chunk(c, _, _) => r@ == spec_join_lines(c),
                }
            }),
    {
        match &self.yank {
            YankText::Piece(s, _, _) => chars_to_string(s),
            YankText::Chunk(c, _, _) => {
                let mut joined: Vec<char> = Vec::new();
                let mut i: usize = 0;
                while i < c.len()
                    invariant
                        i <= c@.len(),
                        joined@ == spec_join_prefix(lines_view(c@), i as int),
                    decreases c@.len() - i,
                {
                    if i > 0 {
                        joined.push('\n');
                    }
                    push_range(&mut joined, &c[i], 0, c[i].len());
                    proof {
                        assert(joined@ =~= spec_join_prefix(lines_view(c@), i as int + 1));
                    }
                    i = i + 1;
                }
                chars_to_string(&joined)
            },
        }
    }

    /// Replaces the clipboard with the given text: a single line becomes
    /// a piece, several lines a chunk, split on newlines with `\r\n`
    /// accepted. No links travel with it.
    pub fn set_yank_text(&mut self, text: &str)
        ensures
            ({
                let segs = spec_split_lines(text@);
                final(self).yank.model() == (if segs.len() == 1 {
                    YankModel::Piece(segs[0], None, (0usize, 0usize))
                } else {
                    YankModel::Chunk(segs, None, (0usize, 0usize))
                })
            }),
            final(self).lines == old(self).lines,
            final(self).cursor == old(self).cursor,
            final(self).links == old(self).links,
            final(self).history == old(self).history,
            final(self).selection_start == old(self).selection_start,
            final(self).pending_link == old(self).pending_link,
            final(self).next_link_id == old(self).next_link_id,
            final(self).new_link == old(self).new_link,
            final(self).deleted_link_ids == old(self).deleted_link_ids,
            final(self).copied_link_ids == old(self).copied_link_ids,
            final(self).tab_len == old(self).tab_len,
            final(self).hard_tab_indent == old(self).hard_tab_indent,
            final(self).max_col == old(self).max_col,
            old(self).wf() ==> final(self).wf(),
    {
        let cs = crate::util::str_to_chars(text);
        let mut segs = split_text(&cs);
        if segs.len() == 1 {
            let piece = match segs.pop() {
                Some(p) => p,
                None => Vec::new(),
            };
            self.yank = YankText::Piece(piece, None, (0, 0));
        } else {
            self.yank = YankText::Chunk(segs, None, (0, 0));
        }
    }
}

/// The rows of a chunk joined into one text with newlines between them.
pub open spec fn spec_join_lines(c: Seq<Seq<char>>) -> Seq<char> {
    spec_join_prefix(c, c.len() as int)
}

pub open spec fn spec_join_prefix(c: Seq<Seq<char>>, k: int) -> Seq<char>
    decreases k,
{
    if k <= 0 {
        Seq::empty()
    } else if k == 1 {
        c[0]
    } else {
        spec_join_prefix(c, k - 1) + seq!['\n'] + c[k - 1]
    }
}

/// A copy of a snapshot list with the very same contents.
fn dup_links(l: &MaybeLinks) -> (r: MaybeLinks)
    ensures
        opt_links_view(r) == opt_links_view(*l),
{
    match l {
        Some(v) => Some(copy_vec_all(v)),
        None => None,
    }
}

/// A copy of the ids a snapshot list carries.
fn ids_of_links(links: &MaybeLinks) -> (r: MaybeLinkIds)
    ensures
        opt_ids_view(r) == spec_links_ids(opt_links_view(*links)),
{
    match links {
        None => None,
        Some(v) => {
            let mut out: Vec<usize> = Vec::new();
            let mut i: usize = 0;
            while i < v.len()
                invariant
                    i <= v@.len(),
                    out@ == v@.take(i as int).map_values(|x: Link| x.id),
                decreases v@.len() - i,
            {
                out.push(v[i].id);
                proof {
                    assert(out@ =~= v@.take(i as int + 1).map_values(|x: Link| x.id));
                }
                i = i + 1;
            }
            proof {
                assert(v@.take(v@.len() as int) =~= v@);
            }
            Some(out)
        },
    }
}

/// Pointwise id preservation carries store well-formedness over.
pub open spec fn final_links_wf_from_ids(pre: Seq<Link>, post: Seq<Link>) -> bool {
    post.len() == pre.len() && (forall|i: int| 0 <= i < pre.len() ==> post[i].id == pre[i].id)
}

/// One past the largest id in the store, or zero for an empty store.
fn max_link_id_bound(links: &LinkStore) -> (r: usize)
    requires
        forall|i: int| 0 <= i < links@.len() ==> (links@[i].id as int) < usize::MAX,
    ensures
        forall|i: int| 0 <= i < links@.len() ==> (links@[i].id as int) < r as int,
{
    let mut r: usize = 0;
    let mut i: usize = 0;
    while i < links.len()
        invariant
            i <= links@.len(),
            forall|j: int| 0 <= j < links@.len() ==> (links@[j].id as int) < usize::MAX,
            forall|j: int| 0 <= j < i as int ==> (links@[j].id as int) < r as int,
        decreases links@.len() - i,
    {
        let l = links.at(i);
        if l.id >= r {
            r = l.id + 1;
        }
        i = i + 1;
    }
    r
}

/// Law: an edit that does not touch a link's row leaves that link's
/// (row, start, end) exactly as they were, whichever shift pass runs:
/// the same-row shift skips other rows outright, and the after-insert
/// and after-delete passes of a single-row edit (no row delta) move
/// nothing on other rows either.
pub proof fn lemma_link_untouched_row(l: Link, row: int, sc: int, d: int, mc: int)
    requires
        !l.deleted,
        !l.edited,
        l.row != row,
    ensures
        spec_shift_same_row(l, row, sc, d) == l,
        spec_shift_after_insert(l, row, sc, 0, d) == l,
        spec_shift_after_delete(l, row, sc, 0, d, mc, 0) == l,
{
}

/// Law: a pristine live link strictly above the wrapped row is
/// untouched by a whole reflow step — the wrap pass, the split's shift
/// and the prepend's shift all leave it exactly as it was.
pub proof fn lemma_link_above_wrap_untouched(
    a: TextArea,
    i: int,
    row: int,
    mcol: int,
    ws: int,
    moved_len: int,
    lastrow: bool,
)
    requires
        0 <= i < a.links@.len(),
        !a.links@[i].deleted,
        !a.links@[i].edited,
        (a.links@[i].row as int) < row,
    ensures
        TextArea::spec_tail_link(spec_wrap_pass(a, i, row, mcol), row, ws, moved_len, lastrow)
            == a.links@[i],
{
    let l = a.links@[i];
    let line = a.spec_lines()[row];
    let ws0 = spec_word_start(line, mcol);
    if spec_covers_any(a.links@, row, ws0) && i == spec_first_cover_idx(a.links@, row, ws0) {
        lemma_first_cover(a.links@, row, ws0);
        assert(spec_covers(l, row, ws0));
        assert(false);
    }
    assert(spec_wrap_pass(a, i, row, mcol) == l);
}

/// Law: text of length `d` entered on a link's row strictly before the
/// link shifts both its columns right by exactly `d`, and its row stays.
pub proof fn lemma_link_shifts_by_insertion(l: Link, row: int, sc: int, d: int)
    requires
        !l.deleted,
        !l.edited,
        l.row == row,
        sc <= l.start_col,
        0 <= d,
        l.end_col + d <= usize::MAX,
        l.start_col <= l.end_col,
    ensures
        ({
            let l2 = spec_shift_same_row(l, row, sc, d);
            l2.row == l.row && l2.start_col == l.start_col + d && l2.end_col == l.end_col + d
        }),
        ({
            let l3 = spec_shift_after_insert(l, row, sc, 0, d);
            l3.row == l.row && l3.start_col == l.start_col + d && l3.end_col == l.end_col + d
        }),
{
}

/// Law: soft deletion hides a link from the live view without touching
/// its geometry, and the toggle that an undo replays brings it back
/// live at exactly the original coordinates.
pub proof fn lemma_soft_delete_resurrect(l: Link)
    requires
        !l.deleted,
    ensures
        ({
            let dead = Link { deleted: true, ..l };
            let back = crate::history::spec_toggle_link(dead, false, false);
            &&& dead.id == l.id && dead.row == l.row && dead.start_col == l.start_col
                && dead.end_col == l.end_col
            &&& back == (Link { edited: dead.edited, ..l })
            &&& !back.deleted
        }),
{
}

/// Law: a soft-deleted link is absent from the live view of the store
/// while its record, geometry included, remains.
pub proof fn lemma_soft_delete_hidden(s: Seq<Link>, i: int)
    requires
        0 <= i < s.len(),
        forall|a: int, b: int| 0 <= a < s.len() && 0 <= b < s.len() && a != b ==> s[a].id != s[b].id,
        s[i].deleted,
    ensures
        seq_has_id(s, s[i].id),
        seq_link(s, s[i].id) == s[i],
        seq_link(s, s[i].id).deleted,
{
    assert(seq_has_id(s, s[i].id));
    let j = seq_idx_of(s, s[i].id);
    assert(s[j].id == s[i].id);
    assert(j == i);
}

} // verus!
