use vstd::prelude::*;

use crate::links::{seq_has_id, Link, LinkStore};
use crate::util::Pos;
use std::collections::VecDeque;

verus! {

use vstd::assert_by_contradiction;

/// The ids of the links an edit touched, if it touched any.
pub type MaybeLinkIds = Option<Vec<usize>>;

/// A line buffer: a sequence of lines, each a sequence of characters.
pub type LineBuffer = Vec<Vec<char>>;

/// The mathematical view of a line buffer.
pub open spec fn lines_view(lines: Seq<Vec<char>>) -> Seq<Seq<char>> {
    Seq::new(lines.len(), |i: int| lines[i]@)
}

/// `line` with `s` inserted so that it starts at position `at`.
pub open spec fn spec_line_insert(line: Seq<char>, at: int, s: Seq<char>) -> Seq<char> {
    line.take(at) + s + line.skip(at)
}

/// `line` with the `n` characters starting at position `at` removed.
pub open spec fn spec_line_remove(line: Seq<char>, at: int, n: int) -> Seq<char> {
    line.take(at) + line.skip(at + n)
}

/// The buffer after a chunk `c` (at least two lines) is spliced in at row
/// `r`, position `i`: row `r` keeps its prefix and gets the chunk's first
/// line appended, the chunk's interior lines go in verbatim, and the
/// chunk's last line is prepended to the suffix of row `r`, which becomes
/// a row of its own.
pub open spec fn spec_insert_chunk(v: Seq<Seq<char>>, r: int, i: int, c: Seq<Seq<char>>) -> Seq<
    Seq<char>,
> {
    v.take(r) + seq![v[r].take(i) + c[0]] + c.subrange(1, c.len() - 1) + seq![
        c.last() + v[r].skip(i),
    ] + v.skip(r + 1)
}

/// The buffer after the chunk `c` spliced in at row `r`, position `i` is
/// taken out again: the spliced rows disappear and row `r` is the prefix
/// of the old row `r` joined with the suffix of the chunk's last row.
pub open spec fn spec_delete_chunk(v: Seq<Seq<char>>, r: int, i: int, c: Seq<Seq<char>>) -> Seq<
    Seq<char>,
> {
    v.take(r) + seq![v[r].take(i) + v[r + c.len() - 1].skip(c.last().len() as int)] + v.skip(
        r + c.len(),
    )
}

/// The mathematical view of an edit: the same shape as [`EditKind`], with
/// sequences in place of vectors.
pub enum EditModel {
    InsertChar(char, Option<Seq<usize>>),
    DeleteChar(char, Option<Seq<usize>>),
    InsertLine(Seq<char>, Option<Seq<usize>>),
    DeleteLine(Seq<char>, Option<Seq<usize>>),
    InsertStr(Seq<char>, Option<Seq<usize>>),
    DeleteStr(Seq<char>, Option<Seq<usize>>),
    InsertChunk(Seq<Seq<char>>, Option<Seq<usize>>),
    DeleteChunk(Seq<Seq<char>>, Option<Seq<usize>>),
    InsertNewline,
    DeleteNewline,
}

pub open spec fn opt_ids_view(ids: Option<Vec<usize>>) -> Option<Seq<usize>> {
    match ids {
        Some(v) => Some(v@),
        None => None,
    }
}

/// The structurally opposite edit with the identical payload.
pub open spec fn spec_invert(m: EditModel) -> EditModel {
    match m {
        EditModel::InsertChar(c, ids) => EditModel::DeleteChar(c, ids),
        EditModel::DeleteChar(c, ids) => EditModel::InsertChar(c, ids),
        EditModel::InsertLine(s, ids) => EditModel::DeleteLine(s, ids),
        EditModel::DeleteLine(s, ids) => EditModel::InsertLine(s, ids),
        EditModel::InsertStr(s, ids) => EditModel::DeleteStr(s, ids),
        EditModel::DeleteStr(s, ids) => EditModel::InsertStr(s, ids),
        EditModel::InsertChunk(c, ids) => EditModel::DeleteChunk(c, ids),
        EditModel::DeleteChunk(c, ids) => EditModel::InsertChunk(c, ids),
        EditModel::InsertNewline => EditModel::DeleteNewline,
        EditModel::DeleteNewline => EditModel::InsertNewline,
    }
}

/// The link ids an edit carries.
pub open spec fn spec_edit_ids(m: EditModel) -> Option<Seq<usize>> {
    match m {
        EditModel::InsertChar(_, ids) => ids,
        EditModel::DeleteChar(_, ids) => ids,
        EditModel::InsertLine(_, ids) => ids,
        EditModel::DeleteLine(_, ids) => ids,
        EditModel::InsertStr(_, ids) => ids,
        EditModel::DeleteStr(_, ids) => ids,
        EditModel::InsertChunk(_, ids) => ids,
        EditModel::DeleteChunk(_, ids) => ids,
        EditModel::InsertNewline => None,
        EditModel::DeleteNewline => None,
    }
}

/// True when the positions an edit carries address the given buffer, so
/// that applying it is meaningful.
pub open spec fn spec_lines_applicable(
    m: EditModel,
    b: Pos,
    a: Pos,
    v: Seq<Seq<char>>,
) -> bool {
    match m {
        EditModel::InsertChar(_, _) => b.row < v.len() && b.offset <= v[b.row as int].len(),
        EditModel::DeleteChar(_, _) => b.row < v.len() && a.offset < v[b.row as int].len(),
        EditModel::InsertLine(_, _) => b.row <= v.len(),
        EditModel::DeleteLine(_, _) => b.row < v.len(),
        EditModel::InsertStr(_, _) => b.row < v.len() && b.offset <= v[b.row as int].len(),
        EditModel::DeleteStr(s, _) => a.row < v.len() && a.offset + s.len() <= v[
            a.row as int
        ].len(),
        EditModel::InsertChunk(c, _) => c.len() >= 2 && b.row < v.len() && b.offset <= v[
            b.row as int
        ].len(),
        EditModel::DeleteChunk(c, _) => c.len() >= 2 && a.row + c.len() <= v.len() && a.offset
            <= v[a.row as int].len() && c.last().len() <= v[a.row + c.len() - 1].len(),
        EditModel::InsertNewline => b.row < v.len() && b.offset <= v[b.row as int].len(),
        EditModel::DeleteNewline => 1 <= b.row < v.len(),
    }
}

/// True when every link id the edit carries is present in the store.
pub open spec fn spec_all_ids_present(s: Seq<usize>, links: Seq<Link>) -> bool {
    forall|k: int| 0 <= k < s.len() ==> #[trigger] seq_has_id(links, s[k])
}

pub open spec fn spec_ids_present(ids: Option<Seq<usize>>, links: Seq<Link>) -> bool {
    match ids {
        Some(s) => spec_all_ids_present(s, links),
        None => true,
    }
}

/// A single carried id that is missing from the store refutes presence.
proof fn lemma_ids_missing(links: Seq<Link>, s: Seq<usize>, k: int)
    requires
        0 <= k < s.len(),
        !seq_has_id(links, s[k]),
    ensures
        !spec_ids_present(Some(s), links),
{
    if spec_all_ids_present(s, links) {
        assert(seq_has_id(links, s[k]));
        assert(false);
    }
}

/// True when the edit can be applied to the buffer and the store.
pub open spec fn spec_applicable(
    m: EditModel,
    b: Pos,
    a: Pos,
    v: Seq<Seq<char>>,
    links: Seq<Link>,
) -> bool {
    spec_lines_applicable(m, b, a, v) && spec_ids_present(spec_edit_ids(m), links)
}

/// The buffer after the edit is applied at the positions it carries.
pub open spec fn spec_apply_lines(m: EditModel, b: Pos, a: Pos, v: Seq<Seq<char>>) -> Seq<
    Seq<char>,
> {
    match m {
        EditModel::InsertChar(c, _) => v.update(
            b.row as int,
            spec_line_insert(v[b.row as int], b.offset as int, seq![c]),
        ),
        EditModel::DeleteChar(_, _) => v.update(
            b.row as int,
            spec_line_remove(v[b.row as int], a.offset as int, 1),
        ),
        EditModel::InsertLine(s, _) => v.insert(b.row as int, s),
        EditModel::DeleteLine(_, _) => v.remove(b.row as int),
        EditModel::InsertStr(s, _) => v.update(
            b.row as int,
            spec_line_insert(v[b.row as int], b.offset as int, s),
        ),
        EditModel::DeleteStr(s, _) => v.update(
            a.row as int,
            spec_line_remove(v[a.row as int], a.offset as int, s.len() as int),
        ),
        EditModel::InsertChunk(c, _) => spec_insert_chunk(v, b.row as int, b.offset as int, c),
        EditModel::DeleteChunk(c, _) => spec_delete_chunk(v, a.row as int, a.offset as int, c),
        EditModel::InsertNewline => v.update(b.row as int, v[b.row as int].take(b.offset as int))
            .insert(b.row as int + 1, v[b.row as int].skip(b.offset as int)),
        EditModel::DeleteNewline => v.update(
            b.row as int - 1,
            v[b.row as int - 1] + v[b.row as int],
        ).remove(b.row as int),
    }
}

/// One link after an edit's side effect: `te` toggles the one-shot
/// `edited` flag; the `deleted` flag is cleared outright when `cd` holds
/// and toggled otherwise.
pub open spec fn spec_toggle_link(l: Link, te: bool, cd: bool) -> Link {
    Link {
        edited: if te {
            !l.edited
        } else {
            l.edited
        },
        deleted: if cd {
            false
        } else {
            !l.deleted
        },
        ..l
    }
}

/// The store after the side effect is applied to every record carrying `id`.
pub open spec fn spec_toggle_by_id(links: Seq<Link>, id: usize, te: bool, cd: bool) -> Seq<Link> {
    Seq::new(
        links.len(),
        |i: int|
            if links[i].id == id {
                spec_toggle_link(links[i], te, cd)
            } else {
                links[i]
            },
    )
}

/// The store after the side effect is applied for each carried id in turn.
pub open spec fn spec_toggle_ids(links: Seq<Link>, ids: Seq<usize>, te: bool, cd: bool) -> Seq<
    Link,
>
    decreases ids.len(),
{
    if ids.len() == 0 {
        links
    } else {
        spec_toggle_ids(spec_toggle_by_id(links, ids[0], te, cd), ids.skip(1), te, cd)
    }
}

pub open spec fn spec_toggle_ids_opt(
    links: Seq<Link>,
    ids: Option<Seq<usize>>,
    te: bool,
    cd: bool,
) -> Seq<Link> {
    match ids {
        Some(s) => spec_toggle_ids(links, s, te, cd),
        None => links,
    }
}

/// The store after the edit's link side effect: inserting a character or a
/// whole line toggles `edited` and `deleted` of each carried link;
/// inserting a string or a chunk toggles `edited` and clears `deleted`;
/// every delete toggles `deleted`; splitting or joining lines touches no
/// flag.
pub open spec fn spec_apply_links(m: EditModel, links: Seq<Link>) -> Seq<Link> {
    match m {
        EditModel::InsertChar(_, ids) => spec_toggle_ids_opt(links, ids, true, false),
        EditModel::InsertLine(_, ids) => spec_toggle_ids_opt(links, ids, true, false),
        EditModel::InsertStr(_, ids) => spec_toggle_ids_opt(links, ids, true, true),
        EditModel::InsertChunk(_, ids) => spec_toggle_ids_opt(links, ids, true, true),
        EditModel::DeleteChar(_, ids) => spec_toggle_ids_opt(links, ids, false, false),
        EditModel::DeleteLine(_, ids) => spec_toggle_ids_opt(links, ids, false, false),
        EditModel::DeleteStr(_, ids) => spec_toggle_ids_opt(links, ids, false, false),
        EditModel::DeleteChunk(_, ids) => spec_toggle_ids_opt(links, ids, false, false),
        EditModel::InsertNewline => links,
        EditModel::DeleteNewline => links,
    }
}

/// An atomic, invertible buffer mutation, optionally carrying the ids of
/// the links it touched.
#[derive(Debug, Clone)]
pub enum EditKind {
    InsertChar(char, MaybeLinkIds),
    DeleteChar(char, MaybeLinkIds),
    InsertLine(Vec<char>, MaybeLinkIds),
    DeleteLine(Vec<char>, MaybeLinkIds),
    InsertStr(Vec<char>, MaybeLinkIds),
    DeleteStr(Vec<char>, MaybeLinkIds),
    InsertChunk(Vec<Vec<char>>, MaybeLinkIds),
    DeleteChunk(Vec<Vec<char>>, MaybeLinkIds),
    InsertNewline,
    DeleteNewline,
}

impl EditKind {
    pub open spec fn model(self) -> EditModel {
        match self {
            EditKind::InsertChar(c, ids) => EditModel::InsertChar(c, opt_ids_view(ids)),
            EditKind::DeleteChar(c, ids) => EditModel::DeleteChar(c, opt_ids_view(ids)),
            EditKind::InsertLine(s, ids) => EditModel::InsertLine(s@, opt_ids_view(ids)),
            EditKind::DeleteLine(s, ids) => EditModel::DeleteLine(s@, opt_ids_view(ids)),
            EditKind::InsertStr(s, ids) => EditModel::InsertStr(s@, opt_ids_view(ids)),
            EditKind::DeleteStr(s, ids) => EditModel::DeleteStr(s@, opt_ids_view(ids)),
            EditKind::InsertChunk(c, ids) => EditModel::InsertChunk(
                lines_view(c@),
                opt_ids_view(ids),
            ),
            EditKind::DeleteChunk(c, ids) => EditModel::DeleteChunk(
                lines_view(c@),
                opt_ids_view(ids),
            ),
            EditKind::InsertNewline => EditModel::InsertNewline,
            EditKind::DeleteNewline => EditModel::DeleteNewline,
        }
    }

    /// The structurally opposite kind, carrying the identical payload: the
    /// same text and the same link ids.
    pub fn invert(&self) -> (r: Self)
        ensures
            r.model() == spec_invert(self.model()),
    {
        match self {
            EditKind::InsertChar(c, ids) => EditKind::DeleteChar(*c, copy_ids(ids)),
            EditKind::DeleteChar(c, ids) => EditKind::InsertChar(*c, copy_ids(ids)),
            EditKind::InsertLine(s, ids) => EditKind::DeleteLine(copy_chars(s), copy_ids(ids)),
            EditKind::DeleteLine(s, ids) => EditKind::InsertLine(copy_chars(s), copy_ids(ids)),
            EditKind::InsertStr(s, ids) => EditKind::DeleteStr(copy_chars(s), copy_ids(ids)),
            EditKind::DeleteStr(s, ids) => EditKind::InsertStr(copy_chars(s), copy_ids(ids)),
            EditKind::InsertChunk(c, ids) => EditKind::DeleteChunk(copy_lines(c), copy_ids(ids)),
            EditKind::DeleteChunk(c, ids) => EditKind::InsertChunk(copy_lines(c), copy_ids(ids)),
            EditKind::InsertNewline => EditKind::DeleteNewline,
            EditKind::DeleteNewline => EditKind::InsertNewline,
        }
    }

    /// Applies the edit to the buffer at the positions it carries and
    /// performs its link side effect. An edit whose positions fall outside
    /// the buffer, or whose link ids are missing from the store, signals
    /// that history and store have diverged: nothing is changed and
    /// `false` is returned.
    pub fn apply(
        &self,
        lines: &mut LineBuffer,
        links: &mut LinkStore,
        before: &Pos,
        after: &Pos,
    ) -> (ok: bool)
        ensures
            ok == spec_applicable(
                self.model(),
                *before,
                *after,
                lines_view(old(lines)@),
                old(links)@,
            ),
            ok ==> lines_view(final(lines)@) == spec_apply_lines(
                self.model(),
                *before,
                *after,
                lines_view(old(lines)@),
            ) && final(links)@ == spec_apply_links(self.model(), old(links)@),
            !ok ==> final(lines)@ == old(lines)@ && final(links)@ == old(links)@,
            old(links).wf() ==> final(links).wf(),
    {
        match self {
            EditKind::InsertChar(c, ids) => {
                let r = before.row;
                let i = before.offset;
                if !(r < lines.len() && i <= lines[r].len() && ids_present(links, ids)) {
                    return false;
                }
                let line = line_mut(lines, r);
                line.insert(i, *c);
                proof {
                    assert(line@ =~= spec_line_insert(old(lines)@[r as int]@, i as int, seq![*c]));
                    assert(lines_view(lines@) =~~= spec_apply_lines(
                        self.model(),
                        *before,
                        *after,
                        lines_view(old(lines)@),
                    ));
                }
                toggle_ids(links, ids, true, false);
                true
            },
            EditKind::DeleteChar(_, ids) => {
                let r = before.row;
                let i = after.offset;
                if !(r < lines.len() && i < lines[r].len() && ids_present(links, ids)) {
                    return false;
                }
                let line = line_mut(lines, r);
                line.remove(i);
                proof {
                    assert(line@ =~= spec_line_remove(old(lines)@[r as int]@, i as int, 1));
                    assert(lines_view(lines@) =~~= spec_apply_lines(
                        self.model(),
                        *before,
                        *after,
                        lines_view(old(lines)@),
                    ));
                }
                toggle_ids(links, ids, false, false);
                true
            },
            EditKind::InsertLine(s, ids) => {
                let r = before.row;
                if !(r <= lines.len() && ids_present(links, ids)) {
                    return false;
                }
                lines.insert(r, copy_chars(s));
                proof {
                    assert(lines_view(lines@) =~~= spec_apply_lines(
                        self.model(),
                        *before,
                        *after,
                        lines_view(old(lines)@),
                    ));
                }
                toggle_ids(links, ids, true, false);
                true
            },
            EditKind::DeleteLine(_, ids) => {
                let r = before.row;
                if !(r < lines.len() && ids_present(links, ids)) {
                    return false;
                }
                lines.remove(r);
                proof {
                    assert(lines_view(lines@) =~~= spec_apply_lines(
                        self.model(),
                        *before,
                        *after,
                        lines_view(old(lines)@),
                    ));
                }
                toggle_ids(links, ids, false, false);
                true
            },
            EditKind::InsertStr(s, ids) => {
                let r = before.row;
                let i = before.offset;
                if !(r < lines.len() && i <= lines[r].len() && ids_present(links, ids)) {
                    return false;
                }
                let line = line_mut(lines, r);
                let newline = splice_in(line, i, s);
                *line = newline;
                proof {
                    assert(lines_view(lines@) =~~= spec_apply_lines(
                        self.model(),
                        *before,
                        *after,
                        lines_view(old(lines)@),
                    ));
                }
                toggle_ids(links, ids, true, true);
                true
            },
            EditKind::DeleteStr(s, ids) => {
                let r = after.row;
                let i = after.offset;
                if !(r < lines.len() && i <= lines[r].len() && s.len() <= lines[r].len() - i
                    && ids_present(links, ids)) {
                    return false;
                }
                let line = line_mut(lines, r);
                let newline = splice_out(line, i, s.len());
                *line = newline;
                proof {
                    assert(lines_view(lines@) =~~= spec_apply_lines(
                        self.model(),
                        *before,
                        *after,
                        lines_view(old(lines)@),
                    ));
                }
                toggle_ids(links, ids, false, false);
                true
            },
            EditKind::InsertChunk(c, ids) => {
                let r = before.row;
                let i = before.offset;
                if !(c.len() >= 2 && r < lines.len() && i <= lines[r].len() && ids_present(
                    links,
                    ids,
                )) {
                    return false;
                }
                let m = c.len();
                let mut out: LineBuffer = Vec::new();
                push_lines_range(&mut out, lines, 0, r);
                let mut first: Vec<char> = Vec::new();
                push_range(&mut first, &lines[r], 0, i);
                push_range(&mut first, &c[0], 0, c[0].len());
                push_line(&mut out, first);
                push_lines_range(&mut out, c, 1, m - 1);
                let mut last: Vec<char> = Vec::new();
                push_range(&mut last, &c[m - 1], 0, c[m - 1].len());
                push_range(&mut last, &lines[r], i, lines[r].len());
                push_line(&mut out, last);
                push_lines_range(&mut out, lines, r + 1, lines.len());
                *lines = out;
                proof {
                    assert(lines_view(lines@) =~~= spec_insert_chunk(
                        lines_view(old(lines)@),
                        r as int,
                        i as int,
                        lines_view(c@),
                    ));
                }
                toggle_ids(links, ids, true, true);
                true
            },
            EditKind::DeleteChunk(c, ids) => {
                let r = after.row;
                let i = after.offset;
                if !(c.len() >= 2 && r < lines.len() && c.len() <= lines.len() - r && i <= lines[
                    r
                ].len() && c[c.len() - 1].len() <= lines[r + c.len() - 1].len() && ids_present(
                    links,
                    ids,
                )) {
                    return false;
                }
                let m = c.len();
                let mut out: LineBuffer = Vec::new();
                push_lines_range(&mut out, lines, 0, r);
                let mut joined: Vec<char> = Vec::new();
                push_range(&mut joined, &lines[r], 0, i);
                push_range(&mut joined, &lines[r + m - 1], c[m - 1].len(), lines[r + m - 1].len());
                push_line(&mut out, joined);
                push_lines_range(&mut out, lines, r + m, lines.len());
                *lines = out;
                proof {
                    assert(lines_view(lines@) =~~= spec_delete_chunk(
                        lines_view(old(lines)@),
                        r as int,
                        i as int,
                        lines_view(c@),
                    ));
                }
                toggle_ids(links, ids, false, false);
                true
            },
            EditKind::InsertNewline => {
                let r = before.row;
                let i = before.offset;
                if !(r < lines.len() && i <= lines[r].len()) {
                    return false;
                }
                let mut tail: Vec<char> = Vec::new();
                push_range(&mut tail, &lines[r], i, lines[r].len());
                let line = line_mut(lines, r);
                line.truncate(i);
                proof {
                    assert(line@ =~= old(lines)@[r as int]@.take(i as int));
                }
                lines.insert(r + 1, tail);
                proof {
                    assert(lines_view(lines@) =~~= spec_apply_lines(
                        self.model(),
                        *before,
                        *after,
                        lines_view(old(lines)@),
                    ));
                }
                true
            },
            EditKind::DeleteNewline => {
                let r = before.row;
                if !(1 <= r && r < lines.len()) {
                    return false;
                }
                let moved = copy_chars(&lines[r]);
                let prev = line_mut(lines, r - 1);
                push_range(prev, &moved, 0, moved.len());
                lines.remove(r);
                proof {
                    assert(lines_view(lines@) =~~= spec_apply_lines(
                        self.model(),
                        *before,
                        *after,
                        lines_view(old(lines)@),
                    ));
                }
                true
            },
        }
    }
}

/// A copy of a `Copy`-element vector with the very same contents.
pub fn copy_vec_all<T: Copy>(src: &Vec<T>) -> (r: Vec<T>)
    ensures
        r@ == src@,
{
    let mut r: Vec<T> = Vec::new();
    let mut k: usize = 0;
    while k < src.len()
        invariant
            k <= src@.len(),
            r@ == src@.take(k as int),
        decreases src@.len() - k,
    {
        r.push(src[k]);
        proof {
            assert(src@.take(k as int + 1) =~= src@.take(k as int).push(src@[k as int]));
        }
        k = k + 1;
    }
    proof {
        assert(src@.take(src@.len() as int) =~= src@);
    }
    r
}

/// A copy of a character vector with the very same contents.
pub fn copy_chars(src: &Vec<char>) -> (r: Vec<char>)
    ensures
        r@ == src@,
{
    copy_vec_all(src)
}

/// A copy of a carried id list with the very same contents.
fn copy_ids(ids: &MaybeLinkIds) -> (r: MaybeLinkIds)
    ensures
        opt_ids_view(r) == opt_ids_view(*ids),
{
    match ids {
        Some(v) => Some(copy_vec_all(v)),
        None => None,
    }
}

/// A copy of a line vector with the very same contents.
pub fn copy_lines(src: &Vec<Vec<char>>) -> (r: Vec<Vec<char>>)
    ensures
        lines_view(r@) == lines_view(src@),
        r@.len() == src@.len(),
{
    let mut r: Vec<Vec<char>> = Vec::new();
    let mut k: usize = 0;
    while k < src.len()
        invariant
            k <= src@.len(),
            r@.len() == k as nat,
            forall|j: int| 0 <= j < k as int ==> r@[j]@ == src@[j]@,
        decreases src@.len() - k,
    {
        r.push(copy_chars(&src[k]));
        k = k + 1;
    }
    proof {
        assert(lines_view(r@) =~= lines_view(src@));
    }
    r
}

/// Appends `src[from..to]` to `dst`.
pub fn push_range<T: Copy>(dst: &mut Vec<T>, src: &Vec<T>, from: usize, to: usize)
    requires
        from <= to,
        to <= src@.len(),
    ensures
        final(dst)@ == old(dst)@ + src@.subrange(from as int, to as int),
{
    let mut k: usize = from;
    while k < to
        invariant
            from <= k <= to,
            to <= src@.len(),
            dst@ == old(dst)@ + src@.subrange(from as int, k as int),
        decreases to - k,
    {
        dst.push(src[k]);
        proof {
            assert(src@.subrange(from as int, k as int + 1) =~= src@.subrange(
                from as int,
                k as int,
            ).push(src@[k as int]));
            assert(dst@ =~= old(dst)@ + src@.subrange(from as int, k as int + 1));
        }
        k = k + 1;
    }
}

/// Appends one line to a buffer under construction.
pub(crate) fn push_line(dst: &mut Vec<Vec<char>>, line: Vec<char>)
    ensures
        lines_view(final(dst)@) == lines_view(old(dst)@).push(line@),
{
    let ghost l = line@;
    dst.push(line);
    proof {
        assert(lines_view(dst@) =~= lines_view(old(dst)@).push(l));
    }
}

/// Appends copies of `src[from..to]` to a buffer under construction.
pub(crate) fn push_lines_range(dst: &mut Vec<Vec<char>>, src: &Vec<Vec<char>>, from: usize, to: usize)
    requires
        from <= to,
        to <= src@.len(),
    ensures
        lines_view(final(dst)@) == lines_view(old(dst)@) + lines_view(src@).subrange(
            from as int,
            to as int,
        ),
{
    let mut k: usize = from;
    while k < to
        invariant
            from <= k <= to,
            to <= src@.len(),
            lines_view(dst@) == lines_view(old(dst)@) + lines_view(src@).subrange(
                from as int,
                k as int,
            ),
        decreases to - k,
    {
        push_line(dst, copy_chars(&src[k]));
        proof {
            assert(lines_view(src@).subrange(from as int, k as int + 1) =~= lines_view(
                src@,
            ).subrange(from as int, k as int).push(src@[k as int]@));
            assert(lines_view(dst@) =~= lines_view(old(dst)@) + lines_view(src@).subrange(
                from as int,
                k as int + 1,
            ));
        }
        k = k + 1;
    }
}

/// A mutable borrow of one line of the buffer.
pub(crate) fn line_mut(lines: &mut Vec<Vec<char>>, i: usize) -> (r: &mut Vec<char>)
    requires
        i < old(lines)@.len(),
    ensures
        *r == old(lines)@[i as int],
        final(lines)@ == old(lines)@.update(i as int, *final(r)),
{
    &mut lines[i]
}

/// The line with `s` inserted at position `at`.
pub(crate) fn splice_in(line: &Vec<char>, at: usize, s: &Vec<char>) -> (r: Vec<char>)
    requires
        at <= line@.len(),
    ensures
        r@ == spec_line_insert(line@, at as int, s@),
{
    let mut r: Vec<char> = Vec::new();
    push_range(&mut r, line, 0, at);
    push_range(&mut r, s, 0, s.len());
    push_range(&mut r, line, at, line.len());
    proof {
        assert(r@ =~= spec_line_insert(line@, at as int, s@));
    }
    r
}

/// The line with the `n` characters at position `at` removed.
pub(crate) fn splice_out(line: &Vec<char>, at: usize, n: usize) -> (r: Vec<char>)
    requires
        at + n <= line@.len(),
    ensures
        r@ == spec_line_remove(line@, at as int, n as int),
{
    let len = line.len();
    let mut r: Vec<char> = Vec::new();
    push_range(&mut r, line, 0, at);
    push_range(&mut r, line, at + n, len);
    proof {
        assert(r@ =~= spec_line_remove(line@, at as int, n as int));
    }
    r
}

/// True when every id in the carried list is present in the store.
fn ids_present(links: &LinkStore, ids: &MaybeLinkIds) -> (r: bool)
    ensures
        r == spec_ids_present(opt_ids_view(*ids), links@),
{
    match ids {
        None => true,
        Some(v) => {
            let mut k: usize = 0;
            while k < v.len()
                invariant
                    k <= v@.len(),
                    opt_ids_view(*ids) == Some(v@),
                    forall|j: int| 0 <= j < k as int ==> seq_has_id(links@, v@[j]),
                decreases v@.len() - k,
            {
                if !links.contains_id(v[k]) {
                    proof {
                        assert(opt_ids_view(*ids) == Some(v@));
                        lemma_ids_missing(links@, v@, k as int);
                    }
                    return false;
                }
                k = k + 1;
            }
            true
        },
    }
}

proof fn lemma_toggle_ids_snoc(links: Seq<Link>, ids: Seq<usize>, id: usize, te: bool, cd: bool)
    ensures
        spec_toggle_ids(links, ids.push(id), te, cd) == spec_toggle_by_id(
            spec_toggle_ids(links, ids, te, cd),
            id,
            te,
            cd,
        ),
    decreases ids.len(),
{
    if ids.len() == 0 {
        let e = Seq::<usize>::empty();
        assert(ids.push(id)[0] == id);
        assert(ids.push(id).skip(1) =~= e);
        assert(spec_toggle_ids(links, ids.push(id), te, cd) == spec_toggle_ids(
            spec_toggle_by_id(links, id, te, cd),
            e,
            te,
            cd,
        ));
        assert(spec_toggle_ids(spec_toggle_by_id(links, id, te, cd), e, te, cd)
            == spec_toggle_by_id(links, id, te, cd));
    } else {
        let t = spec_toggle_by_id(links, ids[0], te, cd);
        assert(ids.push(id)[0] == ids[0]);
        assert(ids.push(id).skip(1) =~= ids.skip(1).push(id));
        assert(spec_toggle_ids(links, ids.push(id), te, cd) == spec_toggle_ids(
            t,
            ids.skip(1).push(id),
            te,
            cd,
        ));
        lemma_toggle_ids_snoc(t, ids.skip(1), id, te, cd);
        assert(spec_toggle_ids(links, ids, te, cd) == spec_toggle_ids(t, ids.skip(1), te, cd));
    }
}

/// Everything but the two flags is untouched by a side-effect pass.
proof fn lemma_toggle_ids_frame(links: Seq<Link>, ids: Seq<usize>, te: bool, cd: bool)
    ensures
        spec_toggle_ids(links, ids, te, cd).len() == links.len(),
        forall|i: int|
            0 <= i < links.len() ==> {
                let l = #[trigger] spec_toggle_ids(links, ids, te, cd)[i];
                l.id == links[i].id && l.row == links[i].row && l.start_col == links[i].start_col
                    && l.end_col == links[i].end_col
            },
    decreases ids.len(),
{
    if ids.len() > 0 {
        lemma_toggle_ids_frame(spec_toggle_by_id(links, ids[0], te, cd), ids.skip(1), te, cd);
    }
}

/// Applies the side effect to every record carrying one of the ids, id by
/// id, as [`spec_toggle_ids_opt`] says.
fn toggle_ids(links: &mut LinkStore, ids: &MaybeLinkIds, te: bool, cd: bool)
    ensures
        final(links)@ == spec_toggle_ids_opt(old(links)@, opt_ids_view(*ids), te, cd),
        old(links).wf() ==> final(links).wf(),
{
    match ids {
        None => {
        },
        Some(v) => {
            let mut k: usize = 0;
            while k < v.len()
                invariant
                    k <= v@.len(),
                    links@ == spec_toggle_ids(old(links)@, v@.take(k as int), te, cd),
                decreases v@.len() - k,
            {
                let id = v[k];
                let ghost pre = links@;
                let mut i: usize = 0;
                while i < links.len()
                    invariant
                        i <= links@.len(),
                        links@.len() == pre.len(),
                        forall|j: int|
                            0 <= j < i as int ==> links@[j] == if pre[j].id == id {
                                spec_toggle_link(pre[j], te, cd)
                            } else {
                                pre[j]
                            },
                        forall|j: int| i as int <= j < pre.len() ==> links@[j] == pre[j],
                    decreases links@.len() - i,
                {
                    let l = links.at(i);
                    if l.id == id {
                        links.set_at(
                            i,
                            Link {
                                edited: if te {
                                    !l.edited
                                } else {
                                    l.edited
                                },
                                deleted: if cd {
                                    false
                                } else {
                                    !l.deleted
                                },
                                ..l
                            },
                        );
                    }
                    i = i + 1;
                }
                proof {
                    assert(links@ =~= spec_toggle_by_id(pre, id, te, cd));
                    lemma_toggle_ids_snoc(old(links)@, v@.take(k as int), id, te, cd);
                    assert(v@.take(k as int).push(id) =~= v@.take(k as int + 1));
                }
                k = k + 1;
            }
            proof {
                assert(v@.take(v@.len() as int) =~= v@);
            }
        },
    }
    proof {
        if old(links).wf() {
            match opt_ids_view(*ids) {
                Some(s) => {
                    lemma_toggle_ids_frame(old(links)@, s, te, cd);
                },
                None => {
                },
            }
            assert(links.wf());
        }
    }
}


/// One history entry: an edit kind plus the cursor position immediately
/// preceding and following its forward application.
#[derive(Debug, Clone)]
pub struct Edit {
    kind: EditKind,
    before: Pos,
    after: Pos,
}

impl Edit {
    pub closed spec fn spec_kind(self) -> EditKind {
        self.kind
    }

    pub closed spec fn spec_before(self) -> Pos {
        self.before
    }

    pub closed spec fn spec_after(self) -> Pos {
        self.after
    }

    pub fn new(kind: EditKind, before: Pos, after: Pos) -> (r: Self)
        ensures
            r.spec_kind() == kind,
            r.spec_before() == before,
            r.spec_after() == after,
    {
        Self { kind, before, after }
    }

    /// Applies the edit forward, as recorded.
    pub fn redo(&self, lines: &mut LineBuffer, links: &mut LinkStore) -> (ok: bool)
        ensures
            ok == spec_applicable(
                self.spec_kind().model(),
                self.spec_before(),
                self.spec_after(),
                lines_view(old(lines)@),
                old(links)@,
            ),
            ok ==> lines_view(final(lines)@) == spec_apply_lines(
                self.spec_kind().model(),
                self.spec_before(),
                self.spec_after(),
                lines_view(old(lines)@),
            ) && final(links)@ == spec_apply_links(self.spec_kind().model(), old(links)@),
            !ok ==> final(lines)@ == old(lines)@ && final(links)@ == old(links)@,
            old(links).wf() ==> final(links).wf(),
    {
        self.kind.apply(lines, links, &self.before, &self.after)
    }

    /// Applies the structurally inverted edit with the roles of the two
    /// positions swapped: undo is redo of the inverted edit.
    pub fn undo(&self, lines: &mut LineBuffer, links: &mut LinkStore) -> (ok: bool)
        ensures
            ok == spec_applicable(
                spec_invert(self.spec_kind().model()),
                self.spec_after(),
                self.spec_before(),
                lines_view(old(lines)@),
                old(links)@,
            ),
            ok ==> lines_view(final(lines)@) == spec_apply_lines(
                spec_invert(self.spec_kind().model()),
                self.spec_after(),
                self.spec_before(),
                lines_view(old(lines)@),
            ) && final(links)@ == spec_apply_links(
                spec_invert(self.spec_kind().model()),
                old(links)@,
            ),
            !ok ==> final(lines)@ == old(lines)@ && final(links)@ == old(links)@,
            old(links).wf() ==> final(links).wf(),
    {
        let inv = self.kind.invert();
        inv.apply(lines, links, &self.after, &self.before)
    }

    /// The cursor position preceding the forward application.
    pub fn cursor_before(&self) -> (r: (usize, usize))
        ensures
            r == (self.spec_before().row, self.spec_before().col),
    {
        (self.before.row, self.before.col)
    }

    /// The cursor position following the forward application.
    pub fn cursor_after(&self) -> (r: (usize, usize))
        ensures
            r == (self.spec_after().row, self.spec_after().col),
    {
        (self.after.row, self.after.col)
    }
}

/// The eviction and redo-tail truncation a push performs before the new
/// edit is appended: the oldest entry leaves a full log (the index
/// following it down), and everything at or after the index is dropped.
pub open spec fn spec_push_pre(edits: Seq<Edit>, index: int, max: int) -> (Seq<Edit>, int) {
    let edits1 = if edits.len() == max {
        edits.skip(1)
    } else {
        edits
    };
    let index1 = if edits.len() == max {
        if index > 0 {
            index - 1
        } else {
            0
        }
    } else {
        index
    };
    let edits2 = if index1 < edits1.len() {
        edits1.take(index1)
    } else {
        edits1
    };
    (edits2, index1)
}

pub open spec fn spec_push_hist(edits: Seq<Edit>, index: int, max: int, e: Edit) -> (
    Seq<Edit>,
    int,
) {
    if max == 0 {
        (edits, index)
    } else {
        let pre = spec_push_pre(edits, index, max);
        (pre.0.push(e), pre.1 + 1)
    }
}

/// True when `h1` is `h0` with one edit recorded whose kind, in model
/// form, and whose two positions are as given: a no-op at capacity zero,
/// otherwise the eviction and truncation of [`spec_push_pre`] followed
/// by the append.
pub open spec fn spec_hist_pushed(
    h0: History,
    h1: History,
    m: EditModel,
    before: Pos,
    after: Pos,
) -> bool {
    if h0.spec_max() == 0 {
        h1.spec_edits() == h0.spec_edits() && h1.spec_index() == h0.spec_index() && h1.spec_max()
            == h0.spec_max() && h1.spec_diverged() == h0.spec_diverged()
    } else {
        let pre = spec_push_pre(h0.spec_edits(), h0.spec_index(), h0.spec_max());
        &&& h1.spec_edits().len() == pre.0.len() + 1
        &&& h1.spec_edits().take(pre.0.len() as int) == pre.0
        &&& h1.spec_edits().last().spec_kind().model() == m
        &&& h1.spec_edits().last().spec_before() == before
        &&& h1.spec_edits().last().spec_after() == after
        &&& h1.spec_index() == pre.1 + 1
        &&& h1.spec_max() == h0.spec_max()
        &&& h1.spec_diverged() == h0.spec_diverged()
    }
}

/// A bounded, append-only log of edits with a cursor index: entries left
/// of the index are done, entries at or after it are undone and
/// redoable. Capacity zero disables the history entirely.
#[derive(Debug, Clone)]
pub struct History {
    index: usize,
    max_items: usize,
    edits: VecDeque<Edit>,
    diverged: bool,
}

impl History {
    pub closed spec fn spec_index(self) -> int {
        self.index as int
    }

    /// True once a replay has met a record whose positions or link ids
    /// no longer address the buffer and the store: history and state
    /// have diverged — a fatal condition that verified code cannot
    /// raise as a panic, so it is flagged loudly and stays flagged.
    pub closed spec fn spec_diverged(self) -> bool {
        self.diverged
    }

    /// The divergence flag of [`Self::spec_diverged`], executably: it
    /// separates a refused replay from an ordinary "nothing to undo".
    pub fn has_diverged(&self) -> (r: bool)
        ensures
            r == self.spec_diverged(),
    {
        self.diverged
    }

    pub closed spec fn spec_max(self) -> int {
        self.max_items as int
    }

    pub closed spec fn spec_edits(self) -> Seq<Edit> {
        self.edits@
    }

    /// The index stays within the log and the log within its capacity.
    pub open spec fn wf(self) -> bool {
        &&& 0 <= self.spec_index() <= self.spec_edits().len()
        &&& (self.spec_max() == 0 ==> self.spec_edits().len() == 0)
        &&& self.spec_edits().len() <= self.spec_max() || self.spec_max() == 0
    }

    pub fn new(max_items: usize) -> (r: Self)
        ensures
            r.spec_index() == 0,
            r.spec_max() == max_items,
            r.spec_edits().len() == 0,
            !r.spec_diverged(),
            r.wf(),
    {
        Self { index: 0, max_items, edits: VecDeque::new(), diverged: false }
    }

    pub fn max_items(&self) -> (r: usize)
        ensures
            r as int == self.spec_max(),
    {
        self.max_items
    }

    /// Records an edit, as [`spec_push_hist`] says: a no-op at capacity
    /// zero; otherwise the redo tail is destroyed, the oldest entry is
    /// evicted when the history is full, and the index ends up past the
    /// appended edit, at the end of the log.
    pub fn push(&mut self, edit: Edit)
        requires
            old(self).wf(),
        ensures
            final(self).wf(),
            final(self).spec_max() == old(self).spec_max(),
            (final(self).spec_edits(), final(self).spec_index()) == spec_push_hist(
                old(self).spec_edits(),
                old(self).spec_index(),
                old(self).spec_max(),
                edit,
            ),
            final(self).spec_diverged() == old(self).spec_diverged(),
    {
        if self.max_items == 0 {
            return ;
        }
        if self.edits.len() == self.max_items {
            self.edits.pop_front();
            if self.index > 0 {
                self.index = self.index - 1;
            }
        }
        if self.index < self.edits.len() {
            self.edits.truncate(self.index);
        }
        self.index = self.index + 1;
        self.edits.push_back(edit);
    }

    /// Applies the edit at the index forward and moves the index past it.
    /// Nothing is to redo when the index is at the end of the log; an
    /// entry whose positions or link ids no longer address the buffer and
    /// the store signals that history and state diverged, and is reported
    /// the same way, with nothing changed.
    pub fn redo(&mut self, lines: &mut LineBuffer, links: &mut LinkStore) -> (r: Option<
        ((usize, usize), (usize, usize)),
    >)
        requires
            old(self).wf(),
        ensures
            final(self).wf(),
            final(self).spec_edits() == old(self).spec_edits(),
            final(self).spec_max() == old(self).spec_max(),
            old(links).wf() ==> final(links).wf(),
            old(self).spec_index() == old(self).spec_edits().len() ==> r is None && final(self).spec_index() == old(self).spec_index() && final(self).spec_diverged() == old(self).spec_diverged() && final(lines)@ == old(lines)@ && final(links)@ == old(links)@,
            old(self).spec_index() < old(self).spec_edits().len() ==> {
                let e = old(self).spec_edits()[old(self).spec_index()];
                let m = e.spec_kind().model();
                if spec_applicable(
                    m,
                    e.spec_before(),
                    e.spec_after(),
                    lines_view(old(lines)@),
                    old(links)@,
                ) {
                    &&& r == Some(
                        (
                            (e.spec_before().row, e.spec_before().col),
                            (e.spec_after().row, e.spec_after().col),
                        ),
                    )
                    &&& final(self).spec_index() == old(self).spec_index() + 1
                    &&& final(self).spec_diverged() == old(self).spec_diverged()
                    &&& lines_view(final(lines)@) == spec_apply_lines(
                        m,
                        e.spec_before(),
                        e.spec_after(),
                        lines_view(old(lines)@),
                    )
                    &&& final(links)@ == spec_apply_links(m, old(links)@)
                } else {
                    r is None && final(self).spec_index() == old(self).spec_index() && final(self).spec_diverged() == true && final(lines)@ == old(lines)@ && final(links)@ == old(links)@
                }
            },
    {
        if self.index == self.edits.len() {
            return None;
        }
        let idx = self.index;
        let ok = self.edits[idx].redo(lines, links);
        if ok {
            self.index = idx + 1;
            let cb = self.edits[idx].cursor_before();
            let ca = self.edits[idx].cursor_after();
            Some((cb, ca))
        } else {
            self.diverged = true;
            None
        }
    }

    /// Applies the edit left of the index inverted and moves the index
    /// onto it. Nothing is to undo when the index is zero; a diverged
    /// entry is reported the same way, with nothing changed.
    pub fn undo(&mut self, lines: &mut LineBuffer, links: &mut LinkStore) -> (r: Option<
        ((usize, usize), (usize, usize)),
    >)
        requires
            old(self).wf(),
        ensures
            final(self).wf(),
            final(self).spec_edits() == old(self).spec_edits(),
            final(self).spec_max() == old(self).spec_max(),
            old(links).wf() ==> final(links).wf(),
            old(self).spec_index() == 0 ==> r is None && final(self).spec_index() == 0 && final(self).spec_diverged() == old(self).spec_diverged() && final(lines)@ == old(lines)@ && final(links)@ == old(links)@,
            old(self).spec_index() > 0 ==> {
                let e = old(self).spec_edits()[old(self).spec_index() - 1];
                let m = spec_invert(e.spec_kind().model());
                if spec_applicable(
                    m,
                    e.spec_after(),
                    e.spec_before(),
                    lines_view(old(lines)@),
                    old(links)@,
                ) {
                    &&& r == Some(
                        (
                            (e.spec_before().row, e.spec_before().col),
                            (e.spec_after().row, e.spec_after().col),
                        ),
                    )
                    &&& final(self).spec_index() == old(self).spec_index() - 1
                    &&& final(self).spec_diverged() == old(self).spec_diverged()
                    &&& lines_view(final(lines)@) == spec_apply_lines(
                        m,
                        e.spec_after(),
                        e.spec_before(),
                        lines_view(old(lines)@),
                    )
                    &&& final(links)@ == spec_apply_links(m, old(links)@)
                } else {
                    r is None && final(self).spec_index() == old(self).spec_index() && final(self).spec_diverged() == true && final(lines)@ == old(lines)@ && final(links)@ == old(links)@
                }
            },
    {
        if self.index == 0 {
            return None;
        }
        let idx = self.index - 1;
        let ok = self.edits[idx].undo(lines, links);
        if ok {
            self.index = idx;
            let cb = self.edits[idx].cursor_before();
            let ca = self.edits[idx].cursor_after();
            Some((cb, ca))
        } else {
            self.diverged = true;
            None
        }
    }
}

/// Consistency of an edit record with the buffer it is about to mutate:
/// the payload a delete carries is the text actually standing at the
/// recorded position, and the two positions relate as the forward
/// application produces them.
pub open spec fn spec_edit_consistent(m: EditModel, b: Pos, a: Pos, v: Seq<Seq<char>>) -> bool {
    match m {
        EditModel::InsertChar(_, _) => a.row == b.row,
        EditModel::DeleteChar(c, _) => a.row == b.row && c == v[b.row as int][a.offset as int],
        EditModel::InsertLine(_, _) => a.row == b.row,
        EditModel::DeleteLine(s, _) => a.row == b.row && s == v[b.row as int],
        EditModel::InsertStr(_, _) => true,
        EditModel::DeleteStr(s, _) => s == v[a.row as int].subrange(
            a.offset as int,
            a.offset + s.len(),
        ),
        EditModel::InsertChunk(_, _) => true,
        EditModel::DeleteChunk(c, _) => {
            let r = a.row as int;
            let i = a.offset as int;
            let n = c.len() as int;
            &&& c[0] == v[r].skip(i)
            &&& (forall|j: int| 1 <= j < n - 1 ==> c[j] == v[r + j])
            &&& c.last() == v[r + n - 1].take(c.last().len() as int)
        },
        EditModel::InsertNewline => a.row == b.row + 1,
        EditModel::DeleteNewline => a.row + 1 == b.row && a.offset == v[b.row as int - 1].len(),
    }
}

/// Law: applying an edit forward and then its structural inverse, with
/// the roles of the two positions swapped, restores the buffer character
/// for character, for every edit kind whose record is consistent with the
/// buffer it mutates.
pub proof fn lemma_apply_invert_round_trip(m: EditModel, b: Pos, a: Pos, v: Seq<Seq<char>>)
    requires
        spec_lines_applicable(m, b, a, v),
        spec_edit_consistent(m, b, a, v),
    ensures
        spec_lines_applicable(spec_invert(m), a, b, spec_apply_lines(m, b, a, v)),
        spec_apply_lines(spec_invert(m), a, b, spec_apply_lines(m, b, a, v)) == v,
{
    let v1 = spec_apply_lines(m, b, a, v);
    let v2 = spec_apply_lines(spec_invert(m), a, b, v1);
    match m {
        EditModel::InsertChar(c, _) => {
            assert(v2 =~~= v);
        },
        EditModel::DeleteChar(c, _) => {
            assert(v2 =~~= v);
        },
        EditModel::InsertLine(s, _) => {
            assert(v2 =~~= v);
        },
        EditModel::DeleteLine(s, _) => {
            assert(v2 =~~= v);
        },
        EditModel::InsertStr(s, _) => {
            assert(v2 =~~= v);
        },
        EditModel::DeleteStr(s, _) => {
            assert(v2 =~~= v);
        },
        EditModel::InsertChunk(c, _) => {
            assert(v2 =~~= v);
        },
        EditModel::DeleteChunk(c, _) => {
            assert(v2 =~~= v);
        },
        EditModel::InsertNewline => {
            assert(v2 =~~= v);
        },
        EditModel::DeleteNewline => {
            assert(v2 =~~= v);
        },
    }
}

/// What pushing a whole run of edits, first to last, does to a history.
pub open spec fn spec_push_seq(edits: Seq<Edit>, index: int, max: int, es: Seq<Edit>) -> (
    Seq<Edit>,
    int,
)
    decreases es.len(),
{
    if es.len() == 0 {
        (edits, index)
    } else {
        let r1 = spec_push_hist(edits, index, max, es[0]);
        spec_push_seq(r1.0, r1.1, max, es.skip(1))
    }
}

/// Law: pushing a run of edits with the index at the end of the log keeps
/// the index at the end and keeps exactly the newest `max` entries of the
/// log extended by the run: everything older is evicted and out of
/// undo's reach. In particular a run of `max + 1` pushes into an empty
/// history leaves exactly `max` entries, the first push's edit gone.
pub proof fn lemma_capacity_eviction(edits: Seq<Edit>, max: int, es: Seq<Edit>)
    requires
        max > 0,
        edits.len() <= max,
    ensures
        ({
            let r = spec_push_seq(edits, edits.len() as int, max, es);
            let all = edits + es;
            let keep = if all.len() <= max {
                0int
            } else {
                all.len() - max
            };
            r.0 == all.skip(keep) && r.1 == r.0.len() && r.0.len() <= max
        }),
    decreases es.len(),
{
    let all = edits + es;
    if es.len() == 0 {
        assert(all.skip(0) =~= edits);
    } else {
        let r1 = spec_push_hist(edits, edits.len() as int, max, es[0]);
        if edits.len() == max {
            assert(r1.0 =~= edits.skip(1).push(es[0]));
            assert(r1.1 == r1.0.len());
            lemma_capacity_eviction(edits.skip(1).push(es[0]), max, es.skip(1));
            assert(edits.skip(1).push(es[0]) + es.skip(1) =~= all.skip(1));
            let keep = if all.len() <= max {
                0int
            } else {
                all.len() - max
            };
            assert(all.skip(1).skip(keep - 1) =~= all.skip(keep));
        } else {
            assert(r1.0 =~= edits.push(es[0]));
            assert(r1.1 == r1.0.len());
            lemma_capacity_eviction(edits.push(es[0]), max, es.skip(1));
            assert(edits.push(es[0]) + es.skip(1) =~= all);
        }
    }
}

/// Law: any push into a history with positive capacity leaves the index
/// at the end of the log, so the redo tail that stood at or after the old
/// index is gone and an immediate redo has nothing to redo.
pub proof fn lemma_push_truncates_redo_tail(edits: Seq<Edit>, index: int, max: int, e: Edit)
    requires
        max > 0,
        0 <= index <= edits.len(),
    ensures
        ({
            let r = spec_push_hist(edits, index, max, e);
            r.1 == r.0.len()
        }),
{
}

} // verus!
