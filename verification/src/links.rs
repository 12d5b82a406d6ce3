use vstd::prelude::*;

verus! {

/// An inline annotation: a span `[start_col, end_col]` bound to one row of
/// the buffer. `id` is stable for the link's lifetime and is the only part
/// preserved across undo/redo and copy. `deleted` is a soft delete: the
/// record stays in the store so that undo can resurrect it, but it is
/// excluded from the live view and from every shift pass. `edited` is a
/// one-shot suppression flag: a shift pass that has just repositioned a
/// link sets it, and the next, broader pass clears it instead of moving
/// the link a second time.
#[derive(Debug, Clone, Copy)]
pub struct Link {
    pub id: usize,
    pub row: usize,
    pub start_col: usize,
    pub end_col: usize,
    pub edited: bool,
    pub deleted: bool,
}

impl Link {
    pub fn new(id: usize, row: usize, start_col: usize, end_col: usize) -> (r: Self)
        ensures
            r == (Link { id, row, start_col, end_col, edited: false, deleted: false }),
    {
        Self { id, row, start_col, end_col, edited: false, deleted: false }
    }

    pub fn toggle_edited(&mut self)
        ensures
            *final(self) == (Link { edited: !old(self).edited, ..*old(self) }),
    {
        self.edited = !self.edited;
    }

    pub fn toggle_deleted(&mut self)
        ensures
            *final(self) == (Link { deleted: !old(self).deleted, ..*old(self) }),
    {
        self.deleted = !self.deleted;
    }
}

/// Two links are the same link exactly when they carry the same id; the
/// geometry is mutable state, the id is the identity.
impl PartialEq for Link {
    fn eq(&self, other: &Self) -> (r: bool) {
        self.id == other.id
    }
}

impl vstd::std_specs::cmp::PartialEqSpecImpl for Link {
    open spec fn obeys_eq_spec() -> bool {
        true
    }

    open spec fn eq_spec(&self, other: &Link) -> bool {
        self.id == other.id
    }
}

/// True when some link in `s` carries `id`.
pub open spec fn seq_has_id(s: Seq<Link>, id: usize) -> bool {
    exists|i: int| 0 <= i < s.len() && s[i].id == id
}

/// The index of the link carrying `id` (meaningful under unique ids).
pub open spec fn seq_idx_of(s: Seq<Link>, id: usize) -> int {
    choose|i: int| 0 <= i < s.len() && s[i].id == id
}

/// The link carrying `id` (meaningful under unique ids).
pub open spec fn seq_link(s: Seq<Link>, id: usize) -> Link {
    s[seq_idx_of(s, id)]
}

/// The store of all links of a buffer, live and soft-deleted alike,
/// addressed by their stable ids.
#[derive(Debug, Clone)]
pub struct LinkStore {
    items: Vec<Link>,
}

impl View for LinkStore {
    type V = Seq<Link>;

    closed spec fn view(&self) -> Seq<Link> {
        self.items@
    }
}

impl LinkStore {
    /// Well-formed: no two records carry the same id.
    pub open spec fn wf(&self) -> bool {
        forall|i: int, j: int|
            0 <= i < self@.len() && 0 <= j < self@.len() && i != j ==> self@[i].id != self@[j].id
    }

    pub fn new() -> (r: Self)
        ensures
            r@ == Seq::<Link>::empty(),
            r.wf(),
    {
        Self { items: Vec::new() }
    }

    pub fn len(&self) -> (r: usize)
        ensures
            r == self@.len(),
    {
        self.items.len()
    }

    /// The record at position `i` of the store, soft-deleted or not.
    pub fn at(&self, i: usize) -> (r: Link)
        requires
            i < self@.len(),
        ensures
            r == self@[i as int],
    {
        self.items[i]
    }

    pub(crate) fn set_at(&mut self, i: usize, l: Link)
        requires
            i < old(self)@.len(),
        ensures
            final(self)@ == old(self)@.update(i as int, l),
    {
        self.items[i] = l;
    }

    /// The position of the record carrying `id`, if one is present.
    pub fn index_of(&self, id: usize) -> (r: Option<usize>)
        ensures
            match r {
                Some(i) => i < self@.len() && self@[i as int].id == id && (forall|j: int|
                    0 <= j < i as int ==> self@[j].id != id),
                None => !seq_has_id(self@, id),
            },
    {
        let mut i: usize = 0;
        while i < self.items.len()
            invariant
                i <= self@.len(),
                forall|j: int| 0 <= j < i as int ==> self@[j].id != id,
            decreases self@.len() - i,
        {
            if self.items[i].id == id {
                return Some(i);
            }
            i = i + 1;
        }
        None
    }

    /// True when a record carrying `id` is in the store, live or deleted.
    pub fn contains_id(&self, id: usize) -> (r: bool)
        ensures
            r == seq_has_id(self@, id),
    {
        self.index_of(id).is_some()
    }

    /// The record carrying `id` whatever its `deleted` flag, if present.
    pub fn get_any(&self, id: usize) -> (r: Option<Link>)
        requires
            self.wf(),
        ensures
            r == if seq_has_id(self@, id) {
                Some(seq_link(self@, id))
            } else {
                None::<Link>
            },
    {
        match self.index_of(id) {
            Some(i) => {
                let l = self.items[i];
                proof {
                    assert(seq_has_id(self@, id));
                    assert(self@[seq_idx_of(self@, id)].id == id);
                    assert(seq_idx_of(self@, id) == i as int);
                }
                Some(l)
            },
            None => None,
        }
    }

    /// The live view of the store: the record carrying `id`, unless it is
    /// soft-deleted or absent.
    pub fn get(&self, id: usize) -> (r: Option<Link>)
        requires
            self.wf(),
        ensures
            r == if seq_has_id(self@, id) && !seq_link(self@, id).deleted {
                Some(seq_link(self@, id))
            } else {
                None::<Link>
            },
    {
        match self.get_any(id) {
            Some(l) => if l.deleted {
                None
            } else {
                Some(l)
            },
            None => None,
        }
    }

    /// Puts `link` into the store under `link.id`, replacing the record
    /// that carried that id before, if any.
    pub fn insert(&mut self, link: Link)
        requires
            old(self).wf(),
        ensures
            final(self).wf(),
            final(self)@ == if seq_has_id(old(self)@, link.id) {
                old(self)@.update(seq_idx_of(old(self)@, link.id), link)
            } else {
                old(self)@.push(link)
            },
    {
        match self.index_of(link.id) {
            Some(i) => {
                proof {
                    assert(self@[seq_idx_of(self@, link.id)].id == link.id);
                    assert(seq_idx_of(self@, link.id) == i as int);
                }
                self.items[i] = link;
            },
            None => {
                self.items.push(link);
            },
        }
    }

    /// Every live (not soft-deleted) record, in store order.
    pub fn live_links(&self) -> (r: Vec<Link>)
        ensures
            r@ == self@.filter(|l: Link| !l.deleted),
    {
        let mut r: Vec<Link> = Vec::new();
        let mut i: usize = 0;
        while i < self.items.len()
            invariant
                i <= self@.len(),
                r@ == self@.take(i as int).filter(|l: Link| !l.deleted),
            decreases self@.len() - i,
        {
            let l = self.items[i];
            proof {
                reveal(Seq::filter);
                assert(self@.take(i as int + 1).drop_last() =~= self@.take(i as int));
                assert(self@.take(i as int + 1).last() == self@[i as int]);
            }
            if !l.deleted {
                r.push(l);
            }
            i = i + 1;
        }
        proof {
            assert(self@.take(self@.len() as int) =~= self@);
        }
        r
    }
}


} // verus!
