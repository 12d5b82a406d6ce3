use vstd::prelude::*;

verus! {

/// One labelled match position: the label shown to pick the match, and
/// the (row, column) the cursor jumps to when it is picked.
#[derive(Debug, Clone, Copy)]
pub struct MatchIndex {
    pub idx: usize,
    pub pos: (usize, usize),
}

impl MatchIndex {
    pub fn new(idx: usize, pos: (usize, usize)) -> (r: Self)
        ensures
            r.idx == idx,
            r.pos == pos,
    {
        Self { idx, pos }
    }
}

} // verus!
