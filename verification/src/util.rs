use vstd::prelude::*;

verus! {

use vstd::std_specs::iter::IteratorSpec;

/// A buffer position: row index, column measured in characters, and the
/// index into the row's character sequence at which the column starts.
/// In a character-based line buffer the column and the character index
/// coincide; both are carried so that a position names its location
/// unambiguously wherever it travels (edit records, history replay).
#[derive(Debug, Clone, Copy)]
pub struct Pos {
    pub row: usize,
    pub col: usize,
    pub offset: usize,
}

impl Pos {
    pub fn new(row: usize, col: usize, offset: usize) -> (r: Self)
        ensures
            r.row == row,
            r.col == col,
            r.offset == offset,
    {
        Self { row, col, offset }
    }
}

/// Number of decimal digits of `i`, counting one digit for zero.
pub open spec fn spec_num_digits(i: nat) -> nat
    decreases i,
{
    if i < 10 {
        1
    } else {
        1 + spec_num_digits(i / 10)
    }
}

pub open spec fn pow10(k: nat) -> nat
    decreases k,
{
    if k == 0 {
        1
    } else {
        10 * pow10((k - 1) as nat)
    }
}

proof fn lemma_num_digits_bound(i: nat, k: nat)
    requires
        1 <= k,
        i < pow10(k),
    ensures
        spec_num_digits(i) <= k,
    decreases i,
{
    if i >= 10 {
        assert(pow10(k) == 10 * pow10((k - 1) as nat));
        assert(i / 10 < pow10((k - 1) as nat));
        lemma_num_digits_bound(i / 10, (k - 1) as nat);
    }
}

/// Count of decimal digits of `i`; a single digit is reported for zero.
pub fn num_digits(i: usize) -> (r: u8)
    ensures
        r as nat == spec_num_digits(i as nat),
{
    proof {
        reveal_with_fuel(pow10, 21);
        assert(u64::MAX < pow10(20));
        assert(i as nat <= u64::MAX as nat);
        assert((i as nat) < pow10(20));
        lemma_num_digits_bound(i as nat, 20);
    }
    let mut n: usize = i;
    let mut d: u8 = 1;
    while n >= 10
        invariant
            d as nat + spec_num_digits(n as nat) == 1 + spec_num_digits(i as nat),
            spec_num_digits(i as nat) <= 20,
            1 <= d,
        decreases n,
    {
        n = n / 10;
        d = d + 1;
    }
    d
}

/// Relies on `core::iter::Iterator::collect` building a `String` from an
/// iterator of `char`s: the resulting string holds exactly the given
/// characters, in order.
#[verifier::external_body]
pub fn chars_to_string(cs: &Vec<char>) -> (r: String)
    ensures
        r@ == cs@,
{
    cs.iter().collect()
}

/// A string holding `size` spaces.
pub fn spaces(size: u8) -> (r: String)
    ensures
        r@.len() == size as nat,
        forall|k: int| 0 <= k < size as int ==> r@[k] == ' ',
{
    let v = space_chars(size as usize);
    chars_to_string(&v)
}

/// A character vector holding `n` spaces.
pub fn space_chars(n: usize) -> (r: Vec<char>)
    ensures
        r@.len() == n as nat,
        forall|k: int| 0 <= k < n as int ==> r@[k] == ' ',
{
    let mut v: Vec<char> = Vec::new();
    let mut j: usize = 0;
    while j < n
        invariant
            j <= n,
            v@.len() == j as nat,
            forall|k: int| 0 <= k < j as int ==> v@[k] == ' ',
        decreases n - j,
    {
        v.push(' ');
        j = j + 1;
    }
    v
}

/// Collects the characters of a string slice into a vector, in order.
pub fn str_to_chars(s: &str) -> (r: Vec<char>)
    ensures
        r@ == s@,
{
    broadcast use vstd::string::next_postcondition;
    broadcast use vstd::string::axiom_spec_iter;

    let mut r: Vec<char> = Vec::new();
    let mut it = s.chars();
    loop
        invariant
            it.obeys_prophetic_iter_laws(),
            it.remaining() =~= s@.subrange(r@.len() as int, s@.len() as int),
            r@ == s@.subrange(0, r@.len() as int),
            r@.len() <= s@.len(),
        decreases s@.len() - r@.len(),
    {
        match it.next() {
            Some(c) => {
                proof {
                    assert(s@[r@.len() as int] == c);
                }
                r.push(c);
                proof {
                    assert(r@ =~= s@.subrange(0, r@.len() as int));
                }
            },
            None => {
                proof {
                    assert(r@.len() == s@.len());
                    assert(r@ =~= s@);
                }
                return r;
            },
        }
    }
}

/// The start of the word that precedes position `col` of `line`: from
/// `col` (clamped into the line) first any spaces immediately to the
/// left are passed over, then the run of non-space characters; the
/// returned position is where that run begins. Zero when no word
/// boundary lies before.
pub open spec fn spec_skip_spaces_back(line: Seq<char>, p: int) -> int
    decreases p,
{
    if 0 < p <= line.len() && line[p - 1] == ' ' {
        spec_skip_spaces_back(line, p - 1)
    } else {
        p
    }
}

pub open spec fn spec_skip_word_back(line: Seq<char>, p: int) -> int
    decreases p,
{
    if 0 < p <= line.len() && line[p - 1] != ' ' {
        spec_skip_word_back(line, p - 1)
    } else {
        p
    }
}

pub open spec fn spec_word_start(line: Seq<char>, col: int) -> int {
    let c = if col <= line.len() {
        col
    } else {
        line.len() as int
    };
    spec_skip_word_back(line, spec_skip_spaces_back(line, c))
}

/// The end of the word that follows position `col` of `line`: from `col`
/// (clamped into the line) first any spaces are passed over, then the
/// run of non-space characters; the returned position is where that run
/// ends. The line's length when only spaces follow or the position sits
/// at the end.
pub open spec fn spec_skip_spaces_fwd(line: Seq<char>, p: int) -> int
    decreases line.len() - p,
{
    if 0 <= p < line.len() && line[p] == ' ' {
        spec_skip_spaces_fwd(line, p + 1)
    } else {
        p
    }
}

pub open spec fn spec_skip_word_fwd(line: Seq<char>, p: int) -> int
    decreases line.len() - p,
{
    if 0 <= p < line.len() && line[p] != ' ' {
        spec_skip_word_fwd(line, p + 1)
    } else {
        p
    }
}

pub open spec fn spec_word_end(line: Seq<char>, col: int) -> int {
    let c = if col <= line.len() {
        col
    } else {
        line.len() as int
    };
    spec_skip_word_fwd(line, spec_skip_spaces_fwd(line, c))
}

/// The word-start scan always lands inside the line.
pub proof fn lemma_word_start_bounds(line: Seq<char>, col: int)
    requires
        0 <= col,
    ensures
        0 <= spec_word_start(line, col) <= line.len(),
{
    let c = if col <= line.len() {
        col
    } else {
        line.len() as int
    };
    lemma_skip_spaces_back_bounds(line, c);
    lemma_skip_word_back_bounds(line, spec_skip_spaces_back(line, c));
}

/// The boundary [`spec_word_start`] names, executably.
pub fn find_word_start_backward(line: &Vec<char>, col: usize) -> (r: usize)
    ensures
        r as int == spec_word_start(line@, col as int),
        r <= col,
{
    let mut p: usize = if col <= line.len() {
        col
    } else {
        line.len()
    };
    while p > 0 && line[p - 1] == ' '
        invariant
            p <= line@.len(),
            spec_skip_spaces_back(line@, p as int) == spec_skip_spaces_back(
                line@,
                spec_word_start_entry(line@, col as int),
            ),
            p as int <= spec_word_start_entry(line@, col as int),
        decreases p,
    {
        p = p - 1;
    }
    proof {
        assert(spec_skip_spaces_back(line@, p as int) == p as int);
    }
    let ghost q0 = p as int;
    while p > 0 && line[p - 1] != ' '
        invariant
            p <= line@.len(),
            spec_skip_word_back(line@, p as int) == spec_skip_word_back(line@, q0),
            p as int <= q0,
            q0 == spec_skip_spaces_back(line@, spec_word_start_entry(line@, col as int)),
        decreases p,
    {
        p = p - 1;
    }
    proof {
        assert(spec_skip_word_back(line@, p as int) == p as int);
    }
    p
}

/// The clamped start position the word scans begin from.
pub open spec fn spec_word_start_entry(line: Seq<char>, col: int) -> int {
    if col <= line.len() {
        col
    } else {
        line.len() as int
    }
}

/// A word scan forward from inside the row always advances.
pub proof fn lemma_word_end_advances(line: Seq<char>, col: int)
    requires
        0 <= col < line.len(),
    ensures
        col < spec_word_end(line, col),
        spec_word_end(line, col) <= line.len(),
    decreases 0int,
{
    lemma_skip_spaces_fwd_bounds(line, col);
    let p = spec_skip_spaces_fwd(line, col);
    lemma_skip_word_fwd_bounds(line, p);
    if line[col] == ' ' {
        assert(spec_skip_spaces_fwd(line, col) == spec_skip_spaces_fwd(line, col + 1));
        lemma_skip_spaces_fwd_lower(line, col + 1);
    } else {
        assert(spec_skip_spaces_fwd(line, col) == col);
        assert(spec_skip_word_fwd(line, col) == spec_skip_word_fwd(line, col + 1));
        lemma_skip_word_fwd_lower(line, col + 1);
    }
}

pub proof fn lemma_skip_spaces_fwd_lower(line: Seq<char>, p: int)
    requires
        0 <= p <= line.len(),
    ensures
        p <= spec_skip_spaces_fwd(line, p) <= line.len(),
    decreases line.len() - p,
{
    if 0 <= p < line.len() && line[p] == ' ' {
        lemma_skip_spaces_fwd_lower(line, p + 1);
    }
}

pub proof fn lemma_skip_word_fwd_lower(line: Seq<char>, p: int)
    requires
        0 <= p <= line.len(),
    ensures
        p <= spec_skip_word_fwd(line, p) <= line.len(),
    decreases line.len() - p,
{
    if 0 <= p < line.len() && line[p] != ' ' {
        lemma_skip_word_fwd_lower(line, p + 1);
    }
}

pub proof fn lemma_skip_spaces_fwd_bounds(line: Seq<char>, p: int)
    requires
        0 <= p <= line.len(),
    ensures
        p <= spec_skip_spaces_fwd(line, p) <= line.len(),
    decreases line.len() - p,
{
    if 0 <= p < line.len() && line[p] == ' ' {
        lemma_skip_spaces_fwd_bounds(line, p + 1);
    }
}

pub proof fn lemma_skip_word_fwd_bounds(line: Seq<char>, p: int)
    requires
        0 <= p <= line.len(),
    ensures
        p <= spec_skip_word_fwd(line, p) <= line.len(),
    decreases line.len() - p,
{
    if 0 <= p < line.len() && line[p] != ' ' {
        lemma_skip_word_fwd_bounds(line, p + 1);
    }
}

pub proof fn lemma_skip_spaces_back_bounds(line: Seq<char>, p: int)
    requires
        0 <= p <= line.len(),
    ensures
        0 <= spec_skip_spaces_back(line, p) <= p,
    decreases p,
{
    if 0 < p <= line.len() && line[p - 1] == ' ' {
        lemma_skip_spaces_back_bounds(line, p - 1);
    }
}

pub proof fn lemma_skip_word_back_bounds(line: Seq<char>, p: int)
    requires
        0 <= p <= line.len(),
    ensures
        0 <= spec_skip_word_back(line, p) <= p,
    decreases p,
{
    if 0 < p <= line.len() && line[p - 1] != ' ' {
        lemma_skip_word_back_bounds(line, p - 1);
    }
}

/// A word scan backward from a positive column always moves left.
pub proof fn lemma_word_start_decreases(line: Seq<char>, col: int)
    requires
        0 < col <= line.len(),
    ensures
        0 <= spec_word_start(line, col) < col,
{
    if line[col - 1] == ' ' {
        assert(spec_skip_spaces_back(line, col) == spec_skip_spaces_back(line, col - 1));
        lemma_skip_spaces_back_bounds(line, col - 1);
        lemma_skip_word_back_bounds(line, spec_skip_spaces_back(line, col - 1));
    } else {
        assert(spec_skip_spaces_back(line, col) == col);
        assert(spec_skip_word_back(line, col) == spec_skip_word_back(line, col - 1));
        lemma_skip_word_back_bounds(line, col - 1);
    }
}

/// The boundary [`spec_word_end`] names, executably.
pub fn find_word_end_forward(line: &Vec<char>, col: usize) -> (r: usize)
    ensures
        r as int == spec_word_end(line@, col as int),
        r <= line@.len(),
        spec_word_start_entry(line@, col as int) <= r as int,
{
    let mut p: usize = if col <= line.len() {
        col
    } else {
        line.len()
    };
    let ghost e0 = p as int;
    while p < line.len() && line[p] == ' '
        invariant
            p <= line@.len(),
            spec_skip_spaces_fwd(line@, p as int) == spec_skip_spaces_fwd(line@, e0),
            e0 <= p as int,
            e0 == spec_word_start_entry(line@, col as int),
        decreases line@.len() - p,
    {
        p = p + 1;
    }
    proof {
        assert(spec_skip_spaces_fwd(line@, p as int) == p as int);
    }
    let ghost q0 = p as int;
    while p < line.len() && line[p] != ' '
        invariant
            p <= line@.len(),
            spec_skip_word_fwd(line@, p as int) == spec_skip_word_fwd(line@, q0),
            q0 <= p as int,
            q0 == spec_skip_spaces_fwd(line@, spec_word_start_entry(line@, col as int)),
        decreases line@.len() - p,
    {
        p = p + 1;
    }
    proof {
        assert(spec_skip_word_fwd(line@, p as int) == p as int);
    }
    p
}

} // verus!
