use vstd::prelude::*;

verus! {

/// The display width in terminal columns that the Unicode tables assign
/// to `c`, or nothing for a control character. A pure function of the
/// character.
pub uninterp spec fn spec_char_width(c: char) -> Option<usize>;

/// Relies on unicode_width's `UnicodeWidthChar::width` for `char`: a
/// pure table lookup over the character's codepoint — the same character
/// always reports the same width — with `None` for control characters.
#[verifier::external_body]
pub fn char_width(c: char) -> (r: Option<usize>)
    ensures
        r == spec_char_width(c),
{
    unicode_width::UnicodeWidthChar::width(c)
}

/// The width a character contributes to a row: its display width, zero
/// for a control character.
pub open spec fn spec_width_or_zero(c: char) -> int {
    match spec_char_width(c) {
        Some(w) => w as int,
        None => 0,
    }
}

/// The display width of the first `k` characters of `line`, summed with
/// the sum pinned into the usize range.
pub open spec fn spec_width_sum(line: Seq<char>, k: int) -> int
    decreases k,
{
    if k <= 0 {
        0
    } else {
        let prev = spec_width_sum(line, k - 1);
        let next = prev + spec_width_or_zero(line[k - 1]);
        if next > usize::MAX {
            usize::MAX as int
        } else {
            next
        }
    }
}

/// The pinned width sum of [`spec_width_sum`], executably.
pub fn width_sum(line: &Vec<char>, k: usize) -> (r: usize)
    requires
        k <= line@.len(),
    ensures
        r as int == spec_width_sum(line@, k as int),
{
    let mut acc: usize = 0;
    let mut j: usize = 0;
    while j < k
        invariant
            j <= k <= line@.len(),
            acc as int == spec_width_sum(line@, j as int),
        decreases k - j,
    {
        let w = match char_width(line[j]) {
            Some(w) => w,
            None => 0,
        };
        if acc > usize::MAX - w {
            acc = usize::MAX;
        } else {
            acc = acc + w;
        }
        j = j + 1;
    }
    acc
}

} // verus!
