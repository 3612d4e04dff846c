//! Maximal runs of classified bytes.
//!
//! The scanner repeatedly needs the end of a maximal run: of identifier
//! bytes after `$`, of column-list bytes after `$[`, of whitespace when an
//! entry is trimmed, and the position of the next comma. Each notion is a
//! recursive spec function with a matching executable finder.

use crate::bytes::{
    CARRIAGE_RETURN, COMMA, DIGIT_NINE, DIGIT_ZERO, DOT, FORM_FEED, LINE_FEED, LOWER_A, LOWER_Z,
    SPACE, TAB, UNDERSCORE, UPPER_A, UPPER_Z,
};
use vstd::prelude::*;

verus! {

/// Identifier bytes: ASCII letters, digits and `_`.
pub open spec fn is_ident_byte(b: u8) -> bool {
    (LOWER_A <= b && b <= LOWER_Z) || (UPPER_A <= b && b <= UPPER_Z) || (DIGIT_ZERO <= b
        && b <= DIGIT_NINE) || b == UNDERSCORE
}

/// ASCII whitespace.
pub open spec fn is_space_byte(b: u8) -> bool {
    b == SPACE || b == TAB || b == LINE_FEED || b == FORM_FEED || b == CARRIAGE_RETURN
}

/// Bytes allowed inside a column-list construct before its `]`.
pub open spec fn is_group_byte(b: u8) -> bool {
    is_ident_byte(b) || is_space_byte(b) || b == COMMA || b == DOT
}

fn ident_byte(b: u8) -> (r: bool)
    ensures
        r == is_ident_byte(b),
{
    (LOWER_A <= b && b <= LOWER_Z) || (UPPER_A <= b && b <= UPPER_Z) || (DIGIT_ZERO <= b
        && b <= DIGIT_NINE) || b == UNDERSCORE
}

fn space_byte(b: u8) -> (r: bool)
    ensures
        r == is_space_byte(b),
{
    b == SPACE || b == TAB || b == LINE_FEED || b == FORM_FEED || b == CARRIAGE_RETURN
}

fn group_byte(b: u8) -> (r: bool)
    ensures
        r == is_group_byte(b),
{
    ident_byte(b) || space_byte(b) || b == COMMA || b == DOT
}

// ---------------------------------------------------------------------------
// Maximal runs
// ---------------------------------------------------------------------------
/// The end of the maximal run of identifier bytes starting at `i`.
pub open spec fn ident_end(s: Seq<u8>, i: int) -> int
    decreases s.len() - i,
{
    if i < 0 || i >= s.len() || !is_ident_byte(s[i]) {
        i
    } else {
        ident_end(s, i + 1)
    }
}

/// The end of the maximal run of column-list bytes starting at `i`.
pub open spec fn group_end(s: Seq<u8>, i: int) -> int
    decreases s.len() - i,
{
    if i < 0 || i >= s.len() || !is_group_byte(s[i]) {
        i
    } else {
        group_end(s, i + 1)
    }
}

/// The position of the first comma in `[i, end)`, or `end`.
pub open spec fn comma_end(s: Seq<u8>, i: int, end: int) -> int
    decreases end - i,
{
    if i < 0 || i >= end || i >= s.len() || s[i] == COMMA {
        i
    } else {
        comma_end(s, i + 1, end)
    }
}

/// The position of the first non-whitespace byte in `[i, end)`, or `end`.
pub open spec fn skip_spaces(s: Seq<u8>, i: int, end: int) -> int
    decreases end - i,
{
    if i < 0 || i >= end || i >= s.len() || !is_space_byte(s[i]) {
        i
    } else {
        skip_spaces(s, i + 1, end)
    }
}

/// The position just after the last non-whitespace byte of `[lo, end)`,
/// or `lo` when the region is all whitespace.
pub open spec fn rtrim_end(s: Seq<u8>, lo: int, end: int) -> int
    decreases end - lo,
{
    if end <= lo || end > s.len() || !is_space_byte(s[end - 1]) {
        end
    } else {
        rtrim_end(s, lo, end - 1)
    }
}

pub broadcast proof fn lemma_ident_end_bounds(s: Seq<u8>, i: int)
    ensures
        i <= #[trigger] ident_end(s, i),
        i <= s.len() ==> ident_end(s, i) <= s.len(),
    decreases s.len() - i,
{
    if !(i < 0 || i >= s.len() || !is_ident_byte(s[i])) {
        lemma_ident_end_bounds(s, i + 1);
    }
}

pub broadcast proof fn lemma_group_end_bounds(s: Seq<u8>, i: int)
    ensures
        i <= #[trigger] group_end(s, i),
        i <= s.len() ==> group_end(s, i) <= s.len(),
    decreases s.len() - i,
{
    if !(i < 0 || i >= s.len() || !is_group_byte(s[i])) {
        lemma_group_end_bounds(s, i + 1);
    }
}

pub broadcast proof fn lemma_comma_end_bounds(s: Seq<u8>, i: int, end: int)
    ensures
        i <= #[trigger] comma_end(s, i, end),
        i <= end ==> comma_end(s, i, end) <= end,
    decreases end - i,
{
    if !(i < 0 || i >= end || i >= s.len() || s[i] == COMMA) {
        lemma_comma_end_bounds(s, i + 1, end);
    }
}

pub broadcast proof fn lemma_skip_spaces_bounds(s: Seq<u8>, i: int, end: int)
    ensures
        i <= #[trigger] skip_spaces(s, i, end),
        i <= end ==> skip_spaces(s, i, end) <= end,
    decreases end - i,
{
    if !(i < 0 || i >= end || i >= s.len() || !is_space_byte(s[i])) {
        lemma_skip_spaces_bounds(s, i + 1, end);
    }
}

pub broadcast proof fn lemma_rtrim_end_bounds(s: Seq<u8>, lo: int, end: int)
    ensures
        #[trigger] rtrim_end(s, lo, end) <= end,
        lo <= end ==> lo <= rtrim_end(s, lo, end),
    decreases end - lo,
{
    if !(end <= lo || end > s.len() || !is_space_byte(s[end - 1])) {
        lemma_rtrim_end_bounds(s, lo, end - 1);
    }
}

pub(crate) fn find_ident_end(s: &Vec<u8>, i: usize) -> (r: usize)
    requires
        i <= s@.len(),
    ensures
        r as int == ident_end(s@, i as int),
        i <= r <= s@.len(),
{
    let mut j = i;
    while j < s.len() && ident_byte(s[j])
        invariant
            i <= j <= s@.len(),
            ident_end(s@, i as int) == ident_end(s@, j as int),
        decreases s@.len() - j,
    {
        j = j + 1;
    }
    j
}

pub(crate) fn find_group_end(s: &Vec<u8>, i: usize) -> (r: usize)
    requires
        i <= s@.len(),
    ensures
        r as int == group_end(s@, i as int),
        i <= r <= s@.len(),
{
    let mut j = i;
    while j < s.len() && group_byte(s[j])
        invariant
            i <= j <= s@.len(),
            group_end(s@, i as int) == group_end(s@, j as int),
        decreases s@.len() - j,
    {
        j = j + 1;
    }
    j
}

pub(crate) fn find_comma(s: &Vec<u8>, i: usize, end: usize) -> (r: usize)
    requires
        i <= end <= s@.len(),
    ensures
        r as int == comma_end(s@, i as int, end as int),
        i <= r <= end,
{
    let mut j = i;
    while j < end && s[j] != COMMA
        invariant
            i <= j <= end <= s@.len(),
            comma_end(s@, i as int, end as int) == comma_end(s@, j as int, end as int),
        decreases end - j,
    {
        j = j + 1;
    }
    j
}

pub(crate) fn find_unpadded(s: &Vec<u8>, i: usize, end: usize) -> (r: usize)
    requires
        i <= end <= s@.len(),
    ensures
        r as int == skip_spaces(s@, i as int, end as int),
        i <= r <= end,
{
    let mut j = i;
    while j < end && space_byte(s[j])
        invariant
            i <= j <= end <= s@.len(),
            skip_spaces(s@, i as int, end as int) == skip_spaces(s@, j as int, end as int),
        decreases end - j,
    {
        j = j + 1;
    }
    j
}

pub(crate) fn find_rtrim(s: &Vec<u8>, lo: usize, end: usize) -> (r: usize)
    requires
        lo <= end <= s@.len(),
    ensures
        r as int == rtrim_end(s@, lo as int, end as int),
        lo <= r <= end,
{
    let mut j = end;
    while j > lo && space_byte(s[j - 1])
        invariant
            lo <= j <= end <= s@.len(),
            rtrim_end(s@, lo as int, end as int) == rtrim_end(s@, lo as int, j as int),
        decreases j,
    {
        j = j - 1;
    }
    j
}

/// Every byte of the maximal identifier run is an identifier byte.
pub proof fn lemma_ident_end_chars(s: Seq<u8>, i: int)
    ensures
        forall|k: int| i <= k < ident_end(s, i) ==> is_ident_byte(s[k]),
    decreases s.len() - i,
{
    if !(i < 0 || i >= s.len() || !is_ident_byte(s[i])) {
        lemma_ident_end_chars(s, i + 1);
    }
}

/// Every byte of the maximal column-list run is a column-list byte.
pub proof fn lemma_group_end_chars(s: Seq<u8>, i: int)
    ensures
        forall|k: int| i <= k < group_end(s, i) ==> is_group_byte(s[k]),
    decreases s.len() - i,
{
    if !(i < 0 || i >= s.len() || !is_group_byte(s[i])) {
        lemma_group_end_chars(s, i + 1);
    }
}

} // verus!
