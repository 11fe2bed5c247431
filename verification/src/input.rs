//! Free-format input scanning.
//!
//! The surrounding input layer reads lines in the classical free
//! format, where tokens are separated by blanks, tabs, commas and
//! equals signs.  The scanner here finds the next token of a line; it
//! is exact about what a token is, so the layer above carries no
//! parsing logic of its own.

use vstd::prelude::*;

verus! {

/// Separator of the free input format: blank, tab, comma or equals.
pub open spec fn is_sep(c: u8) -> bool {
    c == 32 || c == 9 || c == 44 || c == 61
}

fn sep(c: u8) -> (r: bool)
    ensures
        r == is_sep(c),
{
    c == 32 || c == 9 || c == 44 || c == 61
}

/// Finds the next free-format token of `line` at or after `start`:
/// the span `[s, e)` of the first maximal separator-free run.  Returns
/// `None` when only separators remain.  (The name follows the
/// historical free-format reading routine.)
#[allow(non_snake_case)]
pub fn INFREE(line: &Vec<u8>, start: usize) -> (r: Option<(usize, usize)>)
    ensures
        match r {
            Some(se) => start <= se.0 < se.1 <= line@.len() && (forall|k: int|
                se.0 <= k < se.1 ==> !is_sep(line@[k])) && (forall|k: int|
                start <= k < se.0 ==> is_sep(line@[k])) && (se.1 == line@.len() || is_sep(
                line@[se.1 as int],
            )),
            None => forall|k: int| start <= k < line@.len() ==> is_sep(line@[k]),
        },
{
    let n = line.len();
    let mut s: usize = start;
    while s < n && sep(line[s])
        invariant
            n == line@.len(),
            start <= s,
            forall|k: int| start <= k < s ==> is_sep(line@[k]),
        decreases n - s,
    {
        s += 1;
    }
    if s >= n {
        return None;
    }
    let mut e: usize = s + 1;
    while e < n && !sep(line[e])
        invariant
            n == line@.len(),
            s < e <= n,
            forall|k: int| s < k < e ==> !is_sep(line@[k]),
        decreases n - e,
    {
        e += 1;
    }
    Some((s, e))
}

} // verus!
