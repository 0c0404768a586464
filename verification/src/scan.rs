//! The fallback strategy: scanning free text for addresses already written
//! in the strict canonical shape.
//!
//! A line qualifies when it mentions the address keyword `bssid` in any
//! letter case.  Within a qualifying line every substring of the shape
//! `XX:XX:XX:XX:XX:XX` (six hexadecimal pairs joined by colons) is collected,
//! leftmost first and without overlap.

use vstd::prelude::*;

use crate::chars::char_views;
use crate::chars::contains_chars;
use crate::chars::contains_seq;
use crate::chars::exec_is_hex_digit;
use crate::chars::exec_lower_char;
use crate::chars::is_hex_digit;
use crate::chars::lower_char;
use crate::chars::lower_seq;
use crate::chars::to_chars;

verus! {

/// The strict canonical address shape: six hexadecimal pairs joined by
/// colons, 17 characters in all.
pub open spec fn mac_shape(t: Seq<char>) -> bool {
    t.len() == 17 && forall|i: int|
        0 <= i < 17 ==> if i % 3 == 2 {
            t[i] == ':'
        } else {
            is_hex_digit(#[trigger] t[i])
        }
}

/// The address-shaped substrings of `l` from position `p` on: leftmost
/// first, without overlap, continuing right after each find.
pub open spec fn scan_from(l: Seq<char>, p: int) -> Seq<Seq<char>>
    decreases l.len() - p,
{
    if p + 17 <= l.len() && mac_shape(l.subrange(p, p + 17)) {
        seq![l.subrange(p, p + 17)] + scan_from(l, p + 17)
    } else if p < l.len() {
        scan_from(l, p + 1)
    } else {
        Seq::empty()
    }
}

/// All address-shaped substrings of a line.
pub open spec fn scan_spec(l: Seq<char>) -> Seq<Seq<char>> {
    scan_from(l, 0)
}

/// Whether the line mentions the address keyword, in any letter case.
pub open spec fn line_has_keyword(l: Seq<char>) -> bool {
    contains_seq(lower_seq(l), "bssid"@)
}

/// Lowercase every character of `l`.
pub fn lower_vec(l: &Vec<char>) -> (r: Vec<char>)
    ensures
        r@ == lower_seq(l@),
{
    let mut r: Vec<char> = Vec::new();
    let mut i: usize = 0;
    while i < l.len()
        invariant
            i <= l@.len(),
            r@.len() == i,
            forall|j: int| 0 <= j < i ==> r@[j] == lower_char(l@[j]),
        decreases l@.len() - i,
    {
        r.push(exec_lower_char(l[i]));
        i = i + 1;
    }
    proof {
        assert(r@ =~= lower_seq(l@));
    }
    r
}

/// Whether the line mentions the address keyword, in any letter case.
pub fn has_keyword(l: &Vec<char>) -> (r: bool)
    ensures
        r == line_has_keyword(l@),
{
    let low = lower_vec(l);
    let pat = to_chars("bssid");
    contains_chars(&low, &pat)
}

/// Whether the 17 characters of `l` starting at `p` form the canonical
/// address shape.
fn mac_shape_at(l: &Vec<char>, p: usize) -> (r: bool)
    requires
        p + 17 <= l@.len(),
    ensures
        r == mac_shape(l@.subrange(p as int, p as int + 17)),
{
    let ln = l.len();
    let ghost t = l@.subrange(p as int, p as int + 17);
    let mut i: usize = 0;
    let mut ok = true;
    while i < 17
        invariant
            ln == l@.len(),
            p + 17 <= l@.len(),
            t == l@.subrange(p as int, p as int + 17),
            i <= 17,
            !ok ==> i == 17,
            ok == (forall|j: int|
                0 <= j < i ==> if j % 3 == 2 {
                    t[j] == ':'
                } else {
                    is_hex_digit(#[trigger] t[j])
                }),
        decreases 17 - i,
    {
        let c = l[p + i];
        proof {
            assert(t[i as int] == l@[p + i]);
        }
        let good = if i % 3 == 2 {
            c == ':'
        } else {
            exec_is_hex_digit(c)
        };
        if !good {
            ok = false;
            i = 17;
        } else {
            proof {
                assert(forall|j: int|
                    0 <= j < i + 1 ==> if j % 3 == 2 {
                        t[j] == ':'
                    } else {
                        is_hex_digit(#[trigger] t[j])
                    });
            }
            i = i + 1;
        }
    }
    ok
}

/// Collect every address-shaped substring of `l`, leftmost first, without
/// overlap.
pub fn scan_line(l: &Vec<char>) -> (r: Vec<Vec<char>>)
    ensures
        char_views(r@) == scan_spec(l@),
{
    let ln = l.len();
    let mut r: Vec<Vec<char>> = Vec::new();
    let mut p: usize = 0;
    while p < ln
        invariant
            ln == l@.len(),
            0 <= p <= l@.len(),
            scan_from(l@, 0) =~= char_views(r@) + scan_from(l@, p as int),
        decreases l@.len() - p,
    {
        if 17 <= ln - p && mac_shape_at(l, p) {
            let end = p + 17;
            let mut m: Vec<char> = Vec::new();
            let mut q: usize = p;
            while q < end
                invariant
                    ln == l@.len(),
                    end == p + 17,
                    p + 17 <= l@.len(),
                    p <= q <= p + 17,
                    m@ == l@.subrange(p as int, q as int),
                decreases p + 17 - q,
            {
                m.push(l[q]);
                q = q + 1;
                proof {
                    assert(m@ =~= l@.subrange(p as int, q as int));
                }
            }
            proof {
                assert(char_views(r@.push(m)) =~= char_views(r@).push(m@));
            }
            r.push(m);
            p = p + 17;
        } else {
            p = p + 1;
        }
    }
    proof {
        assert(scan_from(l@, p as int) =~= Seq::<Seq<char>>::empty());
        assert(char_views(r@) =~= scan_spec(l@));
    }
    r
}

} // verus!
