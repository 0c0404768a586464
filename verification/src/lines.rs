//! Splitting raw CLI output into lines, and lines into whitespace-separated
//! tokens.
//!
//! Lines are the segments between `'\n'` characters.  A carriage return
//! before the break is ordinary whitespace and is handled by the tokenizer,
//! not the splitter.

use vstd::prelude::*;

use crate::chars::char_views;
use crate::chars::exec_is_space;
use crate::chars::is_space;

verus! {

/// The first index at or after `p` holding `'\n'`, or the length of `s`.
pub open spec fn line_break(s: Seq<char>, p: int) -> int
    decreases s.len() - p,
{
    if p >= s.len() {
        s.len() as int
    } else if s[p] == '\n' {
        p
    } else {
        line_break(s, p + 1)
    }
}

proof fn lemma_line_break_bounds(s: Seq<char>, p: int)
    requires
        0 <= p <= s.len(),
    ensures
        p <= line_break(s, p) <= s.len(),
        forall|j: int| p <= j < line_break(s, p) ==> s[j] != '\n',
        line_break(s, p) < s.len() ==> s[line_break(s, p)] == '\n',
    decreases s.len() - p,
{
    if p < s.len() && s[p] != '\n' {
        lemma_line_break_bounds(s, p + 1);
    }
}

/// `line_break` is pinned down by its defining properties.
proof fn lemma_line_break_is(s: Seq<char>, p: int, e: int)
    requires
        0 <= p <= e <= s.len(),
        forall|j: int| p <= j < e ==> s[j] != '\n',
        e < s.len() ==> s[e] == '\n',
    ensures
        line_break(s, p) == e,
    decreases e - p,
{
    if p < e {
        lemma_line_break_is(s, p + 1, e);
    }
}

/// The lines of `s` from position `p` on: the segments between `'\n'`
/// characters.  Splitting keeps empty segments, so every `'\n'` ends a line
/// and the characters after the last `'\n'` form one more.
pub open spec fn lines_from(s: Seq<char>, p: int) -> Seq<Seq<char>>
    decreases s.len() - p,
    when 0 <= p <= s.len()
    via lines_from_decreases
{
    let e = line_break(s, p);
    if e >= s.len() {
        seq![s.subrange(p, s.len() as int)]
    } else {
        seq![s.subrange(p, e)] + lines_from(s, e + 1)
    }
}

#[via_fn]
proof fn lines_from_decreases(s: Seq<char>, p: int) {
    lemma_line_break_bounds(s, p);
}

/// The lines of a whole text.
pub open spec fn lines_spec(s: Seq<char>) -> Seq<Seq<char>> {
    lines_from(s, 0)
}

/// Split `v` at every `'\n'`, keeping empty segments.
pub fn split_lines(v: &Vec<char>) -> (r: Vec<Vec<char>>)
    ensures
        char_views(r@) == lines_spec(v@),
{
    let mut r: Vec<Vec<char>> = Vec::new();
    let mut cur: Vec<char> = Vec::new();
    let mut i: usize = 0;
    let ghost mut start: int = 0;
    while i < v.len()
        invariant
            0 <= start <= i <= v@.len(),
            cur@ == v@.subrange(start, i as int),
            forall|j: int| start <= j < i ==> v@[j] != '\n',
            lines_from(v@, 0) =~= char_views(r@) + lines_from(v@, start),
        decreases v@.len() - i,
    {
        let c = v[i];
        i = i + 1;
        if c == '\n' {
            proof {
                lemma_line_break_is(v@, start, i - 1);
                assert(lines_from(v@, start) =~= seq![v@.subrange(start, i - 1)] + lines_from(
                    v@,
                    i as int,
                ));
                assert(char_views(r@.push(cur)) =~= char_views(r@).push(cur@));
            }
            r.push(cur);
            cur = Vec::new();
            proof {
                start = i as int;
                assert(cur@ =~= v@.subrange(start, i as int));
            }
        } else {
            cur.push(c);
            proof {
                assert(cur@ =~= v@.subrange(start, i as int));
            }
        }
    }
    proof {
        lemma_line_break_is(v@, start, v@.len() as int);
        assert(lines_from(v@, start) =~= seq![v@.subrange(start, v@.len() as int)]);
        assert(char_views(r@.push(cur)) =~= char_views(r@).push(cur@));
    }
    r.push(cur);
    proof {
        assert(char_views(r@) =~= lines_spec(v@));
    }
    r
}

/// The first index at or after `p` holding whitespace, or the length of `l`:
/// the end of the token that starts at `p`.
pub open spec fn token_end(l: Seq<char>, p: int) -> int
    decreases l.len() - p,
{
    if p >= l.len() {
        l.len() as int
    } else if is_space(l[p]) {
        p
    } else {
        token_end(l, p + 1)
    }
}

proof fn lemma_token_end_bounds(l: Seq<char>, p: int)
    requires
        0 <= p <= l.len(),
    ensures
        p <= token_end(l, p) <= l.len(),
        forall|j: int| p <= j < token_end(l, p) ==> !is_space(l[j]),
        token_end(l, p) < l.len() ==> is_space(l[token_end(l, p)]),
    decreases l.len() - p,
{
    if p < l.len() && !is_space(l[p]) {
        lemma_token_end_bounds(l, p + 1);
    }
}

proof fn lemma_token_end_is(l: Seq<char>, p: int, e: int)
    requires
        0 <= p <= e <= l.len(),
        forall|j: int| p <= j < e ==> !is_space(l[j]),
        e < l.len() ==> is_space(l[e]),
    ensures
        token_end(l, p) == e,
    decreases e - p,
{
    if p < e {
        lemma_token_end_is(l, p + 1, e);
    }
}

/// The maximal runs of non-whitespace characters of `l` from position `p`
/// on, in order.
pub open spec fn tokens_from(l: Seq<char>, p: int) -> Seq<Seq<char>>
    decreases l.len() - p,
    when 0 <= p <= l.len()
    via tokens_from_decreases
{
    if p >= l.len() {
        Seq::empty()
    } else if is_space(l[p]) {
        tokens_from(l, p + 1)
    } else {
        seq![l.subrange(p, token_end(l, p))] + tokens_from(l, token_end(l, p))
    }
}

#[via_fn]
proof fn tokens_from_decreases(l: Seq<char>, p: int) {
    if 0 <= p < l.len() && !is_space(l[p]) {
        lemma_token_end_bounds(l, p);
        assert(token_end(l, p) > p);
    }
}

/// The whitespace-separated tokens of a whole line.
pub open spec fn tokens_spec(l: Seq<char>) -> Seq<Seq<char>> {
    tokens_from(l, 0)
}

/// Split `l` into its maximal runs of non-whitespace characters.
pub fn tokens(l: &Vec<char>) -> (r: Vec<Vec<char>>)
    ensures
        char_views(r@) == tokens_spec(l@),
{
    let mut r: Vec<Vec<char>> = Vec::new();
    let mut p: usize = 0;
    while p < l.len()
        invariant
            0 <= p <= l@.len(),
            tokens_from(l@, 0) =~= char_views(r@) + tokens_from(l@, p as int),
        decreases l@.len() - p,
    {
        if exec_is_space(l[p]) {
            p = p + 1;
        } else {
            let ghost tp: int = p as int;
            let mut tok: Vec<char> = Vec::new();
            let mut q: usize = p;
            while q < l.len() && !exec_is_space(l[q])
                invariant
                    tp <= q <= l@.len(),
                    tp == p,
                    p < l@.len(),
                    tok@ == l@.subrange(tp, q as int),
                    forall|j: int| tp <= j < q ==> !is_space(l@[j]),
                decreases l@.len() - q,
            {
                tok.push(l[q]);
                q = q + 1;
                proof {
                    assert(tok@ =~= l@.subrange(tp, q as int));
                }
            }
            proof {
                lemma_token_end_is(l@, tp, q as int);
                assert(tokens_from(l@, tp) =~= seq![l@.subrange(tp, q as int)] + tokens_from(
                    l@,
                    q as int,
                ));
                assert(char_views(r@.push(tok)) =~= char_views(r@).push(tok@));
            }
            r.push(tok);
            p = q;
        }
    }
    proof {
        assert(tokens_from(l@, p as int) =~= Seq::<Seq<char>>::empty());
        assert(char_views(r@) =~= tokens_spec(l@));
    }
    r
}

} // verus!
