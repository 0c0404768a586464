//! Canonicalization of hardware (MAC) addresses.
//!
//! A token is reduced to its hexadecimal digits; exactly twelve of them are
//! regrouped into six colon-separated, uppercase byte pairs.  A token with any
//! other number of hexadecimal digits is not an address: it degrades to its
//! uppercased self instead of raising an error.

use vstd::prelude::*;

use crate::chars::chars_to_string;
use crate::chars::exec_is_hex_digit;
use crate::chars::exec_upper_char;
use crate::chars::is_hex_digit;
use crate::chars::to_chars;
use crate::chars::upper_char;
use crate::chars::upper_seq;

verus! {

/// The hexadecimal digits of `s`, in order, with every other character
/// removed.
pub open spec fn hex_only(s: Seq<char>) -> Seq<char>
    decreases s.len(),
{
    if s.len() == 0 {
        Seq::empty()
    } else {
        hex_only(s.drop_last()) + if is_hex_digit(s.last()) {
            seq![s.last()]
        } else {
            Seq::<char>::empty()
        }
    }
}

/// Digits grouped two at a time, uppercased, with `':'` between groups.
pub open spec fn mac_pairs(d: Seq<char>) -> Seq<char>
    decreases d.len(),
{
    if d.len() < 2 {
        Seq::empty()
    } else if d.len() == 2 {
        seq![upper_char(d[0]), upper_char(d[1])]
    } else {
        seq![upper_char(d[0]), upper_char(d[1]), ':'] + mac_pairs(d.skip(2))
    }
}

/// The canonical form of an address token: six uppercase byte pairs joined by
/// colons when the token holds exactly twelve hexadecimal digits, the
/// uppercased token itself otherwise.
pub open spec fn normalize_spec(s: Seq<char>) -> Seq<char> {
    if hex_only(s).len() == 12 {
        mac_pairs(hex_only(s))
    } else {
        upper_seq(s)
    }
}

/// The hexadecimal digits of `v`, as a vector.
pub fn filter_hex(v: &Vec<char>) -> (r: Vec<char>)
    ensures
        r@ == hex_only(v@),
{
    let mut r: Vec<char> = Vec::new();
    let mut i: usize = 0;
    while i < v.len()
        invariant
            i <= v@.len(),
            r@ == hex_only(v@.take(i as int)),
        decreases v@.len() - i,
    {
        let c = v[i];
        i = i + 1;
        proof {
            assert(v@.take(i as int).drop_last() =~= v@.take(i - 1));
            assert(v@.take(i as int).last() == v@[i - 1]);
        }
        if exec_is_hex_digit(c) {
            r.push(c);
        }
    }
    proof {
        assert(v@.take(v@.len() as int) =~= v@);
    }
    r
}

/// `normalize_spec`, on character vectors.
pub fn normalize_chars(v: &Vec<char>) -> (r: Vec<char>)
    ensures
        r@ == normalize_spec(v@),
{
    let digits = filter_hex(v);
    if digits.len() == 12 {
        let mut r: Vec<char> = Vec::new();
        let mut k: usize = 0;
        proof {
            assert(digits@.skip(0) =~= digits@);
        }
        while k < 6
            invariant
                digits@.len() == 12,
                k <= 6,
                r@ + mac_pairs(digits@.skip(2 * k)) =~= mac_pairs(digits@),
            decreases 6 - k,
        {
            proof {
                assert(digits@.skip(2 * k as int).skip(2) =~= digits@.skip(2 * (k + 1)));
                assert(digits@.skip(2 * k as int)[0] == digits@[2 * k as int]);
                assert(digits@.skip(2 * k as int)[1] == digits@[2 * k as int + 1]);
            }
            r.push(exec_upper_char(digits[2 * k]));
            r.push(exec_upper_char(digits[2 * k + 1]));
            if k < 5 {
                r.push(':');
            }
            k = k + 1;
            proof {
                assert(r@ + mac_pairs(digits@.skip(2 * k as int)) =~= mac_pairs(digits@));
            }
        }
        proof {
            assert(digits@.skip(12) =~= Seq::<char>::empty());
            assert(r@ =~= mac_pairs(digits@));
        }
        r
    } else {
        let mut r: Vec<char> = Vec::new();
        let mut i: usize = 0;
        while i < v.len()
            invariant
                i <= v@.len(),
                r@.len() == i,
                forall|j: int| 0 <= j < i ==> r@[j] == upper_char(v@[j]),
            decreases v@.len() - i,
        {
            r.push(exec_upper_char(v[i]));
            i = i + 1;
        }
        proof {
            assert(r@ =~= upper_seq(v@));
        }
        r
    }
}

proof fn lemma_upper_char_idempotent(c: char)
    ensures
        upper_char(upper_char(c)) == upper_char(c),
{
}

proof fn lemma_upper_char_keeps_hex(c: char)
    ensures
        is_hex_digit(upper_char(c)) == is_hex_digit(c),
{
}

proof fn lemma_hex_only_all_hex(s: Seq<char>)
    ensures
        forall|i: int| 0 <= i < hex_only(s).len() ==> is_hex_digit(#[trigger] hex_only(s)[i]),
    decreases s.len(),
{
    if s.len() > 0 {
        lemma_hex_only_all_hex(s.drop_last());
        let pre = hex_only(s.drop_last());
        assert forall|i: int| 0 <= i < hex_only(s).len() implies is_hex_digit(
            #[trigger] hex_only(s)[i],
        ) by {
            if i < pre.len() {
                assert(hex_only(s)[i] == pre[i]);
            } else {
                assert(is_hex_digit(s.last()));
                assert(hex_only(s)[i] == s.last());
            }
        }
    }
}

proof fn lemma_hex_only_pair(a: char, b: char)
    requires
        is_hex_digit(a),
        is_hex_digit(b),
    ensures
        hex_only(seq![a, b]) == seq![a, b],
        hex_only(seq![a, b, ':']) == seq![a, b],
{
    let e = Seq::<char>::empty();
    assert(hex_only(e) == e);
    assert(seq![a].drop_last() =~= e);
    assert(hex_only(seq![a]) =~= seq![a]);
    assert(seq![a, b].drop_last() =~= seq![a]);
    assert(hex_only(seq![a, b]) =~= seq![a, b]);
    assert(seq![a, b, ':'].drop_last() =~= seq![a, b]);
    assert(hex_only(seq![a, b, ':']) =~= seq![a, b]);
}

proof fn lemma_hex_only_add(a: Seq<char>, b: Seq<char>)
    ensures
        hex_only(a + b) == hex_only(a) + hex_only(b),
    decreases b.len(),
{
    if b.len() == 0 {
        assert(a + b =~= a);
        assert(hex_only(a) + hex_only(b) =~= hex_only(a));
    } else {
        lemma_hex_only_add(a, b.drop_last());
        assert((a + b).drop_last() =~= a + b.drop_last());
        assert((a + b).last() == b.last());
        assert(hex_only(a) + hex_only(b) =~= hex_only(a) + hex_only(b.drop_last()) + if is_hex_digit(
            b.last(),
        ) {
            seq![b.last()]
        } else {
            Seq::<char>::empty()
        });
    }
}

proof fn lemma_hex_only_upper(s: Seq<char>)
    ensures
        hex_only(upper_seq(s)) == upper_seq(hex_only(s)),
    decreases s.len(),
{
    if s.len() == 0 {
        assert(hex_only(upper_seq(s)) =~= upper_seq(hex_only(s)));
    } else {
        lemma_hex_only_upper(s.drop_last());
        lemma_upper_char_keeps_hex(s.last());
        assert(upper_seq(s).drop_last() =~= upper_seq(s.drop_last()));
        assert(upper_seq(s).last() == upper_char(s.last()));
        if is_hex_digit(s.last()) {
            assert(upper_seq(hex_only(s)) =~= upper_seq(hex_only(s.drop_last())).push(
                upper_char(s.last()),
            ));
            assert(hex_only(upper_seq(s)) =~= hex_only(upper_seq(s.drop_last())).push(
                upper_char(s.last()),
            ));
        } else {
            assert(hex_only(s) =~= hex_only(s.drop_last()));
            assert(upper_seq(hex_only(s)) =~= upper_seq(hex_only(s.drop_last())));
            assert(hex_only(upper_seq(s)) =~= hex_only(upper_seq(s.drop_last())));
        }
    }
}

proof fn lemma_hex_only_mac_pairs(d: Seq<char>)
    requires
        d.len() >= 2,
        d.len() % 2 == 0,
        forall|i: int| 0 <= i < d.len() ==> is_hex_digit(#[trigger] d[i]),
    ensures
        hex_only(mac_pairs(d)) == upper_seq(d),
    decreases d.len(),
{
    lemma_upper_char_keeps_hex(d[0]);
    lemma_upper_char_keeps_hex(d[1]);
    lemma_hex_only_pair(upper_char(d[0]), upper_char(d[1]));
    if d.len() == 2 {
        assert(upper_seq(d) =~= seq![upper_char(d[0]), upper_char(d[1])]);
        assert(hex_only(mac_pairs(d)) == upper_seq(d));
    } else {
        assert(d.skip(2).len() % 2 == 0) by {
            assert(d.skip(2).len() == d.len() - 2);
        }
        lemma_hex_only_mac_pairs(d.skip(2));
        lemma_hex_only_add(seq![upper_char(d[0]), upper_char(d[1]), ':'], mac_pairs(d.skip(2)));
        assert(upper_seq(d.skip(2)) =~= upper_seq(d).skip(2));
        assert(upper_seq(d) =~= seq![upper_char(d[0]), upper_char(d[1])] + upper_seq(d.skip(2)));
        assert(hex_only(mac_pairs(d)) == upper_seq(d));
    }
}

proof fn lemma_mac_pairs_upper(d: Seq<char>)
    ensures
        mac_pairs(upper_seq(d)) == mac_pairs(d),
    decreases d.len(),
{
    if d.len() < 2 {
    } else if d.len() == 2 {
        lemma_upper_char_idempotent(d[0]);
        lemma_upper_char_idempotent(d[1]);
        assert(mac_pairs(upper_seq(d)) =~= mac_pairs(d));
    } else {
        lemma_upper_char_idempotent(d[0]);
        lemma_upper_char_idempotent(d[1]);
        lemma_mac_pairs_upper(d.skip(2));
        assert(upper_seq(d).skip(2) =~= upper_seq(d.skip(2)));
        assert(mac_pairs(upper_seq(d)) =~= mac_pairs(d));
    }
}

/// Law: normalization is idempotent.  Canonicalizing a token twice gives the
/// same result as canonicalizing it once, whatever the token.
pub proof fn lemma_normalize_idempotent(s: Seq<char>)
    ensures
        normalize_spec(normalize_spec(s)) == normalize_spec(s),
{
    if hex_only(s).len() == 12 {
        let d = hex_only(s);
        lemma_hex_only_all_hex(s);
        lemma_hex_only_mac_pairs(d);
        assert(hex_only(mac_pairs(d)) == upper_seq(d));
        lemma_mac_pairs_upper(d);
    } else {
        lemma_hex_only_upper(s);
        assert(hex_only(upper_seq(s)).len() == hex_only(s).len());
        assert(normalize_spec(upper_seq(s)) == upper_seq(upper_seq(s)));
        assert forall|i: int| 0 <= i < s.len() implies upper_seq(upper_seq(s))[i] == upper_seq(s)[i]
            by {
            lemma_upper_char_idempotent(s[i]);
        }
        assert(upper_seq(upper_seq(s)) =~= upper_seq(s));
    }
}

/// Law: malformed tokens degrade gracefully.  A token whose hexadecimal
/// digits do not number exactly twelve normalizes to its uppercased self,
/// never to an error.
pub proof fn lemma_normalize_degrades(s: Seq<char>)
    requires
        hex_only(s).len() != 12,
    ensures
        normalize_spec(s) == upper_seq(s),
{
}

/// Canonicalize an address token given in any common textual format: colon,
/// dot or dash separated, or unseparated, hexadecimal digits.  A token that
/// does not reduce to exactly twelve hexadecimal digits is returned
/// uppercased, unchanged otherwise.
pub fn normalize_mac(mac: &str) -> (r: String)
    ensures
        r@ == normalize_spec(mac@),
{
    let cs = to_chars(mac);
    let n = normalize_chars(&cs);
    chars_to_string(&n)
}

} // verus!
