//! Escaping one field for CSV output.
//!
//! A field containing a comma, a double quote, or a line break is wrapped in
//! double quotes, with every embedded double quote doubled; any other field
//! passes through unchanged.

use vstd::prelude::*;

use crate::chars::chars_to_string;
use crate::chars::to_chars;

verus! {

/// The field must be quoted: it holds a comma, a double quote, or a line
/// break.
pub open spec fn needs_quoting(s: Seq<char>) -> bool {
    exists|i: int|
        0 <= i < s.len() && ((#[trigger] s[i]) == ',' || s[i] == '"' || s[i] == '\n' || s[i]
            == '\r')
}

/// `s` with every double quote doubled.
pub open spec fn doubled_quotes(s: Seq<char>) -> Seq<char>
    decreases s.len(),
{
    if s.len() == 0 {
        Seq::empty()
    } else {
        doubled_quotes(s.drop_last()) + if s.last() == '"' {
            seq!['"', '"']
        } else {
            seq![s.last()]
        }
    }
}

/// The escaped form of a field: quoted with embedded quotes doubled when
/// quoting is needed, the field itself otherwise.
pub open spec fn csv_escape_spec(s: Seq<char>) -> Seq<char> {
    if needs_quoting(s) {
        seq!['"'] + doubled_quotes(s) + seq!['"']
    } else {
        s
    }
}

/// Escape one field for CSV output: wrap it in double quotes and double
/// every embedded quote when it holds a comma, a quote or a line break;
/// return it unchanged otherwise.
pub fn csv_escape(s: &str) -> (r: String)
    ensures
        r@ == csv_escape_spec(s@),
{
    let cs = to_chars(s);
    let mut needs = false;
    let mut i: usize = 0;
    while i < cs.len()
        invariant
            cs@ == s@,
            i <= cs@.len(),
            needs == (exists|j: int|
                0 <= j < i && ((#[trigger] cs@[j]) == ',' || cs@[j] == '"' || cs@[j] == '\n'
                    || cs@[j] == '\r')),
        decreases cs@.len() - i,
    {
        let c = cs[i];
        if c == ',' || c == '"' || c == '\n' || c == '\r' {
            needs = true;
        }
        i = i + 1;
    }
    if !needs {
        let mut r: Vec<char> = Vec::new();
        let mut k: usize = 0;
        while k < cs.len()
            invariant
                cs@ == s@,
                k <= cs@.len(),
                r@ == cs@.take(k as int),
            decreases cs@.len() - k,
        {
            r.push(cs[k]);
            k = k + 1;
            proof {
                assert(cs@.take(k as int) =~= cs@.take(k - 1).push(cs@[k - 1]));
            }
        }
        proof {
            assert(cs@.take(cs@.len() as int) =~= cs@);
        }
        chars_to_string(&r)
    } else {
        let mut r: Vec<char> = Vec::new();
        r.push('"');
        let mut k: usize = 0;
        while k < cs.len()
            invariant
                cs@ == s@,
                k <= cs@.len(),
                r@ == seq!['"'] + doubled_quotes(cs@.take(k as int)),
            decreases cs@.len() - k,
        {
            let c = cs[k];
            k = k + 1;
            proof {
                assert(cs@.take(k as int).drop_last() =~= cs@.take(k - 1));
                assert(cs@.take(k as int).last() == cs@[k - 1]);
            }
            if c == '"' {
                r.push('"');
                r.push('"');
            } else {
                r.push(c);
            }
            proof {
                assert(r@ =~= seq!['"'] + doubled_quotes(cs@.take(k as int)));
            }
        }
        r.push('"');
        proof {
            assert(cs@.take(cs@.len() as int) =~= cs@);
            assert(r@ =~= seq!['"'] + doubled_quotes(s@) + seq!['"']);
        }
        chars_to_string(&r)
    }
}

} // verus!
