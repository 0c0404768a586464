//! The tabular strategy: parsing lines that follow the fixed nine-field
//! interface table layout.
//!
//! A line is first held to the skip rules (blank, column header, dash
//! separator, address-column label) and then to the layout: exactly nine
//! whitespace-separated fields in fixed order, the address field drawn from
//! hexadecimal digits, colons and dots, the state field from word
//! characters.  Anything else is silently skipped, never an error.

use vstd::prelude::*;

use crate::chars::char_views;
use crate::chars::chars_to_string;
use crate::chars::contains_chars;
use crate::chars::contains_seq;
use crate::chars::exec_is_hex_digit;
use crate::chars::exec_is_space;
use crate::chars::exec_is_word_char;
use crate::chars::is_hex_digit;
use crate::chars::is_space;
use crate::chars::is_word_char;
use crate::chars::str_views;
use crate::chars::to_chars;
use crate::entry::entry_views;
use crate::entry::macs_of;
use crate::entry::EntryModel;
use crate::entry::InterfaceEntry;
use crate::lines::lines_spec;
use crate::lines::split_lines;
use crate::lines::tokens;
use crate::lines::tokens_spec;
use crate::mac::normalize_chars;
use crate::mac::normalize_spec;
use vstd::slice::slice_index_get;

verus! {

/// The line holds nothing but whitespace.
pub open spec fn is_blank(l: Seq<char>) -> bool {
    forall|i: int| 0 <= i < l.len() ==> is_space(#[trigger] l[i])
}

/// `l` begins with `pre`.
pub open spec fn starts_with(l: Seq<char>, pre: Seq<char>) -> bool {
    pre.len() <= l.len() && l.subrange(0, pre.len() as int) == pre
}

/// The skip rules, applied before the layout is tried: blank lines, lines
/// opening with the column-header marker, dash-separator lines, and lines
/// carrying the address-column label produce nothing.
pub open spec fn line_skipped(l: Seq<char>) -> bool {
    is_blank(l) || starts_with(l, "Name"@) || (l.len() > 0 && l[0] == '-') || contains_seq(
        l,
        "MAC addr"@,
    )
}

/// The address field: hexadecimal digits, colons and dots only.
pub open spec fn is_addr_field(t: Seq<char>) -> bool {
    forall|i: int| 0 <= i < t.len() ==> is_hex_digit(#[trigger] t[i]) || t[i] == ':' || t[i] == '.'
}

/// The state field: word characters only.
pub open spec fn is_state_field(t: Seq<char>) -> bool {
    forall|i: int| 0 <= i < t.len() ==> is_word_char(#[trigger] t[i])
}

/// The fixed layout: the line starts with a field, decomposes into exactly
/// nine whitespace-separated fields, and the address and state fields keep
/// to their character classes.
pub open spec fn line_matches(l: Seq<char>) -> bool {
    let ts = tokens_spec(l);
    ts.len() == 9 && l.len() > 0 && !is_space(l[0]) && is_addr_field(ts[1]) && is_state_field(ts[3])
}

/// The record a matching line yields: the nine fields in fixed positional
/// order, the address field canonicalized, every other field verbatim.
pub open spec fn entry_of_line(l: Seq<char>) -> EntryModel {
    let ts = tokens_spec(l);
    EntryModel {
        name: ts[0],
        mac: normalize_spec(ts[1]),
        mode: ts[2],
        state: ts[3],
        channel: ts[4],
        vlan: ts[5],
        radio: ts[6],
        hive: ts[7],
        ssid: ts[8],
    }
}

/// What one line contributes: one record when it passes the skip rules and
/// the layout, nothing otherwise.
pub open spec fn line_entries(l: Seq<char>) -> Seq<EntryModel> {
    if !line_skipped(l) && line_matches(l) {
        seq![entry_of_line(l)]
    } else {
        Seq::empty()
    }
}

/// The records of a sequence of lines, in source line order.
pub open spec fn tab_from_lines(ls: Seq<Seq<char>>) -> Seq<EntryModel>
    decreases ls.len(),
{
    if ls.len() == 0 {
        Seq::empty()
    } else {
        tab_from_lines(ls.drop_last()) + line_entries(ls.last())
    }
}

/// The records the tabular strategy extracts from a whole text.
pub open spec fn tab_entries_spec(s: Seq<char>) -> Seq<EntryModel> {
    tab_from_lines(lines_spec(s))
}

/// Law: a line held back by the skip rules never produces a record.
/// Removing a blank line, a column-header line, a dash-separator line or an
/// address-label line leaves the tabular output unchanged.
pub proof fn lemma_skipped_line_no_entry(ls: Seq<Seq<char>>, i: int)
    requires
        0 <= i < ls.len(),
        line_skipped(ls[i]),
    ensures
        tab_from_lines(ls) == tab_from_lines(ls.remove(i)),
    decreases ls.len(),
{
    if i == ls.len() - 1 {
        assert(line_entries(ls.last()) =~= Seq::<EntryModel>::empty());
        assert(ls.remove(i) =~= ls.drop_last());
        assert(tab_from_lines(ls) =~= tab_from_lines(ls.drop_last()));
    } else {
        lemma_skipped_line_no_entry(ls.drop_last(), i);
        assert(ls.remove(i).drop_last() =~= ls.drop_last().remove(i));
        assert(ls.remove(i).last() == ls.last());
        assert(tab_from_lines(ls.remove(i)) =~= tab_from_lines(ls.drop_last().remove(i))
            + line_entries(ls.last()));
    }
}

fn is_blank_exec(l: &Vec<char>) -> (r: bool)
    ensures
        r == is_blank(l@),
{
    let mut i: usize = 0;
    while i < l.len()
        invariant
            i <= l@.len(),
            forall|j: int| 0 <= j < i ==> is_space(#[trigger] l@[j]),
        decreases l@.len() - i,
    {
        if !exec_is_space(l[i]) {
            return false;
        }
        i = i + 1;
    }
    true
}

fn starts_with_chars(l: &Vec<char>, pre: &Vec<char>) -> (r: bool)
    ensures
        r == starts_with(l@, pre@),
{
    if pre.len() > l.len() {
        return false;
    }
    let mut i: usize = 0;
    while i < pre.len()
        invariant
            pre@.len() <= l@.len(),
            i <= pre@.len(),
            forall|j: int| 0 <= j < i ==> l@[j] == #[trigger] pre@[j],
        decreases pre@.len() - i,
    {
        if l[i] != pre[i] {
            proof {
                assert(l@.subrange(0, pre@.len() as int)[i as int] != pre@[i as int]);
            }
            return false;
        }
        i = i + 1;
    }
    proof {
        assert(l@.subrange(0, pre@.len() as int) =~= pre@);
    }
    true
}

/// The skip rules, on a character vector.
fn line_skipped_exec(l: &Vec<char>) -> (r: bool)
    ensures
        r == line_skipped(l@),
{
    if is_blank_exec(l) {
        return true;
    }
    let name_marker = to_chars("Name");
    if starts_with_chars(l, &name_marker) {
        return true;
    }
    if l.len() > 0 && l[0] == '-' {
        return true;
    }
    let addr_marker = to_chars("MAC addr");
    contains_chars(l, &addr_marker)
}

fn is_addr_field_exec(t: &Vec<char>) -> (r: bool)
    ensures
        r == is_addr_field(t@),
{
    let mut i: usize = 0;
    while i < t.len()
        invariant
            i <= t@.len(),
            forall|j: int|
                0 <= j < i ==> is_hex_digit(#[trigger] t@[j]) || t@[j] == ':' || t@[j] == '.',
        decreases t@.len() - i,
    {
        let c = t[i];
        if !(exec_is_hex_digit(c) || c == ':' || c == '.') {
            return false;
        }
        i = i + 1;
    }
    true
}

fn is_state_field_exec(t: &Vec<char>) -> (r: bool)
    ensures
        r == is_state_field(t@),
{
    let mut i: usize = 0;
    while i < t.len()
        invariant
            i <= t@.len(),
            forall|j: int| 0 <= j < i ==> is_word_char(#[trigger] t@[j]),
        decreases t@.len() - i,
    {
        if !exec_is_word_char(t[i]) {
            return false;
        }
        i = i + 1;
    }
    true
}

/// Parser for the fixed nine-field interface table layout.  The layout is a
/// constant of the library, so the parser itself carries no state; one
/// instance may serve any number of texts.
pub struct InterfaceParser {}

impl InterfaceParser {
    /// A parser for the fixed interface table layout.  Construction cannot
    /// fail: the layout is built in.
    pub fn new() -> (r: Self) {
        InterfaceParser {  }
    }

    /// Extract one record per line of `output` that passes the skip rules
    /// and decomposes into the nine-field layout, in source line order.
    /// Repeated matching lines yield repeated records: this strategy does
    /// not deduplicate.
    pub fn parse(&self, output: &str) -> (r: Vec<InterfaceEntry>)
        ensures
            entry_views(r@) == tab_entries_spec(output@),
    {
        let cs = to_chars(output);
        let lines = split_lines(&cs);
        let ghost model = char_views(lines@);
        let mut r: Vec<InterfaceEntry> = Vec::new();
        let mut i: usize = 0;
        proof {
            assert(model.take(0) =~= Seq::<Seq<char>>::empty());
        }
        while i < lines.len()
            invariant
                i <= lines@.len(),
                model == char_views(lines@),
                model == lines_spec(output@),
                entry_views(r@) =~= tab_from_lines(model.take(i as int)),
            decreases lines@.len() - i,
        {
            let line = slice_index_get(lines.as_slice(), i);
            proof {
                assert(line@ == model[i as int]);
                assert(model.take(i + 1).drop_last() =~= model.take(i as int));
                assert(model.take(i + 1).last() == model[i as int]);
            }
            if !line_skipped_exec(line) {
                let ts = tokens(line);
                if ts.len() == 9 {
                    let addr_ok = is_addr_field_exec(slice_index_get(ts.as_slice(), 1));
                    let state_ok = is_state_field_exec(slice_index_get(ts.as_slice(), 3));
                    if line.len() > 0 && !exec_is_space(line[0]) && addr_ok && state_ok {
                        proof {
                            assert(forall|k: int|
                                0 <= k < 9 ==> #[trigger] ts@[k]@ == tokens_spec(line@)[k]);
                            assert(line_matches(line@));
                        }
                        let nm = normalize_chars(slice_index_get(ts.as_slice(), 1));
                        let e = InterfaceEntry {
                            name: chars_to_string(slice_index_get(ts.as_slice(), 0)),
                            mac: chars_to_string(&nm),
                            mode: chars_to_string(slice_index_get(ts.as_slice(), 2)),
                            state: chars_to_string(slice_index_get(ts.as_slice(), 3)),
                            channel: chars_to_string(slice_index_get(ts.as_slice(), 4)),
                            vlan: chars_to_string(slice_index_get(ts.as_slice(), 5)),
                            radio: chars_to_string(slice_index_get(ts.as_slice(), 6)),
                            hive: chars_to_string(slice_index_get(ts.as_slice(), 7)),
                            ssid: chars_to_string(slice_index_get(ts.as_slice(), 8)),
                        };
                        proof {
                            assert(e@ == entry_of_line(line@));
                            assert(line_entries(model[i as int]) =~= seq![entry_of_line(line@)]);
                            assert(entry_views(r@.push(e)) =~= entry_views(r@).push(e@));
                        }
                        r.push(e);
                    } else {
                        proof {
                            assert(forall|k: int|
                                0 <= k < 9 ==> #[trigger] ts@[k]@ == tokens_spec(line@)[k]);
                            assert(!line_matches(line@));
                            assert(line_entries(model[i as int]) =~= Seq::<EntryModel>::empty());
                        }
                    }
                } else {
                    proof {
                        assert(tokens_spec(line@).len() != 9);
                        assert(!line_matches(line@));
                        assert(line_entries(model[i as int]) =~= Seq::<EntryModel>::empty());
                    }
                }
            } else {
                proof {
                    assert(line_entries(model[i as int]) =~= Seq::<EntryModel>::empty());
                }
            }
            i = i + 1;
        }
        proof {
            assert(model.take(model.len() as int) =~= model);
        }
        r
    }

    /// The addresses of the given records, in order: a pure projection of
    /// the `mac` field.
    pub fn extract_macs(&self, entries: &[InterfaceEntry]) -> (r: Vec<String>)
        ensures
            str_views(r@) == macs_of(entry_views(entries@)),
    {
        let mut r: Vec<String> = Vec::new();
        let mut i: usize = 0;
        while i < entries.len()
            invariant
                i <= entries@.len(),
                r@.len() == i,
                forall|j: int| 0 <= j < i ==> (#[trigger] r@[j])@ == entries@[j]@.mac,
            decreases entries@.len() - i,
        {
            let e = slice_index_get(entries, i);
            r.push(e.mac.clone());
            i = i + 1;
        }
        proof {
            assert(str_views(r@) =~= macs_of(entry_views(entries@)));
        }
        r
    }
}

impl Default for InterfaceParser {
    /// The same parser `new` builds.
    fn default() -> (r: Self) {
        InterfaceParser::new()
    }
}

} // verus!
