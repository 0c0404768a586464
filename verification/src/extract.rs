//! The extraction combinator: the single entry point of the library.
//!
//! The tabular strategy runs first and seeds the output in source line
//! order.  The fallback scanner then contributes one minimal record per
//! keyword-labelled address, unless a record with the same address is
//! already present — the earlier, richer record wins.

use vstd::prelude::*;

use crate::chars::char_views;
use crate::chars::chars_to_string;
use crate::chars::str_views;
use crate::chars::to_chars;
use crate::entry::entry_views;
use crate::entry::is_minimal_model;
use crate::entry::macs_of;
use crate::entry::minimal_entry;
use crate::entry::minimal_model;
use crate::entry::EntryModel;
use crate::entry::InterfaceEntry;
use crate::lines::lines_spec;
use crate::lines::split_lines;
use crate::mac::normalize_chars;
use crate::mac::normalize_spec;
use crate::parser::tab_entries_spec;
use crate::parser::InterfaceParser;
use crate::scan::has_keyword;
use crate::scan::line_has_keyword;
use crate::scan::scan_line;
use crate::scan::scan_spec;
use vstd::slice::slice_index_get;

verus! {

/// Some record in `es` already carries the address `m`.
pub open spec fn mac_present(es: Seq<EntryModel>, m: Seq<char>) -> bool {
    exists|j: int| 0 <= j < es.len() && (#[trigger] es[j].mac) == m
}

/// The keyword-labelled address tokens of a sequence of lines: every
/// address-shaped substring of every keyword-carrying line, in line order,
/// then in within-line order.
pub open spec fn fb_from_lines(ls: Seq<Seq<char>>) -> Seq<Seq<char>>
    decreases ls.len(),
{
    if ls.len() == 0 {
        Seq::empty()
    } else {
        fb_from_lines(ls.drop_last()) + if line_has_keyword(ls.last()) {
            scan_spec(ls.last())
        } else {
            Seq::empty()
        }
    }
}

/// The address tokens the fallback scanner takes from a whole text.
pub open spec fn fallback_macs_spec(s: Seq<char>) -> Seq<Seq<char>> {
    fb_from_lines(lines_spec(s))
}

/// Seed the output with the tabular records, then append one minimal record
/// per fallback token whose canonical address is not yet present.
pub open spec fn combine(tab: Seq<EntryModel>, macs: Seq<Seq<char>>) -> Seq<EntryModel>
    decreases macs.len(),
{
    if macs.len() == 0 {
        tab
    } else {
        let prev = combine(tab, macs.drop_last());
        let m = normalize_spec(macs.last());
        if mac_present(prev, m) {
            prev
        } else {
            prev.push(minimal_model(m))
        }
    }
}

/// The full extraction: tabular records first, deduplicated fallback
/// records after.
pub open spec fn extract_spec(s: Seq<char>) -> Seq<EntryModel> {
    combine(tab_entries_spec(s), fallback_macs_spec(s))
}

/// Some record in `entries` already carries the address `m`.
fn mac_in_entries(entries: &Vec<InterfaceEntry>, m: &String) -> (r: bool)
    ensures
        r == mac_present(entry_views(entries@), m@),
{
    let mut i: usize = 0;
    while i < entries.len()
        invariant
            i <= entries@.len(),
            forall|j: int| 0 <= j < i ==> (#[trigger] entries@[j]@.mac) != m@,
        decreases entries@.len() - i,
    {
        let e = slice_index_get(entries.as_slice(), i);
        if e.mac.eq(m) {
            proof {
                assert(entry_views(entries@)[i as int].mac == m@);
            }
            return true;
        }
        i = i + 1;
    }
    proof {
        assert forall|j: int| 0 <= j < entry_views(entries@).len() implies (#[trigger] entry_views(
            entries@,
        )[j].mac) != m@ by {
            assert(entries@[j]@.mac != m@);
        }
    }
    false
}

/// Extract the final ordered, address-deduplicated records from raw CLI
/// output.  The tabular strategy seeds the sequence; the fallback scanner
/// appends a minimal record for every keyword-labelled address not already
/// present.  Empty input, or input that matches neither strategy, yields an
/// empty sequence, never an error.
pub fn extract_interfaces(output: &str) -> (r: Vec<InterfaceEntry>)
    ensures
        entry_views(r@) == extract_spec(output@),
{
    let parser = InterfaceParser::new();
    let mut entries = parser.parse(output);
    let ghost tab = tab_entries_spec(output@);
    let cs = to_chars(output);
    let lines = split_lines(&cs);
    let ghost model = char_views(lines@);
    let ghost mut acc: Seq<Seq<char>> = Seq::empty();
    let mut i: usize = 0;
    proof {
        assert(model.take(0) =~= Seq::<Seq<char>>::empty());
        assert(combine(tab, acc) == tab);
    }
    while i < lines.len()
        invariant
            i <= lines@.len(),
            model == char_views(lines@),
            model == lines_spec(output@),
            tab == tab_entries_spec(output@),
            acc == fb_from_lines(model.take(i as int)),
            entry_views(entries@) =~= combine(tab, acc),
        decreases lines@.len() - i,
    {
        let line = slice_index_get(lines.as_slice(), i);
        proof {
            assert(line@ == model[i as int]);
            assert(model.take(i + 1).drop_last() =~= model.take(i as int));
            assert(model.take(i + 1).last() == model[i as int]);
        }
        if has_keyword(line) {
            let macs = scan_line(line);
            let ghost maccs = char_views(macs@);
            let ghost acc0 = acc;
            let mut j: usize = 0;
            proof {
                assert(acc0 + maccs.take(0) =~= acc0);
            }
            while j < macs.len()
                invariant
                    j <= macs@.len(),
                    maccs == char_views(macs@),
                    tab == tab_entries_spec(output@),
                    acc == acc0 + maccs.take(j as int),
                    entry_views(entries@) =~= combine(tab, acc),
                decreases macs@.len() - j,
            {
                let m = slice_index_get(macs.as_slice(), j);
                let nm = normalize_chars(m);
                let nms = chars_to_string(&nm);
                proof {
                    let next = acc.push(maccs[j as int]);
                    assert(next.drop_last() =~= acc);
                    assert(next.last() == maccs[j as int]);
                    assert(nms@ == normalize_spec(maccs[j as int]));
                }
                if !mac_in_entries(&entries, &nms) {
                    let e = minimal_entry(nms);
                    proof {
                        assert(entry_views(entries@.push(e)) =~= entry_views(entries@).push(e@));
                    }
                    entries.push(e);
                }
                proof {
                    acc = acc.push(maccs[j as int]);
                    assert(acc =~= acc0 + maccs.take(j + 1));
                    assert(entry_views(entries@) =~= combine(tab, acc));
                }
                j = j + 1;
            }
            proof {
                assert(maccs.take(macs@.len() as int) =~= maccs);
                assert(maccs == scan_spec(model[i as int]));
                assert(fb_from_lines(model.take(i + 1)) =~= fb_from_lines(model.take(i as int))
                    + scan_spec(model[i as int]));
                assert(acc == fb_from_lines(model.take(i + 1)));
            }
        } else {
            proof {
                assert(fb_from_lines(model.take(i + 1)) =~= fb_from_lines(model.take(i as int))
                    + Seq::<Seq<char>>::empty());
                assert(fb_from_lines(model.take(i + 1)) =~= fb_from_lines(model.take(i as int)));
            }
        }
        i = i + 1;
    }
    proof {
        assert(model.take(model.len() as int) =~= model);
    }
    entries
}

/// The addresses alone, in the order `extract_interfaces` yields them: a
/// pure projection of the full extraction.
pub fn extract_bssids(output: &str) -> (r: Vec<String>)
    ensures
        str_views(r@) == macs_of(extract_spec(output@)),
{
    let entries = extract_interfaces(output);
    let mut r: Vec<String> = Vec::new();
    let mut i: usize = 0;
    while i < entries.len()
        invariant
            i <= entries@.len(),
            entry_views(entries@) == extract_spec(output@),
            r@.len() == i,
            forall|j: int| 0 <= j < i ==> (#[trigger] r@[j])@ == entries@[j]@.mac,
        decreases entries@.len() - i,
    {
        let e = slice_index_get(entries.as_slice(), i);
        r.push(e.mac.clone());
        i = i + 1;
    }
    proof {
        assert(str_views(r@) =~= macs_of(extract_spec(output@)));
    }
    r
}

/// No two records of `es` carry the same non-empty address.
pub open spec fn macs_unique(es: Seq<EntryModel>) -> bool {
    forall|i: int, j: int|
        0 <= i < j < es.len() && (#[trigger] es[i].mac) == (#[trigger] es[j].mac) ==> es[i].mac.len()
            == 0
}

proof fn lemma_combine_unique(tab: Seq<EntryModel>, macs: Seq<Seq<char>>)
    requires
        macs_unique(tab),
    ensures
        macs_unique(combine(tab, macs)),
    decreases macs.len(),
{
    if macs.len() > 0 {
        lemma_combine_unique(tab, macs.drop_last());
        let prev = combine(tab, macs.drop_last());
        let m = normalize_spec(macs.last());
        if !mac_present(prev, m) {
            let cur = prev.push(minimal_model(m));
            assert forall|i: int, j: int|
                0 <= i < j < cur.len() && (#[trigger] cur[i].mac) == (#[trigger] cur[j].mac)
                implies cur[i].mac.len() == 0 by {
                if j < cur.len() - 1 {
                    assert(cur[i] == prev[i] && cur[j] == prev[j]);
                } else {
                    assert(cur[i] == prev[i]);
                    assert(prev[i].mac == m);
                    assert(mac_present(prev, m));
                }
            }
        }
    }
}

/// Law: the combinator never emits two records with the same non-empty
/// address, provided the tabular seed itself is free of repeated addresses
/// (repeated identical table lines repeat their records, by design).
pub proof fn lemma_no_duplicate_addresses(s: Seq<char>)
    requires
        macs_unique(tab_entries_spec(s)),
    ensures
        macs_unique(extract_spec(s)),
{
    lemma_combine_unique(tab_entries_spec(s), fallback_macs_spec(s));
}

proof fn lemma_combine_prefix(tab: Seq<EntryModel>, macs: Seq<Seq<char>>)
    ensures
        combine(tab, macs).len() >= tab.len(),
        combine(tab, macs).take(tab.len() as int) == tab,
        forall|k: int|
            tab.len() <= k < combine(tab, macs).len() ==> is_minimal_model(
                #[trigger] combine(tab, macs)[k],
            ),
    decreases macs.len(),
{
    if macs.len() == 0 {
        assert(combine(tab, macs).take(tab.len() as int) =~= tab);
    } else {
        lemma_combine_prefix(tab, macs.drop_last());
        let prev = combine(tab, macs.drop_last());
        let m = normalize_spec(macs.last());
        if !mac_present(prev, m) {
            let cur = prev.push(minimal_model(m));
            assert(cur.take(tab.len() as int) =~= prev.take(tab.len() as int));
        }
    }
}

/// Law: tabular records precede fallback-only records.  The tabular
/// extraction is a prefix of the full extraction, and everything after that
/// prefix is a minimal, address-only record added by the fallback scanner.
pub proof fn lemma_tabular_records_first(s: Seq<char>)
    ensures
        extract_spec(s).len() >= tab_entries_spec(s).len(),
        extract_spec(s).take(tab_entries_spec(s).len() as int) == tab_entries_spec(s),
        forall|k: int|
            tab_entries_spec(s).len() <= k < extract_spec(s).len() ==> is_minimal_model(
                #[trigger] extract_spec(s)[k],
            ),
{
    lemma_combine_prefix(tab_entries_spec(s), fallback_macs_spec(s));
}

} // verus!
