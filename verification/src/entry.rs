//! The one entity this library produces: a structured interface record.

use vstd::prelude::*;

verus! {

/// One extracted interface record.  All fields are textual; the empty string
/// stands for "unknown/absent".  `mac`, when non-empty, is either the
/// canonical colon-separated uppercase form or, on the degraded path, the
/// uppercased original token.
#[derive(Debug, Clone)]
pub struct InterfaceEntry {
    pub name: String,
    pub mac: String,
    pub mode: String,
    pub state: String,
    pub channel: String,
    pub vlan: String,
    pub radio: String,
    pub hive: String,
    pub ssid: String,
}

/// The mathematical model of an `InterfaceEntry`: its fields as character
/// sequences.
pub ghost struct EntryModel {
    pub name: Seq<char>,
    pub mac: Seq<char>,
    pub mode: Seq<char>,
    pub state: Seq<char>,
    pub channel: Seq<char>,
    pub vlan: Seq<char>,
    pub radio: Seq<char>,
    pub hive: Seq<char>,
    pub ssid: Seq<char>,
}

impl View for InterfaceEntry {
    type V = EntryModel;

    open spec fn view(&self) -> EntryModel {
        EntryModel {
            name: self.name@,
            mac: self.mac@,
            mode: self.mode@,
            state: self.state@,
            channel: self.channel@,
            vlan: self.vlan@,
            radio: self.radio@,
            hive: self.hive@,
            ssid: self.ssid@,
        }
    }
}

/// The views of a sequence of entries.
pub open spec fn entry_views(v: Seq<InterfaceEntry>) -> Seq<EntryModel> {
    Seq::new(v.len(), |i: int| v[i]@)
}

/// The addresses of a sequence of records, in order.
pub open spec fn macs_of(es: Seq<EntryModel>) -> Seq<Seq<char>> {
    Seq::new(es.len(), |i: int| es[i].mac)
}

/// A record that carries an address and nothing else.
pub open spec fn minimal_model(mac: Seq<char>) -> EntryModel {
    EntryModel {
        name: Seq::empty(),
        mac,
        mode: Seq::empty(),
        state: Seq::empty(),
        channel: Seq::empty(),
        vlan: Seq::empty(),
        radio: Seq::empty(),
        hive: Seq::empty(),
        ssid: Seq::empty(),
    }
}

/// Whether a record holds an address and nothing else.
pub open spec fn is_minimal_model(e: EntryModel) -> bool {
    e == minimal_model(e.mac)
}

/// Build the record that carries `mac` and nothing else.
pub fn minimal_entry(mac: String) -> (r: InterfaceEntry)
    ensures
        r@ == minimal_model(mac@),
{
    InterfaceEntry {
        name: String::new(),
        mac,
        mode: String::new(),
        state: String::new(),
        channel: String::new(),
        vlan: String::new(),
        radio: String::new(),
        hive: String::new(),
        ssid: String::new(),
    }
}

} // verus!
