//! Extraction of normalized interface/BSSID records from the semi-structured
//! output of network-device CLI commands.
//!
//! The library canonicalizes hardware (MAC) addresses written in any of the
//! common textual formats, parses fixed-layout interface tables, scans free
//! text for keyword-labelled addresses, and combines the two strategies into
//! one ordered, address-deduplicated sequence of records.  Every operation
//! is total over its input: malformed lines are skipped and malformed
//! address tokens degrade to an uppercased passthrough, never an error.

pub mod chars;
pub mod csv;
pub mod entry;
pub mod extract;
pub mod lines;
pub mod mac;
pub mod parser;
pub mod scan;

pub use csv::csv_escape;
pub use entry::InterfaceEntry;
pub use extract::extract_bssids;
pub use extract::extract_interfaces;
pub use mac::normalize_mac;
pub use parser::InterfaceParser;
