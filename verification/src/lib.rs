//! A verified core for a zip-packaged XML spreadsheet container: relationship
//! resolution, shared-string interning, lazy per-sheet materialization, and
//! coordinate-aware formula rewriting on structural edits.
use vstd::prelude::*;

pub mod cell_value;
pub mod container;
pub mod drawing;
pub mod formula;
pub mod reader;
pub mod relationships;
pub mod rich_text;
pub mod shared_string_table;
pub mod spreadsheet;
pub mod worksheet;
pub mod writer;
pub mod xml;
mod util;

pub use cell_value::CellValue;
pub use cell_value::Value;

verus! {

/// The faults a container operation can surface: stream access, a corrupt
/// archive, malformed markup, a bad text encoding, or a structurally
/// missing/invalid required part.
#[derive(Debug, PartialEq, Eq)]
pub enum XlsxError {
    Io,
    Xml,
    Zip,
    Uft8,
    Format,
}

} // verus!
