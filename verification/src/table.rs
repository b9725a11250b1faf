//! Render-ready rows for the surrounding application's tables: one row
//! per diagnostic, and one row per successfully sent packet.  The
//! rendering itself (colors, table drawing) lives outside the library.

use vstd::prelude::*;

verus! {

/// One diagnostic, as a four-column table row.
#[derive(Debug, Clone, PartialEq)]
pub struct TableError {
    pub msg_type: String,
    pub range: String,
    pub input: String,
    pub message: String,
}

/// One sent packet, as a three-column table row.
#[derive(Debug, Clone, PartialEq)]
pub struct TableSuccess {
    pub packet_size: String,
    pub osc_address: String,
    pub osc_message: String,
}

impl TableError {
    /// Builds a diagnostic row from its columns.
    pub fn new(range: String, input: String, message: String, msg_type: String) -> (r:
        TableError)
        ensures
            r.range == range,
            r.input == input,
            r.message == message,
            r.msg_type == msg_type,
    {
        TableError { msg_type, range, input, message }
    }
}

impl TableSuccess {
    /// Builds a success row from its columns.
    pub fn new(packet_size: String, osc_address: String, osc_message: String) -> (r:
        TableSuccess)
        ensures
            r.packet_size == packet_size,
            r.osc_address == osc_address,
            r.osc_message == osc_message,
    {
        TableSuccess { packet_size, osc_address, osc_message }
    }
}

} // verus!
