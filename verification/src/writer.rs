//! Decisions of the writer loop, the single task per endpoint that consumes
//! outbound (destination, payload) pairs. For each pair it resolves the
//! destination in the stream table, connects when no connection exists —
//! outside the table's lock, settling races with insert-if-absent — frames
//! the encoded payload and writes it. A failed connect drops the message
//! silently and the loop goes on; a failed write is fatal to the loop. The
//! blocking work (channel receive, connect, write) stays with the caller,
//! which feeds its outcomes to these functions.

use vstd::prelude::*;
use crate::addr::PeerAddr;
use crate::frame;
use crate::table::{StreamTable, insert_if_absent_spec, resolve_spec};

verus! {

/// What to do for one outbound message once its destination was looked up.
pub enum SendPlan {
    /// A connection to the destination is live: write the frame there.
    UseExisting(u64),
    /// No connection yet: attempt a connect, then register its outcome.
    NeedConnect,
}

/// How registering a connect attempt ended.
pub enum Registration {
    /// The connect failed: this message is dropped silently, no error is
    /// surfaced to the sender, and the loop serves the next message.
    Dropped,
    /// A connection is bound to the destination. `fresh` says this very call
    /// put `conn` into the table, so a reader task must be spawned for it;
    /// otherwise a racing registration won and `conn` is the winner.
    Ready { conn: u64, fresh: bool },
}

/// Resolves a destination in the stream table: the live connection where
/// one exists, else the order to connect.
pub fn plan_send(table: &StreamTable, dest: &PeerAddr) -> (r: SendPlan)
    ensures
        match r {
            SendPlan::UseExisting(c) => table@.contains_key(dest.key_spec()) && table@[
                dest.key_spec()
            ] == c,
            SendPlan::NeedConnect => !table@.contains_key(dest.key_spec()),
        },
{
    match table.lookup(dest) {
        Some(c) => SendPlan::UseExisting(c),
        None => SendPlan::NeedConnect,
    }
}

/// Registers the outcome of a connect attempt for `dest`. No connection
/// (`None`) leaves the table untouched and drops the message; a connection
/// is bound by insert-if-absent, so a racing winner stays and at most one
/// entry per peer ever exists.
pub fn register_connection(table: &mut StreamTable, dest: &PeerAddr, connected: Option<u64>) -> (r:
    Registration)
    ensures
        match connected {
            None => r is Dropped && final(table)@ == old(table)@,
            Some(c) => {
                &&& final(table)@ == insert_if_absent_spec(old(table)@, dest.key_spec(), c)
                &&& r == (Registration::Ready {
                    conn: resolve_spec(old(table)@, dest.key_spec(), c),
                    fresh: !old(table)@.contains_key(dest.key_spec()),
                })
            },
        },
{
    match connected {
        None => Registration::Dropped,
        Some(c) => {
            let fresh = !table.contains(dest);
            let conn = table.insert_if_absent(dest, c);
            Registration::Ready { conn, fresh }
        },
    }
}

/// Frames one encoded payload for the wire: the 4-byte little-endian length,
/// then the payload bytes, as one logical write. A payload too long for the
/// length field is refused, since the length field must equal the exact
/// byte count of what follows.
pub fn prepare_wire_bytes(payload: &Vec<u8>) -> (r: Option<Vec<u8>>)
    ensures
        match r {
            Some(b) => payload@.len() <= u32::MAX && b@ == frame::frame_of(payload@),
            None => payload@.len() > u32::MAX,
        },
{
    if payload.len() <= u32::MAX as usize {
        Some(frame::encode_frame(payload))
    } else {
        None
    }
}

} // verus!
