//! The stream table: one instance per endpoint, mapping a peer's table key
//! to the identifier of the open connection that serves that peer. It is the
//! multiplexing substrate shared by the writer loop and the acceptor loop;
//! the caller guards each whole call with the endpoint's one lock, and the
//! table keeps at most one live connection entry per peer.

use vstd::prelude::*;
use std::collections::HashMap;
use crate::addr::PeerAddr;

verus! {

broadcast use vstd::std_specs::hash::group_hash_axioms;

/// What insert-if-absent leaves in the table: the old mapping where the key
/// is already bound, else the mapping extended by the new connection.
pub open spec fn insert_if_absent_spec(m: Map<u64, u64>, k: u64, c: u64) -> Map<u64, u64> {
    if m.contains_key(k) {
        m
    } else {
        m.insert(k, c)
    }
}

/// The connection insert-if-absent resolves to: the one already bound where
/// there is one — the winner of a connect race — else the new one.
pub open spec fn resolve_spec(m: Map<u64, u64>, k: u64, c: u64) -> u64 {
    if m.contains_key(k) {
        m[k]
    } else {
        c
    }
}

/// The address-to-connection map of one endpoint.
pub struct StreamTable {
    map: HashMap<u64, u64>,
}

impl View for StreamTable {
    type V = Map<u64, u64>;

    closed spec fn view(&self) -> Map<u64, u64> {
        self.map@
    }
}

impl StreamTable {
    /// An empty table: no peer has a connection yet.
    pub fn new() -> (r: Self)
        ensures
            r@ == Map::<u64, u64>::empty(),
    {
        StreamTable { map: HashMap::new() }
    }

    /// The connection bound to `addr`, if one is live.
    pub fn lookup(&self, addr: &PeerAddr) -> (r: Option<u64>)
        ensures
            match r {
                Some(c) => self@.contains_key(addr.key_spec()) && self@[addr.key_spec()] == c,
                None => !self@.contains_key(addr.key_spec()),
            },
    {
        let k = addr.key();
        match self.map.get(&k) {
            Some(c) => Some(*c),
            None => None,
        }
    }

    /// Whether `addr` has a live connection entry.
    pub fn contains(&self, addr: &PeerAddr) -> (r: bool)
        ensures
            r == self@.contains_key(addr.key_spec()),
    {
        let k = addr.key();
        self.map.contains_key(&k)
    }

    /// How many peers have a live connection entry.
    pub fn count(&self) -> (r: usize)
        ensures
            r == self@.len(),
    {
        self.map.len()
    }

    /// Binds `addr` to `conn` unless a connection won the race first, and
    /// returns the winning connection either way; the table never ends up
    /// with more than one entry for the peer.
    pub fn insert_if_absent(&mut self, addr: &PeerAddr, conn: u64) -> (r: u64)
        ensures
            final(self)@ == insert_if_absent_spec(old(self)@, addr.key_spec(), conn),
            r == resolve_spec(old(self)@, addr.key_spec(), conn),
            final(self)@.contains_key(addr.key_spec()),
            final(self)@[addr.key_spec()] == r,
    {
        let k = addr.key();
        let existing: Option<u64> = match self.map.get(&k) {
            Some(c) => Some(*c),
            None => None,
        };
        match existing {
            Some(c) => c,
            None => {
                self.map.insert(k, conn);
                conn
            },
        }
    }
}

/// Registering the same peer over and over, with any connections: once the
/// first registration is in, every later one leaves the table as it stands
/// and resolves to the connection already bound.
pub proof fn lemma_insert_if_absent_idempotent(m: Map<u64, u64>, k: u64, c1: u64, c2: u64)
    ensures
        insert_if_absent_spec(insert_if_absent_spec(m, k, c1), k, c2) == insert_if_absent_spec(
            m,
            k,
            c1,
        ),
        resolve_spec(insert_if_absent_spec(m, k, c1), k, c2) == resolve_spec(m, k, c1),
{
}

/// The table after a burst of registrations of the same peer, one per
/// connection attempt in order.
pub open spec fn register_all_spec(m: Map<u64, u64>, k: u64, conns: Seq<u64>) -> Map<u64, u64>
    decreases conns.len(),
{
    if conns.len() == 0 {
        m
    } else {
        register_all_spec(insert_if_absent_spec(m, k, conns[0]), k, conns.skip(1))
    }
}

/// A bound peer absorbs every further registration.
pub proof fn lemma_register_all_bound(m: Map<u64, u64>, k: u64, conns: Seq<u64>)
    requires
        m.contains_key(k),
    ensures
        register_all_spec(m, k, conns) == m,
    decreases conns.len(),
{
    if conns.len() > 0 {
        lemma_register_all_bound(m, k, conns.skip(1));
    }
}

/// Deduplication: however many sends to one yet-unconnected peer race their
/// registrations, exactly one entry for that peer results — bound to the
/// first connection that arrived — and the table grows by exactly one entry.
pub proof fn lemma_dedup(m: Map<u64, u64>, k: u64, conns: Seq<u64>)
    requires
        !m.contains_key(k),
        conns.len() >= 1,
        m.dom().finite(),
    ensures
        register_all_spec(m, k, conns) == m.insert(k, conns[0]),
        register_all_spec(m, k, conns).len() == m.len() + 1,
{
    lemma_register_all_bound(m.insert(k, conns[0]), k, conns.skip(1));
    vstd::set::axiom_set_insert_len(m.dom(), k);
    assert(m.insert(k, conns[0]).dom() =~= m.dom().insert(k));
}

} // verus!
