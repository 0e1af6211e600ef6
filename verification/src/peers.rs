//! Peer mappings and tables of them.

use crate::addr::SocketAddress;
use vstd::prelude::*;

verus! {

/// A remote peer together with the loopback port that stands for it locally.
#[derive(Clone, Copy, Debug, PartialEq, Eq, Structural)]
pub struct Mapping {
    pub remote: SocketAddress,
    pub port: u16,
}

/// Some entry of `table` belongs to `remote`.
pub open spec fn knows(table: Seq<Mapping>, remote: SocketAddress) -> bool {
    exists|i: int| 0 <= i < table.len() && (#[trigger] table[i]).remote == remote
}

/// No two entries of `table` belong to the same remote peer.
pub open spec fn distinct_remotes(table: Seq<Mapping>) -> bool {
    forall|i: int, j: int|
        0 <= i < j < table.len() ==> (#[trigger] table[i]).remote != (#[trigger] table[j]).remote
}

/// The position of an entry of `remote` in `table`; meaningful where
/// `knows(table, remote)`.
pub open spec fn slot_of(table: Seq<Mapping>, remote: SocketAddress) -> int {
    choose|i: int| 0 <= i < table.len() && (#[trigger] table[i]).remote == remote
}

/// In a table without repeated peers, the entry of a peer is the only one.
pub proof fn lemma_slot_unique(table: Seq<Mapping>, remote: SocketAddress, i: int)
    requires
        distinct_remotes(table),
        0 <= i < table.len(),
        table[i].remote == remote,
    ensures
        knows(table, remote),
        slot_of(table, remote) == i,
{
    let j = slot_of(table, remote);
    if j < i {
        assert(table[j].remote != table[i].remote);
    } else if i < j {
        assert(table[i].remote != table[j].remote);
    }
}

/// Appending an entry of an unknown peer keeps the entries distinct.
pub proof fn lemma_push_distinct(table: Seq<Mapping>, entry: Mapping)
    requires
        distinct_remotes(table),
        !knows(table, entry.remote),
    ensures
        distinct_remotes(table.push(entry)),
{
    let next = table.push(entry);
    assert forall|i: int, j: int| 0 <= i < j < next.len() implies (#[trigger] next[i]).remote != (
    #[trigger] next[j]).remote by {
        if j < table.len() {
            assert(table[i].remote != table[j].remote);
        } else {
            assert(table[i].remote != entry.remote);
        }
    }
}

/// Finds the first entry of `remote`.
pub fn find(table: &Vec<Mapping>, remote: SocketAddress) -> (slot: Option<usize>)
    ensures
        match slot {
            Some(i) => i < table.len() && table[i as int].remote == remote && forall|k: int|
                0 <= k < i ==> (#[trigger] table[k]).remote != remote,
            None => !knows(table@, remote),
        },
{
    let mut i: usize = 0;
    while i < table.len()
        invariant
            i <= table.len(),
            forall|k: int| 0 <= k < i ==> (#[trigger] table[k]).remote != remote,
        decreases table.len() - i,
    {
        if table[i].remote == remote {
            return Some(i);
        }
        i += 1;
    }
    None
}

} // verus!
