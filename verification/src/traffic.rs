//! The traffic forwarder: one public socket, one loopback connection per
//! remote peer.
//!
//! Every datagram that arrives on the public socket is offered to the STUN
//! decode path and, through the loopback connection of its sender, to the
//! tunnel listener. A connection is made the first time a peer is heard and is
//! kept for the lifetime of the forwarder; making it is announced once.
//! Replies of the tunnel listener go back to the peer that owns the
//! connection they arrive on.

use crate::addr::SocketAddress;
use crate::peers::distinct_remotes;
use crate::peers::find;
use crate::peers::knows;
use crate::peers::lemma_push_distinct;
use crate::peers::lemma_slot_unique;
use crate::peers::slot_of;
use crate::peers::Mapping;
use vstd::prelude::*;

verus! {

/// A payload and the address it is to be sent to.
#[derive(Debug, PartialEq, Eq)]
pub struct Datagram {
    pub payload: Vec<u8>,
    pub to: SocketAddress,
}

/// A datagram that arrived on the public socket.
///
/// `opened` is the port of the loopback socket that the caller bound for this
/// datagram: `None` if it bound none, because the sender was known or because
/// binding failed.
#[derive(Debug, PartialEq, Eq)]
pub struct Arrival {
    pub payload: Vec<u8>,
    pub remote: SocketAddress,
    pub opened: Option<u16>,
}

/// A datagram for the tunnel listener and the connection to send it through.
#[derive(Debug, PartialEq, Eq)]
pub struct Forward {
    pub slot: usize,
    pub datagram: Datagram,
}

/// What is to be done with one arrival.
#[derive(Debug, PartialEq, Eq)]
pub struct Dispatch {
    /// The copy for the STUN decode path.
    pub stun_copy: Datagram,
    /// The connection that was made for this arrival, to be announced.
    pub announce: Option<Mapping>,
    /// The datagram for the tunnel listener; `None` if it is dropped.
    pub forward: Option<Forward>,
}

/// The connections after an arrival from `remote`.
pub open spec fn table_after(table: Seq<Mapping>, remote: SocketAddress, opened: Option<u16>) -> Seq<
    Mapping,
> {
    match opened {
        Some(port) if !knows(table, remote) => table.push(Mapping { remote, port }),
        _ => table,
    }
}

/// The connection that an arrival from `remote` makes, if it makes one.
pub open spec fn announced(table: Seq<Mapping>, remote: SocketAddress, opened: Option<u16>) -> Option<
    Mapping,
> {
    match opened {
        Some(port) if !knows(table, remote) => Some(Mapping { remote, port }),
        _ => None,
    }
}

/// The connection that an arrival from `remote` is forwarded through, if it
/// is forwarded.
pub open spec fn route(table: Seq<Mapping>, remote: SocketAddress, opened: Option<u16>) -> Option<
    int,
> {
    if knows(table, remote) {
        Some(slot_of(table, remote))
    } else if opened is Some {
        Some(table.len() as int)
    } else {
        None
    }
}

/// The peer that owns connection `slot`.
pub open spec fn owner(table: Seq<Mapping>, slot: int) -> Option<SocketAddress> {
    if 0 <= slot < table.len() {
        Some(table[slot].remote)
    } else {
        None
    }
}

/// The payload and destination of a reply read from connection `slot`.
pub open spec fn returned(table: Seq<Mapping>, slot: int, payload: Seq<u8>) -> Option<
    (Seq<u8>, SocketAddress),
> {
    match owner(table, slot) {
        Some(peer) => Some((payload, peer)),
        None => None,
    }
}

/// The connections after a run of arrivals, each given by its sender and the
/// port that was bound for it.
pub open spec fn table_after_all(
    table: Seq<Mapping>,
    arrivals: Seq<(SocketAddress, Option<u16>)>,
) -> Seq<Mapping>
    decreases arrivals.len(),
{
    if arrivals.len() == 0 {
        table
    } else {
        let last = arrivals.last();
        table_after(table_after_all(table, arrivals.drop_last()), last.0, last.1)
    }
}

/// The connections announced during a run of arrivals, in order.
pub open spec fn announced_all(
    table: Seq<Mapping>,
    arrivals: Seq<(SocketAddress, Option<u16>)>,
) -> Seq<Mapping>
    decreases arrivals.len(),
{
    if arrivals.len() == 0 {
        Seq::empty()
    } else {
        let last = arrivals.last();
        let before = table_after_all(table, arrivals.drop_last());
        let earlier = announced_all(table, arrivals.drop_last());
        match announced(before, last.0, last.1) {
            Some(made) => earlier.push(made),
            None => earlier,
        }
    }
}

/// Some arrival of the run came from `remote` with a bound loopback socket.
pub open spec fn offered(arrivals: Seq<(SocketAddress, Option<u16>)>, remote: SocketAddress) -> bool {
    exists|i: int|
        0 <= i < arrivals.len() && (#[trigger] arrivals[i]).0 == remote && arrivals[i].1 is Some
}

/// The connection table of the public socket.
pub struct Forwarder {
    tunnel_port: u16,
    table: Vec<Mapping>,
}

impl Forwarder {
    #[verifier::type_invariant]
    spec fn well_formed(&self) -> bool {
        distinct_remotes(self.table@)
    }

    /// The connections, in the order in which they were made. The position of
    /// a connection is its slot.
    pub closed spec fn connections(&self) -> Seq<Mapping> {
        self.table@
    }

    /// The loopback port of the tunnel listener.
    pub closed spec fn listener(&self) -> u16 {
        self.tunnel_port
    }

    /// A forwarder without connections, in front of the tunnel listener on
    /// `127.0.0.1:tunnel_port`.
    pub fn new(tunnel_port: u16) -> (forwarder: Forwarder)
        ensures
            forwarder.connections() == Seq::<Mapping>::empty(),
            forwarder.listener() == tunnel_port,
    {
        Forwarder { tunnel_port, table: Vec::new() }
    }

    /// The loopback port of the tunnel listener.
    pub fn tunnel_port(&self) -> (port: u16)
        ensures
            port == self.listener(),
    {
        self.tunnel_port
    }

    /// The number of connections.
    pub fn len(&self) -> (n: usize)
        ensures
            n == self.connections().len(),
    {
        self.table.len()
    }

    /// The connection of `remote`: its slot and loopback port.
    pub fn lookup(&self, remote: SocketAddress) -> (found: Option<(usize, u16)>)
        ensures
            distinct_remotes(self.connections()),
            match found {
                Some((slot, port)) => knows(self.connections(), remote) && slot == slot_of(
                    self.connections(),
                    remote,
                ) && self.connections()[slot as int] == (Mapping { remote, port }),
                None => !knows(self.connections(), remote),
            },
    {
        proof {
            use_type_invariant(self);
        }
        match find(&self.table, remote) {
            Some(slot) => {
                proof {
                    lemma_slot_unique(self.table@, remote, slot as int);
                }
                Some((slot, self.table[slot].port))
            },
            None => None,
        }
    }

    /// The peer that owns connection `slot`.
    pub fn owner_of(&self, slot: usize) -> (peer: Option<SocketAddress>)
        ensures
            peer == owner(self.connections(), slot as int),
    {
        if slot < self.table.len() {
            Some(self.table[slot].remote)
        } else {
            None
        }
    }

    /// Addresses a reply of the tunnel listener that was read from connection
    /// `slot` to the peer that owns the connection. There is no datagram for
    /// a slot that holds no connection.
    pub fn reply(&self, slot: usize, payload: Vec<u8>) -> (datagram: Option<Datagram>)
        ensures
            match datagram {
                Some(d) => returned(self.connections(), slot as int, payload@) == Some(
                    (d.payload@, d.to),
                ),
                None => returned(self.connections(), slot as int, payload@) is None,
            },
    {
        match self.owner_of(slot) {
            Some(peer) => Some(relay_reply(peer, payload)),
            None => None,
        }
    }
}

/// Decides what happens to one datagram from the public socket.
///
/// The datagram is always copied to the STUN decode path, addressed to the
/// tunnel listener. If its sender has a connection, it is forwarded through
/// it. If not, and the caller bound a loopback socket on `arrival.opened`, a
/// connection is made, announced and used. If not, and no socket was bound,
/// the datagram is dropped and nothing is remembered. Connections are never
/// changed or removed.
pub fn forward_inbound(forwarder: &mut Forwarder, arrival: Arrival) -> (dispatch: Dispatch)
    ensures
        final(forwarder).listener() == old(forwarder).listener(),
        final(forwarder).connections() == table_after(
            old(forwarder).connections(),
            arrival.remote,
            arrival.opened,
        ),
        distinct_remotes(old(forwarder).connections()),
        distinct_remotes(final(forwarder).connections()),
        dispatch.stun_copy.payload@ == arrival.payload@,
        dispatch.stun_copy.to == SocketAddress::loopback(old(forwarder).listener()),
        dispatch.announce == announced(old(forwarder).connections(), arrival.remote, arrival.opened),
        match dispatch.forward {
            Some(forward) => route(old(forwarder).connections(), arrival.remote, arrival.opened)
                == Some(forward.slot as int) && forward.datagram.payload@ == arrival.payload@
                && forward.datagram.to == SocketAddress::loopback(old(forwarder).listener()),
            None => route(old(forwarder).connections(), arrival.remote, arrival.opened) is None,
        },
{
    proof {
        use_type_invariant(&*forwarder);
    }
    let listener = SocketAddress::loopback(forwarder.tunnel_port);
    let stun_copy = Datagram { payload: arrival.payload.clone(), to: listener };
    let found = find(&forwarder.table, arrival.remote);
    let mut announce: Option<Mapping> = None;
    let slot: Option<usize> = match found {
        Some(slot) => {
            proof {
                lemma_slot_unique(forwarder.table@, arrival.remote, slot as int);
            }
            Some(slot)
        },
        None => match arrival.opened {
            Some(port) => {
                let entry = Mapping { remote: arrival.remote, port };
                proof {
                    lemma_push_distinct(forwarder.table@, entry);
                }
                let slot = forwarder.table.len();
                let mut previous = Forwarder::new(0);
                std::mem::swap(forwarder, &mut previous);
                let Forwarder { tunnel_port, table } = previous;
                let mut table = table;
                table.push(entry);
                *forwarder = Forwarder { tunnel_port, table };
                announce = Some(entry);
                Some(slot)
            },
            None => None,
        },
    };
    let forward = match slot {
        Some(slot) => Some(Forward { slot, datagram: Datagram { payload: arrival.payload, to: listener } }),
        None => None,
    };
    Dispatch { stun_copy, announce, forward }
}

/// Addresses a reply of the tunnel listener, read from the loopback
/// connection of `owner`, to that peer. The payload is not touched.
pub fn relay_reply(owner: SocketAddress, payload: Vec<u8>) -> (datagram: Datagram)
    ensures
        datagram.payload@ == payload@,
        datagram.to == owner,
{
    Datagram { payload, to: owner }
}

/// The address to bind a peer's loopback socket to: `127.0.0.1`, on a port
/// that the system picks.
pub fn loopback_bind_address() -> (addr: SocketAddress)
    ensures
        addr == SocketAddress::loopback(0),
{
    SocketAddress::loopback(0)
}

/// One connection per peer, announced once.
///
/// Whatever arrives, in whatever order: no peer ever has two connections; the
/// connections that were there stay where they are; the announcements are
/// exactly the connections that were added, in the order of their making, so
/// that no peer is announced twice; and a peer has a connection at the end
/// exactly if it had one at the start or a socket was bound for one of its
/// datagrams.
pub proof fn lemma_one_connection_per_peer(
    table: Seq<Mapping>,
    arrivals: Seq<(SocketAddress, Option<u16>)>,
)
    requires
        distinct_remotes(table),
    ensures
        distinct_remotes(table_after_all(table, arrivals)),
        table.len() <= table_after_all(table, arrivals).len(),
        table_after_all(table, arrivals).subrange(0, table.len() as int) == table,
        announced_all(table, arrivals) == table_after_all(table, arrivals).subrange(
            table.len() as int,
            table_after_all(table, arrivals).len() as int,
        ),
        forall|remote: SocketAddress|
            knows(table_after_all(table, arrivals), remote) <==> knows(table, remote) || offered(
                arrivals,
                remote,
            ),
    decreases arrivals.len(),
{
    let end = table_after_all(table, arrivals);
    if arrivals.len() == 0 {
        assert(end.subrange(0, table.len() as int) =~= table);
        assert(announced_all(table, arrivals) =~= end.subrange(
            table.len() as int,
            end.len() as int,
        ));
    } else {
        let earlier = arrivals.drop_last();
        let last = arrivals.last();
        let before = table_after_all(table, earlier);
        lemma_one_connection_per_peer(table, earlier);
        let made = announced(before, last.0, last.1);
        if made is Some {
            lemma_push_distinct(before, made->0);
            assert(end == before.push(made->0));
        } else {
            assert(end == before);
        }
        assert(end.subrange(0, table.len() as int) =~= before.subrange(0, table.len() as int));
        assert(announced_all(table, arrivals) =~= end.subrange(
            table.len() as int,
            end.len() as int,
        ));
        assert forall|remote: SocketAddress|
            knows(end, remote) <==> knows(table, remote) || offered(arrivals, remote) by {
            if knows(end, remote) {
                let i = slot_of(end, remote);
                if i < before.len() {
                    assert(before[i].remote == remote);
                    assert(knows(before, remote));
                    if !knows(table, remote) {
                        let k = choose|k: int|
                            0 <= k < earlier.len() && (#[trigger] earlier[k]).0 == remote
                                && earlier[k].1 is Some;
                        assert(arrivals[k] == earlier[k]);
                    }
                } else {
                    assert(arrivals[arrivals.len() - 1] == last);
                }
            }
            if knows(table, remote) || offered(arrivals, remote) {
                if knows(table, remote) {
                    assert(knows(before, remote));
                } else {
                    let k = choose|k: int|
                        0 <= k < arrivals.len() && (#[trigger] arrivals[k]).0 == remote
                            && arrivals[k].1 is Some;
                    if k < earlier.len() {
                        assert(earlier[k] == arrivals[k]);
                        assert(offered(earlier, remote));
                        assert(knows(before, remote));
                    } else if !knows(before, remote) {
                        assert(end[before.len() as int].remote == remote);
                    }
                }
                if knows(before, remote) {
                    let i = slot_of(before, remote);
                    assert(end[i].remote == remote);
                }
            }
        }
    }
}

/// A reply comes back to the peer whose datagram went in.
///
/// If a datagram from `remote` is forwarded through connection `slot`, then a
/// payload that the tunnel listener sends back on that connection, at once or
/// after any further arrivals, is addressed to `remote` and is the payload
/// that was sent back.
pub proof fn lemma_reply_reaches_sender(
    table: Seq<Mapping>,
    remote: SocketAddress,
    opened: Option<u16>,
    later: Seq<(SocketAddress, Option<u16>)>,
    payload: Seq<u8>,
)
    requires
        distinct_remotes(table),
    ensures
        match route(table, remote, opened) {
            Some(slot) => returned(
                table_after_all(table_after(table, remote, opened), later),
                slot,
                payload,
            ) == Some((payload, remote)),
            None => !knows(table_after(table, remote, opened), remote),
        },
{
    let next = table_after(table, remote, opened);
    if knows(table, remote) {
        assert(next == table);
    } else if opened is Some {
        lemma_push_distinct(table, Mapping { remote, port: opened->0 });
        assert(next[table.len() as int].remote == remote);
    } else {
        assert(next == table);
    }
    if route(table, remote, opened) is Some {
        let slot = route(table, remote, opened)->0;
        assert(0 <= slot < next.len() && next[slot].remote == remote);
        lemma_one_connection_per_peer(next, later);
        let end = table_after_all(next, later);
        assert(end.subrange(0, next.len() as int)[slot] == end[slot]);
    }
}

} // verus!
