//! The endpoint reconciler.
//!
//! Two streams of events meet here: mappings that the forwarder learned
//! (peer, loopback port) and peer addresses that peer discovery confirmed.
//! Whenever an event leaves its peer both confirmed and mapped, the tunnel is
//! to be pointed at the peer's loopback port. This is said again on every
//! later event for that peer: the tunnel update is taken to be idempotent.

use crate::addr::SocketAddress;
use crate::peers::distinct_remotes;
use crate::peers::find;
use crate::peers::knows;
use crate::peers::lemma_push_distinct;
use crate::peers::lemma_slot_unique;
use crate::peers::slot_of;
use crate::peers::Mapping;
use vstd::prelude::*;

verus! {

/// An event for the reconciler.
#[derive(Clone, Copy, Debug, PartialEq, Eq, Structural)]
pub enum PeerEvent {
    /// Peer discovery confirmed that the peer is reachable at this address.
    Confirmed(SocketAddress),
    /// The forwarder made a loopback connection for this peer.
    Learned(Mapping),
}

/// The order to point the tunnel's peer at `endpoint`, on behalf of `peer`.
#[derive(Clone, Copy, Debug, PartialEq, Eq, Structural)]
pub struct EndpointUpdate {
    pub peer: SocketAddress,
    pub endpoint: SocketAddress,
}

/// What the reconciler knows: the confirmed addresses and the learned ports.
pub struct Reconciliation {
    pub confirmed: Set<SocketAddress>,
    pub learned: Map<SocketAddress, u16>,
}

/// The peer that an event is about.
pub open spec fn subject(event: PeerEvent) -> SocketAddress {
    match event {
        PeerEvent::Confirmed(remote) => remote,
        PeerEvent::Learned(mapping) => mapping.remote,
    }
}

/// The state in which nothing is known.
pub open spec fn nothing() -> Reconciliation {
    Reconciliation { confirmed: Set::empty(), learned: Map::empty() }
}

/// The state after an event: a confirmed address joins the confirmed ones, a
/// learned mapping replaces what was learned of its peer.
pub open spec fn absorbed(state: Reconciliation, event: PeerEvent) -> Reconciliation {
    match event {
        PeerEvent::Confirmed(remote) => Reconciliation {
            confirmed: state.confirmed.insert(remote),
            learned: state.learned,
        },
        PeerEvent::Learned(mapping) => Reconciliation {
            confirmed: state.confirmed,
            learned: state.learned.insert(mapping.remote, mapping.port),
        },
    }
}

/// The update that is due for `remote` in `state`: one to its learned
/// loopback port if it is both confirmed and learned, none otherwise.
pub open spec fn due(state: Reconciliation, remote: SocketAddress) -> Option<EndpointUpdate> {
    if state.confirmed.contains(remote) && state.learned.dom().contains(remote) {
        Some(
            EndpointUpdate { peer: remote, endpoint: SocketAddress::loopback(state.learned[remote]) },
        )
    } else {
        None
    }
}

/// The state after a run of events.
pub open spec fn absorbed_all(state: Reconciliation, events: Seq<PeerEvent>) -> Reconciliation
    decreases events.len(),
{
    if events.len() == 0 {
        state
    } else {
        absorbed(absorbed_all(state, events.drop_last()), events.last())
    }
}

/// The answer to event `i` of a run of events that starts in `state`.
pub open spec fn update_at(state: Reconciliation, events: Seq<PeerEvent>, i: int) -> Option<
    EndpointUpdate,
> {
    due(absorbed_all(state, events.take(i + 1)), subject(events[i]))
}

/// One of the first `n` events confirms `remote`.
pub open spec fn confirmed_within(events: Seq<PeerEvent>, remote: SocketAddress, n: int) -> bool {
    exists|j: int| 0 <= j < n && (#[trigger] events[j]) == PeerEvent::Confirmed(remote)
}

/// Event `k` is a mapping learned for `remote`.
pub open spec fn learns(events: Seq<PeerEvent>, remote: SocketAddress, k: int) -> bool {
    events[k] is Learned && subject(events[k]) == remote
}

/// One of the first `n` events is a mapping learned for `remote`.
pub open spec fn learned_within(events: Seq<PeerEvent>, remote: SocketAddress, n: int) -> bool {
    exists|k: int| 0 <= k < n && #[trigger] learns(events, remote, k)
}

/// The elements of a sequence of addresses.
pub open spec fn members(addresses: Seq<SocketAddress>) -> Set<SocketAddress> {
    Set::new(|remote: SocketAddress| addresses.contains(remote))
}

/// The map from each peer of a table to the port of its entry.
pub open spec fn ports(table: Seq<Mapping>) -> Map<SocketAddress, u16> {
    Map::new(
        |remote: SocketAddress| knows(table, remote),
        |remote: SocketAddress| table[slot_of(table, remote)].port,
    )
}

proof fn lemma_ports_push(table: Seq<Mapping>, entry: Mapping)
    requires
        distinct_remotes(table),
        !knows(table, entry.remote),
    ensures
        ports(table.push(entry)) == ports(table).insert(entry.remote, entry.port),
{
    let next = table.push(entry);
    lemma_push_distinct(table, entry);
    assert forall|remote: SocketAddress| knows(next, remote) <==> (knows(table, remote) || remote
        == entry.remote) by {
        if knows(next, remote) {
            let i = slot_of(next, remote);
            if i < table.len() {
                assert(table[i].remote == remote);
            }
        }
        if knows(table, remote) {
            let i = slot_of(table, remote);
            assert(next[i].remote == remote);
        }
        if remote == entry.remote {
            assert(next[table.len() as int].remote == remote);
        }
    }
    assert forall|remote: SocketAddress| knows(next, remote) implies #[trigger] ports(next)[remote]
        == ports(table).insert(entry.remote, entry.port)[remote] by {
        if remote == entry.remote {
            lemma_slot_unique(next, remote, table.len() as int);
        } else {
            let i = slot_of(table, remote);
            assert(next[i].remote == remote);
            lemma_slot_unique(next, remote, i);
        }
    }
    assert(ports(next) =~= ports(table).insert(entry.remote, entry.port));
}

proof fn lemma_ports_update(table: Seq<Mapping>, slot: int, entry: Mapping)
    requires
        distinct_remotes(table),
        0 <= slot < table.len(),
        table[slot].remote == entry.remote,
    ensures
        distinct_remotes(table.update(slot, entry)),
        ports(table.update(slot, entry)) == ports(table).insert(entry.remote, entry.port),
{
    let next = table.update(slot, entry);
    assert forall|i: int, j: int| 0 <= i < j < next.len() implies (#[trigger] next[i]).remote != (
    #[trigger] next[j]).remote by {
        assert(table[i].remote != table[j].remote);
    }
    assert forall|remote: SocketAddress| knows(next, remote) <==> knows(table, remote) by {
        if knows(next, remote) {
            let i = slot_of(next, remote);
            assert(table[i].remote == remote);
        }
        if knows(table, remote) {
            let i = slot_of(table, remote);
            assert(next[i].remote == remote);
        }
    }
    assert(table[slot].remote == entry.remote);
    assert(knows(table, entry.remote));
    assert forall|remote: SocketAddress| knows(next, remote) implies #[trigger] ports(next)[remote]
        == ports(table).insert(entry.remote, entry.port)[remote] by {
        let i = slot_of(table, remote);
        assert(next[i].remote == remote);
        lemma_slot_unique(next, remote, i);
        lemma_slot_unique(table, remote, i);
        if remote == entry.remote {
            lemma_slot_unique(table, remote, slot);
        }
    }
    assert(ports(next) =~= ports(table).insert(entry.remote, entry.port));
}

proof fn lemma_members_push(addresses: Seq<SocketAddress>, remote: SocketAddress)
    ensures
        members(addresses.push(remote)) == members(addresses).insert(remote),
{
    let next = addresses.push(remote);
    assert forall|a: SocketAddress| members(next).contains(a) == members(addresses).insert(
        remote,
    ).contains(a) by {
        if next.contains(a) {
            let i = choose|i: int| 0 <= i < next.len() && next[i] == a;
            if i < addresses.len() {
                assert(addresses[i] == a);
            }
        }
        if addresses.contains(a) {
            let i = choose|i: int| 0 <= i < addresses.len() && addresses[i] == a;
            assert(next[i] == a);
        }
        if a == remote {
            assert(next[addresses.len() as int] == a);
        }
    }
    assert(members(next) =~= members(addresses).insert(remote));
}

/// Whether `remote` is among `addresses`.
fn holds(addresses: &Vec<SocketAddress>, remote: SocketAddress) -> (yes: bool)
    ensures
        yes == addresses@.contains(remote),
{
    let mut i: usize = 0;
    while i < addresses.len()
        invariant
            i <= addresses.len(),
            forall|k: int| 0 <= k < i ==> addresses[k] != remote,
        decreases addresses.len() - i,
    {
        if addresses[i] == remote {
            return true;
        }
        i += 1;
    }
    false
}

/// The reconciler's memory.
pub struct Reconciler {
    confirmed: Vec<SocketAddress>,
    learned: Vec<Mapping>,
}

impl View for Reconciler {
    type V = Reconciliation;

    closed spec fn view(&self) -> Reconciliation {
        Reconciliation { confirmed: members(self.confirmed@), learned: ports(self.learned@) }
    }
}

impl Reconciler {
    #[verifier::type_invariant]
    spec fn well_formed(&self) -> bool {
        distinct_remotes(self.learned@)
    }

    /// A reconciler that knows nothing.
    pub fn new() -> (reconciler: Reconciler)
        ensures
            reconciler@ == nothing(),
    {
        let reconciler = Reconciler { confirmed: Vec::new(), learned: Vec::new() };
        assert(reconciler@.confirmed =~= Set::empty());
        assert(reconciler@.learned =~= Map::empty());
        reconciler
    }

    /// Whether `remote` has been confirmed.
    pub fn is_confirmed(&self, remote: SocketAddress) -> (yes: bool)
        ensures
            yes == self@.confirmed.contains(remote),
    {
        holds(&self.confirmed, remote)
    }

    /// The loopback port learned for `remote`.
    pub fn learned_port(&self, remote: SocketAddress) -> (port: Option<u16>)
        ensures
            match port {
                Some(p) => self@.learned.dom().contains(remote) && self@.learned[remote] == p,
                None => !self@.learned.dom().contains(remote),
            },
    {
        proof {
            use_type_invariant(self);
        }
        match find(&self.learned, remote) {
            Some(slot) => {
                proof {
                    lemma_slot_unique(self.learned@, remote, slot as int);
                }
                Some(self.learned[slot].port)
            },
            None => None,
        }
    }

    /// The update that is due for `remote`.
    pub fn due_for(&self, remote: SocketAddress) -> (update: Option<EndpointUpdate>)
        ensures
            update == due(self@, remote),
    {
        if self.is_confirmed(remote) {
            match self.learned_port(remote) {
                Some(port) => Some(
                    EndpointUpdate { peer: remote, endpoint: SocketAddress::loopback(port) },
                ),
                None => None,
            }
        } else {
            None
        }
    }
}

/// Takes in one event and says whether the tunnel is to be repointed.
///
/// The event is remembered first. Then, if its peer is both confirmed and
/// learned, the update to the peer's learned loopback port is returned,
/// whether or not it was returned before.
pub fn set_endpoint(reconciler: &mut Reconciler, event: PeerEvent) -> (update: Option<
    EndpointUpdate,
>)
    ensures
        final(reconciler)@ == absorbed(old(reconciler)@, event),
        update == due(final(reconciler)@, subject(event)),
{
    proof {
        use_type_invariant(&*reconciler);
    }
    let mut previous = Reconciler::new();
    std::mem::swap(reconciler, &mut previous);
    let Reconciler { confirmed, learned } = previous;
    let mut confirmed = confirmed;
    let mut learned = learned;
    let ghost before = Reconciliation { confirmed: members(confirmed@), learned: ports(learned@) };
    match event {
        PeerEvent::Confirmed(remote) => {
            if !holds(&confirmed, remote) {
                let ghost earlier = confirmed@;
                confirmed.push(remote);
                proof {
                    lemma_members_push(earlier, remote);
                }
            } else {
                assert(members(confirmed@) =~= before.confirmed.insert(remote));
            }
        },
        PeerEvent::Learned(mapping) => {
            match find(&learned, mapping.remote) {
                Some(slot) => {
                    proof {
                        lemma_ports_update(learned@, slot as int, mapping);
                    }
                    learned.set(slot, mapping);
                },
                None => {
                    proof {
                        lemma_push_distinct(learned@, mapping);
                        lemma_ports_push(learned@, mapping);
                    }
                    learned.push(mapping);
                },
            }
        },
    }
    *reconciler = Reconciler { confirmed, learned };
    reconciler.due_for(subject_of(event))
}

/// The peer that an event is about.
pub fn subject_of(event: PeerEvent) -> (remote: SocketAddress)
    ensures
        remote == subject(event),
{
    match event {
        PeerEvent::Confirmed(remote) => remote,
        PeerEvent::Learned(mapping) => mapping.remote,
    }
}

/// What a run of events leaves of one peer: it is confirmed exactly if it was
/// before or an event confirmed it, and learned exactly if it was before or
/// an event learned it.
pub proof fn lemma_absorbed_all(state: Reconciliation, events: Seq<PeerEvent>, remote: SocketAddress)
    ensures
        absorbed_all(state, events).confirmed.contains(remote) <==> state.confirmed.contains(remote)
            || confirmed_within(events, remote, events.len() as int),
        absorbed_all(state, events).learned.dom().contains(remote) <==> state.learned.dom().contains(
            remote,
        ) || learned_within(events, remote, events.len() as int),
    decreases events.len(),
{
    if events.len() > 0 {
        let earlier = events.drop_last();
        let n = earlier.len() as int;
        lemma_absorbed_all(state, earlier, remote);
        if confirmed_within(earlier, remote, n) {
            let j = choose|j: int|
                0 <= j < n && (#[trigger] earlier[j]) == PeerEvent::Confirmed(remote);
            assert(events[j] == PeerEvent::Confirmed(remote));
        }
        if learned_within(earlier, remote, n) {
            let k = choose|k: int| 0 <= k < n && #[trigger] learns(earlier, remote, k);
            assert(learns(events, remote, k));
        }
        if confirmed_within(events, remote, n + 1) {
            let j = choose|j: int|
                0 <= j < n + 1 && (#[trigger] events[j]) == PeerEvent::Confirmed(remote);
            if j < n {
                assert(earlier[j] == PeerEvent::Confirmed(remote));
            }
        }
        if learned_within(events, remote, n + 1) {
            let k = choose|k: int| 0 <= k < n + 1 && #[trigger] learns(events, remote, k);
            if k < n {
                assert(learns(earlier, remote, k));
            }
        }
        if events.last() == PeerEvent::Confirmed(remote) {
            assert(events[n] == PeerEvent::Confirmed(remote));
        }
        if learns(events, remote, n) {
            assert(learned_within(events, remote, n + 1));
        }
    }
}

/// An update is issued exactly when both halves are there.
///
/// In a run of events that starts in `state`, event `i` is answered with an
/// update for its peer if and only if, up to and including event `i`, the peer
/// has been confirmed and a mapping has been learned for it, in either order.
/// So the update is issued when the second half arrives, and again on every
/// later event for the peer.
pub proof fn lemma_update_iff_confirmed_and_learned(
    state: Reconciliation,
    events: Seq<PeerEvent>,
    i: int,
)
    requires
        0 <= i < events.len(),
    ensures
        update_at(state, events, i) is Some <==> (state.confirmed.contains(subject(events[i]))
            || confirmed_within(events, subject(events[i]), i + 1)) && (
        state.learned.dom().contains(subject(events[i])) || learned_within(
            events,
            subject(events[i]),
            i + 1,
        )),
        update_at(state, events, i) is Some ==> update_at(state, events, i)->0.peer == subject(
            events[i],
        ),
{
    let remote = subject(events[i]);
    let prefix = events.take(i + 1);
    lemma_absorbed_all(state, prefix, remote);
    if confirmed_within(prefix, remote, i + 1) {
        let j = choose|j: int|
            0 <= j < i + 1 && (#[trigger] prefix[j]) == PeerEvent::Confirmed(remote);
        assert(events[j] == PeerEvent::Confirmed(remote));
    }
    if confirmed_within(events, remote, i + 1) {
        let j = choose|j: int|
            0 <= j < i + 1 && (#[trigger] events[j]) == PeerEvent::Confirmed(remote);
        assert(prefix[j] == PeerEvent::Confirmed(remote));
    }
    if learned_within(prefix, remote, i + 1) {
        let k = choose|k: int| 0 <= k < i + 1 && #[trigger] learns(prefix, remote, k);
        assert(learns(events, remote, k));
    }
    if learned_within(events, remote, i + 1) {
        let k = choose|k: int| 0 <= k < i + 1 && #[trigger] learns(events, remote, k);
        assert(learns(prefix, remote, k));
    }
}

/// An update points at the port that was learned last.
///
/// If event `k` learned `port` for a peer and no event after `k`, up to and
/// including event `i`, learned another mapping for that peer, then an update
/// issued for the peer at event `i` points the tunnel at `127.0.0.1:port`.
pub proof fn lemma_update_uses_latest_port(
    state: Reconciliation,
    events: Seq<PeerEvent>,
    k: int,
    i: int,
)
    requires
        0 <= k <= i < events.len(),
        events[k] is Learned,
        subject(events[k]) == subject(events[i]),
        forall|l: int| k < l <= i ==> !#[trigger] learns(events, subject(events[i]), l),
    ensures
        update_at(state, events, i) is Some ==> update_at(state, events, i)->0.endpoint
            == SocketAddress::loopback(events[k]->Learned_0.port),
{
    let remote = subject(events[i]);
    let prefix = events.take(i + 1);
    assert(learns(prefix, remote, k));
    assert forall|l: int| k < l < prefix.len() implies !#[trigger] learns(prefix, remote, l) by {
        assert(!learns(events, remote, l));
    }
    lemma_port_kept(state, prefix, k, remote);
}

/// The port that event `k` learned for `remote` is still the learned one at
/// the end of the run if no later event learned another.
proof fn lemma_port_kept(
    state: Reconciliation,
    events: Seq<PeerEvent>,
    k: int,
    remote: SocketAddress,
)
    requires
        0 <= k < events.len(),
        learns(events, remote, k),
        forall|l: int| k < l < events.len() ==> !#[trigger] learns(events, remote, l),
    ensures
        absorbed_all(state, events).learned.dom().contains(remote),
        absorbed_all(state, events).learned[remote] == events[k]->Learned_0.port,
    decreases events.len(),
{
    let earlier = events.drop_last();
    let n = earlier.len() as int;
    if k < n {
        assert(learns(earlier, remote, k));
        assert forall|l: int| k < l < earlier.len() implies !#[trigger] learns(earlier, remote, l) by {
            assert(!learns(events, remote, l));
        }
        lemma_port_kept(state, earlier, k, remote);
        assert(!learns(events, remote, n));
    }
}

} // verus!
