use nat_relay::addr::SocketAddress;
use nat_relay::endpoint::set_endpoint;
use nat_relay::endpoint::subject_of;
use nat_relay::endpoint::EndpointUpdate;
use nat_relay::endpoint::PeerEvent;
use nat_relay::endpoint::Reconciler;
use nat_relay::peers::Mapping;
use nat_relay::traffic::forward_inbound;
use nat_relay::traffic::Arrival;
use nat_relay::traffic::Forwarder;

fn peer() -> SocketAddress {
    SocketAddress::v4(203, 0, 113, 5, 4000)
}

fn other() -> SocketAddress {
    SocketAddress::v4(203, 0, 113, 6, 4000)
}

fn learned(remote: SocketAddress, port: u16) -> PeerEvent {
    PeerEvent::Learned(Mapping { remote, port })
}

fn update(peer: SocketAddress, port: u16) -> Option<EndpointUpdate> {
    Some(EndpointUpdate { peer, endpoint: SocketAddress::v4(127, 0, 0, 1, port) })
}

#[test]
fn learned_then_confirmed_sets_the_endpoint() {
    let mut reconciler = Reconciler::new();
    assert_eq!(set_endpoint(&mut reconciler, learned(peer(), 51000)), None);
    assert_eq!(set_endpoint(&mut reconciler, PeerEvent::Confirmed(peer())), update(peer(), 51000));
}

#[test]
fn confirmed_then_learned_sets_the_endpoint() {
    let mut reconciler = Reconciler::new();
    assert_eq!(set_endpoint(&mut reconciler, PeerEvent::Confirmed(peer())), None);
    assert_eq!(set_endpoint(&mut reconciler, learned(peer(), 51000)), update(peer(), 51000));
}

#[test]
fn one_half_alone_sets_nothing() {
    let mut reconciler = Reconciler::new();
    assert_eq!(set_endpoint(&mut reconciler, PeerEvent::Confirmed(peer())), None);
    assert_eq!(set_endpoint(&mut reconciler, PeerEvent::Confirmed(peer())), None);
    assert_eq!(set_endpoint(&mut reconciler, learned(other(), 51000)), None);
    assert_eq!(set_endpoint(&mut reconciler, learned(other(), 51001)), None);
    assert!(reconciler.is_confirmed(peer()));
    assert!(!reconciler.is_confirmed(other()));
    assert_eq!(reconciler.learned_port(other()), Some(51001));
    assert_eq!(reconciler.learned_port(peer()), None);
    assert_eq!(reconciler.due_for(peer()), None);
    assert_eq!(reconciler.due_for(other()), None);
}

#[test]
fn update_is_issued_again_on_every_later_event() {
    let mut reconciler = Reconciler::new();
    set_endpoint(&mut reconciler, learned(peer(), 51000));
    assert_eq!(set_endpoint(&mut reconciler, PeerEvent::Confirmed(peer())), update(peer(), 51000));
    assert_eq!(set_endpoint(&mut reconciler, PeerEvent::Confirmed(peer())), update(peer(), 51000));
    assert_eq!(set_endpoint(&mut reconciler, learned(peer(), 51000)), update(peer(), 51000));
    assert_eq!(reconciler.due_for(peer()), update(peer(), 51000));
}

#[test]
fn later_mapping_overwrites_the_port() {
    let mut reconciler = Reconciler::new();
    set_endpoint(&mut reconciler, learned(peer(), 51000));
    set_endpoint(&mut reconciler, learned(other(), 51005));
    assert_eq!(set_endpoint(&mut reconciler, learned(peer(), 52000)), None);
    assert_eq!(set_endpoint(&mut reconciler, PeerEvent::Confirmed(peer())), update(peer(), 52000));
    assert_eq!(set_endpoint(&mut reconciler, learned(peer(), 53000)), update(peer(), 53000));
    assert_eq!(reconciler.learned_port(other()), Some(51005));
    assert_eq!(set_endpoint(&mut reconciler, PeerEvent::Confirmed(other())), update(other(), 51005));
}

#[test]
fn events_for_other_peers_do_not_count() {
    let mut reconciler = Reconciler::new();
    assert_eq!(set_endpoint(&mut reconciler, learned(peer(), 51000)), None);
    assert_eq!(set_endpoint(&mut reconciler, PeerEvent::Confirmed(other())), None);
    let same_host_other_port = SocketAddress::v4(203, 0, 113, 5, 4001);
    assert_eq!(set_endpoint(&mut reconciler, PeerEvent::Confirmed(same_host_other_port)), None);
    assert_eq!(set_endpoint(&mut reconciler, PeerEvent::Confirmed(peer())), update(peer(), 51000));
}

#[test]
fn event_subject_is_its_peer() {
    assert_eq!(subject_of(PeerEvent::Confirmed(peer())), peer());
    assert_eq!(subject_of(learned(other(), 3)), other());
}

#[test]
fn forwarded_peer_confirmed_later_gets_one_endpoint_update() {
    let mut forwarder = Forwarder::new(51820);
    let mut reconciler = Reconciler::new();
    let dispatch = forward_inbound(
        &mut forwarder,
        Arrival { payload: vec![0x01, 0x02], remote: peer(), opened: Some(51000) },
    );
    let forward = dispatch.forward.unwrap();
    assert_eq!(forward.datagram.payload, vec![0x01, 0x02]);
    assert_eq!(forward.datagram.to, SocketAddress::v4(127, 0, 0, 1, 51820));
    let made = dispatch.announce.unwrap();
    assert_eq!(made, Mapping { remote: peer(), port: 51000 });
    let mut updates = Vec::new();
    if let Some(update) = set_endpoint(&mut reconciler, PeerEvent::Learned(made)) {
        updates.push(update);
    }
    if let Some(update) = set_endpoint(&mut reconciler, PeerEvent::Confirmed(peer())) {
        updates.push(update);
    }
    assert_eq!(
        updates,
        vec![EndpointUpdate { peer: peer(), endpoint: SocketAddress::v4(127, 0, 0, 1, 51000) }]
    );
}
