use nat_relay::addr::SocketAddress;
use nat_relay::addr::LOOPBACK_V4;
use nat_relay::peers::find;
use nat_relay::peers::Mapping;
use nat_relay::traffic::forward_inbound;
use nat_relay::traffic::loopback_bind_address;
use nat_relay::traffic::relay_reply;
use nat_relay::traffic::Arrival;
use nat_relay::traffic::Datagram;
use nat_relay::traffic::Dispatch;
use nat_relay::traffic::Forward;
use nat_relay::traffic::Forwarder;

const TUNNEL_PORT: u16 = 51820;

fn peer() -> SocketAddress {
    SocketAddress::v4(203, 0, 113, 5, 4000)
}

fn other() -> SocketAddress {
    SocketAddress::v4(203, 0, 113, 6, 4000)
}

fn arrival(payload: &[u8], remote: SocketAddress, opened: Option<u16>) -> Arrival {
    Arrival { payload: payload.to_vec(), remote, opened }
}

fn to_listener(payload: &[u8]) -> Datagram {
    Datagram { payload: payload.to_vec(), to: SocketAddress::loopback(TUNNEL_PORT) }
}

#[test]
fn addresses_are_plain_numbers() {
    assert_eq!(
        SocketAddress::v4(203, 0, 113, 5, 4000),
        SocketAddress::V4 { host: 0xCB00_7105, port: 4000 }
    );
    assert_eq!(SocketAddress::v4(255, 255, 255, 255, 65535).port(), 65535);
    assert_eq!(SocketAddress::v4(0, 0, 0, 0, 0), SocketAddress::V4 { host: 0, port: 0 });
    assert_eq!(SocketAddress::loopback(7), SocketAddress::v4(127, 0, 0, 1, 7));
    assert_eq!(SocketAddress::loopback(7), SocketAddress::V4 { host: LOOPBACK_V4, port: 7 });
    let v6 = SocketAddress::V6 { host: 1, port: 9, flowinfo: 0, scope_id: 2 };
    assert_eq!(v6.port(), 9);
    assert_ne!(v6, SocketAddress::V6 { host: 1, port: 9, flowinfo: 0, scope_id: 3 });
}

#[test]
fn loopback_sockets_bind_to_an_ephemeral_port() {
    assert_eq!(loopback_bind_address(), SocketAddress::v4(127, 0, 0, 1, 0));
}

#[test]
fn first_packet_makes_announces_and_uses_a_connection() {
    let mut forwarder = Forwarder::new(TUNNEL_PORT);
    assert_eq!(forwarder.tunnel_port(), TUNNEL_PORT);
    assert_eq!(forwarder.len(), 0);
    assert_eq!(forwarder.lookup(peer()), None);
    let dispatch = forward_inbound(&mut forwarder, arrival(&[0x01, 0x02], peer(), Some(51000)));
    assert_eq!(
        dispatch,
        Dispatch {
            stun_copy: to_listener(&[0x01, 0x02]),
            announce: Some(Mapping { remote: peer(), port: 51000 }),
            forward: Some(Forward { slot: 0, datagram: to_listener(&[0x01, 0x02]) }),
        }
    );
    assert_eq!(forwarder.len(), 1);
    assert_eq!(forwarder.lookup(peer()), Some((0, 51000)));
    assert_eq!(forwarder.owner_of(0), Some(peer()));
}

#[test]
fn known_peer_is_forwarded_without_announcement() {
    let mut forwarder = Forwarder::new(TUNNEL_PORT);
    forward_inbound(&mut forwarder, arrival(&[1], peer(), Some(51000)));
    let again = forward_inbound(&mut forwarder, arrival(&[2, 3], peer(), None));
    assert_eq!(
        again,
        Dispatch {
            stun_copy: to_listener(&[2, 3]),
            announce: None,
            forward: Some(Forward { slot: 0, datagram: to_listener(&[2, 3]) }),
        }
    );
    let offered = forward_inbound(&mut forwarder, arrival(&[4], peer(), Some(52000)));
    assert_eq!(offered.announce, None);
    assert_eq!(offered.forward, Some(Forward { slot: 0, datagram: to_listener(&[4]) }));
    assert_eq!(forwarder.len(), 1);
    assert_eq!(forwarder.lookup(peer()), Some((0, 51000)));
}

#[test]
fn packet_without_socket_is_dropped_and_tried_again() {
    let mut forwarder = Forwarder::new(TUNNEL_PORT);
    let dropped = forward_inbound(&mut forwarder, arrival(&[9], peer(), None));
    assert_eq!(
        dropped,
        Dispatch { stun_copy: to_listener(&[9]), announce: None, forward: None }
    );
    assert_eq!(forwarder.len(), 0);
    assert_eq!(forwarder.lookup(peer()), None);
    let retried = forward_inbound(&mut forwarder, arrival(&[9], peer(), Some(51001)));
    assert_eq!(retried.announce, Some(Mapping { remote: peer(), port: 51001 }));
    assert_eq!(retried.forward, Some(Forward { slot: 0, datagram: to_listener(&[9]) }));
}

#[test]
fn each_peer_is_announced_once() {
    let mut forwarder = Forwarder::new(TUNNEL_PORT);
    let senders = [peer(), other(), peer(), peer(), other(), peer()];
    let mut announced = Vec::new();
    let mut slots = Vec::new();
    let mut next_port: u16 = 51000;
    for sender in senders {
        let opened = if forwarder.lookup(sender).is_none() {
            next_port += 1;
            Some(next_port)
        } else {
            None
        };
        let dispatch = forward_inbound(&mut forwarder, arrival(&[7], sender, opened));
        if let Some(made) = dispatch.announce {
            announced.push(made);
        }
        slots.push(dispatch.forward.unwrap().slot);
    }
    assert_eq!(
        announced,
        vec![
            Mapping { remote: peer(), port: 51001 },
            Mapping { remote: other(), port: 51002 }
        ]
    );
    assert_eq!(slots, vec![0, 1, 0, 0, 1, 0]);
    assert_eq!(forwarder.len(), 2);
    assert_eq!(forwarder.lookup(peer()), Some((0, 51001)));
    assert_eq!(forwarder.lookup(other()), Some((1, 51002)));
}

#[test]
fn empty_payload_is_forwarded_as_it_is() {
    let mut forwarder = Forwarder::new(0);
    let dispatch = forward_inbound(&mut forwarder, arrival(&[], peer(), Some(1)));
    assert_eq!(dispatch.stun_copy, Datagram { payload: vec![], to: SocketAddress::loopback(0) });
    assert_eq!(dispatch.forward.unwrap().datagram.payload, Vec::<u8>::new());
}

#[test]
fn reply_goes_back_to_the_sender_unchanged() {
    let mut forwarder = Forwarder::new(TUNNEL_PORT);
    forward_inbound(&mut forwarder, arrival(&[1], other(), Some(51000)));
    let inbound = forward_inbound(&mut forwarder, arrival(&[0xde, 0xad], peer(), Some(51001)));
    let forward = inbound.forward.unwrap();
    forward_inbound(&mut forwarder, arrival(&[2], other(), None));
    let echoed = forwarder.reply(forward.slot, forward.datagram.payload);
    assert_eq!(echoed, Some(Datagram { payload: vec![0xde, 0xad], to: peer() }));
    assert_eq!(forwarder.reply(0, vec![5]), Some(Datagram { payload: vec![5], to: other() }));
}

#[test]
fn reply_on_a_slot_without_connection_is_nothing() {
    let mut forwarder = Forwarder::new(TUNNEL_PORT);
    assert_eq!(forwarder.reply(0, vec![1]), None);
    assert_eq!(forwarder.owner_of(0), None);
    forward_inbound(&mut forwarder, arrival(&[1], peer(), Some(51000)));
    assert_eq!(forwarder.reply(1, vec![1]), None);
    assert_eq!(forwarder.owner_of(1), None);
    assert_eq!(forwarder.owner_of(usize::MAX), None);
}

#[test]
fn relay_tags_a_reply_with_its_owner() {
    assert_eq!(
        relay_reply(peer(), vec![1, 2, 3]),
        Datagram { payload: vec![1, 2, 3], to: peer() }
    );
}

#[test]
fn find_gives_the_position_of_a_peer() {
    let table = vec![
        Mapping { remote: other(), port: 1 },
        Mapping { remote: peer(), port: 2 },
    ];
    assert_eq!(find(&table, peer()), Some(1));
    assert_eq!(find(&table, other()), Some(0));
    assert_eq!(find(&table, SocketAddress::loopback(1)), None);
    assert_eq!(find(&Vec::new(), peer()), None);
}
