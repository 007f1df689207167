use peer_manager::common::{Ipv4Addr, NetworkIdentity};
use peer_manager::error::Error;
use peer_manager::packet::ZCPacket;
use peer_manager::peer_conn::PeerConn;
use peer_manager::peer_map::{PeerMap, RouteEntry};
use uuid::Uuid;

fn identity() -> NetworkIdentity {
    NetworkIdentity::new("net".to_string(), "secret".to_string())
}

fn conn(my: u32, id: u128, peer: u32) -> PeerConn {
    PeerConn::new(my, Uuid::from_u128(id), peer, identity())
}

fn packet(tag: u8) -> ZCPacket {
    ZCPacket::new_with_payload(&[tag])
}

fn route(peer_id: u32, next_hop_peer_id: u32, ip: Option<[u8; 4]>) -> RouteEntry {
    RouteEntry {
        peer_id,
        next_hop_peer_id,
        ipv4_addr: ip.map(|o| Ipv4Addr::new(o[0], o[1], o[2], o[3])),
    }
}

#[test]
fn conn_queues_until_closed() {
    let mut c = conn(1, 10, 2);
    assert_eq!(c.get_conn_id(), Uuid::from_u128(10));
    assert_eq!(c.get_my_peer_id(), 1);
    assert_eq!(c.get_peer_id(), 2);
    assert_eq!(*c.get_network_identity(), identity());
    assert!(!c.is_closed());
    assert_eq!(c.send(packet(1)), Ok(()));
    assert_eq!(c.send(packet(2)), Ok(()));
    assert_eq!(c.pending(), 2);
    let out = c.take_outbound();
    assert_eq!(out, vec![packet(1), packet(2)]);
    assert_eq!(c.pending(), 0);
    assert_eq!(c.send(packet(3)), Ok(()));
    c.close();
    assert!(c.is_closed());
    assert_eq!(c.pending(), 0);
    assert_eq!(c.send(packet(4)), Err(Error::Unknown));
    assert_eq!(c.pending(), 0);
}

#[test]
fn conn_knows_its_id() {
    let c = conn(1, 10, 2);
    assert!(c.has_conn_id(&Uuid::from_u128(10)));
    assert!(!c.has_conn_id(&Uuid::from_u128(11)));
}

#[test]
fn empty_map_knows_nobody() {
    let m = PeerMap::new(1);
    assert_eq!(m.my_peer_id(), 1);
    assert!(!m.has_peer(2));
    assert_eq!(m.get_gateway_peer_id(2), None);
    assert_eq!(m.get_gateway_peer_id(1), None);
    assert_eq!(m.list_peers(), Vec::<u32>::new());
    assert_eq!(m.list_peers_with_conn(), Vec::<u32>::new());
    assert_eq!(m.list_routes(), Vec::<(u32, u32)>::new());
    assert_eq!(m.get_peer_id_by_ipv4(&Ipv4Addr::new(10, 0, 0, 2)), None);
}

#[test]
fn send_directly_needs_a_connection() {
    let mut m = PeerMap::new(1);
    assert_eq!(m.send_msg_directly(packet(1), 2), Err(Error::RouteError(2)));
    m.add_new_peer_conn(conn(1, 10, 2));
    assert_eq!(m.send_msg_directly(packet(1), 2), Ok(()));
    assert_eq!(m.send_msg_directly(packet(1), 3), Err(Error::RouteError(3)));
    assert_eq!(m.take_outbound(2, &Uuid::from_u128(10)), vec![packet(1)]);
}

#[test]
fn connections_to_one_peer_take_frames_in_turn() {
    let mut m = PeerMap::new(1);
    m.add_new_peer_conn(conn(1, 10, 2));
    m.add_new_peer_conn(conn(1, 11, 2));
    m.add_new_peer_conn(conn(1, 12, 2));
    for tag in 0..7u8 {
        assert_eq!(m.send_msg_directly(packet(tag), 2), Ok(()));
    }
    assert_eq!(m.take_outbound(2, &Uuid::from_u128(10)), vec![packet(0), packet(3), packet(6)]);
    assert_eq!(m.take_outbound(2, &Uuid::from_u128(11)), vec![packet(1), packet(4)]);
    assert_eq!(m.take_outbound(2, &Uuid::from_u128(12)), vec![packet(2), packet(5)]);
    assert_eq!(m.take_outbound(2, &Uuid::from_u128(10)), Vec::<ZCPacket>::new());
    assert_eq!(m.list_peers(), vec![2]);
}

#[test]
fn closed_connection_is_not_added() {
    let mut m = PeerMap::new(1);
    let mut c = conn(1, 10, 2);
    c.close();
    m.add_new_peer_conn(c);
    assert!(!m.has_peer(2));
    assert_eq!(m.list_peers(), Vec::<u32>::new());
}

#[test]
fn send_msg_to_self_goes_to_loopback() {
    let mut m = PeerMap::new(1);
    m.add_new_peer_conn(conn(1, 10, 2));
    assert_eq!(m.send_msg(packet(7), 1), Ok(()));
    assert_eq!(m.take_outbound(2, &Uuid::from_u128(10)), Vec::<ZCPacket>::new());
    assert_eq!(m.take_loopback(), vec![packet(7)]);
    assert_eq!(m.take_loopback(), Vec::<ZCPacket>::new());
}

#[test]
fn send_msg_goes_to_the_next_hop() {
    let mut m = PeerMap::new(1);
    m.add_new_peer_conn(conn(1, 10, 2));
    m.set_routes(vec![route(2, 2, None), route(3, 2, None), route(4, 9, None)]);
    assert_eq!(m.get_gateway_peer_id(2), Some(2));
    assert_eq!(m.get_gateway_peer_id(3), Some(2));
    assert_eq!(m.get_gateway_peer_id(4), None);
    assert_eq!(m.get_gateway_peer_id(5), None);
    assert_eq!(m.send_msg(packet(3), 3), Ok(()));
    assert_eq!(m.send_msg(packet(4), 4), Err(Error::RouteError(4)));
    assert_eq!(m.send_msg(packet(5), 5), Err(Error::RouteError(5)));
    assert_eq!(m.forward_msg(packet(6), 1), Err(Error::RouteError(1)));
    assert_eq!(m.take_outbound(2, &Uuid::from_u128(10)), vec![packet(3)]);
}

#[test]
fn first_usable_route_line_decides() {
    let mut m = PeerMap::new(1);
    m.add_new_peer_conn(conn(1, 10, 2));
    m.add_new_peer_conn(conn(1, 11, 5));
    m.set_routes(vec![route(3, 9, None), route(3, 5, None), route(3, 2, None)]);
    assert_eq!(m.get_gateway_peer_id(3), Some(5));
    assert_eq!(m.list_routes(), vec![(2, 2), (5, 5), (3, 5)]);
}

#[test]
fn route_to_self_is_ignored() {
    let mut m = PeerMap::new(1);
    m.add_new_peer_conn(conn(1, 10, 2));
    m.set_routes(vec![route(1, 2, None), route(2, 2, None)]);
    assert_eq!(m.get_gateway_peer_id(1), None);
    assert_eq!(m.list_routes(), vec![(2, 2)]);
}

#[test]
fn address_lookup_needs_a_path() {
    let mut m = PeerMap::new(1);
    m.set_routes(vec![
        route(2, 2, Some([10, 0, 0, 2])),
        route(3, 2, Some([10, 0, 0, 3])),
        route(4, 8, Some([10, 0, 0, 4])),
        route(5, 2, None),
    ]);
    assert_eq!(m.get_peer_id_by_ipv4(&Ipv4Addr::new(10, 0, 0, 2)), None);
    m.add_new_peer_conn(conn(1, 10, 2));
    assert_eq!(m.get_peer_id_by_ipv4(&Ipv4Addr::new(10, 0, 0, 2)), Some(2));
    assert_eq!(m.get_peer_id_by_ipv4(&Ipv4Addr::new(10, 0, 0, 3)), Some(3));
    assert_eq!(m.get_peer_id_by_ipv4(&Ipv4Addr::new(10, 0, 0, 4)), None);
    assert_eq!(m.get_peer_id_by_ipv4(&Ipv4Addr::new(10, 0, 0, 5)), None);
    assert_eq!(m.get_routes().len(), 4);
}

#[test]
fn close_peer_conn_leaves_an_empty_entry_until_reaped() {
    let mut m = PeerMap::new(1);
    m.add_new_peer_conn(conn(1, 10, 2));
    m.add_new_peer_conn(conn(1, 11, 3));
    m.set_routes(vec![route(2, 2, None), route(3, 3, None), route(4, 2, None), route(5, 3, None)]);
    assert_eq!(m.send_msg_directly(packet(1), 2), Ok(()));
    assert!(!m.close_peer_conn(2, &Uuid::from_u128(99)));
    assert!(!m.close_peer_conn(9, &Uuid::from_u128(10)));
    assert!(m.close_peer_conn(2, &Uuid::from_u128(10)));
    assert!(!m.close_peer_conn(2, &Uuid::from_u128(10)));
    assert!(m.has_peer(2));
    assert_eq!(m.list_peers(), vec![2, 3]);
    assert_eq!(m.list_peers_with_conn(), vec![3]);
    assert_eq!(m.get_gateway_peer_id(4), Some(2));
    assert_eq!(m.send_msg(packet(2), 4), Err(Error::RouteError(2)));
    assert_eq!(m.take_outbound(2, &Uuid::from_u128(10)), Vec::<ZCPacket>::new());
    m.clean_peer_without_conn();
    assert!(!m.has_peer(2));
    assert_eq!(m.list_peers(), vec![3]);
    assert_eq!(m.get_gateway_peer_id(2), None);
    assert_eq!(m.get_gateway_peer_id(4), None);
    assert_eq!(m.get_gateway_peer_id(5), Some(3));
    assert_eq!(m.get_routes(), &vec![route(3, 3, None), route(5, 3, None)]);
    assert_eq!(m.list_routes(), vec![(3, 3), (5, 3)]);
}

#[test]
fn reaper_keeps_peers_with_connections() {
    let mut m = PeerMap::new(1);
    m.add_new_peer_conn(conn(1, 10, 2));
    m.add_new_peer_conn(conn(1, 11, 2));
    assert!(m.close_peer_conn(2, &Uuid::from_u128(10)));
    m.clean_peer_without_conn();
    assert_eq!(m.list_peers(), vec![2]);
    assert_eq!(m.send_msg_directly(packet(1), 2), Ok(()));
    assert_eq!(m.take_outbound(2, &Uuid::from_u128(11)), vec![packet(1)]);
}

#[test]
fn list_routes_lists_each_destination_once() {
    let mut m = PeerMap::new(1);
    m.add_new_peer_conn(conn(1, 10, 2));
    m.add_new_peer_conn(conn(1, 11, 3));
    m.set_routes(vec![
        route(2, 2, None),
        route(4, 2, None),
        route(4, 3, None),
        route(1, 2, None),
        route(5, 7, None),
        route(6, 3, None),
    ]);
    assert_eq!(m.list_routes(), vec![(2, 2), (3, 3), (4, 2), (6, 3)]);
}
