use peer_manager::common::NetworkIdentity;
use peer_manager::error::Error;
use peer_manager::foreign_network::{ForeignNetworkClient, ForeignNetworkManager};
use peer_manager::packet::ZCPacket;
use peer_manager::peer_conn::PeerConn;
use peer_manager::peer_map::RouteEntry;
use uuid::Uuid;

fn identity(name: &str, secret: &str) -> NetworkIdentity {
    NetworkIdentity::new(name.to_string(), secret.to_string())
}

fn conn(id: u128, peer: u32, name: &str, secret: &str) -> PeerConn {
    PeerConn::new(1, Uuid::from_u128(id), peer, identity(name, secret))
}

fn route(peer_id: u32, next_hop_peer_id: u32) -> RouteEntry {
    RouteEntry { peer_id, next_hop_peer_id, ipv4_addr: None }
}

#[test]
fn foreign_client_routes_through_public_nodes() {
    let mut c = ForeignNetworkClient::new(1);
    assert!(!c.has_next_hop(50));
    assert!(!c.is_peer_public_node(&50));
    assert_eq!(c.list_foreign_peers(), Vec::<u32>::new());
    c.add_new_peer_conn(conn(10, 50, "other", "x"));
    c.set_routes(vec![route(60, 50), route(61, 50), route(62, 70)]);
    assert!(c.has_next_hop(50));
    assert!(c.has_next_hop(60));
    assert!(!c.has_next_hop(62));
    assert!(!c.has_next_hop(1));
    assert!(c.is_peer_public_node(&50));
    assert!(!c.is_peer_public_node(&60));
    assert_eq!(c.list_foreign_peers(), vec![50, 60, 61]);
    assert_eq!(c.send_msg(ZCPacket::new_with_payload(&[1]), 60), Ok(()));
    assert_eq!(c.send_msg(ZCPacket::new_with_payload(&[2]), 62), Err(Error::RouteError(62)));
    assert_eq!(
        c.take_outbound(50, &Uuid::from_u128(10)),
        vec![ZCPacket::new_with_payload(&[1])]
    );
    assert_eq!(c.get_peer_map().list_peers_with_conn(), vec![50]);
}

#[test]
fn foreign_client_forgets_closed_public_node() {
    let mut c = ForeignNetworkClient::new(1);
    c.add_new_peer_conn(conn(10, 50, "other", "x"));
    c.set_routes(vec![route(60, 50)]);
    assert!(c.close_peer_conn(50, &Uuid::from_u128(10)));
    assert!(c.has_next_hop(60));
    assert_eq!(c.send_msg(ZCPacket::new_with_payload(&[1]), 60), Err(Error::RouteError(50)));
    c.clean_peer_without_conn();
    assert!(!c.has_next_hop(60));
    assert!(!c.is_peer_public_node(&50));
}

#[test]
fn foreign_manager_keeps_one_peer_map_per_network() {
    let mut m = ForeignNetworkManager::new(1);
    assert_eq!(m.network_count(), 0);
    assert!(m.get_network(&identity("north", "alpha")).is_none());
    assert_eq!(m.add_peer_conn(conn(10, 50, "north", "alpha")), Ok(()));
    assert_eq!(m.add_peer_conn(conn(11, 51, "north", "alpha")), Ok(()));
    assert_eq!(m.add_peer_conn(conn(12, 52, "south", "beta")), Ok(()));
    assert_eq!(m.network_count(), 2);
    let north = m.get_network(&identity("north", "whatever")).unwrap();
    assert_eq!(*north.get_network_identity(), identity("north", "alpha"));
    assert_eq!(north.get_peer_map().list_peers_with_conn(), vec![50, 51]);
    assert_eq!(north.get_peer_map().my_peer_id(), 1);
    let south = m.get_network(&identity("south", "")).unwrap();
    assert_eq!(south.get_peer_map().list_peers_with_conn(), vec![52]);
}

#[test]
fn foreign_manager_refuses_another_secret() {
    let mut m = ForeignNetworkManager::new(1);
    assert_eq!(m.add_peer_conn(conn(10, 50, "north", "alpha")), Ok(()));
    assert_eq!(m.add_peer_conn(conn(11, 51, "north", "other")), Err(Error::SecretKeyError));
    assert_eq!(m.network_count(), 1);
    let north = m.get_network(&identity("north", "alpha")).unwrap();
    assert_eq!(north.get_peer_map().list_peers_with_conn(), vec![50]);
}

#[test]
fn foreign_manager_closes_and_drains_connections() {
    let mut m = ForeignNetworkManager::new(1);
    assert_eq!(m.add_peer_conn(conn(10, 50, "north", "alpha")), Ok(()));
    assert_eq!(m.add_peer_conn(conn(11, 50, "north", "alpha")), Ok(()));
    let north = identity("north", "alpha");
    assert_eq!(m.take_outbound(&north, 50, &Uuid::from_u128(10)), Vec::<ZCPacket>::new());
    assert_eq!(
        m.take_outbound(&identity("south", "beta"), 50, &Uuid::from_u128(10)),
        Vec::<ZCPacket>::new()
    );
    assert!(!m.close_peer_conn(&identity("south", "beta"), 50, &Uuid::from_u128(10)));
    assert!(!m.close_peer_conn(&north, 51, &Uuid::from_u128(10)));
    assert!(m.close_peer_conn(&north, 50, &Uuid::from_u128(10)));
    assert!(!m.close_peer_conn(&north, 50, &Uuid::from_u128(10)));
    let entry = m.get_network(&north).unwrap();
    assert_eq!(entry.get_peer_map().list_peers_with_conn(), vec![50]);
    assert!(m.close_peer_conn(&north, 50, &Uuid::from_u128(11)));
    let entry = m.get_network(&north).unwrap();
    assert_eq!(entry.get_peer_map().list_peers_with_conn(), Vec::<u32>::new());
}
