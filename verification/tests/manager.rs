use peer_manager::common::{Flags, GlobalCtx, Ipv4Addr, NetworkIdentity};
use peer_manager::encrypt::{seal_report, Encryptor, NullCipher};
use peer_manager::error::Error;
use peer_manager::filter::{NicPacketFilter, PeerPacketFilter, PeerPacketOutcome};
use peer_manager::manager::{
    usable_peer_id, PeerManager, PeerRecvOutcome, RouteAlgoType, CLEAN_PEER_INTERVAL_SECS,
    PACKET_RECV_CHANNEL_SIZE,
};
use peer_manager::packet::{PacketType, ZCPacket};
use peer_manager::peer_conn::PeerConn;
use peer_manager::peer_map::RouteEntry;
use std::sync::{Arc, Mutex};
use tokio_util::bytes::Bytes;
use uuid::Uuid;

fn identity(name: &str, secret: &str) -> NetworkIdentity {
    NetworkIdentity::new(name.to_string(), secret.to_string())
}

fn ctx(name: &str, secret: &str, enable_encryption: bool) -> GlobalCtx {
    GlobalCtx::new(
        "node".to_string(),
        Uuid::from_u128(0xABCD),
        identity(name, secret),
        Flags { enable_encryption },
    )
}

fn manager(my_peer_id: u32) -> PeerManager {
    PeerManager::with_peer_id(
        my_peer_id,
        RouteAlgoType::Rip,
        ctx("net", "secret", false),
        Box::new(NullCipher),
    )
}

fn conn(my: u32, id: u128, peer: u32) -> PeerConn {
    PeerConn::new(my, Uuid::from_u128(id), peer, identity("net", "secret"))
}

fn route(peer_id: u32, next_hop_peer_id: u32, ip: Option<[u8; 4]>) -> RouteEntry {
    RouteEntry {
        peer_id,
        next_hop_peer_id,
        ipv4_addr: ip.map(|o| Ipv4Addr::new(o[0], o[1], o[2], o[3])),
    }
}

fn frame(from: u32, to: u32, kind: u8, payload: &[u8]) -> ZCPacket {
    let mut p = ZCPacket::new_with_payload(payload);
    p.fill_peer_manager_hdr(from, to, kind);
    p
}

/// Seals by adding one to every payload byte and setting a flag; refuses
/// payloads that start with 0xFF.
struct Shift;

impl Encryptor for Shift {
    fn encrypt(&self, zc_packet: &mut ZCPacket) -> Result<(), Error> {
        if zc_packet.payload.first() == Some(&0xFF) {
            return Err(Error::Unknown);
        }
        for b in zc_packet.payload.iter_mut() {
            *b = b.wrapping_add(1);
        }
        zc_packet.header.flags |= 1;
        Ok(())
    }

    fn decrypt(&self, zc_packet: &mut ZCPacket) -> Result<(), Error> {
        if zc_packet.header.flags & 1 == 0 {
            return Err(Error::DecryptFailed);
        }
        for b in zc_packet.payload.iter_mut() {
            *b = b.wrapping_sub(1);
        }
        zc_packet.header.flags &= !1;
        Ok(())
    }
}

fn encrypting_manager(my_peer_id: u32) -> PeerManager {
    PeerManager::with_peer_id(
        my_peer_id,
        RouteAlgoType::Rip,
        ctx("net", "secret", true),
        Box::new(Shift),
    )
}

struct Recorder {
    name: &'static str,
    keeps: u8,
    log: Arc<Mutex<Vec<&'static str>>>,
}

impl PeerPacketFilter for Recorder {
    fn try_process_packet_from_peer(&self, packet: ZCPacket) -> Option<ZCPacket> {
        self.log.lock().unwrap().push(self.name);
        if packet.header.packet_type == self.keeps {
            None
        } else {
            Some(packet)
        }
    }
}

struct Tag(u8);

impl NicPacketFilter for Tag {
    fn try_process_packet_from_nic(&self, data: &mut ZCPacket) {
        data.payload.push(self.0);
    }
}

#[test]
fn new_manager_is_empty_and_not_running() {
    let m = PeerManager::new(RouteAlgoType::Ospf, ctx("net", "secret", false), Box::new(NullCipher));
    let id = m.my_peer_id();
    assert_ne!(id, 0);
    assert_eq!(m.get_peer_map().my_peer_id(), id);
    assert_eq!(m.get_rpc_transport().my_peer_id, id);
    assert!(!m.get_rpc_transport().foreign_peers);
    assert!(!m.is_running());
    assert_eq!(m.get_route(), RouteAlgoType::Ospf);
    assert_eq!(m.list_routes(), Vec::<RouteEntry>::new());
    assert_eq!(m.get_peer_map().list_peers(), Vec::<u32>::new());
    assert_eq!(m.get_foreign_network_manager().network_count(), 0);
    assert_eq!(m.get_foreign_network_client().list_foreign_peers(), Vec::<u32>::new());
    assert_eq!(m.my_node_id(), Uuid::from_u128(0xABCD));
    assert_eq!(*m.get_global_ctx().get_network_identity(), identity("net", "secret"));
    assert!(!m.get_global_ctx().get_flags().enable_encryption);
}

#[test]
fn with_peer_id_uses_the_given_id() {
    let m = manager(42);
    assert_eq!(m.my_peer_id(), 42);
    assert_eq!(m.get_route(), RouteAlgoType::Rip);
}

#[test]
fn same_identity_joins_the_peer_map() {
    let mut a = manager(1);
    assert_eq!(a.add_client_tunnel(conn(1, 500, 2)), Ok((2, Uuid::from_u128(500))));
    assert_eq!(a.add_tunnel_as_server(conn(1, 501, 3)), Ok(()));
    assert_eq!(a.add_new_peer_conn(conn(1, 502, 3)), Ok(()));
    assert_eq!(a.get_peer_map().list_peers_with_conn(), vec![2, 3]);
}

#[test]
fn wrong_secret_is_refused_on_both_sides() {
    let mut a = manager(1);
    let theirs = identity("net", "another");
    let c1 = PeerConn::new(1, Uuid::from_u128(500), 2, theirs.clone());
    assert_eq!(a.add_client_tunnel(c1), Err(Error::SecretKeyError));
    let c2 = PeerConn::new(1, Uuid::from_u128(501), 2, theirs.clone());
    assert_eq!(a.add_tunnel_as_server(c2), Err(Error::SecretKeyError));
    let c3 = PeerConn::new(1, Uuid::from_u128(502), 2, theirs);
    assert_eq!(a.add_new_peer_conn(c3), Err(Error::SecretKeyError));
    assert_eq!(a.get_peer_map().list_peers(), Vec::<u32>::new());
    assert_eq!(a.get_foreign_network_client().list_foreign_peers(), Vec::<u32>::new());
    assert_eq!(a.get_foreign_network_manager().network_count(), 0);
}

#[test]
fn other_network_is_diverted_to_foreign_components() {
    let mut a = manager(1);
    let c1 = PeerConn::new(1, Uuid::from_u128(500), 2, identity("elsewhere", "x"));
    assert_eq!(a.add_client_tunnel(c1), Ok((2, Uuid::from_u128(500))));
    assert_eq!(a.get_peer_map().list_peers_with_conn(), Vec::<u32>::new());
    assert!(a.get_foreign_network_client().is_peer_public_node(&2));
    let c2 = PeerConn::new(1, Uuid::from_u128(501), 3, identity("elsewhere", "x"));
    assert_eq!(a.add_tunnel_as_server(c2), Ok(()));
    assert_eq!(a.get_peer_map().list_peers_with_conn(), Vec::<u32>::new());
    assert_eq!(a.get_foreign_network_manager().network_count(), 1);
    let c3 = PeerConn::new(1, Uuid::from_u128(502), 4, identity("elsewhere", "y"));
    assert_eq!(a.add_tunnel_as_server(c3), Err(Error::SecretKeyError));
    let c4 = PeerConn::new(1, Uuid::from_u128(503), 4, identity("elsewhere", "y"));
    assert_eq!(a.add_new_peer_conn(c4), Err(Error::SecretKeyError));
}

#[test]
fn send_to_unknown_peer_is_a_route_error() {
    let mut a = manager(1);
    assert_eq!(a.send_msg(frame(1, 77, 1, &[1]), 77), Err(Error::RouteError(77)));
    a.add_client_tunnel(conn(1, 500, 2)).unwrap();
    assert_eq!(a.send_msg(frame(1, 77, 1, &[1]), 77), Err(Error::RouteError(77)));
    assert_eq!(a.send_msg(frame(1, 2, 1, &[1]), 2), Ok(()));
}

#[test]
fn frame_for_last_address_of_the_subnet_goes_to_the_single_peer() {
    let mut a = manager(1);
    a.add_client_tunnel(conn(1, 500, 2)).unwrap();
    a.set_routes(vec![route(2, 2, Some([10, 0, 0, 2]))]);
    let r = a.send_msg_ipv4(ZCPacket::new_with_payload(&[7, 7]), Ipv4Addr::new(10, 0, 0, 255));
    assert_eq!(r, Ok(()));
    assert_eq!(a.take_outbound(2, &Uuid::from_u128(500)), vec![frame(1, 2, 1, &[7, 7])]);
    assert_eq!(a.take_loopback(), Vec::<ZCPacket>::new());
}

#[test]
fn frame_for_one_address_goes_to_its_owner() {
    let mut a = manager(1);
    a.add_client_tunnel(conn(1, 500, 2)).unwrap();
    a.add_client_tunnel(conn(1, 501, 3)).unwrap();
    a.set_routes(vec![route(2, 2, Some([10, 0, 0, 2])), route(3, 3, Some([10, 0, 0, 3]))]);
    assert_eq!(a.dst_peers(Ipv4Addr::new(10, 0, 0, 3)), vec![3]);
    assert_eq!(a.dst_peers(Ipv4Addr::new(10, 0, 0, 4)), Vec::<u32>::new());
    let r = a.send_msg_ipv4(ZCPacket::new_with_payload(&[9]), Ipv4Addr::new(10, 0, 0, 3));
    assert_eq!(r, Ok(()));
    assert_eq!(a.take_outbound(2, &Uuid::from_u128(500)), Vec::<ZCPacket>::new());
    assert_eq!(a.take_outbound(3, &Uuid::from_u128(501)), vec![frame(1, 3, 1, &[9])]);
}

#[test]
fn frame_for_unknown_address_changes_nothing() {
    let mut a = manager(1);
    a.add_client_tunnel(conn(1, 500, 2)).unwrap();
    a.set_routes(vec![route(2, 2, Some([10, 0, 0, 2]))]);
    let r = a.send_msg_ipv4(ZCPacket::new_with_payload(&[9]), Ipv4Addr::new(10, 0, 0, 9));
    assert_eq!(r, Ok(()));
    assert_eq!(a.take_outbound(2, &Uuid::from_u128(500)), Vec::<ZCPacket>::new());
}

#[test]
fn broadcast_reaches_every_known_peer_once_and_never_this_node() {
    let mut a = manager(1);
    a.add_client_tunnel(conn(1, 500, 2)).unwrap();
    a.add_client_tunnel(conn(1, 501, 3)).unwrap();
    a.set_routes(vec![
        route(2, 2, Some([10, 0, 0, 2])),
        route(3, 3, Some([10, 0, 0, 3])),
        route(4, 2, Some([10, 0, 0, 4])),
        route(4, 3, None),
        route(1, 2, Some([10, 0, 0, 1])),
        route(5, 9, Some([10, 0, 0, 5])),
    ]);
    for ip in [
        Ipv4Addr::new(255, 255, 255, 255),
        Ipv4Addr::new(10, 0, 0, 255),
        Ipv4Addr::new(224, 0, 0, 1),
        Ipv4Addr::new(239, 1, 2, 3),
    ] {
        assert_eq!(a.dst_peers(ip), vec![2, 3, 4]);
        assert_eq!(a.send_msg_ipv4(ZCPacket::new_with_payload(&[1]), ip), Ok(()));
        assert_eq!(
            a.take_outbound(2, &Uuid::from_u128(500)),
            vec![frame(1, 2, 1, &[1]), frame(1, 4, 1, &[1])]
        );
        assert_eq!(a.take_outbound(3, &Uuid::from_u128(501)), vec![frame(1, 3, 1, &[1])]);
        assert_eq!(a.take_loopback(), Vec::<ZCPacket>::new());
    }
    assert_eq!(a.dst_peers(Ipv4Addr::new(223, 0, 0, 1)), Vec::<u32>::new());
    assert_eq!(a.dst_peers(Ipv4Addr::new(240, 0, 0, 1)), Vec::<u32>::new());
}

#[test]
fn one_failing_destination_is_reported_alone() {
    let mut a = manager(1);
    a.add_client_tunnel(conn(1, 500, 2)).unwrap();
    a.add_client_tunnel(conn(1, 501, 3)).unwrap();
    a.add_client_tunnel(conn(1, 502, 4)).unwrap();
    a.set_routes(vec![route(2, 2, None), route(3, 3, None), route(4, 4, None)]);
    assert!(a.close_peer_conn(3, &Uuid::from_u128(501)));
    let r = a.send_msg_ipv4(ZCPacket::new_with_payload(&[1]), Ipv4Addr::new(10, 0, 0, 255));
    assert_eq!(r, Err(Error::Aggregate(vec![Error::RouteError(3)])));
    assert_eq!(a.take_outbound(2, &Uuid::from_u128(500)), vec![frame(1, 2, 1, &[1])]);
    assert_eq!(a.take_outbound(4, &Uuid::from_u128(502)), vec![frame(1, 4, 1, &[1])]);
}

#[test]
fn every_failing_destination_is_reported() {
    let mut a = manager(1);
    a.add_client_tunnel(conn(1, 500, 2)).unwrap();
    a.add_client_tunnel(conn(1, 501, 3)).unwrap();
    a.set_routes(vec![route(5, 3, None), route(6, 2, None)]);
    assert!(a.close_peer_conn(3, &Uuid::from_u128(501)));
    let r = a.fan_out(frame(1, 0, 1, &[1]), &vec![2, 3, 5, 6, 8]);
    assert_eq!(
        r,
        Err(Error::Aggregate(vec![
            Error::RouteError(3),
            Error::RouteError(3),
            Error::RouteError(8),
        ]))
    );
    assert_eq!(
        a.take_outbound(2, &Uuid::from_u128(500)),
        vec![frame(1, 2, 1, &[1]), frame(1, 6, 1, &[1])]
    );
    assert_eq!(a.fan_out(frame(1, 0, 1, &[1]), &vec![]), Ok(()));
}

#[test]
fn destination_behind_a_foreign_network_is_reached_through_it() {
    let mut a = manager(1);
    let c = PeerConn::new(1, Uuid::from_u128(600), 50, identity("elsewhere", "x"));
    a.add_client_tunnel(c).unwrap();
    let r = a.fan_out(frame(1, 0, 1, &[1]), &vec![50]);
    assert_eq!(r, Ok(()));
    assert_eq!(a.take_foreign_outbound(50, &Uuid::from_u128(600)), vec![frame(1, 50, 1, &[1])]);
}

#[test]
fn interface_filters_run_newest_first_before_sealing() {
    let mut a = encrypting_manager(1);
    a.add_client_tunnel(conn(1, 500, 2)).unwrap();
    a.set_routes(vec![route(2, 2, Some([10, 0, 0, 2]))]);
    a.add_nic_packet_process_pipeline(Box::new(Tag(10)));
    a.add_nic_packet_process_pipeline(Box::new(Tag(20)));
    let mut seen = ZCPacket::new_with_payload(&[1]);
    a.run_nic_packet_process_pipeline(&mut seen);
    assert_eq!(seen.payload(), &[1, 20, 10]);
    let r = a.send_msg_ipv4(ZCPacket::new_with_payload(&[1]), Ipv4Addr::new(10, 0, 0, 2));
    assert_eq!(r, Ok(()));
    let out = a.take_outbound(2, &Uuid::from_u128(500));
    assert_eq!(out.len(), 1);
    assert_eq!(out[0].payload(), &[2, 21, 11]);
    assert_eq!(out[0].header.from_peer_id, 1);
    assert_eq!(out[0].header.to_peer_id, 2);
    assert_eq!(out[0].header.packet_type, 1);
    assert_eq!(out[0].header.flags, 1);
}

#[test]
fn refused_frame_is_not_sent() {
    let mut a = encrypting_manager(1);
    a.add_client_tunnel(conn(1, 500, 2)).unwrap();
    a.set_routes(vec![route(2, 2, Some([10, 0, 0, 2]))]);
    let r = a.send_msg_ipv4(ZCPacket::new_with_payload(&[0xFF]), Ipv4Addr::new(10, 0, 0, 2));
    assert_eq!(r, Err(Error::EncryptFailed));
    assert_eq!(a.take_outbound(2, &Uuid::from_u128(500)), Vec::<ZCPacket>::new());
}

#[test]
fn cipher_is_not_used_when_encryption_is_off() {
    let mut a = PeerManager::with_peer_id(
        1,
        RouteAlgoType::Rip,
        ctx("net", "secret", false),
        Box::new(Shift),
    );
    a.add_client_tunnel(conn(1, 500, 2)).unwrap();
    a.set_routes(vec![route(2, 2, Some([10, 0, 0, 2]))]);
    let r = a.send_msg_ipv4(ZCPacket::new_with_payload(&[0xFF, 3]), Ipv4Addr::new(10, 0, 0, 2));
    assert_eq!(r, Ok(()));
    assert_eq!(a.take_outbound(2, &Uuid::from_u128(500)), vec![frame(1, 2, 1, &[0xFF, 3])]);
}

#[test]
fn frame_for_another_node_is_forwarded_and_not_delivered() {
    let mut b = manager(2);
    b.run().unwrap();
    b.add_client_tunnel(conn(2, 500, 3)).unwrap();
    let out = b.handle_peer_packet(frame(1, 3, 1, &[5]));
    assert_eq!(out, PeerRecvOutcome::Forwarded(Ok(())));
    assert_eq!(b.take_outbound(3, &Uuid::from_u128(500)), vec![frame(1, 3, 1, &[5])]);
    let out = b.handle_peer_packet(frame(1, 9, 1, &[5]));
    assert_eq!(out, PeerRecvOutcome::Forwarded(Err(Error::RouteError(9))));
}

#[test]
fn fixed_filters_take_their_frames() {
    let mut a = manager(1);
    assert_eq!(
        a.handle_peer_packet(frame(2, 1, 1, &[5])),
        PeerRecvOutcome::Local {
            opened: true,
            outcome: PeerPacketOutcome::Unhandled(frame(2, 1, 1, &[5])),
        }
    );
    assert_eq!(a.run(), Ok(()));
    assert!(a.is_running());
    assert!(a.get_rpc_transport().foreign_peers);
    assert_eq!(
        a.handle_peer_packet(frame(2, 1, 1, &[5])),
        PeerRecvOutcome::Local {
            opened: true,
            outcome: PeerPacketOutcome::ToNic(frame(2, 1, 1, &[5])),
        }
    );
    assert_eq!(
        a.handle_peer_packet(frame(2, 1, 2, &[6])),
        PeerRecvOutcome::Local {
            opened: true,
            outcome: PeerPacketOutcome::ToRpc(frame(2, 1, 2, &[6])),
        }
    );
    assert_eq!(
        a.handle_peer_packet(frame(2, 1, 3, &[7])),
        PeerRecvOutcome::Local {
            opened: true,
            outcome: PeerPacketOutcome::ToRoute(frame(2, 1, 3, &[7])),
        }
    );
    assert_eq!(
        a.handle_peer_packet(frame(2, 1, 9, &[8])),
        PeerRecvOutcome::Local {
            opened: true,
            outcome: PeerPacketOutcome::Unhandled(frame(2, 1, 9, &[8])),
        }
    );
    assert_eq!(
        a.handle_peer_packet(frame(2, 1, 0, &[])),
        PeerRecvOutcome::Local {
            opened: true,
            outcome: PeerPacketOutcome::Unhandled(frame(2, 1, 0, &[])),
        }
    );
}

#[test]
fn node_without_route_algorithm_has_no_route_filter() {
    let mut a = PeerManager::with_peer_id(
        1,
        RouteAlgoType::NoRoute,
        ctx("net", "secret", false),
        Box::new(NullCipher),
    );
    a.run().unwrap();
    assert_eq!(
        a.handle_peer_packet(frame(2, 1, 3, &[7])),
        PeerRecvOutcome::Local {
            opened: true,
            outcome: PeerPacketOutcome::Unhandled(frame(2, 1, 3, &[7])),
        }
    );
    assert_eq!(
        a.handle_peer_packet(frame(2, 1, 1, &[7])),
        PeerRecvOutcome::Local {
            opened: true,
            outcome: PeerPacketOutcome::ToNic(frame(2, 1, 1, &[7])),
        }
    );
    a.add_route();
    assert_eq!(
        a.handle_peer_packet(frame(2, 1, 3, &[7])),
        PeerRecvOutcome::Local {
            opened: true,
            outcome: PeerPacketOutcome::ToRoute(frame(2, 1, 3, &[7])),
        }
    );
}

#[test]
fn run_twice_is_run_once() {
    let mut a = manager(1);
    let log = Arc::new(Mutex::new(Vec::new()));
    a.run().unwrap();
    a.run().unwrap();
    a.add_packet_process_pipeline(Box::new(Recorder { name: "f", keeps: 1, log: log.clone() }));
    assert_eq!(
        a.handle_peer_packet(frame(2, 1, 1, &[5])),
        PeerRecvOutcome::Local {
            opened: true,
            outcome: PeerPacketOutcome::Consumed(3),
        }
    );
}

#[test]
fn later_filter_runs_first_and_a_kept_frame_goes_no_further() {
    let mut a = manager(1);
    let log = Arc::new(Mutex::new(Vec::new()));
    a.add_packet_process_pipeline(Box::new(Recorder { name: "first", keeps: 9, log: log.clone() }));
    a.add_packet_process_pipeline(Box::new(Recorder { name: "second", keeps: 8, log: log.clone() }));
    a.add_packet_process_pipeline(Box::new(Recorder { name: "third", keeps: 7, log: log.clone() }));
    assert_eq!(
        a.handle_peer_packet(frame(2, 1, 9, &[1])),
        PeerRecvOutcome::Local {
            opened: true,
            outcome: PeerPacketOutcome::Consumed(0),
        }
    );
    assert_eq!(*log.lock().unwrap(), vec!["third", "second", "first"]);
    log.lock().unwrap().clear();
    assert_eq!(
        a.handle_peer_packet(frame(2, 1, 8, &[1])),
        PeerRecvOutcome::Local {
            opened: true,
            outcome: PeerPacketOutcome::Consumed(1),
        }
    );
    assert_eq!(*log.lock().unwrap(), vec!["third", "second"]);
    log.lock().unwrap().clear();
    assert_eq!(
        a.handle_peer_packet(frame(2, 1, 7, &[1])),
        PeerRecvOutcome::Local {
            opened: true,
            outcome: PeerPacketOutcome::Consumed(2),
        }
    );
    assert_eq!(*log.lock().unwrap(), vec!["third"]);
    log.lock().unwrap().clear();
    assert_eq!(
        a.handle_peer_packet(frame(2, 1, 1, &[1])),
        PeerRecvOutcome::Local {
            opened: true,
            outcome: PeerPacketOutcome::Unhandled(frame(2, 1, 1, &[1])),
        }
    );
    assert_eq!(*log.lock().unwrap(), vec!["third", "second", "first"]);
}

#[test]
fn registered_filter_runs_before_the_fixed_ones() {
    let mut a = manager(1);
    let log = Arc::new(Mutex::new(Vec::new()));
    a.add_packet_process_pipeline(Box::new(Recorder { name: "early", keeps: 1, log: log.clone() }));
    a.run().unwrap();
    a.add_packet_process_pipeline(Box::new(Recorder { name: "late", keeps: 2, log: log.clone() }));
    assert_eq!(
        a.handle_peer_packet(frame(2, 1, 1, &[1])),
        PeerRecvOutcome::Local {
            opened: true,
            outcome: PeerPacketOutcome::ToNic(frame(2, 1, 1, &[1])),
        }
    );
    assert_eq!(*log.lock().unwrap(), vec!["late"]);
    log.lock().unwrap().clear();
    assert_eq!(
        a.handle_peer_packet(frame(2, 1, 2, &[1])),
        PeerRecvOutcome::Local {
            opened: true,
            outcome: PeerPacketOutcome::Consumed(4),
        }
    );
    assert_eq!(*log.lock().unwrap(), vec!["late"]);
    log.lock().unwrap().clear();
    assert_eq!(
        a.handle_peer_packet(frame(2, 1, 5, &[1])),
        PeerRecvOutcome::Local {
            opened: true,
            outcome: PeerPacketOutcome::Unhandled(frame(2, 1, 5, &[1])),
        }
    );
    assert_eq!(*log.lock().unwrap(), vec!["late", "early"]);
}

#[test]
fn frame_for_this_node_is_opened_before_the_filters() {
    let mut a = encrypting_manager(1);
    a.run().unwrap();
    let mut sealed = frame(2, 1, 1, &[11, 12]);
    sealed.header.flags = 1;
    assert_eq!(
        a.handle_peer_packet(sealed),
        PeerRecvOutcome::Local {
            opened: true,
            outcome: PeerPacketOutcome::ToNic(frame(2, 1, 1, &[10, 11])),
        }
    );
    assert_eq!(
        a.handle_peer_packet(frame(2, 1, 1, &[11, 12])),
        PeerRecvOutcome::Local {
            opened: false,
            outcome: PeerPacketOutcome::ToNic(frame(2, 1, 1, &[11, 12])),
        }
    );
    let mut passing = frame(2, 3, 1, &[11, 12]);
    passing.header.flags = 1;
    a.add_client_tunnel(conn(1, 500, 3)).unwrap();
    assert_eq!(a.handle_peer_packet(passing.clone()), PeerRecvOutcome::Forwarded(Ok(())));
    assert_eq!(a.take_outbound(3, &Uuid::from_u128(500)), vec![passing]);
}

#[test]
fn short_frame_is_dropped() {
    let mut a = manager(1);
    a.run().unwrap();
    assert_eq!(a.handle_peer_frame(&[1, 2, 3]), PeerRecvOutcome::Invalid);
    assert_eq!(a.handle_peer_frame(&[0u8; 11]), PeerRecvOutcome::Invalid);
    let bytes = frame(2, 1, 1, &[5, 6]).to_bytes();
    assert_eq!(
        a.handle_peer_frame(&bytes),
        PeerRecvOutcome::Local {
            opened: true,
            outcome: PeerPacketOutcome::ToNic(frame(2, 1, 1, &[5, 6])),
        }
    );
}

#[test]
fn rpc_transport_is_unknown_before_run() {
    let mut a = manager(1);
    a.add_client_tunnel(conn(1, 500, 2)).unwrap();
    assert_eq!(a.rpc_send(frame(1, 2, 2, &[1]), 2), Err(Error::Unknown));
    assert_eq!(a.take_outbound(2, &Uuid::from_u128(500)), Vec::<ZCPacket>::new());
    a.run().unwrap();
    assert_eq!(a.rpc_send(frame(1, 2, 2, &[1]), 2), Ok(()));
    assert_eq!(a.take_outbound(2, &Uuid::from_u128(500)), vec![frame(1, 2, 2, &[1])]);
}

#[test]
fn rpc_transport_encrypts_but_for_public_nodes() {
    let mut a = encrypting_manager(1);
    a.run().unwrap();
    a.add_client_tunnel(conn(1, 500, 2)).unwrap();
    a.set_routes(vec![route(3, 2, None)]);
    a.add_client_tunnel(PeerConn::new(1, Uuid::from_u128(600), 50, identity("elsewhere", "x")))
        .unwrap();
    assert_eq!(a.rpc_send(frame(1, 2, 2, &[1]), 2), Ok(()));
    assert_eq!(a.rpc_send(frame(1, 3, 2, &[1]), 3), Ok(()));
    let mut sealed2 = frame(1, 2, 2, &[2]);
    sealed2.header.flags = 1;
    let mut sealed3 = frame(1, 3, 2, &[2]);
    sealed3.header.flags = 1;
    assert_eq!(a.take_outbound(2, &Uuid::from_u128(500)), vec![sealed2, sealed3]);
    assert_eq!(a.rpc_send(frame(1, 50, 2, &[1]), 50), Ok(()));
    assert_eq!(a.take_foreign_outbound(50, &Uuid::from_u128(600)), vec![frame(1, 50, 2, &[1])]);
    assert_eq!(a.rpc_send(frame(1, 9, 2, &[1]), 9), Err(Error::RouteError(9)));
    assert_eq!(a.rpc_send(frame(1, 2, 2, &[0xFF]), 2), Err(Error::EncryptFailed));
    assert_eq!(a.take_outbound(2, &Uuid::from_u128(500)), Vec::<ZCPacket>::new());
}

#[test]
fn route_packet_carries_the_bytes_under_a_route_header() {
    let mut a = manager(1);
    a.add_client_tunnel(conn(1, 500, 2)).unwrap();
    a.add_client_tunnel(PeerConn::new(1, Uuid::from_u128(600), 50, identity("elsewhere", "x")))
        .unwrap();
    let msg = Bytes::from(vec![4u8, 5, 6]);
    assert_eq!(a.send_route_packet(&msg, 0, 2), Ok(()));
    assert_eq!(
        a.take_outbound(2, &Uuid::from_u128(500)),
        vec![frame(1, 2, PacketType::Route.as_u8(), &[4, 5, 6])]
    );
    assert_eq!(a.send_route_packet(&msg, 0, 50), Ok(()));
    assert_eq!(
        a.take_foreign_outbound(50, &Uuid::from_u128(600)),
        vec![frame(1, 50, 3, &[4, 5, 6])]
    );
    assert_eq!(a.send_route_packet(&Bytes::new(), 7, 9), Err(Error::RouteError(9)));
    a.set_routes(vec![route(9, 2, None)]);
    assert_eq!(a.send_route_packet(&msg, 7, 9), Err(Error::RouteError(9)));
}

#[test]
fn route_algorithm_sees_foreign_then_direct_peers() {
    let mut a = manager(1);
    a.add_client_tunnel(conn(1, 500, 2)).unwrap();
    a.add_client_tunnel(conn(1, 501, 3)).unwrap();
    a.add_client_tunnel(PeerConn::new(1, Uuid::from_u128(600), 50, identity("elsewhere", "x")))
        .unwrap();
    assert_eq!(a.list_peers(), vec![50, 2, 3]);
    assert!(a.close_peer_conn(2, &Uuid::from_u128(500)));
    assert_eq!(a.list_peers(), vec![50, 3]);
}

#[test]
fn reaper_removes_peers_without_connection() {
    assert_eq!(CLEAN_PEER_INTERVAL_SECS, 3);
    let mut a = manager(1);
    a.add_client_tunnel(conn(1, 500, 2)).unwrap();
    a.add_client_tunnel(conn(1, 501, 3)).unwrap();
    a.set_routes(vec![route(2, 2, None), route(3, 3, None), route(4, 2, None)]);
    assert_eq!(a.list_routes().len(), 3);
    assert!(a.close_peer_conn(2, &Uuid::from_u128(500)));
    assert_eq!(a.get_peer_map().list_peers(), vec![2, 3]);
    a.clean_peer_without_conn();
    assert_eq!(a.get_peer_map().list_peers(), vec![3]);
    assert_eq!(a.list_routes(), vec![route(3, 3, None)]);
}

#[test]
fn frame_sent_to_this_node_comes_back_through_loopback() {
    let mut a = manager(1);
    a.run().unwrap();
    assert_eq!(a.send_msg(frame(1, 1, 1, &[3]), 1), Ok(()));
    let looped = a.take_loopback();
    assert_eq!(looped, vec![frame(1, 1, 1, &[3])]);
    for p in looped {
        assert_eq!(
            a.handle_peer_packet(p),
            PeerRecvOutcome::Local {
            opened: true,
            outcome: PeerPacketOutcome::ToNic(frame(1, 1, 1, &[3])),
        }
        );
    }
}

#[test]
fn any_failure_of_the_cipher_is_reported_as_encrypt_failed() {
    assert_eq!(seal_report(Ok(())), Ok(()));
    assert_eq!(seal_report(Err(Error::Unknown)), Err(Error::EncryptFailed));
    assert_eq!(seal_report(Err(Error::DecryptFailed)), Err(Error::EncryptFailed));
    assert_eq!(seal_report(Err(Error::RouteError(3))), Err(Error::EncryptFailed));
}

#[test]
fn drawn_zero_is_replaced() {
    assert_eq!(usable_peer_id(0), 1);
    assert_eq!(usable_peer_id(1), 1);
    assert_eq!(usable_peer_id(7), 7);
    assert_eq!(usable_peer_id(u32::MAX), u32::MAX);
    assert_eq!(PACKET_RECV_CHANNEL_SIZE, 100);
}

#[test]
fn manager_tells_its_own_network_from_others() {
    let a = manager(1);
    assert!(a.same_network(&identity("net", "secret")));
    assert!(a.same_network(&identity("net", "another")));
    assert!(!a.same_network(&identity("elsewhere", "secret")));
}

#[test]
fn foreign_client_is_reaped_on_request() {
    let mut a = manager(1);
    a.add_client_tunnel(PeerConn::new(1, Uuid::from_u128(600), 50, identity("elsewhere", "x")))
        .unwrap();
    a.set_foreign_routes(vec![route(60, 50, None)]);
    assert_eq!(a.get_foreign_network_client().list_foreign_peers(), vec![50, 60]);
    assert!(!a.close_foreign_peer_conn(50, &Uuid::from_u128(601)));
    assert!(a.close_foreign_peer_conn(50, &Uuid::from_u128(600)));
    assert!(a.get_foreign_network_client().is_peer_public_node(&50));
    a.clean_foreign_peer_without_conn();
    assert!(!a.get_foreign_network_client().is_peer_public_node(&50));
    assert_eq!(a.get_foreign_network_client().list_foreign_peers(), Vec::<u32>::new());
}

#[test]
fn connection_of_a_foreign_network_can_be_closed() {
    let mut a = manager(1);
    let theirs = identity("elsewhere", "x");
    a.add_tunnel_as_server(PeerConn::new(1, Uuid::from_u128(700), 50, theirs.clone())).unwrap();
    assert_eq!(
        a.take_foreign_network_outbound(&theirs, 50, &Uuid::from_u128(700)),
        Vec::<ZCPacket>::new()
    );
    assert!(!a.close_foreign_network_conn(&identity("nowhere", "x"), 50, &Uuid::from_u128(700)));
    assert!(!a.close_foreign_network_conn(&theirs, 50, &Uuid::from_u128(701)));
    assert!(a.close_foreign_network_conn(&theirs, 50, &Uuid::from_u128(700)));
    assert!(!a.close_foreign_network_conn(&theirs, 50, &Uuid::from_u128(700)));
    let there = a.get_foreign_network_manager().get_network(&theirs).unwrap();
    assert_eq!(there.get_peer_map().list_peers_with_conn(), Vec::<u32>::new());
    assert_eq!(there.get_peer_map().list_peers(), vec![50]);
}
