use peer_manager::common::{Flags, GlobalCtx, NetworkIdentity};
use peer_manager::encrypt::NullCipher;
use peer_manager::filter::PeerPacketOutcome;
use peer_manager::manager::{PeerManager, PeerRecvOutcome, RouteAlgoType};
use peer_manager::packet::{PacketType, ZCPacket};
use peer_manager::peer_conn::PeerConn;
use peer_manager::peer_map::RouteEntry;
use uuid::Uuid;

fn identity() -> NetworkIdentity {
    NetworkIdentity::new("net".to_string(), "secret".to_string())
}

/// Nodes in one process, with the tunnels between them played by moving
/// the queued frames from one node to the other.
struct Mesh {
    nodes: Vec<PeerManager>,
    /// (node, remote node, connection id) for each end of each tunnel.
    ends: Vec<(usize, usize, Uuid)>,
    nic: Vec<Vec<ZCPacket>>,
    rpc: Vec<Vec<ZCPacket>>,
    next_conn: u128,
}

impl Mesh {
    fn new(n: usize) -> Mesh {
        let mut nodes = Vec::new();
        for i in 0..n {
            let ctx = GlobalCtx::new(
                format!("node{}", i),
                Uuid::from_u128(i as u128),
                identity(),
                Flags { enable_encryption: false },
            );
            let mut m = PeerManager::with_peer_id(
                100 + i as u32,
                RouteAlgoType::Rip,
                ctx,
                Box::new(NullCipher),
            );
            m.run().unwrap();
            nodes.push(m);
        }
        Mesh { nodes, ends: Vec::new(), nic: vec![Vec::new(); n], rpc: vec![Vec::new(); n], next_conn: 1 }
    }

    fn id(&self, i: usize) -> u32 {
        self.nodes[i].my_peer_id()
    }

    fn connect(&mut self, client: usize, server: usize) {
        let (c, s) = (self.id(client), self.id(server));
        let at_client = Uuid::from_u128(self.next_conn);
        let at_server = Uuid::from_u128(self.next_conn + 1);
        self.next_conn += 2;
        self.nodes[client]
            .add_client_tunnel(PeerConn::new(c, at_client, s, identity()))
            .unwrap();
        self.nodes[server]
            .add_tunnel_as_server(PeerConn::new(s, at_server, c, identity()))
            .unwrap();
        self.ends.push((client, server, at_client));
        self.ends.push((server, client, at_server));
    }

    fn drop_node(&mut self, gone: usize) {
        let ends = self.ends.clone();
        for (node, remote, conn_id) in ends {
            if remote == gone {
                let remote_id = self.id(remote);
                assert!(self.nodes[node].close_peer_conn(remote_id, &conn_id));
            }
        }
        self.ends.retain(|e| e.0 != gone && e.1 != gone);
    }

    fn reap(&mut self) {
        for m in self.nodes.iter_mut() {
            m.clean_peer_without_conn();
        }
    }

    fn receive(&mut self, node: usize, packet: ZCPacket) {
        match self.nodes[node].handle_peer_packet(packet) {
            PeerRecvOutcome::Local { outcome: PeerPacketOutcome::ToNic(p), .. } => {
                self.nic[node].push(p)
            }
            PeerRecvOutcome::Local { outcome: PeerPacketOutcome::ToRpc(p), .. } => {
                self.rpc[node].push(p)
            }
            _ => {}
        }
    }

    fn pump(&mut self) {
        loop {
            let mut moved = false;
            let ends = self.ends.clone();
            for (node, remote, conn_id) in ends {
                let remote_id = self.id(remote);
                for p in self.nodes[node].take_outbound(remote_id, &conn_id) {
                    moved = true;
                    self.receive(remote, p);
                }
            }
            for node in 0..self.nodes.len() {
                for p in self.nodes[node].take_loopback() {
                    moved = true;
                    self.receive(node, p);
                }
            }
            if !moved {
                return;
            }
        }
    }
}

fn direct(peer: u32) -> RouteEntry {
    RouteEntry { peer_id: peer, next_hop_peer_id: peer, ipv4_addr: None }
}

fn via(peer: u32, next_hop: u32) -> RouteEntry {
    RouteEntry { peer_id: peer, next_hop_peer_id: next_hop, ipv4_addr: None }
}

#[test]
fn drop_peer_manager() {
    let mut mesh = Mesh::new(3);
    let (a, b, c) = (0, 1, 2);
    mesh.connect(a, b);
    mesh.connect(b, c);
    mesh.connect(a, c);
    let (ida, idb, idc) = (mesh.id(a), mesh.id(b), mesh.id(c));
    mesh.nodes[a].set_routes(vec![direct(idb), direct(idc)]);
    mesh.nodes[b].set_routes(vec![direct(ida), direct(idc)]);
    mesh.nodes[c].set_routes(vec![direct(ida), direct(idb)]);
    assert_eq!(mesh.nodes[a].get_peer_map().list_peers_with_conn().len(), 2);

    mesh.drop_node(b);
    mesh.reap();

    assert_eq!(mesh.nodes[a].get_peer_map().list_peers_with_conn().len(), 1);
    assert_eq!(mesh.nodes[a].get_peer_map().list_peers(), vec![idc]);
    assert_eq!(mesh.nodes[c].get_peer_map().list_peers(), vec![ida]);
    assert_eq!(mesh.nodes[a].get_peer_map().get_gateway_peer_id(idb), None);
}

/// A service that answers a request `s` with its prefix, a blank and `s`.
struct MockService {
    prefix: &'static str,
}

const REQUEST: u8 = 0;
const RESPONSE: u8 = 1;

impl Mesh {
    /// Lets the service registered at each node answer the requests that
    /// reached the node; a node without a service leaves them unanswered.
    fn serve(&mut self, services: &[Option<MockService>]) {
        for node in 0..self.nodes.len() {
            let arrived: Vec<ZCPacket> = self.rpc[node].drain(..).collect();
            for frame in arrived {
                if frame.payload().first() != Some(&REQUEST) {
                    self.rpc[node].push(frame);
                    continue;
                }
                let Some(service) = &services[node] else {
                    continue;
                };
                let asked = std::str::from_utf8(&frame.payload()[1..]).unwrap();
                let mut body = vec![RESPONSE];
                body.extend_from_slice(service.prefix.as_bytes());
                body.push(b' ');
                body.extend_from_slice(asked.as_bytes());
                let mut answer = ZCPacket::new_with_payload(&body);
                let me = self.id(node);
                let caller = frame.header.from_peer_id;
                answer.fill_peer_manager_hdr(me, caller, PacketType::TaRpc.as_u8());
                assert_eq!(self.nodes[node].rpc_send(answer, caller), Ok(()));
            }
        }
    }
}

#[test]
fn forward_packet() {
    let mut mesh = Mesh::new(3);
    let (a, b, c) = (0, 1, 2);
    let services = [
        Some(MockService { prefix: "hello a" }),
        None,
        Some(MockService { prefix: "hello c" }),
    ];
    mesh.connect(a, b);
    mesh.connect(b, c);
    let (ida, idb, idc) = (mesh.id(a), mesh.id(b), mesh.id(c));
    mesh.nodes[a].set_routes(vec![direct(idb), via(idc, idb)]);
    mesh.nodes[b].set_routes(vec![direct(ida), direct(idc)]);
    mesh.nodes[c].set_routes(vec![direct(idb), via(ida, idb)]);

    let mut body = vec![REQUEST];
    body.extend_from_slice("abc".as_bytes());
    let mut call = ZCPacket::new_with_payload(&body);
    call.fill_peer_manager_hdr(ida, idc, PacketType::TaRpc.as_u8());
    assert_eq!(mesh.nodes[a].rpc_send(call, idc), Ok(()));
    mesh.pump();
    assert_eq!(mesh.rpc[c].len(), 1);
    assert!(mesh.rpc[a].is_empty());
    assert!(mesh.rpc[b].is_empty());

    mesh.serve(&services);
    mesh.pump();
    mesh.serve(&services);

    assert!(mesh.rpc[b].is_empty());
    assert!(mesh.rpc[c].is_empty());
    assert_eq!(mesh.rpc[a].len(), 1);
    assert_eq!(mesh.rpc[a][0].header.from_peer_id, idc);
    assert_eq!(mesh.rpc[a][0].payload()[0], RESPONSE);
    let ret = String::from_utf8(mesh.rpc[a][0].payload()[1..].to_vec()).unwrap();
    assert_eq!(ret, "hello c abc");
}

#[test]
fn data_frame_crosses_the_middle_node_without_being_delivered_there() {
    let mut mesh = Mesh::new(3);
    let (a, b, c) = (0, 1, 2);
    mesh.connect(a, b);
    mesh.connect(b, c);
    let (ida, idb, idc) = (mesh.id(a), mesh.id(b), mesh.id(c));
    mesh.nodes[a].set_routes(vec![direct(idb), via(idc, idb)]);
    mesh.nodes[b].set_routes(vec![direct(ida), direct(idc)]);
    mesh.nodes[c].set_routes(vec![direct(idb), via(ida, idb)]);

    let mut data = ZCPacket::new_with_payload(&[1, 2, 3]);
    data.fill_peer_manager_hdr(ida, idc, PacketType::Data.as_u8());
    assert_eq!(mesh.nodes[a].send_msg(data.clone(), idc), Ok(()));
    mesh.pump();

    assert_eq!(mesh.nic[c], vec![data]);
    assert!(mesh.nic[b].is_empty());
    assert!(mesh.nic[a].is_empty());
}

#[test]
fn chain_heals_after_the_far_end_is_dropped() {
    let mut mesh = Mesh::new(3);
    let (a, b, c) = (0, 1, 2);
    mesh.connect(a, b);
    mesh.connect(b, c);
    let (ida, idb, idc) = (mesh.id(a), mesh.id(b), mesh.id(c));
    mesh.nodes[a].set_routes(vec![direct(idb), via(idc, idb)]);
    mesh.nodes[b].set_routes(vec![direct(ida), direct(idc)]);

    mesh.drop_node(c);
    mesh.reap();

    assert_eq!(mesh.nodes[a].get_peer_map().list_peers_with_conn(), vec![idb]);
    assert_eq!(mesh.nodes[b].get_peer_map().list_peers_with_conn(), vec![ida]);
    assert_eq!(mesh.nodes[b].get_peer_map().get_gateway_peer_id(idc), None);
}
