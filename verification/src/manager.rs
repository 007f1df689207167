//! The peer manager: it owns the peer map, the foreign network components,
//! the two filter pipelines and the encryptor of a node, and decides where
//! every frame goes.

use vstd::prelude::*;
use vstd::slice::slice_to_vec;
use tokio_util::bytes::Bytes;
use uuid::Uuid;
use crate::common::{GlobalCtx, GlobalCtxView, Ipv4Addr, NetworkIdentity, NetworkIdentityView};
use crate::encrypt::{seal_report, spec_seal_report, CipherSlot, Encryptor, NullCipher};
use crate::error::Error;
use crate::filter::{
    nic_run, pipeline_admits, run_nic_pipeline, run_peer_pipeline, slot_kinds, BoxNicPacketFilter,
    BoxPeerPacketFilter, FilterKind, NicFilterSlot, PeerFilterSlot, PeerPacketOutcome,
};
use crate::foreign_network::{ForeignNetworkClient, ForeignNetworkManager, ForeignNetworkManagerView};
use crate::outside::{bytes_as_slice, bytes_contents, random_peer_id};
use crate::packet::{
    spec_parse_frame, PacketType, PeerId, PeerManagerHeader, ZCPacket, ZCPacketView,
};
use crate::peer_conn::{packets_view, PeerConn, PeerConnId, PeerConnView};
use crate::peer_map::{PeerMap, PeerMapView, RouteEntry};

verus! {

/// Seconds between two runs of `PeerManager::clean_peer_without_conn`.
pub const CLEAN_PEER_INTERVAL_SECS: u64 = 3;

/// Number of frames from peers that may wait to be handled before the
/// readers of the connections have to wait.
pub const PACKET_RECV_CHANNEL_SIZE: usize = 100;

/// The route algorithm of a node.
#[derive(Clone, Copy, Debug, PartialEq, Eq, Structural)]
pub enum RouteAlgoType {
    Rip,
    Ospf,
    NoRoute,
}

/// What became of a frame that a peer sent.
#[derive(Debug, PartialEq, Eq)]
pub enum PeerRecvOutcome {
    /// The frame was too short to hold a header and was dropped.
    Invalid,
    /// The frame was for another node and was sent on; a failure to do so
    /// is reported here and nowhere else.
    Forwarded(Result<(), Error>),
    /// The frame was for this node and went through the filters, after
    /// the encryptor opened it or, with `opened` false, failed to.
    Local { opened: bool, outcome: PeerPacketOutcome },
}

/// What the RPC transport holds of the node: it reaches the foreign
/// network client only once the node has published it.
#[derive(Clone, Copy, Debug, PartialEq, Eq, Structural)]
pub struct RpcTransport {
    pub my_peer_id: PeerId,
    pub foreign_peers: bool,
}

/// What a peer manager is.
pub struct PeerManagerView {
    pub global_ctx: GlobalCtxView,
    pub route_algo: RouteAlgoType,
    pub peers: PeerMapView,
    pub foreign_client: PeerMapView,
    pub foreign_manager: ForeignNetworkManagerView,
    /// The peer-side pipeline, in the order of registration.
    pub peer_pipeline: Seq<PeerFilterSlot>,
    /// The interface-side pipeline, in the order of registration.
    pub nic_pipeline: Seq<NicFilterSlot>,
    /// The cipher of the node, used if the node encrypts.
    pub encryptor: CipherSlot,
    pub rpc_transport: RpcTransport,
    pub running: bool,
}

/// Whether `r` reports exactly the failures `errs` of a send to several
/// destinations: success if there are none, else all of them in one error.
pub open spec fn reports(r: Result<(), Error>, errs: Seq<Error>) -> bool {
    if errs.len() == 0 {
        r == Ok::<(), Error>(())
    } else {
        r matches Err(Error::Aggregate(list)) && list@ == errs
    }
}

impl PeerManagerView {
    /// A peer manager that was just made: nothing connected, nothing
    /// registered, not running.
    pub open spec fn initial(
        my_peer_id: PeerId,
        route_algo: RouteAlgoType,
        global_ctx: GlobalCtxView,
        cipher: Box<dyn Encryptor>,
    ) -> PeerManagerView {
        Self::initial_with(my_peer_id, route_algo, global_ctx, CipherSlot { cipher })
    }

    /// The same, with the cipher in its place.
    pub open spec fn initial_with(
        my_peer_id: PeerId,
        route_algo: RouteAlgoType,
        global_ctx: GlobalCtxView,
        encryptor: CipherSlot,
    ) -> PeerManagerView {
        let empty = PeerMapView {
            my_peer_id,
            peers: Seq::empty(),
            routes: Seq::empty(),
            loopback: Seq::empty(),
        };
        PeerManagerView {
            global_ctx,
            route_algo,
            peers: empty,
            foreign_client: empty,
            foreign_manager: ForeignNetworkManagerView { my_peer_id, networks: Seq::empty() },
            peer_pipeline: Seq::empty(),
            nic_pipeline: Seq::empty(),
            encryptor,
            rpc_transport: RpcTransport { my_peer_id, foreign_peers: false },
            running: false,
        }
    }

    /// The peer maps of the manager and of its foreign network components
    /// are well formed.
    pub open spec fn wf(self) -> bool {
        self.peers.wf() && self.foreign_client.wf() && self.foreign_manager.wf()
    }

    /// Number of frames that wait on the connections of the peer map and
    /// of the foreign network client.
    pub open spec fn queued(self) -> nat {
        self.peers.queued() + self.foreign_client.queued()
    }

    /// Whether `other` is this manager but for what is queued on its
    /// connections.
    pub open spec fn same_shape(self, other: PeerManagerView) -> bool {
        self.peers.same_shape(other.peers) && self.foreign_client.same_shape(other.foreign_client)
    }

    /// The kinds of the places of the peer-side pipeline.
    pub open spec fn kinds(self) -> Seq<FilterKind> {
        slot_kinds(self.peer_pipeline)
    }

    /// The peer id of the node.
    pub open spec fn my_peer_id(self) -> PeerId {
        self.peers.my_peer_id
    }

    /// The network identity of the node.
    pub open spec fn network_identity(self) -> NetworkIdentityView {
        self.global_ctx.network_identity
    }

    /// Whether the node encrypts payloads.
    pub open spec fn encryption(self) -> bool {
        self.global_ctx.flags.enable_encryption
    }

    /// The manager after a connection of this node's own network was
    /// offered: it joins the peer map if its identity is this node's.
    pub open spec fn add_conn(self, c: PeerConnView) -> PeerManagerView {
        if c.network_identity == self.network_identity() {
            PeerManagerView { peers: self.peers.add_conn(c), ..self }
        } else {
            self
        }
    }

    /// What offering such a connection answers.
    pub open spec fn add_conn_result(self, c: PeerConnView) -> Result<(), Error> {
        if c.network_identity == self.network_identity() {
            Ok(())
        } else {
            Err(Error::SecretKeyError)
        }
    }

    /// Whether the remote of `c` named this node's network.
    pub open spec fn same_network(self, c: PeerConnView) -> bool {
        c.network_identity.network_name == self.network_identity().network_name
    }

    /// The manager after a connection that this node opened finished its
    /// handshake.
    pub open spec fn add_client(self, c: PeerConnView) -> PeerManagerView {
        if self.same_network(c) {
            self.add_conn(c)
        } else {
            PeerManagerView { foreign_client: self.foreign_client.add_conn(c), ..self }
        }
    }

    /// What that answers: the remote peer and the connection, or the
    /// refusal of the connection.
    pub open spec fn add_client_result(self, c: PeerConnView) -> Result<(PeerId, PeerConnId), Error> {
        if self.same_network(c) && c.network_identity != self.network_identity() {
            Err(Error::SecretKeyError)
        } else {
            Ok((c.peer_id, c.conn_id))
        }
    }

    /// The manager after a connection that this node accepted finished
    /// its handshake.
    pub open spec fn add_server(self, c: PeerConnView) -> PeerManagerView {
        if self.same_network(c) {
            self.add_conn(c)
        } else {
            PeerManagerView { foreign_manager: self.foreign_manager.add_conn(c), ..self }
        }
    }

    /// What that answers.
    pub open spec fn add_server_result(self, c: PeerConnView) -> Result<(), Error> {
        if self.same_network(c) {
            self.add_conn_result(c)
        } else if self.foreign_manager.admits(c.network_identity) {
            Ok(())
        } else {
            Err(Error::SecretKeyError)
        }
    }

    /// The peers that a frame from the local interface for `ip` goes to:
    /// every destination that has a next hop if `ip` addresses all peers,
    /// else the owner of `ip` if it is known.
    pub open spec fn dst_peers(self, ip: Ipv4Addr) -> Seq<PeerId> {
        if ip.spec_addresses_all_peers() {
            self.peers.route_dsts()
        } else {
            match self.peers.peer_id_by_ipv4(ip) {
                Some(peer_id) => seq![peer_id],
                None => Seq::empty(),
            }
        }
    }

    /// The manager after `p` was sent to the destination `d`: through the
    /// peer map where `d` has a next hop there, else through the foreign
    /// network client.
    pub open spec fn deliver(self, p: ZCPacketView, d: PeerId) -> PeerManagerView {
        match self.peers.next_hop(d) {
            Some(gateway) => PeerManagerView { peers: self.peers.send_directly(p, gateway), ..self },
            None => PeerManagerView { foreign_client: self.foreign_client.forward(p, d), ..self },
        }
    }

    /// What sending a frame to the destination `d` answers.
    pub open spec fn deliver_result(self, d: PeerId) -> Result<(), Error> {
        match self.peers.next_hop(d) {
            Some(gateway) => self.peers.send_directly_result(gateway),
            None => self.foreign_client.forward_result(d),
        }
    }

    /// The manager after a copy of `p` was sent to each of the first `n`
    /// destinations of `dsts`, each copy addressed to its destination.
    pub open spec fn fan_out(self, p: ZCPacketView, dsts: Seq<PeerId>, n: nat) -> PeerManagerView
        decreases n,
    {
        if n == 0 {
            self
        } else {
            let d = dsts[n - 1];
            self.fan_out(p, dsts, (n - 1) as nat).deliver(p.with_to(d), d)
        }
    }

    /// The failures of those sends, in the order of the destinations.
    pub open spec fn fan_out_errors(self, p: ZCPacketView, dsts: Seq<PeerId>, n: nat) -> Seq<Error>
        decreases n,
    {
        if n == 0 {
            Seq::empty()
        } else {
            let d = dsts[n - 1];
            let before = self.fan_out_errors(p, dsts, (n - 1) as nat);
            match self.fan_out(p, dsts, (n - 1) as nat).deliver_result(d) {
                Ok(_) => before,
                Err(e) => before.push(e),
            }
        }
    }

    /// Whether the cipher that the node uses may turn `before` into
    /// `after` and answer `answer` on sealing: the node's own cipher if it
    /// encrypts, else the null cipher.
    pub open spec fn cipher_seals(
        self,
        before: ZCPacketView,
        after: ZCPacketView,
        answer: Result<(), Error>,
    ) -> bool {
        if self.encryption() {
            self.encryptor.cipher.seals(before, after, answer)
        } else {
            NullCipher.seals(before, after, answer)
        }
    }

    /// The same on opening.
    pub open spec fn cipher_opens(
        self,
        before: ZCPacketView,
        after: ZCPacketView,
        answer: Result<(), Error>,
    ) -> bool {
        if self.encryption() {
            self.encryptor.cipher.opens(before, after, answer)
        } else {
            NullCipher.opens(before, after, answer)
        }
    }

    /// Whether sealing `before` may leave `after` and be reported as
    /// `seal`: the cipher was asked once, and any failure of it is
    /// reported as `EncryptFailed`.
    pub open spec fn sealing(
        self,
        before: ZCPacketView,
        after: ZCPacketView,
        seal: Result<(), Error>,
    ) -> bool {
        exists|answer: Result<(), Error>| #[trigger]
            self.cipher_seals(before, after, answer) && seal == spec_seal_report(answer)
    }

    /// Whether opening `before` may leave `after`, with `opened` telling
    /// whether the cipher, asked once, succeeded.
    pub open spec fn opening(self, before: ZCPacketView, after: ZCPacketView, opened: bool) -> bool {
        exists|answer: Result<(), Error>| #[trigger]
            self.cipher_opens(before, after, answer) && opened == (answer is Ok)
    }

    /// Whether `after` and `r` are what becomes of a frame `filled` for
    /// the destinations `dsts`: the interface-side filters turn `filled`
    /// into `filtered`, the cipher turns `filtered` into `sealed`, and
    /// either the cipher failed and nothing is sent, or a copy of `sealed`
    /// goes to each destination.
    pub open spec fn ipv4_send_admits(
        self,
        after: PeerManagerView,
        r: Result<(), Error>,
        filled: ZCPacketView,
        dsts: Seq<PeerId>,
        filtered: ZCPacketView,
        sealed: ZCPacketView,
        seal: Result<(), Error>,
    ) -> bool {
        &&& nic_run(self.nic_pipeline, self.nic_pipeline.len(), filled, filtered)
        &&& self.sealing(filtered, sealed, seal)
        &&& match seal {
            Err(_) => after == self && r == seal,
            Ok(_) => after == self.fan_out(sealed, dsts, dsts.len()) && reports(
                r,
                self.fan_out_errors(sealed, dsts, dsts.len()),
            ),
        }
    }

    /// Whether the RPC transport encrypts a frame for `dst`: always on
    /// the way through the peer map, and on the way through a foreign
    /// network unless `dst` is a public node.
    pub open spec fn rpc_encrypts(self, dst: PeerId) -> bool {
        self.peers.next_hop(dst) is Some || (self.foreign_client.next_hop(dst) is Some
            && !self.foreign_client.has_peer(dst))
    }

    /// Whether `after` and `r` are what becomes of an RPC frame `msg` for
    /// `dst`: where the transport encrypts, the cipher turns `msg` into
    /// `sealed`, else `sealed` is `msg`; and either the cipher failed and
    /// nothing is sent, or `sealed` is sent towards `dst`.
    pub open spec fn rpc_send_admits(
        self,
        after: PeerManagerView,
        r: Result<(), Error>,
        msg: ZCPacketView,
        dst: PeerId,
        sealed: ZCPacketView,
        seal: Result<(), Error>,
    ) -> bool {
        &&& if self.rpc_encrypts(dst) {
            self.sealing(msg, sealed, seal)
        } else {
            sealed == msg && seal == Ok::<(), Error>(())
        }
        &&& match seal {
            Err(_) => after == self && r == seal,
            Ok(_) => after == self.deliver(sealed, dst) && r == self.deliver_result(dst),
        }
    }

    /// Whether `outcome` is what becomes of a frame `packet` for this
    /// node: the cipher turns it into `left`, and the peer-side pipeline
    /// makes `outcome` of `left`.
    pub open spec fn local_recv_admits(
        self,
        packet: ZCPacketView,
        left: ZCPacketView,
        opened: bool,
        outcome: PeerPacketOutcome,
    ) -> bool {
        &&& self.opening(packet, left, opened)
        &&& pipeline_admits(self.peer_pipeline, self.my_peer_id(), left, outcome@)
    }

    /// Whether `after` and `out` are what becomes of a frame `packet`
    /// that a peer sent: a frame for another node is sent on towards it
    /// and goes through no filter; a frame for this node changes nothing
    /// and goes through the filters.
    pub open spec fn recv_admits(
        self,
        after: PeerManagerView,
        packet: ZCPacketView,
        out: PeerRecvOutcome,
    ) -> bool {
        let to = packet.header.to_peer_id;
        if to != self.my_peer_id() {
            &&& after == (PeerManagerView { peers: self.peers.send(packet, to), ..self })
            &&& out == PeerRecvOutcome::Forwarded(self.peers.send_result(to))
        } else {
            &&& after == self
            &&& out matches PeerRecvOutcome::Local { opened, outcome }
            &&& exists|left: ZCPacketView| #[trigger]
                self.local_recv_admits(packet, left, opened, outcome)
        }
    }

    /// The pipeline after the route filter and the two fixed filters were
    /// registered.
    pub open spec fn started_pipeline(self) -> Seq<PeerFilterSlot> {
        let with_route = if self.route_algo == RouteAlgoType::NoRoute {
            self.peer_pipeline
        } else {
            self.peer_pipeline.push(PeerFilterSlot::Route)
        };
        with_route.push(PeerFilterSlot::NicDelivery).push(PeerFilterSlot::RpcDemux)
    }

    /// The manager after it was started. Starting a running manager
    /// changes nothing.
    pub open spec fn started(self) -> PeerManagerView {
        if self.running {
            self
        } else {
            PeerManagerView {
                peer_pipeline: self.started_pipeline(),
                rpc_transport: RpcTransport { foreign_peers: true, ..self.rpc_transport },
                running: true,
                ..self
            }
        }
    }
}

/// The peer id that a node takes when it drew `drawn`: the number drawn,
/// but 1 in place of 0, which stands for "not filled in yet".
pub open spec fn spec_usable_peer_id(drawn: PeerId) -> PeerId {
    if drawn == 0 {
        1
    } else {
        drawn
    }
}

#[verifier::when_used_as_spec(spec_usable_peer_id)]
pub fn usable_peer_id(drawn: PeerId) -> (id: PeerId)
    ensures
        id == spec_usable_peer_id(drawn),
{
    if drawn == 0 {
        1
    } else {
        drawn
    }
}

/// The dispatch and routing hub of one node.
pub struct PeerManager {
    global_ctx: GlobalCtx,
    peers: PeerMap,
    peer_rpc_tspt: RpcTransport,
    peer_packet_process_pipeline: Vec<PeerFilterSlot>,
    nic_packet_process_pipeline: Vec<NicFilterSlot>,
    route_algo_inst: RouteAlgoType,
    foreign_network_manager: ForeignNetworkManager,
    foreign_network_client: ForeignNetworkClient,
    encryptor: CipherSlot,
    running: bool,
}

impl View for PeerManager {
    type V = PeerManagerView;

    closed spec fn view(&self) -> PeerManagerView {
        PeerManagerView {
            global_ctx: self.global_ctx@,
            route_algo: self.route_algo_inst,
            peers: self.peers@,
            foreign_client: self.foreign_network_client@,
            foreign_manager: self.foreign_network_manager@,
            peer_pipeline: self.peer_packet_process_pipeline@,
            nic_pipeline: self.nic_packet_process_pipeline@,
            encryptor: self.encryptor,
            rpc_transport: self.peer_rpc_tspt,
            running: self.running,
        }
    }
}

impl PeerManager {
    /// A peer manager with a peer id drawn at random, but never the id 0,
    /// which stands for "not filled in yet". `cipher` is used if and only
    /// if `global_ctx` enables encryption.
    pub fn new(route_algo: RouteAlgoType, global_ctx: GlobalCtx, cipher: Box<dyn Encryptor>) -> (m:
        PeerManager)
        ensures
            m@ == PeerManagerView::initial(m@.my_peer_id(), route_algo, global_ctx@, cipher),
            m@.my_peer_id() != 0,
            m@.wf(),
    {
        let my_peer_id = usable_peer_id(random_peer_id());
        let encryptor = CipherSlot::new(cipher);
        Self::with_cipher_slot(my_peer_id, route_algo, global_ctx, encryptor)
    }

    /// A peer manager with the peer id `my_peer_id`.
    pub fn with_peer_id(
        my_peer_id: PeerId,
        route_algo: RouteAlgoType,
        global_ctx: GlobalCtx,
        cipher: Box<dyn Encryptor>,
    ) -> (m: PeerManager)
        ensures
            m@ == PeerManagerView::initial(my_peer_id, route_algo, global_ctx@, cipher),
            m@.wf(),
    {
        let encryptor = CipherSlot::new(cipher);
        Self::with_cipher_slot(my_peer_id, route_algo, global_ctx, encryptor)
    }

    fn with_cipher_slot(
        my_peer_id: PeerId,
        route_algo: RouteAlgoType,
        global_ctx: GlobalCtx,
        encryptor: CipherSlot,
    ) -> (m: PeerManager)
        ensures
            m@ == PeerManagerView::initial_with(my_peer_id, route_algo, global_ctx@, encryptor),
            m@.my_peer_id() == my_peer_id,
            m@.wf(),
    {
        PeerManager {
            global_ctx,
            peers: PeerMap::new(my_peer_id),
            peer_rpc_tspt: RpcTransport { my_peer_id, foreign_peers: false },
            peer_packet_process_pipeline: Vec::new(),
            nic_packet_process_pipeline: Vec::new(),
            route_algo_inst: route_algo,
            foreign_network_manager: ForeignNetworkManager::new(my_peer_id),
            foreign_network_client: ForeignNetworkClient::new(my_peer_id),
            encryptor,
            running: false,
        }
    }

    /// Offers a connection of this node's own network: it is refused with
    /// `SecretKeyError` unless its identity is this node's.
    pub fn add_new_peer_conn(&mut self, peer_conn: PeerConn) -> (r: Result<(), Error>)
        ensures
            final(self)@ == old(self)@.add_conn(peer_conn@),
            r == old(self)@.add_conn_result(peer_conn@),
            old(self)@.wf() ==> final(self)@.wf(),
    {
        if !self.global_ctx.get_network_identity().same_identity(peer_conn.get_network_identity()) {
            return Err(Error::SecretKeyError);
        }
        self.peers.add_new_peer_conn(peer_conn);
        Ok(())
    }

    /// Takes a connection that this node opened, once its handshake is
    /// done: into the peer map if the remote named this node's network,
    /// else into the foreign network client.
    pub fn add_client_tunnel(&mut self, peer: PeerConn) -> (r: Result<(PeerId, PeerConnId), Error>)
        ensures
            final(self)@ == old(self)@.add_client(peer@),
            r == old(self)@.add_client_result(peer@),
            old(self)@.wf() ==> final(self)@.wf(),
    {
        let conn_id = peer.get_conn_id();
        let peer_id = peer.get_peer_id();
        if self.same_network(peer.get_network_identity()) {
            match self.add_new_peer_conn(peer) {
                Ok(_) => {},
                Err(e) => {
                    return Err(e);
                },
            }
        } else {
            self.foreign_network_client.add_new_peer_conn(peer);
        }
        Ok((peer_id, conn_id))
    }

    /// Takes a connection that this node accepted, once its handshake is
    /// done: into the peer map if the remote named this node's network,
    /// else into the foreign network manager.
    pub fn add_tunnel_as_server(&mut self, peer: PeerConn) -> (r: Result<(), Error>)
        ensures
            final(self)@ == old(self)@.add_server(peer@),
            r == old(self)@.add_server_result(peer@),
            old(self)@.wf() ==> final(self)@.wf(),
    {
        if self.same_network(peer.get_network_identity()) {
            self.add_new_peer_conn(peer)
        } else {
            self.foreign_network_manager.add_peer_conn(peer)
        }
    }

    /// Registers a peer-side filter. It runs before every filter that was
    /// registered earlier.
    pub fn add_packet_process_pipeline(&mut self, pipeline: BoxPeerPacketFilter)
        ensures
            final(self)@ == (PeerManagerView {
                peer_pipeline: old(self)@.peer_pipeline.push(PeerFilterSlot::Custom(pipeline)),
                ..old(self)@
            }),
    {
        self.push_peer_filter(PeerFilterSlot::Custom(pipeline));
    }

    /// Registers an interface-side filter. It runs before every filter
    /// that was registered earlier.
    pub fn add_nic_packet_process_pipeline(&mut self, pipeline: BoxNicPacketFilter)
        ensures
            final(self)@ == (PeerManagerView {
                nic_pipeline: old(self)@.nic_pipeline.push((NicFilterSlot { filter: pipeline })),
                ..old(self)@
            }),
    {
        self.push_nic_filter(NicFilterSlot { filter: pipeline });
    }

    fn push_nic_filter(&mut self, slot: NicFilterSlot)
        ensures
            final(self)@ == (PeerManagerView {
                nic_pipeline: old(self)@.nic_pipeline.push(slot),
                ..old(self)@
            }),
    {
        self.nic_packet_process_pipeline.push(slot);
    }

    fn push_peer_filter(&mut self, slot: PeerFilterSlot)
        ensures
            final(self)@ == (PeerManagerView {
                peer_pipeline: old(self)@.peer_pipeline.push(slot),
                ..old(self)@
            }),
    {
        self.peer_packet_process_pipeline.push(slot);
    }

    /// Registers the two fixed filters: the one that takes data frames for
    /// the local interface, then the one that takes RPC frames.
    pub fn init_packet_process_pipeline(&mut self)
        ensures
            final(self)@ == (PeerManagerView {
                peer_pipeline: old(self)@.peer_pipeline.push(PeerFilterSlot::NicDelivery).push(
                    PeerFilterSlot::RpcDemux,
                ),
                ..old(self)@
            }),
    {
        self.push_peer_filter(PeerFilterSlot::NicDelivery);
        self.push_peer_filter(PeerFilterSlot::RpcDemux);
    }

    /// Registers the filter that takes route control frames for the route
    /// algorithm.
    pub fn add_route(&mut self)
        ensures
            final(self)@ == (PeerManagerView {
                peer_pipeline: old(self)@.peer_pipeline.push(PeerFilterSlot::Route),
                ..old(self)@
            }),
    {
        self.push_peer_filter(PeerFilterSlot::Route);
    }

    /// The peers that the route algorithm may talk to: those reached
    /// through a foreign network, then those with a direct connection.
    pub fn list_peers(&self) -> (ids: Vec<PeerId>)
        ensures
            ids@ == self@.foreign_client.route_dsts() + self@.peers.peer_ids_with_conn(),
    {
        let mut ids = self.foreign_network_client.list_foreign_peers();
        let mut direct = self.peers.list_peers_with_conn();
        ids.append(&mut direct);
        ids
    }

    /// Sends a control frame of the route algorithm to `dst_peer_id`:
    /// through the foreign network client where it has a next hop, else
    /// over a direct connection.
    pub fn send_route_packet(&mut self, msg: &Bytes, _route_id: u8, dst_peer_id: PeerId) -> (r: Result<
        (),
        Error,
    >)
        ensures
            ({
                let p = ZCPacketView {
                    header: PeerManagerHeader {
                        from_peer_id: old(self)@.my_peer_id(),
                        to_peer_id: dst_peer_id,
                        packet_type: PacketType::Route.spec_as_u8(),
                        ..PeerManagerHeader::spec_zeroed()
                    },
                    payload: bytes_contents(*msg),
                };
                if old(self)@.foreign_client.next_hop(dst_peer_id) is Some {
                    &&& final(self)@ == (PeerManagerView {
                        foreign_client: old(self)@.foreign_client.forward(p, dst_peer_id),
                        ..old(self)@
                    })
                    &&& r == old(self)@.foreign_client.forward_result(dst_peer_id)
                } else {
                    &&& final(self)@ == (PeerManagerView {
                        peers: old(self)@.peers.send_directly(p, dst_peer_id),
                        ..old(self)@
                    })
                    &&& r == old(self)@.peers.send_directly_result(dst_peer_id)
                }
            }),
            old(self)@.wf() ==> final(self)@.wf(),
    {
        let mut zc_packet = ZCPacket::new_with_payload(bytes_as_slice(msg));
        zc_packet.fill_peer_manager_hdr(
            self.peers.my_peer_id(),
            dst_peer_id,
            PacketType::Route.as_u8(),
        );
        if self.foreign_network_client.has_next_hop(dst_peer_id) {
            self.foreign_network_client.send_msg(zc_packet, dst_peer_id)
        } else {
            self.peers.send_msg_directly(zc_packet, dst_peer_id)
        }
    }

    /// Which route algorithm the node runs.
    pub fn get_route(&self) -> (algo: RouteAlgoType)
        requires
            self@.route_algo != RouteAlgoType::NoRoute,
        ensures
            algo == self@.route_algo,
    {
        self.route_algo_inst
    }

    /// The route table as the route algorithm published it last.
    pub fn list_routes(&self) -> (routes: Vec<RouteEntry>)
        requires
            self@.route_algo != RouteAlgoType::NoRoute,
        ensures
            routes@ == self@.peers.routes,
    {
        slice_to_vec(self.peers.get_routes().as_slice())
    }

    /// Publishes the route table of the route algorithm.
    pub fn set_routes(&mut self, routes: Vec<RouteEntry>)
        ensures
            final(self)@ == (PeerManagerView {
                peers: PeerMapView { routes: routes@, ..old(self)@.peers },
                ..old(self)@
            }),
            old(self)@.wf() ==> final(self)@.wf(),
    {
        self.peers.set_routes(routes);
    }

    /// Runs the interface-side filters over `data`: every filter once,
    /// the last one registered first, each on the frame as the filter
    /// before it left it.
    pub fn run_nic_packet_process_pipeline(&self, data: &mut ZCPacket)
        ensures
            nic_run(self@.nic_pipeline, self@.nic_pipeline.len(), old(data)@, final(data)@),
    {
        run_nic_pipeline(&self.nic_packet_process_pipeline, data);
    }

    /// Seals `msg`: with the node's cipher if it encrypts, else with the
    /// null cipher, which leaves it as it is. Any failure of the cipher is
    /// reported as `EncryptFailed`.
    fn encrypt(&self, msg: &mut ZCPacket) -> (r: Result<(), Error>)
        ensures
            self@.sealing(old(msg)@, final(msg)@, r),
    {
        if self.global_ctx.get_flags().enable_encryption {
            let answer = self.encryptor.cipher.encrypt(msg);
            proof {
                assert(self@.cipher_seals(old(msg)@, msg@, answer));
            }
            seal_report(answer)
        } else {
            let answer = NullCipher.encrypt(msg);
            proof {
                assert(self@.cipher_seals(old(msg)@, msg@, answer));
            }
            seal_report(answer)
        }
    }

    /// Opens `msg`: with the node's cipher if it encrypts, else with the
    /// null cipher. Answers whether that succeeded; a frame that cannot be
    /// opened goes on as the cipher left it.
    fn decrypt(&self, msg: &mut ZCPacket) -> (opened: bool)
        ensures
            self@.opening(old(msg)@, final(msg)@, opened),
    {
        if self.global_ctx.get_flags().enable_encryption {
            let answer = self.encryptor.cipher.decrypt(msg);
            proof {
                assert(self@.cipher_opens(old(msg)@, msg@, answer));
            }
            answer.is_ok()
        } else {
            let answer = NullCipher.decrypt(msg);
            proof {
                assert(self@.cipher_opens(old(msg)@, msg@, answer));
            }
            answer.is_ok()
        }
    }

    /// Sends `msg` towards `dst_peer_id` through the peer map.
    pub fn send_msg(&mut self, msg: ZCPacket, dst_peer_id: PeerId) -> (r: Result<(), Error>)
        ensures
            final(self)@ == (PeerManagerView {
                peers: old(self)@.peers.send(msg@, dst_peer_id),
                ..old(self)@
            }),
            r == old(self)@.peers.send_result(dst_peer_id),
            old(self)@.wf() ==> final(self)@.wf(),
    {
        self.peers.send_msg(msg, dst_peer_id)
    }

    /// Sends `msg`, readdressed to `dst`, to the destination `dst`.
    fn deliver(&mut self, msg: ZCPacket, dst: PeerId) -> (r: Result<(), Error>)
        ensures
            final(self)@ == old(self)@.deliver(msg@.with_to(dst), dst),
            r == old(self)@.deliver_result(dst),
            old(self)@.wf() ==> final(self)@.wf(),
    {
        let mut msg = msg;
        msg.set_to_peer_id(dst);
        match self.peers.get_gateway_peer_id(dst) {
            Some(gateway) => self.peers.send_msg_directly(msg, gateway),
            None => {
                if self.foreign_network_client.has_next_hop(dst) {
                    self.foreign_network_client.send_msg(msg, dst)
                } else {
                    Err(Error::RouteError(dst))
                }
            },
        }
    }

    /// Sends a copy of `msg` to each of `dst_peers`, each copy addressed
    /// to its destination, and reports the sends that failed.
    pub fn fan_out(&mut self, msg: ZCPacket, dst_peers: &Vec<PeerId>) -> (r: Result<(), Error>)
        ensures
            final(self)@ == old(self)@.fan_out(msg@, dst_peers@, dst_peers@.len()),
            reports(r, old(self)@.fan_out_errors(msg@, dst_peers@, dst_peers@.len())),
            old(self)@.wf() ==> final(self)@.wf(),
    {
        let ghost p = msg@;
        let mut errs: Vec<Error> = Vec::new();
        let mut msg = Some(msg);
        let total_dst_peers = dst_peers.len();
        let mut i: usize = 0;
        while i < total_dst_peers
            invariant
                i <= total_dst_peers,
                total_dst_peers == dst_peers@.len(),
                i < total_dst_peers ==> msg is Some && msg->0@ == p,
                self@ == old(self)@.fan_out(p, dst_peers@, i as nat),
                errs@ == old(self)@.fan_out_errors(p, dst_peers@, i as nat),
                old(self)@.wf() ==> self@.wf(),
            decreases total_dst_peers - i,
        {
            let one = if i == total_dst_peers - 1 {
                msg.take().unwrap()
            } else {
                msg.as_ref().unwrap().clone()
            };
            let peer_id = dst_peers[i];
            match self.deliver(one, peer_id) {
                Ok(_) => {},
                Err(e) => {
                    errs.push(e);
                },
            }
            i += 1;
        }
        if errs.len() == 0 {
            Ok(())
        } else {
            Err(Error::Aggregate(errs))
        }
    }

    /// The peers that a frame from the local interface for `ipv4_addr`
    /// goes to.
    pub fn dst_peers(&self, ipv4_addr: Ipv4Addr) -> (dsts: Vec<PeerId>)
        ensures
            dsts@ == self@.dst_peers(ipv4_addr),
    {
        let mut dsts: Vec<PeerId> = Vec::new();
        if ipv4_addr.addresses_all_peers() {
            let list = self.peers.list_routes();
            let mut i: usize = 0;
            while i < list.len()
                invariant
                    i <= list@.len(),
                    list@ == self@.peers.route_list(),
                    dsts@ == self@.peers.route_dsts().take(i as int),
                decreases list@.len() - i,
            {
                dsts.push(list[i].0);
                i += 1;
                assert(dsts@ =~= self@.peers.route_dsts().take(i as int));
            }
            assert(self@.peers.route_dsts().take(i as int) =~= self@.peers.route_dsts());
        } else {
            match self.peers.get_peer_id_by_ipv4(&ipv4_addr) {
                Some(peer_id) => {
                    dsts.push(peer_id);
                    assert(dsts@ =~= seq![peer_id]);
                },
                None => {},
            }
        }
        dsts
    }

    /// Sends a frame from the local interface to the peers that
    /// `ipv4_addr` stands for. Without such a peer nothing happens. Else
    /// the header is filled in, the interface-side filters run over the
    /// filled frame, the cipher seals what they left, and a copy of the
    /// sealed frame goes to each destination.
    pub fn send_msg_ipv4(&mut self, msg: ZCPacket, ipv4_addr: Ipv4Addr) -> (r: Result<(), Error>)
        ensures
            ({
                let dsts = old(self)@.dst_peers(ipv4_addr);
                let filled = msg@.with_hdr(
                    old(self)@.my_peer_id(),
                    0,
                    PacketType::Data.spec_as_u8(),
                );
                if dsts.len() == 0 {
                    final(self)@ == old(self)@ && r == Ok::<(), Error>(())
                } else {
                    exists|filtered: ZCPacketView, sealed: ZCPacketView, seal: Result<(), Error>|
                     #[trigger]
                        old(self)@.ipv4_send_admits(
                            final(self)@,
                            r,
                            filled,
                            dsts,
                            filtered,
                            sealed,
                            seal,
                        )
                }
            }),
            old(self)@.wf() ==> final(self)@.wf(),
    {
        let ghost first = msg@;
        let mut msg = msg;
        let dst_peers = self.dst_peers(ipv4_addr);
        if dst_peers.len() == 0 {
            return Ok(());
        }
        msg.fill_peer_manager_hdr(self.peers.my_peer_id(), 0, PacketType::Data.as_u8());
        let ghost filled = msg@;
        assert(filled == first.with_hdr(old(self)@.my_peer_id(), 0, PacketType::Data.spec_as_u8()));
        self.run_nic_packet_process_pipeline(&mut msg);
        let ghost filtered = msg@;
        let seal = self.encrypt(&mut msg);
        let ghost sealed = msg@;
        match seal {
            Ok(_) => {},
            Err(e) => {
                proof {
                    assert(old(self)@.ipv4_send_admits(
                        self@,
                        Err::<(), Error>(e),
                        filled,
                        dst_peers@,
                        filtered,
                        sealed,
                        Err::<(), Error>(e),
                    ));
                }
                return Err(e);
            },
        }
        let r = self.fan_out(msg, &dst_peers);
        proof {
            assert(old(self)@.ipv4_send_admits(
                self@,
                r,
                filled,
                dst_peers@,
                filtered,
                sealed,
                Ok::<(), Error>(()),
            ));
        }
        r
    }

    /// What the RPC transport does with a frame for `dst_peer_id`: it
    /// answers `Unknown` while the node has not published its foreign
    /// network client; else it encrypts the frame and sends it to the next
    /// hop in the peer map, or sends it through a foreign network,
    /// encrypted unless `dst_peer_id` is a public node.
    pub fn rpc_send(&mut self, msg: ZCPacket, dst_peer_id: PeerId) -> (r: Result<(), Error>)
        ensures
            !old(self)@.rpc_transport.foreign_peers ==> final(self)@ == old(self)@ && r == Err::<
                (),
                Error,
            >(Error::Unknown),
            old(self)@.rpc_transport.foreign_peers ==> exists|
                sealed: ZCPacketView,
                seal: Result<(), Error>,
            |
             #[trigger]
                old(self)@.rpc_send_admits(final(self)@, r, msg@, dst_peer_id, sealed, seal),
            old(self)@.wf() ==> final(self)@.wf(),
    {
        let mut msg = msg;
        let ghost first = msg@;
        if !self.peer_rpc_tspt.foreign_peers {
            return Err(Error::Unknown);
        }
        match self.peers.get_gateway_peer_id(dst_peer_id) {
            Some(gateway_id) => {
                let seal = self.encrypt(&mut msg);
                let ghost sealed = msg@;
                match seal {
                    Ok(_) => {},
                    Err(e) => {
                        proof {
                            assert(old(self)@.rpc_send_admits(
                                self@,
                                Err::<(), Error>(e),
                                first,
                                dst_peer_id,
                                sealed,
                                Err::<(), Error>(e),
                            ));
                        }
                        return Err(e);
                    },
                }
                let r = self.peers.send_msg_directly(msg, gateway_id);
                proof {
                    assert(old(self)@.rpc_send_admits(
                        self@,
                        r,
                        first,
                        dst_peer_id,
                        sealed,
                        Ok::<(), Error>(()),
                    ));
                }
                r
            },
            None => {
                if self.foreign_network_client.has_next_hop(dst_peer_id) {
                    if !self.foreign_network_client.is_peer_public_node(&dst_peer_id) {
                        let seal = self.encrypt(&mut msg);
                        let ghost sealed = msg@;
                        match seal {
                            Ok(_) => {},
                            Err(e) => {
                                proof {
                                    assert(old(self)@.rpc_send_admits(
                                        self@,
                                        Err::<(), Error>(e),
                                        first,
                                        dst_peer_id,
                                        sealed,
                                        Err::<(), Error>(e),
                                    ));
                                }
                                return Err(e);
                            },
                        }
                    }
                    let ghost sealed = msg@;
                    let r = self.foreign_network_client.send_msg(msg, dst_peer_id);
                    proof {
                        assert(old(self)@.rpc_send_admits(
                            self@,
                            r,
                            first,
                            dst_peer_id,
                            sealed,
                            Ok::<(), Error>(()),
                        ));
                    }
                    r
                } else {
                    proof {
                        assert(old(self)@.rpc_send_admits(
                            self@,
                            Err::<(), Error>(Error::RouteError(dst_peer_id)),
                            first,
                            dst_peer_id,
                            first,
                            Ok::<(), Error>(()),
                        ));
                    }
                    Err(Error::RouteError(dst_peer_id))
                }
            },
        }
    }

    /// Handles one frame that a peer sent. A frame for another node is
    /// sent on towards it. A frame for this node is opened and runs
    /// through the peer-side filters.
    pub fn handle_peer_packet(&mut self, packet: ZCPacket) -> (out: PeerRecvOutcome)
        ensures
            old(self)@.recv_admits(final(self)@, packet@, out),
            old(self)@.wf() ==> final(self)@.wf(),
    {
        let mut packet = packet;
        let ghost first = packet@;
        let to_peer_id = packet.peer_manager_header().to_peer_id;
        if to_peer_id != self.peers.my_peer_id() {
            let r = self.peers.send_msg(packet, to_peer_id);
            return PeerRecvOutcome::Forwarded(r);
        }
        let opened = self.decrypt(&mut packet);
        let ghost left = packet@;
        let outcome = run_peer_pipeline(
            &self.peer_packet_process_pipeline,
            self.peers.my_peer_id(),
            packet,
        );
        proof {
            assert(old(self)@.local_recv_admits(first, left, opened, outcome));
        }
        let out = PeerRecvOutcome::Local { opened, outcome };
        proof {
            let before = old(self)@;
            assert(out matches PeerRecvOutcome::Local { opened: a, outcome: b }
                && before.local_recv_admits(first, left, a, b));
        }
        out
    }

    /// Handles one frame as it came off a connection: a frame too short
    /// for a header is dropped, any other is handled as
    /// `handle_peer_packet` says.
    pub fn handle_peer_frame(&mut self, frame: &[u8]) -> (out: PeerRecvOutcome)
        ensures
            match spec_parse_frame(frame@) {
                None => out == PeerRecvOutcome::Invalid && final(self)@ == old(self)@,
                Some(packet) => old(self)@.recv_admits(final(self)@, packet, out),
            },
            old(self)@.wf() ==> final(self)@.wf(),
    {
        match ZCPacket::from_bytes(frame) {
            None => PeerRecvOutcome::Invalid,
            Some(packet) => self.handle_peer_packet(packet),
        }
    }

    /// Removes the peers without a connection from the peer map. The
    /// embedding program calls this every `CLEAN_PEER_INTERVAL_SECS`
    /// seconds.
    pub fn clean_peer_without_conn(&mut self)
        ensures
            final(self)@ == (PeerManagerView { peers: old(self)@.peers.reap(), ..old(self)@ }),
            final(self)@.peers.reaped(),
            old(self)@.wf() ==> final(self)@.wf(),
    {
        self.peers.clean_peer_without_conn();
    }

    /// Closes a connection of the peer map, as `PeerMap::close_peer_conn`
    /// does.
    pub fn close_peer_conn(&mut self, peer_id: PeerId, conn_id: &PeerConnId) -> (found: bool)
        ensures
            final(self)@ == (PeerManagerView {
                peers: old(self)@.peers.close_conn(peer_id, *conn_id),
                ..old(self)@
            }),
            found == old(self)@.peers.has_conn_id(peer_id, *conn_id),
            old(self)@.wf() ==> final(self)@.wf(),
    {
        self.peers.close_peer_conn(peer_id, conn_id)
    }

    /// Takes the frames that wait on a connection of the peer map, for
    /// writing.
    pub fn take_outbound(&mut self, peer_id: PeerId, conn_id: &PeerConnId) -> (out: Vec<ZCPacket>)
        ensures
            packets_view(out@) == old(self)@.peers.outbound(peer_id, *conn_id),
            final(self)@ == (PeerManagerView {
                peers: old(self)@.peers.take_outbound(peer_id, *conn_id),
                ..old(self)@
            }),
            old(self)@.wf() ==> final(self)@.wf(),
    {
        self.peers.take_outbound(peer_id, conn_id)
    }

    /// Takes the frames that wait on a connection of the foreign network
    /// client, for writing.
    pub fn take_foreign_outbound(&mut self, peer_id: PeerId, conn_id: &PeerConnId) -> (out: Vec<
        ZCPacket,
    >)
        ensures
            packets_view(out@) == old(self)@.foreign_client.outbound(peer_id, *conn_id),
            final(self)@ == (PeerManagerView {
                foreign_client: old(self)@.foreign_client.take_outbound(peer_id, *conn_id),
                ..old(self)@
            }),
            old(self)@.wf() ==> final(self)@.wf(),
    {
        self.foreign_network_client.take_outbound(peer_id, conn_id)
    }

    /// Closes a connection of the foreign network client.
    pub fn close_foreign_peer_conn(&mut self, peer_id: PeerId, conn_id: &PeerConnId) -> (found: bool)
        ensures
            final(self)@ == (PeerManagerView {
                foreign_client: old(self)@.foreign_client.close_conn(peer_id, *conn_id),
                ..old(self)@
            }),
            found == old(self)@.foreign_client.has_conn_id(peer_id, *conn_id),
            old(self)@.wf() ==> final(self)@.wf(),
    {
        self.foreign_network_client.close_peer_conn(peer_id, conn_id)
    }

    /// Removes the peers without a connection from the foreign network
    /// client.
    pub fn clean_foreign_peer_without_conn(&mut self)
        ensures
            final(self)@ == (PeerManagerView {
                foreign_client: old(self)@.foreign_client.reap(),
                ..old(self)@
            }),
            final(self)@.foreign_client.reaped(),
            old(self)@.wf() ==> final(self)@.wf(),
    {
        self.foreign_network_client.clean_peer_without_conn();
    }

    /// Closes a connection that a peer of the foreign network called as
    /// `network` is opened to this node.
    pub fn close_foreign_network_conn(
        &mut self,
        network: &NetworkIdentity,
        peer_id: PeerId,
        conn_id: &PeerConnId,
    ) -> (found: bool)
        ensures
            final(self)@ == (PeerManagerView {
                foreign_manager: old(self)@.foreign_manager.with_peer_map(
                    network@.network_name,
                    old(self)@.foreign_manager.peer_map_of(network@.network_name).close_conn(
                        peer_id,
                        *conn_id,
                    ),
                ),
                ..old(self)@
            }),
            found == old(self)@.foreign_manager.peer_map_of(network@.network_name).has_conn_id(
                peer_id,
                *conn_id,
            ),
            old(self)@.wf() ==> final(self)@.wf(),
    {
        self.foreign_network_manager.close_peer_conn(network, peer_id, conn_id)
    }

    /// Takes the frames that wait on such a connection, for writing.
    pub fn take_foreign_network_outbound(
        &mut self,
        network: &NetworkIdentity,
        peer_id: PeerId,
        conn_id: &PeerConnId,
    ) -> (out: Vec<ZCPacket>)
        ensures
            packets_view(out@) == old(self)@.foreign_manager.peer_map_of(
                network@.network_name,
            ).outbound(peer_id, *conn_id),
            final(self)@ == (PeerManagerView {
                foreign_manager: old(self)@.foreign_manager.with_peer_map(
                    network@.network_name,
                    old(self)@.foreign_manager.peer_map_of(network@.network_name).take_outbound(
                        peer_id,
                        *conn_id,
                    ),
                ),
                ..old(self)@
            }),
            old(self)@.wf() ==> final(self)@.wf(),
    {
        self.foreign_network_manager.take_outbound(network, peer_id, conn_id)
    }

    /// Whether a remote that presents `identity` names this node's
    /// network: its connection then belongs in the peer map, else in a
    /// foreign network component.
    pub fn same_network(&self, identity: &NetworkIdentity) -> (r: bool)
        ensures
            r == (identity@.network_name == self@.network_identity().network_name),
    {
        identity.same_network(self.global_ctx.get_network_identity())
    }

    /// Publishes what the public nodes told of the peers behind them.
    pub fn set_foreign_routes(&mut self, routes: Vec<RouteEntry>)
        ensures
            final(self)@ == (PeerManagerView {
                foreign_client: PeerMapView { routes: routes@, ..old(self)@.foreign_client },
                ..old(self)@
            }),
            old(self)@.wf() ==> final(self)@.wf(),
    {
        self.foreign_network_client.set_routes(routes);
    }

    /// Takes the frames that were sent to this node itself; each is to be
    /// handed to `handle_peer_packet`.
    pub fn take_loopback(&mut self) -> (out: Vec<ZCPacket>)
        ensures
            packets_view(out@) == old(self)@.peers.loopback,
            final(self)@ == (PeerManagerView {
                peers: PeerMapView { loopback: Seq::empty(), ..old(self)@.peers },
                ..old(self)@
            }),
            old(self)@.wf() ==> final(self)@.wf(),
    {
        self.peers.take_loopback()
    }

    /// Starts the node: publishes the foreign network client to the RPC
    /// transport and registers the route filter, if the node has a route
    /// algorithm, and the two fixed filters. A second call changes
    /// nothing.
    pub fn run(&mut self) -> (r: Result<(), Error>)
        ensures
            final(self)@ == old(self)@.started(),
            r == Ok::<(), Error>(()),
    {
        if self.running {
            return Ok(());
        }
        match self.route_algo_inst {
            RouteAlgoType::NoRoute => {},
            _ => {
                self.add_route();
            },
        }
        self.init_packet_process_pipeline();
        self.peer_rpc_tspt.foreign_peers = true;
        self.running = true;
        Ok(())
    }

    pub fn get_peer_map(&self) -> (m: &PeerMap)
        ensures
            m@ == self@.peers,
    {
        &self.peers
    }

    pub fn my_node_id(&self) -> (id: Uuid)
        ensures
            id == self@.global_ctx.id,
    {
        self.global_ctx.get_id()
    }

    pub fn my_peer_id(&self) -> (id: PeerId)
        ensures
            id == self@.my_peer_id(),
    {
        self.peers.my_peer_id()
    }

    pub fn get_global_ctx(&self) -> (ctx: &GlobalCtx)
        ensures
            ctx@ == self@.global_ctx,
    {
        &self.global_ctx
    }

    pub fn get_foreign_network_manager(&self) -> (m: &ForeignNetworkManager)
        ensures
            m@ == self@.foreign_manager,
    {
        &self.foreign_network_manager
    }

    pub fn get_foreign_network_client(&self) -> (c: &ForeignNetworkClient)
        ensures
            c@ == self@.foreign_client,
    {
        &self.foreign_network_client
    }

    /// What the RPC transport holds of the node.
    pub fn get_rpc_transport(&self) -> (t: RpcTransport)
        ensures
            t == self@.rpc_transport,
    {
        self.peer_rpc_tspt
    }

    pub fn is_running(&self) -> (r: bool)
        ensures
            r == self@.running,
    {
        self.running
    }
}

} // verus!

