//! The table of a node's direct connections, keyed by the remote peer, with
//! the routes that the route algorithm published last.

use vstd::prelude::*;
use crate::common::Ipv4Addr;
use crate::error::Error;
use crate::packet::{PeerId, ZCPacket, ZCPacketView};
use crate::peer_conn::{packets_view, PeerConn, PeerConnId, PeerConnView};
use crate::search::{
    first_index, lemma_first_index, lemma_first_index_is, lemma_first_index_none, vec_contains,
};

verus! {

/// One line of the route table: `peer_id` is reached through the direct
/// peer `next_hop_peer_id`, and owns `ipv4_addr` in the virtual network.
#[derive(Clone, Copy, Debug, PartialEq, Eq)]
pub struct RouteEntry {
    pub peer_id: PeerId,
    pub next_hop_peer_id: PeerId,
    pub ipv4_addr: Option<Ipv4Addr>,
}

/// What the table holds of one remote peer.
pub struct PeerView {
    pub peer_id: PeerId,
    pub conns: Seq<PeerConnView>,
    /// Counter by which the connection for the next frame is chosen.
    pub next_conn: nat,
}

impl PeerView {
    /// The connection that takes the next frame.
    pub open spec fn chosen(self) -> int {
        (self.next_conn % self.conns.len()) as int
    }

    /// The entry after `packet` was handed to the chosen connection.
    pub open spec fn spec_send(self, packet: ZCPacketView) -> PeerView {
        let k = self.chosen();
        PeerView {
            conns: self.conns.update(k, self.conns[k].spec_send(packet)),
            next_conn: ((k + 1) % (self.conns.len() as int)) as nat,
            ..self
        }
    }

    /// Index of the first connection called `conn_id`, or the number of
    /// connections if there is none.
    pub open spec fn conn_index(self, conn_id: PeerConnId) -> int {
        first_index(self.conns.len(), |k: int| self.conns[k].conn_id == conn_id)
    }

    /// The entry without the connections called `conn_id`.
    pub open spec fn without_conn(self, conn_id: PeerConnId) -> PeerView {
        PeerView { conns: self.conns.filter(|c: PeerConnView| c.conn_id != conn_id), ..self }
    }

    /// The frames that wait on the connection `conn_id`.
    pub open spec fn outbound(self, conn_id: PeerConnId) -> Seq<ZCPacketView> {
        if self.conn_index(conn_id) < self.conns.len() {
            self.conns[self.conn_index(conn_id)].tx
        } else {
            Seq::empty()
        }
    }

    /// The entry after those frames were taken.
    pub open spec fn taken(self, conn_id: PeerConnId) -> PeerView {
        let k = self.conn_index(conn_id);
        if k < self.conns.len() {
            PeerView {
                conns: self.conns.update(k, PeerConnView { tx: Seq::empty(), ..self.conns[k] }),
                ..self
            }
        } else {
            self
        }
    }

    /// Whether `other` is this entry but for what is queued and for the
    /// counter.
    pub open spec fn same_shape(self, other: PeerView) -> bool {
        &&& self.peer_id == other.peer_id
        &&& self.conns.len() == other.conns.len()
        &&& forall|k: int|
            0 <= k < self.conns.len() ==> (#[trigger] self.conns[k]).closed == other.conns[k].closed
                && self.conns[k].peer_id == other.conns[k].peer_id && self.conns[k].conn_id
                == other.conns[k].conn_id
    }

    /// Every connection of the entry is open and leads to the entry's peer.
    pub open spec fn wf(self) -> bool {
        forall|k: int|
            0 <= k < self.conns.len() ==> !(#[trigger] self.conns[k]).closed && self.conns[k].peer_id
                == self.peer_id
    }
}

/// No two entries are for the same peer.
pub open spec fn ids_distinct(peers: Seq<PeerView>) -> bool {
    forall|i: int, j: int|
        0 <= i < j < peers.len() ==> (#[trigger] peers[i]).peer_id != (#[trigger] peers[j]).peer_id
}

/// Every entry is well formed.
pub open spec fn entries_wf(peers: Seq<PeerView>) -> bool {
    forall|i: int| 0 <= i < peers.len() ==> (#[trigger] peers[i]).wf()
}

/// Number of frames that wait on the connections of a list.
pub open spec fn conns_queued(conns: Seq<PeerConnView>) -> nat
    decreases conns.len(),
{
    if conns.len() == 0 {
        0
    } else {
        conns_queued(conns.drop_last()) + conns.last().tx.len()
    }
}

/// Number of frames that wait on the connections of the entries of a list.
pub open spec fn peers_queued(peers: Seq<PeerView>) -> nat
    decreases peers.len(),
{
    if peers.len() == 0 {
        0
    } else {
        peers_queued(peers.drop_last()) + conns_queued(peers.last().conns)
    }
}

/// What a peer map is.
pub struct PeerMapView {
    pub my_peer_id: PeerId,
    /// One entry for each remote peer, in the order in which they were
    /// first seen.
    pub peers: Seq<PeerView>,
    /// The route table as it was published last.
    pub routes: Seq<RouteEntry>,
    /// Frames addressed to this node itself, waiting to be received.
    pub loopback: Seq<ZCPacketView>,
}

impl PeerMapView {
    /// Index of the entry of peer `p`, or the number of entries if it has
    /// none.
    pub open spec fn peer_index(self, p: PeerId) -> int {
        first_index(self.peers.len(), |i: int| self.peers[i].peer_id == p)
    }

    /// Whether the table has an entry for `p`.
    pub open spec fn has_peer(self, p: PeerId) -> bool {
        self.peer_index(p) < self.peers.len()
    }

    /// The connections to `p`.
    pub open spec fn conns_of(self, p: PeerId) -> Seq<PeerConnView> {
        if self.has_peer(p) {
            self.peers[self.peer_index(p)].conns
        } else {
            Seq::empty()
        }
    }

    /// Whether a direct connection to `p` exists.
    pub open spec fn has_conn(self, p: PeerId) -> bool {
        self.conns_of(p).len() > 0
    }

    /// No peer has two entries, and every entry is well formed.
    pub open spec fn wf(self) -> bool {
        ids_distinct(self.peers) && entries_wf(self.peers)
    }

    /// Whether `other` is this table but for what is queued and for the
    /// counters: the same peers in the same places with the same
    /// connections, and the same routes.
    pub open spec fn same_shape(self, other: PeerMapView) -> bool {
        &&& self.my_peer_id == other.my_peer_id
        &&& self.routes == other.routes
        &&& self.peers.len() == other.peers.len()
        &&& forall|i: int|
            0 <= i < self.peers.len() ==> (#[trigger] self.peers[i]).same_shape(other.peers[i])
    }

    /// No entry is without a connection.
    pub open spec fn reaped(self) -> bool {
        forall|i: int| 0 <= i < self.peers.len() ==> (#[trigger] self.peers[i]).conns.len() > 0
    }

    /// The table after the connection `c` was added: a closed connection
    /// is dropped at once, an open one joins the entry of its peer, which
    /// is made at the end of the table if the peer is new.
    pub open spec fn add_conn(self, c: PeerConnView) -> PeerMapView {
        if c.closed {
            self
        } else if self.has_peer(c.peer_id) {
            let i = self.peer_index(c.peer_id);
            let e = self.peers[i];
            PeerMapView { peers: self.peers.update(i, PeerView { conns: e.conns.push(c), ..e }), ..self }
        } else {
            PeerMapView {
                peers: self.peers.push(PeerView { peer_id: c.peer_id, conns: seq![c], next_conn: 0 }),
                ..self
            }
        }
    }

    /// The table after `packet` was sent to the direct peer `dst`.
    pub open spec fn send_directly(self, packet: ZCPacketView, dst: PeerId) -> PeerMapView {
        if self.has_conn(dst) {
            let i = self.peer_index(dst);
            PeerMapView { peers: self.peers.update(i, self.peers[i].spec_send(packet)), ..self }
        } else {
            self
        }
    }

    /// What sending `packet` to the direct peer `dst` answers: a route
    /// error without a connection to `dst`, `Unknown` if the chosen
    /// connection is closed.
    pub open spec fn send_directly_result(self, dst: PeerId) -> Result<(), Error> {
        if !self.has_conn(dst) {
            Err(Error::RouteError(dst))
        } else {
            let e = self.peers[self.peer_index(dst)];
            e.conns[e.chosen()].spec_send_result()
        }
    }

    /// Whether line `i` of the route table leads to `dst` through a peer
    /// that has an entry.
    pub open spec fn route_usable(self, i: int, dst: PeerId) -> bool {
        self.routes[i].peer_id == dst && self.has_peer(self.routes[i].next_hop_peer_id)
    }

    /// Index of the first usable line for `dst`, or the number of lines.
    pub open spec fn route_index(self, dst: PeerId) -> int {
        first_index(self.routes.len(), |i: int| self.route_usable(i, dst))
    }

    /// The direct peer through which `dst` is reached: `dst` itself where
    /// it has an entry, else the next hop of the first usable route line.
    /// This node itself has no next hop.
    pub open spec fn next_hop(self, dst: PeerId) -> Option<PeerId> {
        if dst == self.my_peer_id {
            None
        } else if self.has_peer(dst) {
            Some(dst)
        } else if self.route_index(dst) < self.routes.len() {
            Some(self.routes[self.route_index(dst)].next_hop_peer_id)
        } else {
            None
        }
    }

    /// Whether line `i` of the route table gives `ip` to a peer that can
    /// be reached.
    pub open spec fn ipv4_usable(self, i: int, ip: Ipv4Addr) -> bool {
        self.routes[i].ipv4_addr == Some(ip) && self.next_hop(self.routes[i].peer_id) is Some
    }

    /// Index of the first such line for `ip`, or the number of lines.
    pub open spec fn ipv4_index(self, ip: Ipv4Addr) -> int {
        first_index(self.routes.len(), |i: int| self.ipv4_usable(i, ip))
    }

    /// The peer that owns `ip`, if a path to it exists.
    pub open spec fn peer_id_by_ipv4(self, ip: Ipv4Addr) -> Option<PeerId> {
        if self.ipv4_index(ip) < self.routes.len() {
            Some(self.routes[self.ipv4_index(ip)].peer_id)
        } else {
            None
        }
    }

    /// The table after `packet` was handed to the next hop of `dst`.
    pub open spec fn forward(self, packet: ZCPacketView, dst: PeerId) -> PeerMapView {
        match self.next_hop(dst) {
            Some(gateway) => self.send_directly(packet, gateway),
            None => self,
        }
    }

    /// What handing a packet to the next hop of `dst` answers: a route
    /// error that names `dst` where it has no next hop.
    pub open spec fn forward_result(self, dst: PeerId) -> Result<(), Error> {
        match self.next_hop(dst) {
            Some(gateway) => self.send_directly_result(gateway),
            None => Err(Error::RouteError(dst)),
        }
    }

    /// The table after `packet` was sent towards `dst`: onto the loopback
    /// queue if `dst` is this node, else to the next hop of `dst`.
    pub open spec fn send(self, packet: ZCPacketView, dst: PeerId) -> PeerMapView {
        if dst == self.my_peer_id {
            PeerMapView { loopback: self.loopback.push(packet), ..self }
        } else {
            self.forward(packet, dst)
        }
    }

    /// What sending a packet towards `dst` answers.
    pub open spec fn send_result(self, dst: PeerId) -> Result<(), Error> {
        if dst == self.my_peer_id {
            Ok(())
        } else {
            self.forward_result(dst)
        }
    }

    /// The peers that have an entry, in the order of the table.
    pub open spec fn peer_ids(self) -> Seq<PeerId> {
        self.peers.map_values(|e: PeerView| e.peer_id)
    }

    /// The peers with at least one connection, in the order of the table.
    pub open spec fn peer_ids_with_conn(self) -> Seq<PeerId> {
        self.peers.filter(|e: PeerView| e.conns.len() > 0).map_values(|e: PeerView| e.peer_id)
    }

    /// The peers among the first `n` entries that a frame can be sent to,
    /// each once.
    pub open spec fn dsts_of_peers(self, n: nat) -> Seq<PeerId>
        decreases n,
    {
        if n == 0 {
            Seq::empty()
        } else {
            let prev = self.dsts_of_peers((n - 1) as nat);
            let d = self.peers[n - 1].peer_id;
            if d != self.my_peer_id && !prev.contains(d) {
                prev.push(d)
            } else {
                prev
            }
        }
    }

    /// The peers with an entry, then the destinations of the first `n`
    /// route lines that have a next hop, each once.
    pub open spec fn dsts_of_routes(self, n: nat) -> Seq<PeerId>
        decreases n,
    {
        if n == 0 {
            self.dsts_of_peers(self.peers.len())
        } else {
            let prev = self.dsts_of_routes((n - 1) as nat);
            let d = self.routes[n - 1].peer_id;
            if self.next_hop(d) is Some && !prev.contains(d) {
                prev.push(d)
            } else {
                prev
            }
        }
    }

    /// Every destination that has a next hop: the direct peers in the
    /// order of the table, then the routed ones in the order of the route
    /// table.
    pub open spec fn route_dsts(self) -> Seq<PeerId> {
        self.dsts_of_routes(self.routes.len())
    }

    /// Every destination that has a next hop, with that next hop.
    pub open spec fn route_list(self) -> Seq<(PeerId, PeerId)> {
        self.route_dsts().map_values(|d: PeerId| (d, self.next_hop(d).unwrap()))
    }

    /// The table after the entries without a connection were removed, and
    /// with them the route lines whose next hop has no entry any more.
    pub open spec fn reap(self) -> PeerMapView {
        let kept = PeerMapView { peers: self.peers.filter(|e: PeerView| e.conns.len() > 0), ..self };
        PeerMapView {
            routes: self.routes.filter(|r: RouteEntry| kept.has_peer(r.next_hop_peer_id)),
            ..kept
        }
    }

    /// Whether the peer `p` has a connection called `conn_id`.
    pub open spec fn has_conn_id(self, p: PeerId, conn_id: PeerConnId) -> bool {
        self.has_peer(p) && self.peers[self.peer_index(p)].conn_index(conn_id)
            < self.peers[self.peer_index(p)].conns.len()
    }

    /// The table after the connections of `p` called `conn_id` were
    /// closed: they are dropped from the entry, which stays.
    pub open spec fn close_conn(self, p: PeerId, conn_id: PeerConnId) -> PeerMapView {
        if self.has_peer(p) {
            let i = self.peer_index(p);
            PeerMapView { peers: self.peers.update(i, self.peers[i].without_conn(conn_id)), ..self }
        } else {
            self
        }
    }

    /// The frames that wait on the connection `conn_id` to `p`.
    pub open spec fn outbound(self, p: PeerId, conn_id: PeerConnId) -> Seq<ZCPacketView> {
        if self.has_peer(p) {
            self.peers[self.peer_index(p)].outbound(conn_id)
        } else {
            Seq::empty()
        }
    }

    /// The table after those frames were taken.
    pub open spec fn take_outbound(self, p: PeerId, conn_id: PeerConnId) -> PeerMapView {
        if self.has_peer(p) {
            let i = self.peer_index(p);
            PeerMapView { peers: self.peers.update(i, self.peers[i].taken(conn_id)), ..self }
        } else {
            self
        }
    }

    /// Number of frames that wait on the connections of the table.
    pub open spec fn queued(self) -> nat {
        peers_queued(self.peers)
    }
}

/// The connections to one remote peer.
#[derive(Debug)]
pub struct Peer {
    peer_id: PeerId,
    conns: Vec<PeerConn>,
    next_conn: usize,
}

/// The connections of a list, each by its view.
pub open spec fn conns_view(s: Seq<PeerConn>) -> Seq<PeerConnView> {
    s.map_values(|c: PeerConn| c@)
}

impl View for Peer {
    type V = PeerView;

    closed spec fn view(&self) -> PeerView {
        PeerView {
            peer_id: self.peer_id,
            conns: conns_view(self.conns@),
            next_conn: self.next_conn as nat,
        }
    }
}

/// The entries of a list, each by its view.
pub open spec fn peers_view(s: Seq<Peer>) -> Seq<PeerView> {
    s.map_values(|e: Peer| e@)
}

/// The direct connections of a node and its routes.
#[derive(Debug)]
pub struct PeerMap {
    my_peer_id: PeerId,
    peers: Vec<Peer>,
    routes: Vec<RouteEntry>,
    loopback: Vec<ZCPacket>,
}

impl View for PeerMap {
    type V = PeerMapView;

    closed spec fn view(&self) -> PeerMapView {
        PeerMapView {
            my_peer_id: self.my_peer_id,
            peers: peers_view(self.peers@),
            routes: self.routes@,
            loopback: packets_view(self.loopback@),
        }
    }
}

impl PeerMap {
    /// The empty table of node `my_peer_id`.
    pub fn new(my_peer_id: PeerId) -> (m: PeerMap)
        ensures
            m@ == (PeerMapView {
                my_peer_id,
                peers: Seq::empty(),
                routes: Seq::empty(),
                loopback: Seq::empty(),
            }),
            m@.wf(),
            m@.reaped(),
    {
        let m = PeerMap { my_peer_id, peers: Vec::new(), routes: Vec::new(), loopback: Vec::new() };
        assert(peers_view(m.peers@) =~= Seq::empty());
        assert(packets_view(m.loopback@) =~= Seq::empty());
        m
    }

    pub fn my_peer_id(&self) -> (id: PeerId)
        ensures
            id == self@.my_peer_id,
    {
        self.my_peer_id
    }

    /// Index of the entry of `peer_id`; the number of entries if there is
    /// none.
    fn find_peer(&self, peer_id: PeerId) -> (i: usize)
        ensures
            i == self@.peer_index(peer_id),
            i <= self.peers@.len(),
    {
        let ghost pred = |i: int| self@.peers[i].peer_id == peer_id;
        let mut i: usize = 0;
        while i < self.peers.len()
            invariant
                i <= self.peers@.len(),
                pred == (|i: int| self@.peers[i].peer_id == peer_id),
                forall|j: int| 0 <= j < i ==> !#[trigger] pred(j),
            decreases self.peers@.len() - i,
        {
            if self.peers[i].peer_id == peer_id {
                proof {
                    assert(pred(i as int));
                    lemma_first_index_is(self@.peers.len(), pred, i as int);
                }
                return i;
            }
            i += 1;
        }
        proof {
            lemma_first_index_none(self@.peers.len(), pred);
        }
        i
    }

    pub fn has_peer(&self, peer_id: PeerId) -> (r: bool)
        ensures
            r == self@.has_peer(peer_id),
    {
        self.find_peer(peer_id) < self.peers.len()
    }

    /// Adds a connection under its remote peer.
    pub fn add_new_peer_conn(&mut self, peer_conn: PeerConn)
        ensures
            final(self)@ == old(self)@.add_conn(peer_conn@),
            old(self)@.wf() ==> final(self)@.wf(),
            old(self)@.wf() && old(self)@.reaped() ==> final(self)@.reaped(),
    {
        proof {
            if self@.wf() {
                self@.lemma_add_conn_wf(peer_conn@);
            }
        }
        if peer_conn.is_closed() {
            return ;
        }
        let peer_id = peer_conn.get_peer_id();
        let i = self.find_peer(peer_id);
        if i < self.peers.len() {
            let ghost c = peer_conn@;
            let ghost before = self.peers@[i as int]@;
            self.peers[i].conns.push(peer_conn);
            proof {
                assert(conns_view(self.peers@[i as int].conns@) =~= before.conns.push(c));
                assert(peers_view(self.peers@) =~= peers_view(old(self).peers@).update(
                    i as int,
                    PeerView { conns: before.conns.push(c), ..before },
                ));
            }
        } else {
            let ghost c = peer_conn@;
            let mut conns: Vec<PeerConn> = Vec::new();
            conns.push(peer_conn);
            let entry = Peer { peer_id, conns, next_conn: 0 };
            proof {
                assert(conns_view(entry.conns@) =~= seq![c]);
            }
            let ghost e = entry@;
            self.peers.push(entry);
            proof {
                assert(peers_view(self.peers@) =~= peers_view(old(self).peers@).push(e));
            }
        }
    }

    /// Sends `msg` over a direct connection to `dst_peer_id`, taking the
    /// connections to that peer in turn.
    pub fn send_msg_directly(&mut self, msg: ZCPacket, dst_peer_id: PeerId) -> (r: Result<(), Error>)
        ensures
            final(self)@ == old(self)@.send_directly(msg@, dst_peer_id),
            r == old(self)@.send_directly_result(dst_peer_id),
            old(self)@.wf() ==> final(self)@.wf(),
    {
        proof {
            self@.lemma_send_directly_shape(msg@, dst_peer_id);
        }
        let i = self.find_peer(dst_peer_id);
        if i >= self.peers.len() {
            return Err(Error::RouteError(dst_peer_id));
        }
        let n = self.peers[i].conns.len();
        if n == 0 {
            return Err(Error::RouteError(dst_peer_id));
        }
        let ghost before = self.peers@[i as int]@;
        let ghost p = msg@;
        let k = self.peers[i].next_conn % n;
        let r = self.peers[i].conns[k].send(msg);
        self.peers[i].next_conn = (k + 1) % n;
        proof {
            assert(conns_view(self.peers@[i as int].conns@) =~= before.conns.update(
                k as int,
                before.conns[k as int].spec_send(p),
            ));
            assert(self.peers@[i as int]@ == before.spec_send(p));
            assert(peers_view(self.peers@) =~= peers_view(old(self).peers@).update(
                i as int,
                before.spec_send(p),
            ));
        }
        r
    }
    /// Index of the first usable route line for `dst`; the number of
    /// lines if there is none.
    fn find_route(&self, dst: PeerId) -> (i: usize)
        ensures
            i == self@.route_index(dst),
            i <= self.routes@.len(),
    {
        let ghost pred = |i: int| self@.route_usable(i, dst);
        let mut i: usize = 0;
        while i < self.routes.len()
            invariant
                i <= self.routes@.len(),
                pred == (|i: int| self@.route_usable(i, dst)),
                forall|j: int| 0 <= j < i ==> !#[trigger] pred(j),
            decreases self.routes@.len() - i,
        {
            if self.routes[i].peer_id == dst && self.has_peer(self.routes[i].next_hop_peer_id) {
                proof {
                    assert(pred(i as int));
                    lemma_first_index_is(self@.routes.len(), pred, i as int);
                }
                return i;
            }
            i += 1;
        }
        proof {
            lemma_first_index_none(self@.routes.len(), pred);
        }
        i
    }

    /// The direct peer through which `dst_peer_id` is reached, if it can
    /// be reached and is not this node.
    pub fn get_gateway_peer_id(&self, dst_peer_id: PeerId) -> (r: Option<PeerId>)
        ensures
            r == self@.next_hop(dst_peer_id),
    {
        if dst_peer_id == self.my_peer_id {
            return None;
        }
        if self.has_peer(dst_peer_id) {
            return Some(dst_peer_id);
        }
        let i = self.find_route(dst_peer_id);
        if i < self.routes.len() {
            Some(self.routes[i].next_hop_peer_id)
        } else {
            None
        }
    }

    /// Sends `msg` towards `dst_peer_id`: to this node's own receive queue
    /// if it is addressed to this node, else to the next hop.
    pub fn send_msg(&mut self, msg: ZCPacket, dst_peer_id: PeerId) -> (r: Result<(), Error>)
        ensures
            final(self)@ == old(self)@.send(msg@, dst_peer_id),
            r == old(self)@.send_result(dst_peer_id),
            old(self)@.wf() ==> final(self)@.wf(),
    {
        proof {
            if self@.wf() {
                self@.lemma_send_wf(msg@, dst_peer_id);
            }
        }
        if dst_peer_id == self.my_peer_id {
            let ghost p = msg@;
            self.loopback.push(msg);
            proof {
                assert(packets_view(self.loopback@) =~= packets_view(old(self).loopback@).push(p));
            }
            return Ok(());
        }
        self.forward_msg(msg, dst_peer_id)
    }

    /// Hands `msg` to the next hop of `dst_peer_id`.
    pub fn forward_msg(&mut self, msg: ZCPacket, dst_peer_id: PeerId) -> (r: Result<(), Error>)
        ensures
            final(self)@ == old(self)@.forward(msg@, dst_peer_id),
            r == old(self)@.forward_result(dst_peer_id),
            old(self)@.wf() ==> final(self)@.wf(),
    {
        match self.get_gateway_peer_id(dst_peer_id) {
            Some(gateway) => self.send_msg_directly(msg, gateway),
            None => Err(Error::RouteError(dst_peer_id)),
        }
    }

    /// The peer that owns `ipv4` in the virtual network, if a path to it
    /// exists.
    pub fn get_peer_id_by_ipv4(&self, ipv4: &Ipv4Addr) -> (r: Option<PeerId>)
        ensures
            r == self@.peer_id_by_ipv4(*ipv4),
    {
        let ghost pred = |i: int| self@.ipv4_usable(i, *ipv4);
        let mut i: usize = 0;
        while i < self.routes.len()
            invariant
                i <= self.routes@.len(),
                pred == (|i: int| self@.ipv4_usable(i, *ipv4)),
                forall|j: int| 0 <= j < i ==> !#[trigger] pred(j),
            decreases self.routes@.len() - i,
        {
            let hit = match self.routes[i].ipv4_addr {
                Some(ip) => ip == *ipv4,
                None => false,
            };
            if hit && self.get_gateway_peer_id(self.routes[i].peer_id).is_some() {
                proof {
                    assert(pred(i as int));
                    lemma_first_index_is(self@.routes.len(), pred, i as int);
                }
                return Some(self.routes[i].peer_id);
            }
            i += 1;
        }
        proof {
            lemma_first_index_none(self@.routes.len(), pred);
        }
        None
    }

    /// Replaces the route table by `routes`.
    pub fn set_routes(&mut self, routes: Vec<RouteEntry>)
        ensures
            final(self)@ == (PeerMapView { routes: routes@, ..old(self)@ }),
            old(self)@.wf() ==> final(self)@.wf(),
    {
        self.routes = routes;
    }

    /// The route table as it was published last.
    pub fn get_routes(&self) -> (routes: &Vec<RouteEntry>)
        ensures
            routes@ == self@.routes,
    {
        &self.routes
    }

    /// The peers that have an entry.
    pub fn list_peers(&self) -> (ids: Vec<PeerId>)
        ensures
            ids@ == self@.peer_ids(),
    {
        let mut ids: Vec<PeerId> = Vec::new();
        let mut i: usize = 0;
        while i < self.peers.len()
            invariant
                i <= self.peers@.len(),
                ids@ == self@.peer_ids().take(i as int),
            decreases self.peers@.len() - i,
        {
            ids.push(self.peers[i].peer_id);
            i += 1;
            assert(ids@ =~= self@.peer_ids().take(i as int));
        }
        assert(self@.peer_ids().take(i as int) =~= self@.peer_ids());
        ids
    }

    /// The peers to which a direct connection exists.
    pub fn list_peers_with_conn(&self) -> (ids: Vec<PeerId>)
        ensures
            ids@ == self@.peer_ids_with_conn(),
    {
        let ghost keep = |e: PeerView| e.conns.len() > 0;
        let ghost id_of = |e: PeerView| e.peer_id;
        let mut ids: Vec<PeerId> = Vec::new();
        let mut i: usize = 0;
        while i < self.peers.len()
            invariant
                i <= self.peers@.len(),
                keep == (|e: PeerView| e.conns.len() > 0),
                id_of == (|e: PeerView| e.peer_id),
                ids@ == self@.peers.take(i as int).filter(keep).map_values(id_of),
            decreases self.peers@.len() - i,
        {
            let ghost before = self@.peers.take(i as int);
            if self.peers[i].conns.len() > 0 {
                ids.push(self.peers[i].peer_id);
            }
            i += 1;
            proof {
                let now = self@.peers.take(i as int);
                assert(now.drop_last() =~= before);
                assert(now.last() == self@.peers[i - 1]);
                reveal_with_fuel(Seq::filter, 2);
                assert(ids@ =~= now.filter(keep).map_values(id_of));
            }
        }
        assert(self@.peers.take(i as int) =~= self@.peers);
        ids
    }
    /// Every destination that has a next hop, with that next hop: the
    /// direct peers first, then the routed ones.
    pub fn list_routes(&self) -> (list: Vec<(PeerId, PeerId)>)
        ensures
            list@ == self@.route_list(),
    {
        let ghost pair = |d: PeerId| (d, self@.next_hop(d).unwrap());
        let mut dsts: Vec<PeerId> = Vec::new();
        let mut list: Vec<(PeerId, PeerId)> = Vec::new();
        let mut i: usize = 0;
        while i < self.peers.len()
            invariant
                i <= self.peers@.len(),
                pair == (|d: PeerId| (d, self@.next_hop(d).unwrap())),
                dsts@ == self@.dsts_of_peers(i as nat),
                list@ == dsts@.map_values(pair),
            decreases self.peers@.len() - i,
        {
            let d = self.peers[i].peer_id;
            if d != self.my_peer_id && !vec_contains(&dsts, d) {
                proof {
                    self@.lemma_entry_has_peer(i as int);
                }
                dsts.push(d);
                list.push((d, d));
            }
            i += 1;
            assert(list@ =~= dsts@.map_values(pair));
        }
        let mut j: usize = 0;
        while j < self.routes.len()
            invariant
                j <= self.routes@.len(),
                pair == (|d: PeerId| (d, self@.next_hop(d).unwrap())),
                dsts@ == self@.dsts_of_routes(j as nat),
                list@ == dsts@.map_values(pair),
            decreases self.routes@.len() - j,
        {
            let d = self.routes[j].peer_id;
            match self.get_gateway_peer_id(d) {
                Some(gateway) => {
                    if !vec_contains(&dsts, d) {
                        dsts.push(d);
                        list.push((d, gateway));
                    }
                },
                None => {},
            }
            j += 1;
            assert(list@ =~= dsts@.map_values(pair));
        }
        list
    }

    /// Removes the entries that have no connection, and the route lines
    /// whose next hop has no entry any more.
    pub fn clean_peer_without_conn(&mut self)
        ensures
            final(self)@ == old(self)@.reap(),
            final(self)@.reaped(),
            old(self)@.wf() ==> final(self)@.wf(),
    {
        proof {
            self@.lemma_reap();
        }
        let ghost orig = self@.peers;
        let ghost keep = |e: PeerView| e.conns.len() > 0;
        let ghost j: int = 0;
        let mut i: usize = 0;
        while i < self.peers.len()
            invariant
                0 <= j <= orig.len(),
                keep == (|e: PeerView| e.conns.len() > 0),
                i == orig.take(j).filter(keep).len(),
                self.peers@.len() - i == orig.len() - j,
                peers_view(self.peers@) == orig.take(j).filter(keep) + orig.skip(j),
                self.my_peer_id == old(self).my_peer_id,
                self.routes == old(self).routes,
                self.loopback == old(self).loopback,
            decreases self.peers@.len() - i,
        {
            proof {
                assert(orig.take(j + 1).drop_last() =~= orig.take(j));
                assert(orig.take(j + 1).last() == orig[j]);
                assert(peers_view(self.peers@)[i as int] == orig.skip(j)[0]);
                reveal_with_fuel(Seq::filter, 2);
            }
            if self.peers[i].conns.len() == 0 {
                let ghost before = self.peers@;
                self.peers.remove(i);
                proof {
                    assert(peers_view(self.peers@) =~= peers_view(before).remove(i as int));
                    assert(peers_view(self.peers@) =~= orig.take(j + 1).filter(keep) + orig.skip(
                        j + 1,
                    ));
                    j = j + 1;
                }
            } else {
                i += 1;
                proof {
                    assert(peers_view(self.peers@) =~= orig.take(j + 1).filter(keep) + orig.skip(
                        j + 1,
                    ));
                    j = j + 1;
                }
            }
        }
        proof {
            assert(orig.take(j) =~= orig);
            assert(peers_view(self.peers@) =~= orig.filter(keep));
        }
        let ghost kept = self@;
        let ghost usable = |r: RouteEntry| kept.has_peer(r.next_hop_peer_id);
        let mut routes: Vec<RouteEntry> = Vec::new();
        let mut k: usize = 0;
        while k < self.routes.len()
            invariant
                k <= self.routes@.len(),
                self@ == kept,
                usable == (|r: RouteEntry| kept.has_peer(r.next_hop_peer_id)),
                routes@ == self.routes@.take(k as int).filter(usable),
            decreases self.routes@.len() - k,
        {
            let ghost before = self.routes@.take(k as int);
            let entry = self.routes[k];
            if self.has_peer(entry.next_hop_peer_id) {
                routes.push(entry);
            }
            k += 1;
            proof {
                let now = self.routes@.take(k as int);
                assert(now.drop_last() =~= before);
                assert(now.last() == entry);
                reveal_with_fuel(Seq::filter, 2);
            }
        }
        proof {
            assert(self.routes@.take(k as int) =~= self.routes@);
        }
        self.routes = routes;
    }
    /// Closes the connection `conn_id` to `peer_id`: it leaves the table,
    /// and what was queued on it is dropped. The entry of the peer stays
    /// until `clean_peer_without_conn` runs. Answers whether there was
    /// such a connection.
    pub fn close_peer_conn(&mut self, peer_id: PeerId, conn_id: &PeerConnId) -> (found: bool)
        ensures
            final(self)@ == old(self)@.close_conn(peer_id, *conn_id),
            found == old(self)@.has_conn_id(peer_id, *conn_id),
            old(self)@.wf() ==> final(self)@.wf(),
    {
        proof {
            if self@.wf() {
                self@.lemma_close_conn_wf(peer_id, *conn_id);
            }
        }
        let i = self.find_peer(peer_id);
        if i >= self.peers.len() {
            return false;
        }
        let ghost entry = self.peers@[i as int]@;
        let ghost orig = entry.conns;
        let ghost keep = |c: PeerConnView| c.conn_id != *conn_id;
        let ghost is_it = |k: int| entry.conns[k].conn_id == *conn_id;
        let ghost j: int = 0;
        let mut found = false;
        let mut k: usize = 0;
        proof {
            assert(orig.take(0).filter(keep) + orig.skip(0) =~= orig);
            assert(peers_view(self.peers@) =~= peers_view(old(self).peers@).update(
                i as int,
                self.peers@[i as int]@,
            ));
        }
        while k < self.peers[i as usize].conns.len()
            invariant
                i < self.peers@.len(),
                self.peers@.len() == old(self).peers@.len(),
                0 <= j <= orig.len(),
                orig == entry.conns,
                keep == (|c: PeerConnView| c.conn_id != *conn_id),
                is_it == (|k: int| entry.conns[k].conn_id == *conn_id),
                k == orig.take(j).filter(keep).len(),
                self.peers@[i as int].conns@.len() - k == orig.len() - j,
                self.peers@[i as int]@ == (PeerView {
                    conns: orig.take(j).filter(keep) + orig.skip(j),
                    ..entry
                }),
                peers_view(self.peers@) == peers_view(old(self).peers@).update(
                    i as int,
                    self.peers@[i as int]@,
                ),
                found <==> exists|x: int| 0 <= x < j && #[trigger] is_it(x),
                self.my_peer_id == old(self).my_peer_id,
                self.routes == old(self).routes,
                self.loopback == old(self).loopback,
            decreases self.peers@[i as int].conns@.len() - k,
        {
            proof {
                assert(orig.take(j + 1).drop_last() =~= orig.take(j));
                assert(orig.take(j + 1).last() == orig[j]);
                assert(conns_view(self.peers@[i as int].conns@)[k as int] == orig.skip(j)[0]);
                reveal_with_fuel(Seq::filter, 2);
            }
            if self.peers[i].conns[k].has_conn_id(conn_id) {
                let ghost before = self.peers@[i as int].conns@;
                let ghost all = self.peers@;
                self.peers[i].conns.remove(k);
                found = true;
                proof {
                    assert(is_it(j));
                    assert(conns_view(self.peers@[i as int].conns@) =~= conns_view(before).remove(
                        k as int,
                    ));
                    assert(conns_view(self.peers@[i as int].conns@) =~= orig.take(j + 1).filter(keep)
                        + orig.skip(j + 1));
                    assert(self.peers@.len() == all.len());
                    assert forall|x: int| 0 <= x < all.len() && x != i implies self.peers@[x]
                        == all[x] by {}
                    assert(peers_view(self.peers@) =~= peers_view(all).update(
                        i as int,
                        self.peers@[i as int]@,
                    ));
                    j = j + 1;
                }
            } else {
                k += 1;
                proof {
                    assert(!is_it(j));
                    assert(conns_view(self.peers@[i as int].conns@) =~= orig.take(j + 1).filter(keep)
                        + orig.skip(j + 1));
                    j = j + 1;
                }
            }
        }
        proof {
            assert(orig.take(j) =~= orig);
            assert(orig.filter(keep) + orig.skip(j) =~= orig.filter(keep));
            lemma_first_index(orig.len(), is_it);
            if found {
                let x = choose|x: int| 0 <= x < j && #[trigger] is_it(x);
                assert(is_it(x));
            }
        }
        found
    }

    /// Takes the frames that wait on the connection `conn_id` to
    /// `peer_id`, oldest first, for writing.
    pub fn take_outbound(&mut self, peer_id: PeerId, conn_id: &PeerConnId) -> (out: Vec<ZCPacket>)
        ensures
            packets_view(out@) == old(self)@.outbound(peer_id, *conn_id),
            final(self)@ == old(self)@.take_outbound(peer_id, *conn_id),
            old(self)@.wf() ==> final(self)@.wf(),
    {
        proof {
            if self@.wf() {
                self@.lemma_take_outbound_wf(peer_id, *conn_id);
            }
        }
        let i = self.find_peer(peer_id);
        if i >= self.peers.len() {
            let out: Vec<ZCPacket> = Vec::new();
            assert(packets_view(out@) =~= Seq::empty());
            return out;
        }
        let ghost entry = self.peers@[i as int]@;
        let ghost is_it = |k: int| entry.conns[k].conn_id == *conn_id;
        let mut k: usize = 0;
        while k < self.peers[i].conns.len()
            invariant
                i < self.peers@.len(),
                i == old(self)@.peer_index(peer_id),
                old(self)@.wf() ==> old(self)@.take_outbound(peer_id, *conn_id).wf(),
                self.peers@[i as int]@ == entry,
                is_it == (|k: int| entry.conns[k].conn_id == *conn_id),
                k <= self.peers@[i as int].conns@.len(),
                forall|x: int| 0 <= x < k ==> !#[trigger] is_it(x),
                *self == *old(self),
            decreases self.peers@[i as int].conns@.len() - k,
        {
            if self.peers[i].conns[k].has_conn_id(conn_id) {
                proof {
                    assert(is_it(k as int));
                    lemma_first_index_is(entry.conns.len(), is_it, k as int);
                }
                let ghost all = self.peers@;
                let out = self.peers[i].conns[k].take_outbound();
                proof {
                    assert(entry.conn_index(*conn_id) == k);
                    assert(packets_view(out@) == entry.conns[k as int].tx);
                    assert(conns_view(self.peers@[i as int].conns@) =~= entry.conns.update(
                        k as int,
                        PeerConnView { tx: Seq::empty(), ..entry.conns[k as int] },
                    ));
                    assert(self.peers@[i as int]@ == entry.taken(*conn_id));
                    assert(self.peers@.len() == all.len());
                    assert forall|x: int| 0 <= x < all.len() && x != i implies self.peers@[x]
                        == all[x] by {}
                    assert(peers_view(self.peers@) =~= peers_view(old(self).peers@).update(
                        i as int,
                        entry.taken(*conn_id),
                    ));
                }
                return out;
            }
            k += 1;
        }
        proof {
            lemma_first_index_none(entry.conns.len(), is_it);
        }
        let out: Vec<ZCPacket> = Vec::new();
        assert(packets_view(out@) =~= Seq::empty());
        proof {
            assert(peers_view(self.peers@) =~= peers_view(old(self).peers@).update(
                i as int,
                entry.taken(*conn_id),
            ));
        }
        out
    }

    /// Takes the frames that were sent to this node itself, oldest first,
    /// for receiving.
    pub fn take_loopback(&mut self) -> (out: Vec<ZCPacket>)
        ensures
            packets_view(out@) == old(self)@.loopback,
            final(self)@ == (PeerMapView { loopback: Seq::empty(), ..old(self)@ }),
            old(self)@.wf() ==> final(self)@.wf(),
    {
        let mut out: Vec<ZCPacket> = Vec::new();
        out.append(&mut self.loopback);
        assert(out@ =~= old(self).loopback@);
        assert(packets_view(self.loopback@) =~= Seq::empty());
        out
    }
}

} // verus!
