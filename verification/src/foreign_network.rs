//! Peers of other networks: those that this node reached as a client of
//! another network, and those that joined this node under another
//! network's name.

use vstd::prelude::*;
use crate::common::{NetworkIdentity, NetworkIdentityView};
use crate::error::Error;
use crate::packet::{PeerId, ZCPacket};
use crate::peer_conn::{packets_view, PeerConn, PeerConnId};
use crate::peer_map::{PeerMap, PeerMapView, RouteEntry};
use crate::search::{first_index, lemma_first_index, lemma_first_index_is, lemma_first_index_none};

verus! {

/// The connections that this node opened into other networks. A peer to
/// which such a connection exists is a public node of that network; the
/// route table holds what the public nodes told of the peers behind them.
#[derive(Debug)]
pub struct ForeignNetworkClient {
    peer_map: PeerMap,
}

impl View for ForeignNetworkClient {
    type V = PeerMapView;

    closed spec fn view(&self) -> PeerMapView {
        self.peer_map@
    }
}

impl ForeignNetworkClient {
    pub fn new(my_peer_id: PeerId) -> (c: ForeignNetworkClient)
        ensures
            c@ == (PeerMapView {
                my_peer_id,
                peers: Seq::empty(),
                routes: Seq::empty(),
                loopback: Seq::empty(),
            }),
            c@.wf(),
    {
        ForeignNetworkClient { peer_map: PeerMap::new(my_peer_id) }
    }

    pub fn get_peer_map(&self) -> (m: &PeerMap)
        ensures
            m@ == self@,
    {
        &self.peer_map
    }

    pub fn add_new_peer_conn(&mut self, peer_conn: PeerConn)
        ensures
            final(self)@ == old(self)@.add_conn(peer_conn@),
            old(self)@.wf() ==> final(self)@.wf(),
    {
        self.peer_map.add_new_peer_conn(peer_conn);
    }

    /// Whether `peer_id` can be reached through a foreign network.
    pub fn has_next_hop(&self, peer_id: PeerId) -> (r: bool)
        ensures
            r == (self@.next_hop(peer_id) is Some),
    {
        self.peer_map.get_gateway_peer_id(peer_id).is_some()
    }

    /// Whether `peer_id` is a public node: one that this node is
    /// connected to in a foreign network.
    pub fn is_peer_public_node(&self, peer_id: &PeerId) -> (r: bool)
        ensures
            r == self@.has_peer(*peer_id),
    {
        self.peer_map.has_peer(*peer_id)
    }

    /// Hands `msg` to the next hop of `peer_id` in the foreign network.
    pub fn send_msg(&mut self, msg: ZCPacket, peer_id: PeerId) -> (r: Result<(), Error>)
        ensures
            final(self)@ == old(self)@.forward(msg@, peer_id),
            r == old(self)@.forward_result(peer_id),
            old(self)@.wf() ==> final(self)@.wf(),
    {
        self.peer_map.forward_msg(msg, peer_id)
    }

    /// The peers that can be reached through a foreign network.
    pub fn list_foreign_peers(&self) -> (ids: Vec<PeerId>)
        ensures
            ids@ == self@.route_dsts(),
    {
        let list = self.peer_map.list_routes();
        let mut ids: Vec<PeerId> = Vec::new();
        let mut i: usize = 0;
        while i < list.len()
            invariant
                i <= list@.len(),
                list@ == self@.route_list(),
                ids@ == self@.route_dsts().take(i as int),
            decreases list@.len() - i,
        {
            ids.push(list[i].0);
            i += 1;
            assert(ids@ =~= self@.route_dsts().take(i as int));
        }
        assert(self@.route_dsts().take(i as int) =~= self@.route_dsts());
        ids
    }

    /// Replaces what is known of the peers behind the public nodes.
    pub fn set_routes(&mut self, routes: Vec<RouteEntry>)
        ensures
            final(self)@ == (PeerMapView { routes: routes@, ..old(self)@ }),
            old(self)@.wf() ==> final(self)@.wf(),
    {
        self.peer_map.set_routes(routes);
    }

    pub fn clean_peer_without_conn(&mut self)
        ensures
            final(self)@ == old(self)@.reap(),
            final(self)@.reaped(),
            old(self)@.wf() ==> final(self)@.wf(),
    {
        self.peer_map.clean_peer_without_conn();
    }

    pub fn close_peer_conn(&mut self, peer_id: PeerId, conn_id: &PeerConnId) -> (found: bool)
        ensures
            final(self)@ == old(self)@.close_conn(peer_id, *conn_id),
            found == old(self)@.has_conn_id(peer_id, *conn_id),
            old(self)@.wf() ==> final(self)@.wf(),
    {
        self.peer_map.close_peer_conn(peer_id, conn_id)
    }

    pub fn take_outbound(&mut self, peer_id: PeerId, conn_id: &PeerConnId) -> (out: Vec<ZCPacket>)
        ensures
            packets_view(out@) == old(self)@.outbound(peer_id, *conn_id),
            final(self)@ == old(self)@.take_outbound(peer_id, *conn_id),
            old(self)@.wf() ==> final(self)@.wf(),
    {
        self.peer_map.take_outbound(peer_id, conn_id)
    }
}

/// What is held of one foreign network.
pub struct ForeignNetworkEntryView {
    pub network: NetworkIdentityView,
    pub peer_map: PeerMapView,
}

/// What a foreign network manager is.
pub struct ForeignNetworkManagerView {
    pub my_peer_id: PeerId,
    /// One entry for each network, in the order in which they were first
    /// seen.
    pub networks: Seq<ForeignNetworkEntryView>,
}

impl ForeignNetworkManagerView {
    /// Index of the entry of the network called `name`, or the number of
    /// entries if it has none.
    pub open spec fn network_index(self, name: Seq<char>) -> int {
        first_index(self.networks.len(), |i: int| self.networks[i].network.network_name == name)
    }

    /// The peer map of every network is well formed.
    pub open spec fn wf(self) -> bool {
        forall|i: int| 0 <= i < self.networks.len() ==> (#[trigger] self.networks[i]).peer_map.wf()
    }

    pub open spec fn has_network(self, name: Seq<char>) -> bool {
        self.network_index(name) < self.networks.len()
    }

    /// The manager with an entry for the network of `identity`: made at
    /// the end, under that identity, if the network is new.
    pub open spec fn with_network(self, identity: NetworkIdentityView) -> ForeignNetworkManagerView {
        if self.has_network(identity.network_name) {
            self
        } else {
            ForeignNetworkManagerView {
                networks: self.networks.push(
                    ForeignNetworkEntryView {
                        network: identity,
                        peer_map: PeerMapView {
                            my_peer_id: self.my_peer_id,
                            peers: Seq::empty(),
                            routes: Seq::empty(),
                            loopback: Seq::empty(),
                        },
                    },
                ),
                ..self
            }
        }
    }

    /// Whether a connection that presents `identity` is taken: its secret
    /// must be that of the first connection of its network.
    pub open spec fn admits(self, identity: NetworkIdentityView) -> bool {
        let known = self.with_network(identity);
        known.networks[known.network_index(identity.network_name)].network.network_secret
            == identity.network_secret
    }

    /// The manager with `map` as the peer map of the network called
    /// `name`, if that network has an entry.
    pub open spec fn with_peer_map(self, name: Seq<char>, map: PeerMapView) -> ForeignNetworkManagerView {
        if self.has_network(name) {
            let i = self.network_index(name);
            ForeignNetworkManagerView {
                networks: self.networks.update(
                    i,
                    ForeignNetworkEntryView { peer_map: map, ..self.networks[i] },
                ),
                ..self
            }
        } else {
            self
        }
    }

    /// The peer map of the network called `name`; that of a network
    /// without a peer if the network has no entry.
    pub open spec fn peer_map_of(self, name: Seq<char>) -> PeerMapView {
        if self.has_network(name) {
            self.networks[self.network_index(name)].peer_map
        } else {
            PeerMapView {
                my_peer_id: self.my_peer_id,
                peers: Seq::empty(),
                routes: Seq::empty(),
                loopback: Seq::empty(),
            }
        }
    }

    /// The manager after the connection `c` was offered to it.
    pub open spec fn add_conn(self, c: crate::peer_conn::PeerConnView) -> ForeignNetworkManagerView {
        let known = self.with_network(c.network_identity);
        let i = known.network_index(c.network_identity.network_name);
        if self.admits(c.network_identity) {
            ForeignNetworkManagerView {
                networks: known.networks.update(
                    i,
                    ForeignNetworkEntryView {
                        peer_map: known.networks[i].peer_map.add_conn(c),
                        ..known.networks[i]
                    },
                ),
                ..known
            }
        } else {
            known
        }
    }
}

/// The peers of one foreign network that joined this node.
#[derive(Debug)]
pub struct ForeignNetworkEntry {
    network: NetworkIdentity,
    peer_map: PeerMap,
}

impl View for ForeignNetworkEntry {
    type V = ForeignNetworkEntryView;

    closed spec fn view(&self) -> ForeignNetworkEntryView {
        ForeignNetworkEntryView { network: self.network@, peer_map: self.peer_map@ }
    }
}

impl ForeignNetworkEntry {
    pub fn get_network_identity(&self) -> (id: &NetworkIdentity)
        ensures
            id@ == self@.network,
    {
        &self.network
    }

    pub fn get_peer_map(&self) -> (m: &PeerMap)
        ensures
            m@ == self@.peer_map,
    {
        &self.peer_map
    }
}

/// The entries of a list, each by its view.
pub open spec fn networks_view(s: Seq<ForeignNetworkEntry>) -> Seq<ForeignNetworkEntryView> {
    s.map_values(|e: ForeignNetworkEntry| e@)
}

/// The peers of other networks that joined this node, by network.
#[derive(Debug)]
pub struct ForeignNetworkManager {
    my_peer_id: PeerId,
    networks: Vec<ForeignNetworkEntry>,
}

impl View for ForeignNetworkManager {
    type V = ForeignNetworkManagerView;

    closed spec fn view(&self) -> ForeignNetworkManagerView {
        ForeignNetworkManagerView {
            my_peer_id: self.my_peer_id,
            networks: networks_view(self.networks@),
        }
    }
}

impl ForeignNetworkManager {
    pub fn new(my_peer_id: PeerId) -> (m: ForeignNetworkManager)
        ensures
            m@ == (ForeignNetworkManagerView { my_peer_id, networks: Seq::empty() }),
            m@.wf(),
    {
        let m = ForeignNetworkManager { my_peer_id, networks: Vec::new() };
        assert(networks_view(m.networks@) =~= Seq::empty());
        m
    }

    /// Index of the entry of the network called as `identity` is; the
    /// number of entries if there is none.
    fn find_network(&self, identity: &NetworkIdentity) -> (i: usize)
        ensures
            i == self@.network_index(identity@.network_name),
            i <= self.networks@.len(),
    {
        let ghost name = identity@.network_name;
        let ghost pred = |i: int| self@.networks[i].network.network_name == name;
        let mut i: usize = 0;
        while i < self.networks.len()
            invariant
                i <= self.networks@.len(),
                name == identity@.network_name,
                pred == (|i: int| self@.networks[i].network.network_name == name),
                forall|j: int| 0 <= j < i ==> !#[trigger] pred(j),
            decreases self.networks@.len() - i,
        {
            if self.networks[i].network.same_network(identity) {
                proof {
                    assert(pred(i as int));
                    lemma_first_index_is(self@.networks.len(), pred, i as int);
                }
                return i;
            }
            i += 1;
        }
        proof {
            lemma_first_index_none(self@.networks.len(), pred);
        }
        i
    }

    /// Number of foreign networks that have an entry.
    pub fn network_count(&self) -> (n: usize)
        ensures
            n == self@.networks.len(),
    {
        self.networks.len()
    }

    /// The entry of the network called as `identity` is.
    pub fn get_network(&self, identity: &NetworkIdentity) -> (e: Option<&ForeignNetworkEntry>)
        ensures
            match e {
                Some(entry) => self@.has_network(identity@.network_name) && entry@
                    == self@.networks[self@.network_index(identity@.network_name)],
                None => !self@.has_network(identity@.network_name),
            },
    {
        let i = self.find_network(identity);
        if i < self.networks.len() {
            Some(&self.networks[i])
        } else {
            None
        }
    }

    /// Closes the connection `conn_id` to `peer_id` in the network called
    /// as `network` is, as `PeerMap::close_peer_conn` does. Answers
    /// whether there was such a connection.
    pub fn close_peer_conn(
        &mut self,
        network: &NetworkIdentity,
        peer_id: PeerId,
        conn_id: &PeerConnId,
    ) -> (found: bool)
        ensures
            final(self)@ == old(self)@.with_peer_map(
                network@.network_name,
                old(self)@.peer_map_of(network@.network_name).close_conn(peer_id, *conn_id),
            ),
            found == old(self)@.peer_map_of(network@.network_name).has_conn_id(peer_id, *conn_id),
            old(self)@.wf() ==> final(self)@.wf(),
    {
        let i = self.find_network(network);
        if i >= self.networks.len() {
            proof {
                crate::peer_map_lemmas::lemma_empty_table(self@.my_peer_id, peer_id, *conn_id);
            }
            return false;
        }
        let ghost known = self@;
        let found = self.networks[i].peer_map.close_peer_conn(peer_id, conn_id);
        proof {
            assert(networks_view(self.networks@) =~= known.networks.update(
                i as int,
                ForeignNetworkEntryView {
                    peer_map: known.networks[i as int].peer_map.close_conn(peer_id, *conn_id),
                    ..known.networks[i as int]
                },
            ));
            if known.wf() {
                assert(known.networks[i as int].peer_map.wf());
                assert forall|x: int| 0 <= x < networks_view(self.networks@).len() implies (
                #[trigger] networks_view(self.networks@)[x]).peer_map.wf() by {
                    if x != i {
                        assert(known.networks[x].peer_map.wf());
                    }
                }
            }
        }
        found
    }

    /// Takes the frames that wait on the connection `conn_id` to
    /// `peer_id` in the network called as `network` is, for writing.
    pub fn take_outbound(
        &mut self,
        network: &NetworkIdentity,
        peer_id: PeerId,
        conn_id: &PeerConnId,
    ) -> (out: Vec<ZCPacket>)
        ensures
            packets_view(out@) == old(self)@.peer_map_of(network@.network_name).outbound(
                peer_id,
                *conn_id,
            ),
            final(self)@ == old(self)@.with_peer_map(
                network@.network_name,
                old(self)@.peer_map_of(network@.network_name).take_outbound(peer_id, *conn_id),
            ),
            old(self)@.wf() ==> final(self)@.wf(),
    {
        let i = self.find_network(network);
        if i >= self.networks.len() {
            let out: Vec<ZCPacket> = Vec::new();
            proof {
                crate::peer_map_lemmas::lemma_empty_table(self@.my_peer_id, peer_id, *conn_id);
                assert(packets_view(out@) =~= Seq::empty());
            }
            return out;
        }
        let ghost known = self@;
        let out = self.networks[i].peer_map.take_outbound(peer_id, conn_id);
        proof {
            assert(networks_view(self.networks@) =~= known.networks.update(
                i as int,
                ForeignNetworkEntryView {
                    peer_map: known.networks[i as int].peer_map.take_outbound(peer_id, *conn_id),
                    ..known.networks[i as int]
                },
            ));
            if known.wf() {
                assert(known.networks[i as int].peer_map.wf());
                assert forall|x: int| 0 <= x < networks_view(self.networks@).len() implies (
                #[trigger] networks_view(self.networks@)[x]).peer_map.wf() by {
                    if x != i {
                        assert(known.networks[x].peer_map.wf());
                    }
                }
            }
        }
        out
    }

    /// Takes a connection of a foreign network. The first connection of a
    /// network fixes its secret; a later one with another secret is
    /// refused with `SecretKeyError`.
    pub fn add_peer_conn(&mut self, peer_conn: PeerConn) -> (r: Result<(), Error>)
        ensures
            final(self)@ == old(self)@.add_conn(peer_conn@),
            old(self)@.admits(peer_conn@.network_identity) ==> r == Ok::<(), Error>(()),
            !old(self)@.admits(peer_conn@.network_identity) ==> r == Err::<(), Error>(
                Error::SecretKeyError,
            ),
            old(self)@.wf() ==> final(self)@.wf(),
    {
        let mut i = self.find_network(peer_conn.get_network_identity());
        if i >= self.networks.len() {
            let entry = ForeignNetworkEntry {
                network: peer_conn.get_network_identity().clone(),
                peer_map: PeerMap::new(self.my_peer_id),
            };
            let ghost e = entry@;
            self.networks.push(entry);
            proof {
                assert(networks_view(self.networks@) =~= networks_view(old(self).networks@).push(e));
                let pred = |k: int|
                    self@.networks[k].network.network_name
                        == peer_conn@.network_identity.network_name;
                let old_pred = |k: int|
                    old(self)@.networks[k].network.network_name
                        == peer_conn@.network_identity.network_name;
                lemma_first_index(old(self)@.networks.len(), old_pred);
                assert forall|j: int| 0 <= j < i implies !#[trigger] pred(j) by {
                    assert(!old_pred(j));
                }
                assert(pred(i as int));
                lemma_first_index_is(self@.networks.len(), pred, i as int);
            }
        }
        assert(self@ == old(self)@.with_network(peer_conn@.network_identity));
        assert(i == self@.network_index(peer_conn@.network_identity.network_name));
        assert(old(self)@.wf() ==> self@.wf()) by {
            if old(self)@.wf() {
                assert forall|x: int| 0 <= x < self@.networks.len() implies (
                #[trigger] self@.networks[x]).peer_map.wf() by {
                    if x < old(self)@.networks.len() {
                        assert(old(self)@.networks[x].peer_map.wf());
                    }
                }
            }
        }
        let same = self.networks[i].network.network_secret
            == peer_conn.get_network_identity().network_secret;
        if !same {
            return Err(Error::SecretKeyError);
        }
        let ghost known = self@;
        let ghost c = peer_conn@;
        self.networks[i].peer_map.add_new_peer_conn(peer_conn);
        proof {
            if known.wf() {
                assert(known.networks[i as int].peer_map.wf());
                assert forall|x: int| 0 <= x < networks_view(self.networks@).len() implies (
                #[trigger] networks_view(self.networks@)[x]).peer_map.wf() by {
                    if x != i {
                        assert(networks_view(self.networks@)[x] == known.networks[x]);
                        assert(known.networks[x].peer_map.wf());
                    }
                }
            }
            assert(networks_view(self.networks@) =~= known.networks.update(
                i as int,
                ForeignNetworkEntryView {
                    peer_map: known.networks[i as int].peer_map.add_conn(c),
                    ..known.networks[i as int]
                },
            ));
        }
        Ok(())
    }
}

} // verus!
