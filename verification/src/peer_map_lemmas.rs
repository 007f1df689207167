//! What holds of the peer map as a table: how its lookups behave, which
//! operations keep it well formed, and what its listings contain.

use vstd::prelude::*;
use crate::common::Ipv4Addr;
use crate::packet::{PeerId, ZCPacketView};
use crate::peer_conn::{PeerConnId, PeerConnView};
use crate::peer_map::{
    conns_queued, entries_wf, ids_distinct, peers_queued, PeerMapView, PeerView, RouteEntry,
};
use crate::search::{
    first_index, lemma_first_index, lemma_first_index_ext, lemma_first_index_is,
    lemma_push_contains, lemma_push_no_duplicates,
};

verus! {

/// What `filter` keeps of a list of entries: only entries of the list for
/// which `keep` holds, and no peer twice if the list had none twice.
pub proof fn lemma_filter_entries(s: Seq<PeerView>, keep: spec_fn(PeerView) -> bool)
    ensures
        forall|i: int|
            0 <= i < s.filter(keep).len() ==> keep(#[trigger] s.filter(keep)[i]) && s.contains(
                s.filter(keep)[i],
            ),
        ids_distinct(s) ==> ids_distinct(s.filter(keep)),
        entries_wf(s) ==> entries_wf(s.filter(keep)),
    decreases s.len(),
{
    reveal_with_fuel(Seq::filter, 2);
    if s.len() > 0 {
        let rest = s.drop_last();
        let f = rest.filter(keep);
        lemma_filter_entries(rest, keep);
        assert forall|i: int| 0 <= i < s.filter(keep).len() implies keep(
            #[trigger] s.filter(keep)[i],
        ) && s.contains(s.filter(keep)[i]) by {
            if i < f.len() {
                assert(rest.contains(f[i]));
                let k = choose|k: int| 0 <= k < rest.len() && rest[k] == f[i];
                assert(s[k] == f[i]);
            } else {
                assert(s.filter(keep)[i] == s.last());
                assert(s[s.len() - 1] == s.last());
            }
        }
        if ids_distinct(s) {
            assert(ids_distinct(rest)) by {
                assert forall|i: int, j: int| 0 <= i < j < rest.len() implies (
                #[trigger] rest[i]).peer_id != (#[trigger] rest[j]).peer_id by {
                    assert(rest[i] == s[i] && rest[j] == s[j]);
                }
            }
            assert forall|i: int, j: int| 0 <= i < j < s.filter(keep).len() implies (
            #[trigger] s.filter(keep)[i]).peer_id != (#[trigger] s.filter(keep)[j]).peer_id by {
                if j < f.len() {
                    assert(f[i].peer_id != f[j].peer_id);
                } else {
                    assert(rest.contains(f[i]));
                    let k = choose|k: int| 0 <= k < rest.len() && rest[k] == f[i];
                    assert(s[k].peer_id != s[s.len() - 1].peer_id);
                }
            }
        }
        if entries_wf(s) {
            assert(entries_wf(rest)) by {
                assert forall|i: int| 0 <= i < rest.len() implies (#[trigger] rest[i]).wf() by {
                    assert(rest[i] == s[i]);
                }
            }
            assert forall|i: int| 0 <= i < s.filter(keep).len() implies (
            #[trigger] s.filter(keep)[i]).wf() by {
                if i < f.len() {
                    assert(f[i].wf());
                } else {
                    assert(s[s.len() - 1].wf());
                }
            }
        }
    }
}

/// Replacing one connection changes the count by what it has queued more
/// or less.
pub proof fn lemma_conns_queued_update(conns: Seq<PeerConnView>, k: int, c: PeerConnView)
    requires
        0 <= k < conns.len(),
    ensures
        conns_queued(conns.update(k, c)) + conns[k].tx.len() == conns_queued(conns) + c.tx.len(),
    decreases conns.len(),
{
    let u = conns.update(k, c);
    if k == conns.len() - 1 {
        assert(u.drop_last() =~= conns.drop_last());
    } else {
        assert(u.drop_last() =~= conns.drop_last().update(k, c));
        lemma_conns_queued_update(conns.drop_last(), k, c);
    }
}

/// Replacing one entry changes the count by what its connections have
/// queued more or less.
pub proof fn lemma_peers_queued_update(peers: Seq<PeerView>, i: int, e: PeerView)
    requires
        0 <= i < peers.len(),
    ensures
        peers_queued(peers.update(i, e)) + conns_queued(peers[i].conns) == peers_queued(peers)
            + conns_queued(e.conns),
    decreases peers.len(),
{
    let u = peers.update(i, e);
    if i == peers.len() - 1 {
        assert(u.drop_last() =~= peers.drop_last());
    } else {
        assert(u.drop_last() =~= peers.drop_last().update(i, e));
        lemma_peers_queued_update(peers.drop_last(), i, e);
    }
}

/// A table without a peer has no connection, and nothing waits in it.
pub proof fn lemma_empty_table(my_peer_id: PeerId, p: PeerId, conn_id: PeerConnId)
    ensures
        ({
            let empty = PeerMapView {
                my_peer_id,
                peers: Seq::empty(),
                routes: Seq::empty(),
                loopback: Seq::empty(),
            };
            &&& !empty.has_peer(p)
            &&& !empty.has_conn_id(p, conn_id)
            &&& empty.outbound(p, conn_id) == Seq::<ZCPacketView>::empty()
            &&& empty.close_conn(p, conn_id) == empty
            &&& empty.take_outbound(p, conn_id) == empty
        }),
{
}

impl PeerMapView {
    /// Whether one of the first `n` entries is for `d`.
    pub open spec fn entry_below(self, n: nat, d: PeerId) -> bool {
        exists|i: int| 0 <= i < n && (#[trigger] self.peers[i]).peer_id == d
    }

    /// Whether one of the first `n` route lines is for `d`.
    pub open spec fn route_below(self, n: nat, d: PeerId) -> bool {
        exists|i: int| 0 <= i < n && (#[trigger] self.routes[i]).peer_id == d
    }

    /// The peer of every entry has an entry, at or before that one.
    pub proof fn lemma_entry_has_peer(self, i: int)
        requires
            0 <= i < self.peers.len(),
        ensures
            self.has_peer(self.peers[i].peer_id),
            self.peer_index(self.peers[i].peer_id) <= i,
            self.peers[self.peer_index(self.peers[i].peer_id)].peer_id == self.peers[i].peer_id,
    {
        let p = self.peers[i].peer_id;
        let pred = |k: int| self.peers[k].peer_id == p;
        lemma_first_index(self.peers.len(), pred);
        assert(pred(i));
    }

    /// What `peer_index` is: in range, at an entry of `p` if below the
    /// number of entries, and past every entry of another peer.
    pub proof fn lemma_peer_index(self, p: PeerId)
        ensures
            0 <= self.peer_index(p) <= self.peers.len(),
            self.has_peer(p) ==> self.peers[self.peer_index(p)].peer_id == p,
            forall|j: int| 0 <= j < self.peer_index(p) ==> (#[trigger] self.peers[j]).peer_id != p,
    {
        let pred = |k: int| self.peers[k].peer_id == p;
        lemma_first_index(self.peers.len(), pred);
        assert forall|j: int| 0 <= j < self.peer_index(p) implies (#[trigger] self.peers[j]).peer_id
            != p by {
            assert(!pred(j));
        }
    }

    /// A peer without an entry is the peer of no entry.
    pub proof fn lemma_absent_peer(self, p: PeerId)
        requires
            !self.has_peer(p),
        ensures
            forall|i: int| 0 <= i < self.peers.len() ==> (#[trigger] self.peers[i]).peer_id != p,
    {
        self.lemma_peer_index(p);
    }

    /// In a well-formed table the entry of a peer is the only one for it.
    pub proof fn lemma_peer_index_unique(self, i: int)
        requires
            self.wf(),
            0 <= i < self.peers.len(),
        ensures
            self.peer_index(self.peers[i].peer_id) == i,
    {
        self.lemma_entry_has_peer(i);
        self.lemma_peer_index(self.peers[i].peer_id);
        let k = self.peer_index(self.peers[i].peer_id);
        if k < i {
            assert(self.peers[k].peer_id != self.peers[i].peer_id);
        }
    }

    /// Tables with the same peers in the same places find each peer at the
    /// same place.
    pub proof fn lemma_same_ids(self, other: PeerMapView, p: PeerId)
        requires
            self.peers.len() == other.peers.len(),
            forall|i: int|
                0 <= i < self.peers.len() ==> (#[trigger] self.peers[i]).peer_id
                    == other.peers[i].peer_id,
        ensures
            self.peer_index(p) == other.peer_index(p),
            self.has_peer(p) == other.has_peer(p),
    {
        let left = |i: int| self.peers[i].peer_id == p;
        let right = |i: int| other.peers[i].peer_id == p;
        assert forall|j: int| 0 <= j < self.peers.len() implies #[trigger] left(j) == #[trigger] right(
            j,
        ) by {
            assert(self.peers[j].peer_id == other.peers[j].peer_id);
        }
        lemma_first_index_ext(self.peers.len(), left, right);
    }

    /// Adding a connection keeps the table well formed.
    pub proof fn lemma_add_conn_wf(self, c: PeerConnView)
        requires
            self.wf(),
        ensures
            self.add_conn(c).wf(),
            self.reaped() ==> self.add_conn(c).reaped(),
            !c.closed ==> self.add_conn(c).has_conn(c.peer_id),
    {
        let after = self.add_conn(c);
        self.lemma_peer_index(c.peer_id);
        if c.closed {
        } else if self.has_peer(c.peer_id) {
            let i = self.peer_index(c.peer_id);
            assert forall|a: int, b: int| 0 <= a < b < after.peers.len() implies (
            #[trigger] after.peers[a]).peer_id != (#[trigger] after.peers[b]).peer_id by {
                assert(self.peers[a].peer_id != self.peers[b].peer_id);
            }
            assert forall|a: int| 0 <= a < after.peers.len() implies (
            #[trigger] after.peers[a]).wf() by {
                assert(self.peers[a].wf());
            }
            self.lemma_same_ids(after, c.peer_id);
        } else {
            self.lemma_absent_peer(c.peer_id);
            let n = self.peers.len() as int;
            assert forall|a: int, b: int| 0 <= a < b < after.peers.len() implies (
            #[trigger] after.peers[a]).peer_id != (#[trigger] after.peers[b]).peer_id by {
                if b < n {
                    assert(self.peers[a].peer_id != self.peers[b].peer_id);
                } else {
                    assert(self.peers[a].peer_id != c.peer_id);
                }
            }
            assert forall|a: int| 0 <= a < after.peers.len() implies (
            #[trigger] after.peers[a]).wf() by {
                if a < n {
                    assert(self.peers[a].wf());
                }
            }
            let pred = |k: int| after.peers[k].peer_id == c.peer_id;
            assert(pred(n));
            assert forall|j: int| 0 <= j < n implies !#[trigger] pred(j) by {
                assert(self.peers[j].peer_id != c.peer_id);
            }
            lemma_first_index_is(after.peers.len(), pred, n);
        }
    }

    /// Sending to a direct peer changes queues and counters only: the
    /// table stays well formed, and every peer keeps its place and the
    /// number of its connections.
    pub proof fn lemma_send_directly_shape(self, packet: ZCPacketView, dst: PeerId)
        ensures
            self.same_shape(self.send_directly(packet, dst)),
            self.wf() ==> self.send_directly(packet, dst).wf(),
            self.send_directly(packet, dst).loopback == self.loopback,
    {
        let after = self.send_directly(packet, dst);
        self.lemma_peer_index(dst);
        if self.has_conn(dst) {
            let i = self.peer_index(dst);
            let e = self.peers[i];
            let k = e.chosen();
            assert(0 <= k < e.conns.len());
            assert forall|a: int| 0 <= a < self.peers.len() implies (
            #[trigger] self.peers[a]).same_shape(after.peers[a]) by {
                if a == i {
                    assert forall|x: int| 0 <= x < e.conns.len() implies (
                    #[trigger] e.conns[x]).closed == after.peers[i].conns[x].closed && e.conns[x].peer_id
                        == after.peers[i].conns[x].peer_id && e.conns[x].conn_id
                        == after.peers[i].conns[x].conn_id by {}
                }
            }
            if self.wf() {
                assert forall|a: int, b: int| 0 <= a < b < after.peers.len() implies (
                #[trigger] after.peers[a]).peer_id != (#[trigger] after.peers[b]).peer_id by {
                    assert(self.peers[a].peer_id != self.peers[b].peer_id);
                }
                assert forall|a: int| 0 <= a < after.peers.len() implies (
                #[trigger] after.peers[a]).wf() by {
                    assert(self.peers[a].wf());
                    if a == i {
                        assert forall|x: int| 0 <= x < after.peers[a].conns.len() implies !(
                        #[trigger] after.peers[a].conns[x]).closed && after.peers[a].conns[x].peer_id
                            == after.peers[a].peer_id by {
                            assert(!e.conns[x].closed && e.conns[x].peer_id == e.peer_id);
                        }
                    }
                }
            }
        } else {
            assert forall|a: int| 0 <= a < self.peers.len() implies (
            #[trigger] self.peers[a]).same_shape(after.peers[a]) by {}
        }
    }

    /// Tables of the same shape route alike: every destination has the
    /// same next hop, and a send to it is answered alike if the tables
    /// are well formed.
    pub proof fn lemma_same_shape_routes(self, other: PeerMapView, dst: PeerId)
        requires
            self.same_shape(other),
        ensures
            self.has_peer(dst) == other.has_peer(dst),
            self.peer_index(dst) == other.peer_index(dst),
            self.has_conn(dst) == other.has_conn(dst),
            self.next_hop(dst) == other.next_hop(dst),
            self.wf() && other.wf() ==> self.send_directly_result(dst)
                == other.send_directly_result(dst),
            self.wf() && other.wf() ==> self.forward_result(dst) == other.forward_result(dst),
    {
        assert forall|i: int| 0 <= i < self.peers.len() implies (#[trigger] self.peers[i]).peer_id
            == other.peers[i].peer_id by {
            assert(self.peers[i].same_shape(other.peers[i]));
        }
        self.lemma_same_ids(other, dst);
        self.lemma_peer_index(dst);
        if self.has_peer(dst) {
            assert(self.peers[self.peer_index(dst)].same_shape(other.peers[self.peer_index(dst)]));
        }
        let r1 = |i: int| self.route_usable(i, dst);
        let r2 = |i: int| other.route_usable(i, dst);
        assert forall|j: int| 0 <= j < self.routes.len() implies #[trigger] r1(j) == #[trigger] r2(
            j,
        ) by {
            self.lemma_same_ids(other, self.routes[j].next_hop_peer_id);
        }
        lemma_first_index_ext(self.routes.len(), r1, r2);
        assert(self.next_hop(dst) == other.next_hop(dst));
        if self.wf() && other.wf() {
            if self.has_conn(dst) {
                let i = self.peer_index(dst);
                let e1 = self.peers[i];
                let e2 = other.peers[i];
                assert(e1.wf() && e2.wf());
                assert(0 <= e1.chosen() < e1.conns.len());
                assert(0 <= e2.chosen() < e2.conns.len());
                assert(!e1.conns[e1.chosen()].closed);
                assert(!e2.conns[e2.chosen()].closed);
            }
            match self.next_hop(dst) {
                Some(g) => {
                    self.lemma_same_shape_gateway(other, g);
                },
                None => {},
            }
        }
    }

    /// Tables of the same shape, both well formed, answer a send to the
    /// direct peer `g` alike.
    pub proof fn lemma_same_shape_gateway(self, other: PeerMapView, g: PeerId)
        requires
            self.same_shape(other),
            self.wf(),
            other.wf(),
        ensures
            self.send_directly_result(g) == other.send_directly_result(g),
    {
        assert forall|i: int| 0 <= i < self.peers.len() implies (#[trigger] self.peers[i]).peer_id
            == other.peers[i].peer_id by {
            assert(self.peers[i].same_shape(other.peers[i]));
        }
        self.lemma_same_ids(other, g);
        self.lemma_peer_index(g);
        if self.has_peer(g) {
            let i = self.peer_index(g);
            let e1 = self.peers[i];
            let e2 = other.peers[i];
            assert(e1.same_shape(e2));
            assert(e1.wf() && e2.wf());
            if e1.conns.len() > 0 {
                assert(0 <= e1.chosen() < e1.conns.len());
                assert(0 <= e2.chosen() < e2.conns.len());
                assert(!e1.conns[e1.chosen()].closed);
                assert(!e2.conns[e2.chosen()].closed);
            }
        }
    }

    /// Removing the peers without a connection leaves a well-formed table
    /// in which every peer has one, and which lists the peers that had one
    /// before.
    pub proof fn lemma_reap(self)
        ensures
            self.reap().reaped(),
            self.wf() ==> self.reap().wf(),
            self.reap().peer_ids() == self.peer_ids_with_conn(),
            self.reap().loopback == self.loopback,
            forall|i: int|
                0 <= i < self.reap().routes.len() ==> self.reap().has_peer(
                    (#[trigger] self.reap().routes[i]).next_hop_peer_id,
                ),
    {
        let keep = |e: PeerView| e.conns.len() > 0;
        lemma_filter_entries(self.peers, keep);
        let kept = PeerMapView { peers: self.peers.filter(keep), ..self };
        let usable = |r: RouteEntry| kept.has_peer(r.next_hop_peer_id);
        let after = self.reap();
        assert(after.peers == kept.peers);
        assert forall|i: int| 0 <= i < after.peers.len() implies (
        #[trigger] after.peers[i]).conns.len() > 0 by {
            assert(keep(self.peers.filter(keep)[i]));
        }
        assert forall|i: int| 0 <= i < after.routes.len() implies after.has_peer(
            (#[trigger] after.routes[i]).next_hop_peer_id,
        ) by {
            self.routes.lemma_filter_pred(usable, i);
            assert(usable(after.routes[i]));
            after.lemma_same_ids(kept, after.routes[i].next_hop_peer_id);
        }
    }

    /// What `dsts_of_peers` lists: every peer but this node that one of
    /// the first `n` entries is for, once.
    pub proof fn lemma_dsts_of_peers(self, n: nat)
        requires
            n <= self.peers.len(),
        ensures
            self.dsts_of_peers(n).no_duplicates(),
            forall|d: PeerId| #[trigger]
                self.dsts_of_peers(n).contains(d) <==> d != self.my_peer_id && self.entry_below(
                    n,
                    d,
                ),
        decreases n,
    {
        if n > 0 {
            let m = (n - 1) as nat;
            self.lemma_dsts_of_peers(m);
            let prev = self.dsts_of_peers(m);
            let d0 = self.peers[n - 1].peer_id;
            if d0 != self.my_peer_id && !prev.contains(d0) {
                lemma_push_no_duplicates(prev, d0);
            }
            assert forall|d: PeerId| #[trigger]
                self.dsts_of_peers(n).contains(d) <==> d != self.my_peer_id && self.entry_below(
                    n,
                    d,
                ) by {
                lemma_push_contains(prev, d0, d);
                if self.entry_below(n, d) {
                    let i = choose|i: int| 0 <= i < n && (#[trigger] self.peers[i]).peer_id == d;
                    if i < m {
                        assert(self.entry_below(m, d));
                    }
                }
                if self.entry_below(m, d) {
                    let i = choose|i: int| 0 <= i < m && (#[trigger] self.peers[i]).peer_id == d;
                    assert(0 <= i < n && self.peers[i].peer_id == d);
                }
                if d == d0 {
                    assert(self.peers[n - 1].peer_id == d);
                }
            }
        } else {
            assert forall|d: PeerId| #[trigger]
                self.dsts_of_peers(n).contains(d) <==> d != self.my_peer_id && self.entry_below(
                    n,
                    d,
                ) by {}
        }
    }

    /// What `dsts_of_routes` lists: the peers of `dsts_of_peers`, and
    /// every destination with a next hop that one of the first `n` route
    /// lines is for, each once.
    pub proof fn lemma_dsts_of_routes(self, n: nat)
        requires
            n <= self.routes.len(),
        ensures
            self.dsts_of_routes(n).no_duplicates(),
            forall|d: PeerId| #[trigger]
                self.dsts_of_routes(n).contains(d) <==> (d != self.my_peer_id && self.entry_below(
                    self.peers.len(),
                    d,
                )) || (self.next_hop(d) is Some && self.route_below(n, d)),
        decreases n,
    {
        if n > 0 {
            let m = (n - 1) as nat;
            self.lemma_dsts_of_routes(m);
            let prev = self.dsts_of_routes(m);
            let d0 = self.routes[n - 1].peer_id;
            if self.next_hop(d0) is Some && !prev.contains(d0) {
                lemma_push_no_duplicates(prev, d0);
            }
            assert forall|d: PeerId| #[trigger]
                self.dsts_of_routes(n).contains(d) <==> (d != self.my_peer_id && self.entry_below(
                    self.peers.len(),
                    d,
                )) || (self.next_hop(d) is Some && self.route_below(n, d)) by {
                lemma_push_contains(prev, d0, d);
                if self.route_below(n, d) {
                    let i = choose|i: int| 0 <= i < n && (#[trigger] self.routes[i]).peer_id == d;
                    if i < m {
                        assert(self.route_below(m, d));
                    }
                }
                if self.route_below(m, d) {
                    let i = choose|i: int| 0 <= i < m && (#[trigger] self.routes[i]).peer_id == d;
                    assert(0 <= i < n && self.routes[i].peer_id == d);
                }
                if d == d0 {
                    assert(self.routes[n - 1].peer_id == d);
                }
            }
        } else {
            self.lemma_dsts_of_peers(self.peers.len());
            assert forall|d: PeerId| #[trigger]
                self.dsts_of_routes(n).contains(d) <==> (d != self.my_peer_id && self.entry_below(
                    self.peers.len(),
                    d,
                )) || (self.next_hop(d) is Some && self.route_below(n, d)) by {}
        }
    }

    /// What `route_dsts` lists: the destinations that have a next hop,
    /// each once. This node is not among them.
    pub proof fn lemma_route_dsts(self)
        ensures
            self.route_dsts().no_duplicates(),
            !self.route_dsts().contains(self.my_peer_id),
            forall|d: PeerId| #[trigger] self.route_dsts().contains(d) <==> self.next_hop(d) is Some,
    {
        self.lemma_dsts_of_routes(self.routes.len());
        assert forall|d: PeerId| #[trigger] self.route_dsts().contains(d) <==> self.next_hop(
            d,
        ) is Some by {
            self.lemma_peer_index(d);
            if d != self.my_peer_id && self.entry_below(self.peers.len(), d) {
                let i = choose|i: int|
                    0 <= i < self.peers.len() && (#[trigger] self.peers[i]).peer_id == d;
                self.lemma_entry_has_peer(i);
            }
            if self.next_hop(d) is Some {
                if self.has_peer(d) {
                    assert(self.peers[self.peer_index(d)].peer_id == d);
                    assert(self.entry_below(self.peers.len(), d));
                } else {
                    let pred = |i: int| self.route_usable(i, d);
                    lemma_first_index(self.routes.len(), pred);
                    let j = self.route_index(d);
                    assert(pred(j));
                    assert(self.routes[j].peer_id == d);
                    assert(self.route_below(self.routes.len(), d));
                }
            }
        }
    }

    /// The next hop of a destination has an entry, and is the destination
    /// itself exactly if that has an entry.
    pub proof fn lemma_next_hop(self, dst: PeerId)
        ensures
            self.next_hop(dst) matches Some(g) ==> self.has_peer(g) && dst != self.my_peer_id,
            self.next_hop(dst) == Some(dst) <==> dst != self.my_peer_id && self.has_peer(dst),
    {
        let pred = |i: int| self.route_usable(i, dst);
        lemma_first_index(self.routes.len(), pred);
        if dst != self.my_peer_id && !self.has_peer(dst) && self.route_index(dst)
            < self.routes.len() {
            assert(pred(self.route_index(dst)));
        }
    }

    /// The owner of an address is known only if a path to it exists.
    pub proof fn lemma_peer_id_by_ipv4(self, ip: Ipv4Addr)
        ensures
            self.peer_id_by_ipv4(ip) matches Some(p) ==> self.next_hop(p) is Some,
    {
        let pred = |i: int| self.ipv4_usable(i, ip);
        lemma_first_index(self.routes.len(), pred);
        if self.ipv4_index(ip) < self.routes.len() {
            assert(pred(self.ipv4_index(ip)));
        }
    }

    /// A send to a direct peer queues one frame if it succeeds and none if
    /// it fails.
    pub proof fn lemma_send_directly_queued(self, packet: ZCPacketView, dst: PeerId)
        ensures
            self.send_directly_result(dst) is Ok ==> self.send_directly(packet, dst).queued()
                == self.queued() + 1,
            self.send_directly_result(dst) is Err ==> self.send_directly(packet, dst).queued()
                == self.queued(),
    {
        self.lemma_peer_index(dst);
        if self.has_conn(dst) {
            let i = self.peer_index(dst);
            let e = self.peers[i];
            let k = e.chosen();
            assert(0 <= k < e.conns.len());
            lemma_conns_queued_update(e.conns, k, e.conns[k].spec_send(packet));
            lemma_peers_queued_update(self.peers, i, e.spec_send(packet));
        }
    }

    /// Handing a frame to the next hop of `dst` queues one frame if it
    /// succeeds and none if it fails.
    pub proof fn lemma_forward_queued(self, packet: ZCPacketView, dst: PeerId)
        ensures
            self.forward_result(dst) is Ok ==> self.forward(packet, dst).queued() == self.queued()
                + 1,
            self.forward_result(dst) is Err ==> self.forward(packet, dst).queued() == self.queued(),
    {
        match self.next_hop(dst) {
            Some(g) => {
                self.lemma_send_directly_queued(packet, g);
            },
            None => {},
        }
    }

    /// Handing a frame to a next hop, or sending it, keeps the table well
    /// formed.
    pub proof fn lemma_send_wf(self, packet: ZCPacketView, dst: PeerId)
        requires
            self.wf(),
        ensures
            self.forward(packet, dst).wf(),
            self.send(packet, dst).wf(),
    {
        match self.next_hop(dst) {
            Some(g) => {
                self.lemma_send_directly_shape(packet, g);
            },
            None => {},
        }
    }

    /// Closing a connection keeps the table well formed.
    pub proof fn lemma_close_conn_wf(self, p: PeerId, conn_id: PeerConnId)
        requires
            self.wf(),
        ensures
            self.close_conn(p, conn_id).wf(),
    {
        let after = self.close_conn(p, conn_id);
        self.lemma_peer_index(p);
        if self.has_peer(p) {
            let i = self.peer_index(p);
            let e = self.peers[i];
            let gone = |c: PeerConnView| c.conn_id != conn_id;
            assert forall|a: int, b: int| 0 <= a < b < after.peers.len() implies (
            #[trigger] after.peers[a]).peer_id != (#[trigger] after.peers[b]).peer_id by {
                assert(self.peers[a].peer_id != self.peers[b].peer_id);
            }
            assert forall|a: int| 0 <= a < after.peers.len() implies (
            #[trigger] after.peers[a]).wf() by {
                assert(self.peers[a].wf());
                if a == i {
                    let left = e.conns.filter(gone);
                    assert forall|x: int| 0 <= x < left.len() implies !(#[trigger] left[x]).closed
                        && left[x].peer_id == e.peer_id by {
                        e.conns.lemma_filter_contains_rev(gone, left[x]);
                        let z = choose|z: int| 0 <= z < e.conns.len() && e.conns[z] == left[x];
                        assert(!e.conns[z].closed && e.conns[z].peer_id == e.peer_id);
                    }
                }
            }
        }
    }

    /// Taking the frames of a connection keeps the table well formed.
    pub proof fn lemma_take_outbound_wf(self, p: PeerId, conn_id: PeerConnId)
        requires
            self.wf(),
        ensures
            self.take_outbound(p, conn_id).wf(),
    {
        let after = self.take_outbound(p, conn_id);
        self.lemma_peer_index(p);
        if self.has_peer(p) {
            let i = self.peer_index(p);
            let e = self.peers[i];
            lemma_first_index(e.conns.len(), |k: int| e.conns[k].conn_id == conn_id);
            assert forall|a: int, b: int| 0 <= a < b < after.peers.len() implies (
            #[trigger] after.peers[a]).peer_id != (#[trigger] after.peers[b]).peer_id by {
                assert(self.peers[a].peer_id != self.peers[b].peer_id);
            }
            assert forall|a: int| 0 <= a < after.peers.len() implies (
            #[trigger] after.peers[a]).wf() by {
                assert(self.peers[a].wf());
                if a == i {
                    assert forall|x: int| 0 <= x < after.peers[a].conns.len() implies !(
                    #[trigger] after.peers[a].conns[x]).closed && after.peers[a].conns[x].peer_id
                        == after.peers[a].peer_id by {
                        assert(!e.conns[x].closed && e.conns[x].peer_id == e.peer_id);
                    }
                }
            }
        }
    }
}

} // verus!
