//! What holds of the core as a whole, proved from the definitions that the
//! contracts of its functions are stated with.

use vstd::prelude::*;
use crate::common::Ipv4Addr;
use crate::error::Error;
use crate::filter::{
    answers_admitted, nic_run, pipeline_admits, pipeline_outcome, slot_kinds, BoxNicPacketFilter,
    BoxPeerPacketFilter, FilterKind, NicFilterSlot, PeerFilterSlot, PeerPacketOutcomeView,
};
use crate::manager::{reports, PeerManagerView, PeerRecvOutcome};
use crate::packet::{PacketType, PeerId, ZCPacketView};
use crate::peer_conn::{PeerConnId, PeerConnView};
use crate::peer_map::{PeerMapView, PeerView};
use crate::peer_map_lemmas::lemma_filter_entries;

verus! {

/// A connection whose remote presents another network identity than this
/// node's never enters the peer map, on whichever side the connection was
/// opened.
pub proof fn foreign_identity_stays_out_of_peer_map(m: PeerManagerView, c: PeerConnView)
    requires
        c.network_identity != m.network_identity(),
    ensures
        m.add_client(c).peers == m.peers,
        m.add_server(c).peers == m.peers,
{
}

/// A connection whose remote names this node's network but presents
/// another secret is refused with `SecretKeyError` on both sides, and
/// changes nothing.
pub proof fn wrong_secret_is_refused(m: PeerManagerView, c: PeerConnView)
    requires
        c.network_identity != m.network_identity(),
        m.same_network(c),
    ensures
        m.add_client_result(c) == Err::<(PeerId, PeerConnId), Error>(Error::SecretKeyError),
        m.add_server_result(c) == Err::<(), Error>(Error::SecretKeyError),
        m.add_client(c) == m,
        m.add_server(c) == m,
{
}

/// A connection whose remote names another network is diverted: it
/// leaves the peer map as it was and joins the foreign network client or
/// manager.
pub proof fn other_network_is_diverted(m: PeerManagerView, c: PeerConnView)
    requires
        !m.same_network(c),
    ensures
        m.add_client(c).peers == m.peers,
        m.add_client(c).foreign_client == m.foreign_client.add_conn(c),
        m.add_client_result(c) == Ok::<(PeerId, PeerConnId), Error>((c.peer_id, c.conn_id)),
        m.add_server(c).peers == m.peers,
        m.add_server(c).foreign_manager == m.foreign_manager.add_conn(c),
{
}

/// Starting a manager twice is starting it once.
pub proof fn starting_twice_is_starting_once(m: PeerManagerView)
    ensures
        m.started().started() == m.started(),
        m.started().running,
{
}

/// After the reaper ran, every peer of the table has a connection, and the
/// peers of the table are those that had one before.
pub proof fn reaper_keeps_connected_peers(m: PeerMapView)
    ensures
        m.reap().reaped(),
        m.reap().peer_ids() == m.peer_ids_with_conn(),
        m.wf() ==> m.reap().wf(),
{
    m.lemma_reap();
}

/// Once the only connection to a peer is closed and the reaper ran, the
/// peer has no entry and is the next hop of no destination.
pub proof fn dropped_peer_is_forgotten(m: PeerMapView, b: PeerId, conn_id: PeerConnId, d: PeerId)
    requires
        m.wf(),
        forall|k: int|
            0 <= k < m.conns_of(b).len() ==> (#[trigger] m.conns_of(b)[k]).conn_id == conn_id,
    ensures
        !m.close_conn(b, conn_id).reap().has_peer(b),
        m.close_conn(b, conn_id).reap().next_hop(d) != Some(b),
{
    let closed = m.close_conn(b, conn_id);
    let after = closed.reap();
    let keep = |e: PeerView| e.conns.len() > 0;
    m.lemma_peer_index(b);
    lemma_filter_entries(closed.peers, keep);
    assert(after.peers == closed.peers.filter(keep));
    if after.has_peer(b) {
        after.lemma_peer_index(b);
        let x = after.peer_index(b);
        let e = after.peers[x];
        assert(e.peer_id == b);
        assert(keep(e));
        assert(closed.peers.contains(e));
        let y = choose|y: int| 0 <= y < closed.peers.len() && closed.peers[y] == e;
        if m.has_peer(b) {
            let i = m.peer_index(b);
            if y != i {
                assert(closed.peers[y] == m.peers[y]);
                assert(m.peers[y].peer_id == b);
                m.lemma_peer_index_unique(y);
            } else {
                let gone = |c: PeerConnView| c.conn_id != conn_id;
                let left = m.peers[i].conns.filter(gone);
                assert(e.conns == left);
                m.peers[i].conns.lemma_filter_pred(gone, 0);
                let first = left[0];
                assert(gone(first));
                m.peers[i].conns.lemma_filter_contains_rev(gone, first);
                let z = choose|z: int| 0 <= z < m.peers[i].conns.len() && m.peers[i].conns[z] == first;
                assert(m.conns_of(b)[z].conn_id == conn_id);
            }
        } else {
            assert(closed.peers[y] == m.peers[y]);
            m.lemma_absent_peer(b);
        }
    }
    after.lemma_next_hop(d);
}

/// In a table from which the peers without a connection were removed, a
/// destination other than this node is its own next hop exactly if a
/// direct connection to it exists.
pub proof fn direct_peers_are_their_own_next_hop(m: PeerMapView, p: PeerId)
    requires
        m.reaped(),
        p != m.my_peer_id,
    ensures
        m.next_hop(p) == Some(p) <==> m.has_conn(p),
{
    m.lemma_next_hop(p);
    m.lemma_peer_index(p);
}

/// An address is given to a peer only if a path to that peer exists.
pub proof fn address_owner_can_be_reached(m: PeerMapView, ip: Ipv4Addr)
    ensures
        m.peer_id_by_ipv4(ip) matches Some(p) ==> m.next_hop(p) is Some,
{
    m.lemma_peer_id_by_ipv4(ip);
}

/// In a well-formed table a send to a direct peer succeeds exactly if a
/// connection to it exists; it then puts the frame, as it is, at the end
/// of the queue of the connection whose turn it is, and leaves every
/// other queue alone.
pub proof fn direct_send_queues_the_frame(m: PeerMapView, packet: ZCPacketView, dst: PeerId)
    requires
        m.wf(),
    ensures
        m.has_conn(dst) ==> m.send_directly_result(dst) == Ok::<(), Error>(()),
        !m.has_conn(dst) ==> m.send_directly_result(dst) == Err::<(), Error>(
            Error::RouteError(dst),
        ),
        !m.has_conn(dst) ==> m.send_directly(packet, dst) == m,
        m.has_conn(dst) ==> ({
            let chosen = m.peers[m.peer_index(dst)].chosen();
            let after = m.send_directly(packet, dst);
            &&& after.conns_of(dst).len() == m.conns_of(dst).len()
            &&& after.conns_of(dst)[chosen].tx == m.conns_of(dst)[chosen].tx.push(packet)
            &&& forall|k: int|
                0 <= k < m.conns_of(dst).len() && k != chosen ==> (#[trigger] after.conns_of(dst)[k])
                    == m.conns_of(dst)[k]
            &&& forall|p: PeerId| p != dst ==> #[trigger] after.conns_of(p) == m.conns_of(p)
        }),
{
    m.lemma_peer_index(dst);
    if m.has_conn(dst) {
        let i = m.peer_index(dst);
        let e = m.peers[i];
        let after = m.send_directly(packet, dst);
        assert(e.wf());
        assert(0 <= e.chosen() < e.conns.len());
        assert(!e.conns[e.chosen()].closed);
        m.lemma_send_directly_shape(packet, dst);
        m.lemma_same_shape_routes(after, dst);
        assert forall|p: PeerId| p != dst implies #[trigger] after.conns_of(p) == m.conns_of(p) by {
            m.lemma_same_shape_routes(after, p);
            m.lemma_peer_index(p);
        }
    }
}

/// A frame that a peer sent for another node is sent on towards that node
/// and reaches none of this node's filters: it is not delivered here.
pub proof fn frame_for_another_node_is_only_forwarded(
    m: PeerManagerView,
    after: PeerManagerView,
    packet: ZCPacketView,
    out: PeerRecvOutcome,
)
    requires
        m.recv_admits(after, packet, out),
        packet.header.to_peer_id != m.my_peer_id(),
    ensures
        out is Forwarded,
        after.peers == m.peers.send(packet, packet.header.to_peer_id),
        after.peers.loopback == m.peers.loopback,
{
    let to = packet.header.to_peer_id;
    match m.peers.next_hop(to) {
        Some(g) => {
            m.peers.lemma_send_directly_shape(packet, g);
        },
        None => {},
    }
}

/// A data frame for this node reaches the local interface whatever the
/// registered filters answer, provided that none of them was registered
/// after the filter that delivers to the interface.
pub proof fn data_frame_reaches_interface(
    kinds: Seq<FilterKind>,
    my_peer_id: PeerId,
    p: ZCPacketView,
    verdicts: Seq<Option<ZCPacketView>>,
    i: int,
    n: nat,
)
    requires
        0 <= i < n <= kinds.len(),
        kinds[i] == FilterKind::NicDelivery,
        forall|j: int| i < j < kinds.len() ==> #[trigger] kinds[j] != FilterKind::Custom,
        p.header.packet_type == PacketType::Data.spec_as_u8(),
        p.header.to_peer_id == my_peer_id,
    ensures
        pipeline_outcome(kinds, my_peer_id, p, verdicts, n) == PeerPacketOutcomeView::ToNic(p),
    decreases n,
{
    if n - 1 > i {
        assert(kinds[n - 1] != FilterKind::Custom);
        data_frame_reaches_interface(kinds, my_peer_id, p, verdicts, i, (n - 1) as nat);
    }
}

/// A data frame for this node, handled by a node that does not encrypt
/// and has no registered filter after the one that delivers to the
/// interface, is delivered to the interface as it is, and nothing else
/// happens.
pub proof fn data_frame_for_this_node_is_delivered(
    m: PeerManagerView,
    after: PeerManagerView,
    packet: ZCPacketView,
    out: PeerRecvOutcome,
    i: int,
)
    requires
        m.recv_admits(after, packet, out),
        packet.header.to_peer_id == m.my_peer_id(),
        packet.header.packet_type == PacketType::Data.spec_as_u8(),
        !m.encryption(),
        0 <= i < m.kinds().len(),
        m.kinds()[i] == FilterKind::NicDelivery,
        forall|j: int| i < j < m.kinds().len() ==> #[trigger] m.kinds()[j] != FilterKind::Custom,
    ensures
        after == m,
        out matches PeerRecvOutcome::Local { opened, outcome } && opened && outcome@
            == PeerPacketOutcomeView::ToNic(packet),
{
    match out {
        PeerRecvOutcome::Local { opened, outcome } => {
            let left = choose|left: ZCPacketView| #[trigger]
                m.local_recv_admits(packet, left, opened, outcome);
            let verdicts = choose|verdicts: Seq<Option<ZCPacketView>>|
                verdicts.len() == m.peer_pipeline.len() && answers_admitted(
                    m.peer_pipeline,
                    m.my_peer_id(),
                    left,
                    verdicts,
                    m.peer_pipeline.len(),
                ) && outcome@ == #[trigger] pipeline_outcome(
                    m.kinds(),
                    m.my_peer_id(),
                    left,
                    verdicts,
                    m.peer_pipeline.len(),
                );
            data_frame_reaches_interface(
                m.kinds(),
                m.my_peer_id(),
                packet,
                verdicts,
                i,
                m.kinds().len(),
            );
        },
        _ => {},
    }
}

/// A data frame that node `a` sends to node `c`, which it reaches through
/// node `b` only, is queued by `a` for `b`, sent on by `b` to `c` without
/// reaching the interface of `b`, and delivered by `c` to its interface,
/// the same frame at every step.
pub proof fn multi_hop_frame_reaches_its_destination_only(
    a: PeerMapView,
    b: PeerManagerView,
    after_b: PeerManagerView,
    out_b: PeerRecvOutcome,
    c: PeerManagerView,
    after_c: PeerManagerView,
    out_c: PeerRecvOutcome,
    packet: ZCPacketView,
    i: int,
)
    requires
        a.wf(),
        b.peers.wf(),
        packet.header.to_peer_id == c.my_peer_id(),
        packet.header.packet_type == PacketType::Data.spec_as_u8(),
        c.my_peer_id() != a.my_peer_id,
        c.my_peer_id() != b.my_peer_id(),
        a.next_hop(c.my_peer_id()) == Some(b.my_peer_id()),
        a.has_conn(b.my_peer_id()),
        b.peers.has_conn(c.my_peer_id()),
        b.recv_admits(after_b, packet, out_b),
        c.recv_admits(after_c, packet, out_c),
        !c.encryption(),
        0 <= i < c.kinds().len(),
        c.kinds()[i] == FilterKind::NicDelivery,
        forall|j: int| i < j < c.kinds().len() ==> #[trigger] c.kinds()[j] != FilterKind::Custom,
    ensures
        a.send_result(c.my_peer_id()) == Ok::<(), Error>(()),
        ({
            let to_b = a.peers[a.peer_index(b.my_peer_id())].chosen();
            a.send(packet, c.my_peer_id()).conns_of(b.my_peer_id())[to_b].tx == a.conns_of(
                b.my_peer_id(),
            )[to_b].tx.push(packet)
        }),
        out_b == PeerRecvOutcome::Forwarded(Ok::<(), Error>(())),
        ({
            let to_c = b.peers.peers[b.peers.peer_index(c.my_peer_id())].chosen();
            after_b.peers.conns_of(c.my_peer_id())[to_c].tx == b.peers.conns_of(
                c.my_peer_id(),
            )[to_c].tx.push(packet)
        }),
        out_c matches PeerRecvOutcome::Local { opened, outcome } && outcome@
            == PeerPacketOutcomeView::ToNic(packet),
{
    direct_send_queues_the_frame(a, packet, b.my_peer_id());
    b.peers.lemma_peer_index(c.my_peer_id());
    b.peers.lemma_next_hop(c.my_peer_id());
    direct_send_queues_the_frame(b.peers, packet, c.my_peer_id());
    data_frame_for_this_node_is_delivered(c, after_c, packet, out_c, i);
}

/// What a run through the first `n` places of a pipeline makes of a frame
/// depends on those places and on the answers of their filters only.
pub proof fn pipeline_looks_at_its_own_places(
    kinds: Seq<FilterKind>,
    kinds2: Seq<FilterKind>,
    my_peer_id: PeerId,
    p: ZCPacketView,
    verdicts: Seq<Option<ZCPacketView>>,
    verdicts2: Seq<Option<ZCPacketView>>,
    n: nat,
)
    requires
        n <= kinds.len(),
        n <= kinds2.len(),
        forall|k: int| 0 <= k < n ==> #[trigger] kinds[k] == kinds2[k],
        forall|k: int|
            0 <= k < n && kinds[k] == FilterKind::Custom ==> #[trigger] verdicts[k] == verdicts2[k],
    ensures
        pipeline_outcome(kinds, my_peer_id, p, verdicts, n) == pipeline_outcome(
            kinds2,
            my_peer_id,
            p,
            verdicts2,
            n,
        ),
    decreases n,
{
    if n > 0 {
        let i = (n - 1) as int;
        assert(kinds[i] == kinds2[i]);
        if kinds[i] == FilterKind::Custom {
            assert(verdicts[i] == verdicts2[i]);
            match verdicts[i] {
                None => {},
                Some(q) => {
                    pipeline_looks_at_its_own_places(
                        kinds,
                        kinds2,
                        my_peer_id,
                        q,
                        verdicts,
                        verdicts2,
                        (n - 1) as nat,
                    );
                },
            }
        } else if !kinds[i].takes(my_peer_id, p) {
            pipeline_looks_at_its_own_places(
                kinds,
                kinds2,
                my_peer_id,
                p,
                verdicts,
                verdicts2,
                (n - 1) as nat,
            );
        }
    }
}

/// Whether the answers that a run through the first `n` places asks for
/// are admitted depends on those places and on the answers of their
/// filters only.
pub proof fn admission_looks_at_its_own_places(
    slots: Seq<PeerFilterSlot>,
    slots2: Seq<PeerFilterSlot>,
    my_peer_id: PeerId,
    p: ZCPacketView,
    verdicts: Seq<Option<ZCPacketView>>,
    verdicts2: Seq<Option<ZCPacketView>>,
    n: nat,
)
    requires
        n <= slots.len(),
        n <= slots2.len(),
        forall|k: int| 0 <= k < n ==> #[trigger] slots[k] == slots2[k],
        forall|k: int| 0 <= k < n ==> #[trigger] verdicts[k] == verdicts2[k],
    ensures
        answers_admitted(slots, my_peer_id, p, verdicts, n) == answers_admitted(
            slots2,
            my_peer_id,
            p,
            verdicts2,
            n,
        ),
    decreases n,
{
    if n > 0 {
        let i = (n - 1) as int;
        assert(slots[i] == slots2[i]);
        assert(verdicts[i] == verdicts2[i]);
        match slots[i] {
            PeerFilterSlot::Custom(filter) => {
                match verdicts[i] {
                    None => {},
                    Some(q) => {
                        admission_looks_at_its_own_places(
                            slots,
                            slots2,
                            my_peer_id,
                            q,
                            verdicts,
                            verdicts2,
                            (n - 1) as nat,
                        );
                    },
                }
            },
            _ => {
                admission_looks_at_its_own_places(
                    slots,
                    slots2,
                    my_peer_id,
                    p,
                    verdicts,
                    verdicts2,
                    (n - 1) as nat,
                );
            },
        }
    }
}

/// A registered filter is asked before every filter that was registered
/// before it, and with the frame as it arrived. If it keeps the frame, the
/// run ends at its place and no older filter is asked. If it hands a
/// frame back, exactly that frame goes through the older places.
pub proof fn newest_registered_filter_is_asked_first(
    slots: Seq<PeerFilterSlot>,
    newest: PeerFilterSlot,
    my_peer_id: PeerId,
    p: ZCPacketView,
    out: PeerPacketOutcomeView,
)
    requires
        newest is Custom,
        pipeline_admits(slots.push(newest), my_peer_id, p, out),
    ensures
        exists|answer: Option<ZCPacketView>| #[trigger]
            newest.registered_answers(p, answer) && match answer {
                None => out == PeerPacketOutcomeView::Consumed(slots.len() as usize),
                Some(q) => pipeline_admits(slots, my_peer_id, q, out),
            },
{
    let longer = slots.push(newest);
    let n = slots.len();
    let verdicts = choose|verdicts: Seq<Option<ZCPacketView>>|
        verdicts.len() == longer.len() && answers_admitted(
            longer,
            my_peer_id,
            p,
            verdicts,
            longer.len(),
        ) && out == #[trigger] pipeline_outcome(
            slot_kinds(longer),
            my_peer_id,
            p,
            verdicts,
            longer.len(),
        );
    let answer = verdicts[n as int];
    assert(longer[n as int] == newest);
    assert(slot_kinds(longer)[n as int] == FilterKind::Custom);
    assert(newest.registered_answers(p, answer));
    match answer {
        None => {},
        Some(q) => {
            let shorter = verdicts.take(n as int);
            admission_looks_at_its_own_places(longer, slots, my_peer_id, q, verdicts, shorter, n);
            assert forall|k: int| 0 <= k < n implies #[trigger] slot_kinds(longer)[k] == slot_kinds(
                slots,
            )[k] by {
                assert(longer[k] == slots[k]);
            }
            pipeline_looks_at_its_own_places(
                slot_kinds(longer),
                slot_kinds(slots),
                my_peer_id,
                q,
                verdicts,
                shorter,
                n,
            );
            assert(out == pipeline_outcome(slot_kinds(slots), my_peer_id, q, shorter, n));
        },
    }
}

/// Whether the first `n` places of an interface-side pipeline turn one
/// frame into another depends on those places only.
pub proof fn interface_run_looks_at_its_own_places(
    filters: Seq<NicFilterSlot>,
    filters2: Seq<NicFilterSlot>,
    n: nat,
    before: ZCPacketView,
    after: ZCPacketView,
)
    requires
        n <= filters.len(),
        n <= filters2.len(),
        forall|k: int| 0 <= k < n ==> #[trigger] filters[k] == filters2[k],
    ensures
        nic_run(filters, n, before, after) == nic_run(filters2, n, before, after),
    decreases n,
{
    if n > 0 {
        assert(filters[n - 1] == filters2[n - 1]);
        if nic_run(filters, n, before, after) {
            let mid = choose|mid: ZCPacketView| #[trigger]
                filters[n - 1].filter.rewrites(before, mid) && nic_run(
                    filters,
                    (n - 1) as nat,
                    mid,
                    after,
                );
            interface_run_looks_at_its_own_places(filters, filters2, (n - 1) as nat, mid, after);
            assert(filters2[n - 1].filter.rewrites(before, mid));
        }
        if nic_run(filters2, n, before, after) {
            let mid = choose|mid: ZCPacketView| #[trigger]
                filters2[n - 1].filter.rewrites(before, mid) && nic_run(
                    filters2,
                    (n - 1) as nat,
                    mid,
                    after,
                );
            interface_run_looks_at_its_own_places(filters, filters2, (n - 1) as nat, mid, after);
            assert(filters[n - 1].filter.rewrites(before, mid));
        }
    }
}

/// An interface-side filter runs before every filter that was registered
/// before it, on the frame as it came in, and the older filters run on
/// what it left.
pub proof fn newest_interface_filter_runs_first(
    filters: Seq<NicFilterSlot>,
    slot: NicFilterSlot,
    before: ZCPacketView,
    after: ZCPacketView,
)
    ensures
        nic_run(filters.push(slot), filters.len() + 1, before, after) <==> exists|
            mid: ZCPacketView,
        |
         #[trigger]
            slot.filter.rewrites(before, mid) && nic_run(filters, filters.len(), mid, after),
{
    let longer = filters.push(slot);
    let n = filters.len();
    assert(longer[n as int] == slot);
    if nic_run(longer, n + 1, before, after) {
        let mid = choose|mid: ZCPacketView| #[trigger]
            longer[n as int].filter.rewrites(before, mid) && nic_run(longer, n, mid, after);
        interface_run_looks_at_its_own_places(longer, filters, n, mid, after);
        assert(slot.filter.rewrites(before, mid) && nic_run(filters, n, mid, after));
    }
    if exists|mid: ZCPacketView| #[trigger]
        slot.filter.rewrites(before, mid) && nic_run(filters, n, mid, after) {
        let mid = choose|mid: ZCPacketView| #[trigger]
            slot.filter.rewrites(before, mid) && nic_run(filters, n, mid, after);
        interface_run_looks_at_its_own_places(longer, filters, n, mid, after);
        assert(longer[n + 1 - 1].filter.rewrites(before, mid) && nic_run(
            longer,
            (n + 1 - 1) as nat,
            mid,
            after,
        ));
        assert(nic_run(longer, n + 1, before, after));
    }
}

/// A node without interface-side filter that does not encrypt sends the
/// filled frame as it is: a copy of it goes to each destination.
pub proof fn plain_send_is_exact(
    m: PeerManagerView,
    after: PeerManagerView,
    r: Result<(), Error>,
    filled: ZCPacketView,
    dsts: Seq<PeerId>,
    filtered: ZCPacketView,
    sealed: ZCPacketView,
    seal: Result<(), Error>,
)
    requires
        m.ipv4_send_admits(after, r, filled, dsts, filtered, sealed, seal),
        m.nic_pipeline.len() == 0,
        !m.encryption(),
    ensures
        filtered == filled,
        sealed == filled,
        after == m.fan_out(filled, dsts, dsts.len()),
        reports(r, m.fan_out_errors(filled, dsts, dsts.len())),
{
}

/// The filter that was registered last runs first: if it keeps the frame,
/// the run ends there, and if it hands a frame back, that frame goes to
/// the filters that were registered before it.
pub proof fn newest_filter_runs_first(
    kinds: Seq<FilterKind>,
    my_peer_id: PeerId,
    p: ZCPacketView,
    verdicts: Seq<Option<ZCPacketView>>,
    answer: Option<ZCPacketView>,
)
    requires
        verdicts.len() == kinds.len(),
    ensures
        pipeline_outcome(
            kinds.push(FilterKind::Custom),
            my_peer_id,
            p,
            verdicts.push(answer),
            kinds.len() + 1,
        ) == match answer {
            None => PeerPacketOutcomeView::Consumed(kinds.len() as usize),
            Some(q) => pipeline_outcome(kinds, my_peer_id, q, verdicts, kinds.len()),
        },
{
    let kinds2 = kinds.push(FilterKind::Custom);
    let verdicts2 = verdicts.push(answer);
    assert(kinds2[kinds.len() as int] == FilterKind::Custom);
    assert(verdicts2[kinds.len() as int] == answer);
    match answer {
        None => {},
        Some(q) => {
            pipeline_looks_at_its_own_places(
                kinds2,
                kinds,
                my_peer_id,
                q,
                verdicts2,
                verdicts,
                kinds.len(),
            );
        },
    }
}

/// A frame that the filter at place `i` kept is seen by no filter that
/// was registered before it: whatever those would answer, the run ends at
/// place `i`.
pub proof fn kept_frame_is_not_passed_on(
    kinds: Seq<FilterKind>,
    my_peer_id: PeerId,
    p: ZCPacketView,
    verdicts: Seq<Option<ZCPacketView>>,
    others: Seq<Option<ZCPacketView>>,
    i: usize,
    n: nat,
)
    requires
        n <= kinds.len() <= usize::MAX,
        pipeline_outcome(kinds, my_peer_id, p, verdicts, n) == PeerPacketOutcomeView::Consumed(i),
        forall|k: int| i <= k < n ==> #[trigger] others[k] == verdicts[k],
    ensures
        i < n,
        kinds[i as int] == FilterKind::Custom,
        verdicts[i as int] is None,
        pipeline_outcome(kinds, my_peer_id, p, others, n) == PeerPacketOutcomeView::Consumed(i),
    decreases n,
{
    if n > 0 {
        let last = (n - 1) as int;
        if kinds[last] == FilterKind::Custom {
            match verdicts[last] {
                None => {
                    assert(last as usize == i);
                    assert(others[last] == verdicts[last]);
                },
                Some(q) => {
                    kept_frame_is_not_passed_on(
                        kinds,
                        my_peer_id,
                        q,
                        verdicts,
                        others,
                        i,
                        (n - 1) as nat,
                    );
                    assert(others[last] == verdicts[last]);
                },
            }
        } else if !kinds[last].takes(my_peer_id, p) {
            kept_frame_is_not_passed_on(kinds, my_peer_id, p, verdicts, others, i, (n - 1) as nat);
        }
    }
}

/// A frame for all peers goes to every destination that has a next hop,
/// to each once, and not to this node.
pub proof fn broadcast_goes_to_each_peer_once(m: PeerManagerView, ip: Ipv4Addr, d: PeerId)
    requires
        ip.spec_addresses_all_peers(),
    ensures
        m.dst_peers(ip).no_duplicates(),
        !m.dst_peers(ip).contains(m.my_peer_id()),
        m.dst_peers(ip).contains(d) <==> m.peers.next_hop(d) is Some,
{
    m.peers.lemma_route_dsts();
}

/// The addresses `255.255.255.255` and `x.y.z.255` address all peers.
pub proof fn broadcast_addresses(ip: Ipv4Addr)
    requires
        ip.d == 255,
    ensures
        ip.spec_addresses_all_peers(),
{
}

/// Sending a frame to one destination queues exactly one frame if it
/// succeeds and none if it fails; it leaves the loopback queues alone, and
/// changes nothing else of the peer map and the foreign network client
/// than queues and counters.
pub proof fn deliver_queues_one_frame(m: PeerManagerView, p: ZCPacketView, d: PeerId)
    ensures
        m.deliver_result(d) is Ok ==> m.deliver(p, d).queued() == m.queued() + 1,
        m.deliver_result(d) is Err ==> m.deliver(p, d).queued() == m.queued(),
        m.deliver(p, d).peers.loopback == m.peers.loopback,
        m.deliver(p, d).foreign_client.loopback == m.foreign_client.loopback,
        m.same_shape(m.deliver(p, d)),
        m.wf() ==> m.deliver(p, d).wf(),
        m.deliver(p, d).foreign_manager == m.foreign_manager,
{
    match m.peers.next_hop(d) {
        Some(g) => {
            m.peers.lemma_send_directly_queued(p, g);
            m.peers.lemma_send_directly_shape(p, g);
            m.foreign_client.lemma_send_directly_shape(p, d);
            assert(m.foreign_client.same_shape(m.foreign_client)) by {
                assert forall|i: int| 0 <= i < m.foreign_client.peers.len() implies (
                #[trigger] m.foreign_client.peers[i]).same_shape(m.foreign_client.peers[i]) by {}
            }
        },
        None => {
            m.foreign_client.lemma_forward_queued(p, d);
            match m.foreign_client.next_hop(d) {
                Some(g) => {
                    m.foreign_client.lemma_send_directly_shape(p, g);
                },
                None => {},
            }
            assert(m.peers.same_shape(m.peers)) by {
                assert forall|i: int| 0 <= i < m.peers.peers.len() implies (
                #[trigger] m.peers.peers[i]).same_shape(m.peers.peers[i]) by {}
            }
            assert(m.foreign_client.same_shape(m.deliver(p, d).foreign_client)) by {
                if m.foreign_client.next_hop(d) is None {
                    assert forall|i: int| 0 <= i < m.foreign_client.peers.len() implies (
                    #[trigger] m.foreign_client.peers[i]).same_shape(m.foreign_client.peers[i]) by {}
                }
            }
        },
    }
}

/// Managers of the same shape, both well formed, answer a send to a
/// destination alike.
pub proof fn same_shape_delivers_alike(m: PeerManagerView, other: PeerManagerView, d: PeerId)
    requires
        m.same_shape(other),
        m.wf(),
        other.wf(),
    ensures
        m.deliver_result(d) == other.deliver_result(d),
{
    m.peers.lemma_same_shape_routes(other.peers, d);
    m.foreign_client.lemma_same_shape_routes(other.foreign_client, d);
    match m.peers.next_hop(d) {
        Some(g) => {
            m.peers.lemma_same_shape_gateway(other.peers, g);
        },
        None => {},
    }
}

/// Being of the same shape carries over from one manager to the next.
pub proof fn same_shape_is_transitive(a: PeerMapView, b: PeerMapView, c: PeerMapView)
    requires
        a.same_shape(b),
        b.same_shape(c),
    ensures
        a.same_shape(c),
{
    assert forall|i: int| 0 <= i < a.peers.len() implies (#[trigger] a.peers[i]).same_shape(
        c.peers[i],
    ) by {
        assert(a.peers[i].same_shape(b.peers[i]));
        assert(b.peers[i].same_shape(c.peers[i]));
        assert forall|k: int| 0 <= k < a.peers[i].conns.len() implies (
        #[trigger] a.peers[i].conns[k]).closed == c.peers[i].conns[k].closed && a.peers[i].conns[k].peer_id
            == c.peers[i].conns[k].peer_id && a.peers[i].conns[k].conn_id
            == c.peers[i].conns[k].conn_id by {
            assert(a.peers[i].conns[k].closed == b.peers[i].conns[k].closed);
            assert(b.peers[i].conns[k].closed == c.peers[i].conns[k].closed);
        }
    }
}

/// A send to several destinations queues one frame for each destination
/// that did not fail and reports one error for each that did; it sends
/// nothing to this node itself.
pub proof fn fan_out_sends_one_copy_each(
    m: PeerManagerView,
    p: ZCPacketView,
    dsts: Seq<PeerId>,
    n: nat,
)
    requires
        n <= dsts.len(),
    ensures
        m.fan_out(p, dsts, n).queued() + m.fan_out_errors(p, dsts, n).len() == m.queued() + n,
        m.fan_out(p, dsts, n).peers.loopback == m.peers.loopback,
        m.fan_out(p, dsts, n).foreign_client.loopback == m.foreign_client.loopback,
        m.same_shape(m.fan_out(p, dsts, n)),
        m.wf() ==> m.fan_out(p, dsts, n).wf(),
        m.fan_out(p, dsts, n).foreign_manager == m.foreign_manager,
    decreases n,
{
    if n > 0 {
        let before = m.fan_out(p, dsts, (n - 1) as nat);
        let d = dsts[n - 1];
        fan_out_sends_one_copy_each(m, p, dsts, (n - 1) as nat);
        deliver_queues_one_frame(before, p.with_to(d), d);
        same_shape_is_transitive(m.peers, before.peers, before.deliver(p.with_to(d), d).peers);
        same_shape_is_transitive(
            m.foreign_client,
            before.foreign_client,
            before.deliver(p.with_to(d), d).foreign_client,
        );
    } else {
        assert(m.peers.same_shape(m.peers)) by {
            assert forall|i: int| 0 <= i < m.peers.peers.len() implies (
            #[trigger] m.peers.peers[i]).same_shape(m.peers.peers[i]) by {}
        }
        assert(m.foreign_client.same_shape(m.foreign_client)) by {
            assert forall|i: int| 0 <= i < m.foreign_client.peers.len() implies (
            #[trigger] m.foreign_client.peers[i]).same_shape(m.foreign_client.peers[i]) by {}
        }
    }
}

/// The errors that a send to the first `n` of several destinations
/// reports are those of the destinations that cannot take a frame as the
/// manager stands before the send.
pub proof fn fan_out_errors_are_those_of_the_start(
    m: PeerManagerView,
    p: ZCPacketView,
    dsts: Seq<PeerId>,
    n: nat,
)
    requires
        m.wf(),
        0 < n <= dsts.len(),
    ensures
        m.fan_out(p, dsts, (n - 1) as nat).deliver_result(dsts[n - 1]) == m.deliver_result(
            dsts[n - 1],
        ),
{
    fan_out_sends_one_copy_each(m, p, dsts, (n - 1) as nat);
    same_shape_delivers_alike(m, m.fan_out(p, dsts, (n - 1) as nat), dsts[n - 1]);
}

/// When exactly one of several destinations cannot take a frame, the send
/// reports exactly that one error, and every other destination gets its
/// copy.
pub proof fn one_failure_is_reported_alone(
    m: PeerManagerView,
    p: ZCPacketView,
    dsts: Seq<PeerId>,
    k: int,
    n: nat,
)
    requires
        m.wf(),
        n <= dsts.len(),
        0 <= k < dsts.len(),
        m.deliver_result(dsts[k]) is Err,
        forall|i: int| 0 <= i < dsts.len() && i != k ==> m.deliver_result(#[trigger] dsts[i]) is Ok,
    ensures
        n <= k ==> m.fan_out_errors(p, dsts, n) == Seq::<Error>::empty(),
        n > k ==> m.fan_out_errors(p, dsts, n) == seq![m.deliver_result(dsts[k])->Err_0],
        n == dsts.len() ==> m.fan_out(p, dsts, n).queued() == m.queued() + dsts.len() - 1,
    decreases n,
{
    if n > 0 {
        one_failure_is_reported_alone(m, p, dsts, k, (n - 1) as nat);
        fan_out_errors_are_those_of_the_start(m, p, dsts, n);
        let before = m.fan_out_errors(p, dsts, (n - 1) as nat);
        if n - 1 == k {
            assert(before.push(m.deliver_result(dsts[k])->Err_0) =~= seq![
                m.deliver_result(dsts[k])->Err_0,
            ]);
        } else {
            assert(m.deliver_result(dsts[n - 1]) is Ok);
        }
    }
    fan_out_sends_one_copy_each(m, p, dsts, n);
}

} // verus!
