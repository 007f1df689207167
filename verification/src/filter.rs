//! The two filter pipelines of a node: the one that every frame addressed
//! to the node runs through, and the one that every frame from the local
//! interface runs through before it is sent.

use vstd::prelude::*;
use crate::packet::{PacketType, PeerId, ZCPacket, ZCPacketView};

verus! {

/// The view of a frame that a filter handed back, if it handed one back.
pub open spec fn answer_view(answer: Option<ZCPacket>) -> Option<ZCPacketView> {
    match answer {
        Some(p) => Some(p@),
        None => None,
    }
}

/// A filter for frames that arrived from a peer. It hands the frame back
/// to pass it on to the next filter, or keeps it. What an implementation
/// answers is its own affair: `answers` says what it admits, and admits
/// everything unless the implementation says otherwise.
pub trait PeerPacketFilter: Send + Sync {
    /// Whether the filter may answer `answer` when it is given `packet`.
    open spec fn answers(&self, packet: ZCPacketView, answer: Option<ZCPacketView>) -> bool {
        true
    }

    fn try_process_packet_from_peer(&self, packet: ZCPacket) -> (r: Option<ZCPacket>)
        ensures
            self.answers(packet@, answer_view(r)),
    ;
}

/// A filter for frames from the local interface; it may rewrite the frame
/// in place. `rewrites` says what it admits, and admits everything unless
/// the implementation says otherwise.
pub trait NicPacketFilter: Send + Sync {
    /// Whether the filter may turn `before` into `after`.
    open spec fn rewrites(&self, before: ZCPacketView, after: ZCPacketView) -> bool {
        true
    }

    fn try_process_packet_from_nic(&self, data: &mut ZCPacket)
        ensures
            self.rewrites(old(data)@, final(data)@),
    ;
}

pub type BoxPeerPacketFilter = Box<dyn PeerPacketFilter>;

pub type BoxNicPacketFilter = Box<dyn NicPacketFilter>;

/// What stands at one place of the peer-side pipeline.
#[derive(Clone, Copy, Debug, PartialEq, Eq, Structural)]
pub enum FilterKind {
    /// Takes data frames addressed to this node, for the local interface.
    NicDelivery,
    /// Takes RPC frames, for the RPC transport.
    RpcDemux,
    /// Takes route control frames, for the route algorithm.
    Route,
    /// A filter that the embedding program registered.
    Custom,
}

impl FilterKind {
    /// Whether a filter of this kind that is part of the core takes `p`.
    pub open spec fn takes(self, my_peer_id: PeerId, p: ZCPacketView) -> bool {
        match self {
            FilterKind::NicDelivery => p.header.packet_type == PacketType::Data.spec_as_u8()
                && p.header.to_peer_id == my_peer_id,
            FilterKind::RpcDemux => p.header.packet_type == PacketType::TaRpc.spec_as_u8(),
            FilterKind::Route => p.header.packet_type == PacketType::Route.spec_as_u8(),
            FilterKind::Custom => false,
        }
    }
}

/// One place of the peer-side pipeline.
pub enum PeerFilterSlot {
    NicDelivery,
    RpcDemux,
    Route,
    Custom(BoxPeerPacketFilter),
}

impl PeerFilterSlot {
    /// Whether a registered filter stands at this place and may answer
    /// `answer` when it is given `packet`.
    pub open spec fn registered_answers(
        &self,
        packet: ZCPacketView,
        answer: Option<ZCPacketView>,
    ) -> bool {
        match self {
            PeerFilterSlot::Custom(filter) => filter.answers(packet, answer),
            _ => false,
        }
    }

    /// The kind of filter that stands at this place.
    pub open spec fn spec_kind(&self) -> FilterKind {
        match self {
            PeerFilterSlot::NicDelivery => FilterKind::NicDelivery,
            PeerFilterSlot::RpcDemux => FilterKind::RpcDemux,
            PeerFilterSlot::Route => FilterKind::Route,
            PeerFilterSlot::Custom(_) => FilterKind::Custom,
        }
    }
}

/// The kinds of the places of a pipeline, in the order of registration.
pub open spec fn slot_kinds(slots: Seq<PeerFilterSlot>) -> Seq<FilterKind> {
    slots.map_values(|s: PeerFilterSlot| s.spec_kind())
}

/// What became of a frame in the peer-side pipeline.
pub enum PeerPacketOutcomeView {
    ToNic(ZCPacketView),
    ToRpc(ZCPacketView),
    ToRoute(ZCPacketView),
    Consumed(usize),
    Unhandled(ZCPacketView),
}

/// What became of a frame in the peer-side pipeline, and what is left for
/// the embedding program to do with it.
#[derive(Debug, PartialEq, Eq)]
pub enum PeerPacketOutcome {
    /// The frame is for the local interface.
    ToNic(ZCPacket),
    /// The frame is for the RPC transport.
    ToRpc(ZCPacket),
    /// The frame is for the route algorithm.
    ToRoute(ZCPacket),
    /// The registered filter at this place of the pipeline kept the frame.
    Consumed(usize),
    /// No filter took the frame.
    Unhandled(ZCPacket),
}

impl View for PeerPacketOutcome {
    type V = PeerPacketOutcomeView;

    open spec fn view(&self) -> PeerPacketOutcomeView {
        match self {
            PeerPacketOutcome::ToNic(p) => PeerPacketOutcomeView::ToNic(p@),
            PeerPacketOutcome::ToRpc(p) => PeerPacketOutcomeView::ToRpc(p@),
            PeerPacketOutcome::ToRoute(p) => PeerPacketOutcomeView::ToRoute(p@),
            PeerPacketOutcome::Consumed(i) => PeerPacketOutcomeView::Consumed(*i),
            PeerPacketOutcome::Unhandled(p) => PeerPacketOutcomeView::Unhandled(p@),
        }
    }
}

/// What a filter of the core that takes `p` makes of it.
pub open spec fn taken_by(kind: FilterKind, p: ZCPacketView) -> PeerPacketOutcomeView {
    match kind {
        FilterKind::NicDelivery => PeerPacketOutcomeView::ToNic(p),
        FilterKind::RpcDemux => PeerPacketOutcomeView::ToRpc(p),
        _ => PeerPacketOutcomeView::ToRoute(p),
    }
}

/// What becomes of `p` when it enters the first `n` places of a pipeline:
/// the places are tried from the last one registered to the first, and the
/// first that takes the frame ends the run. `verdicts[i]` is what the
/// registered filter at place `i` answers when the frame reaches it.
pub open spec fn pipeline_outcome(
    kinds: Seq<FilterKind>,
    my_peer_id: PeerId,
    p: ZCPacketView,
    verdicts: Seq<Option<ZCPacketView>>,
    n: nat,
) -> PeerPacketOutcomeView
    decreases n,
{
    if n == 0 {
        PeerPacketOutcomeView::Unhandled(p)
    } else {
        let i = (n - 1) as nat;
        if kinds[i as int] == FilterKind::Custom {
            match verdicts[i as int] {
                None => PeerPacketOutcomeView::Consumed(i as usize),
                Some(q) => pipeline_outcome(kinds, my_peer_id, q, verdicts, i),
            }
        } else if kinds[i as int].takes(my_peer_id, p) {
            taken_by(kinds[i as int], p)
        } else {
            pipeline_outcome(kinds, my_peer_id, p, verdicts, i)
        }
    }
}

/// Whether the answers `verdicts` that a run of `p` through the first `n`
/// places asks for are answers that the filters at those places give: the
/// filter at each place that the frame reaches admits its answer to the
/// frame as it reaches it.
pub open spec fn answers_admitted(
    slots: Seq<PeerFilterSlot>,
    my_peer_id: PeerId,
    p: ZCPacketView,
    verdicts: Seq<Option<ZCPacketView>>,
    n: nat,
) -> bool
    decreases n,
{
    if n == 0 {
        true
    } else {
        let i = (n - 1) as nat;
        match slots[i as int] {
            PeerFilterSlot::Custom(filter) => filter.answers(p, verdicts[i as int]) && match verdicts[i as int] {
                None => true,
                Some(q) => answers_admitted(slots, my_peer_id, q, verdicts, i),
            },
            slot => slot.spec_kind().takes(my_peer_id, p) || answers_admitted(
                slots,
                my_peer_id,
                p,
                verdicts,
                i,
            ),
        }
    }
}

/// Whether `out` is what the pipeline makes of `p`: the frame goes
/// through the places from the last one registered to the first, every
/// registered filter that it reaches is asked once, with the frame as the
/// filter before it handed it back, and `out` is what follows from the
/// answers.
pub open spec fn pipeline_admits(
    slots: Seq<PeerFilterSlot>,
    my_peer_id: PeerId,
    p: ZCPacketView,
    out: PeerPacketOutcomeView,
) -> bool {
    exists|verdicts: Seq<Option<ZCPacketView>>|
        verdicts.len() == slots.len() && answers_admitted(
            slots,
            my_peer_id,
            p,
            verdicts,
            slots.len(),
        ) && out == #[trigger] pipeline_outcome(
            slot_kinds(slots),
            my_peer_id,
            p,
            verdicts,
            slots.len(),
        )
}

/// Runs `packet` through the peer-side pipeline of node `my_peer_id`.
pub fn run_peer_pipeline(slots: &Vec<PeerFilterSlot>, my_peer_id: PeerId, packet: ZCPacket) -> (out:
    PeerPacketOutcome)
    ensures
        pipeline_admits(slots@, my_peer_id, packet@, out@),
{
    let ghost kinds = slot_kinds(slots@);
    let ghost len = slots@.len();
    let ghost first = packet@;
    let ghost mut vs: Seq<Option<ZCPacketView>> = Seq::new(len, |i: int| None);
    let mut cur = packet;
    let mut n: usize = slots.len();
    while n > 0
        invariant
            n <= len,
            len == slots@.len(),
            kinds == slot_kinds(slots@),
            first == packet@,
            vs.len() == len,
            forall|w: Seq<Option<ZCPacketView>>|
                w.len() == len && (forall|k: int| n <= k < len ==> w[k] == vs[k])
                    ==> #[trigger] pipeline_outcome(kinds, my_peer_id, first, w, len)
                    == pipeline_outcome(kinds, my_peer_id, cur@, w, n as nat),
            forall|w: Seq<Option<ZCPacketView>>|
                w.len() == len && (forall|k: int| n <= k < len ==> w[k] == vs[k])
                    ==> #[trigger] answers_admitted(slots@, my_peer_id, first, w, len)
                    == answers_admitted(slots@, my_peer_id, cur@, w, n as nat),
        decreases n,
    {
        let i: usize = n - 1;
        let ghost before = cur@;
        let ghost old_vs = vs;
        assert(kinds[i as int] == slots@[i as int].spec_kind());
        match &slots[i] {
            PeerFilterSlot::Custom(filter) => {
                match filter.try_process_packet_from_peer(cur) {
                    None => {
                        proof {
                            vs = vs.update(i as int, None);
                            assert(pipeline_outcome(kinds, my_peer_id, first, vs, len)
                                == pipeline_outcome(kinds, my_peer_id, before, vs, n as nat));
                            assert(answers_admitted(slots@, my_peer_id, first, vs, len)
                                == answers_admitted(slots@, my_peer_id, before, vs, n as nat));
                        }
                        return PeerPacketOutcome::Consumed(i);
                    },
                    Some(passed) => {
                        proof {
                            vs = vs.update(i as int, Some(passed@));
                        }
                        cur = passed;
                    },
                }
            },
            PeerFilterSlot::NicDelivery => {
                if cur.header.packet_type == PacketType::Data.as_u8() && cur.header.to_peer_id
                    == my_peer_id {
                    proof {
                        assert(pipeline_outcome(kinds, my_peer_id, first, vs, len)
                            == pipeline_outcome(kinds, my_peer_id, before, vs, n as nat));
                        assert(answers_admitted(slots@, my_peer_id, first, vs, len)
                            == answers_admitted(slots@, my_peer_id, before, vs, n as nat));
                    }
                    return PeerPacketOutcome::ToNic(cur);
                }
            },
            PeerFilterSlot::RpcDemux => {
                if cur.header.packet_type == PacketType::TaRpc.as_u8() {
                    proof {
                        assert(pipeline_outcome(kinds, my_peer_id, first, vs, len)
                            == pipeline_outcome(kinds, my_peer_id, before, vs, n as nat));
                        assert(answers_admitted(slots@, my_peer_id, first, vs, len)
                            == answers_admitted(slots@, my_peer_id, before, vs, n as nat));
                    }
                    return PeerPacketOutcome::ToRpc(cur);
                }
            },
            PeerFilterSlot::Route => {
                if cur.header.packet_type == PacketType::Route.as_u8() {
                    proof {
                        assert(pipeline_outcome(kinds, my_peer_id, first, vs, len)
                            == pipeline_outcome(kinds, my_peer_id, before, vs, n as nat));
                        assert(answers_admitted(slots@, my_peer_id, first, vs, len)
                            == answers_admitted(slots@, my_peer_id, before, vs, n as nat));
                    }
                    return PeerPacketOutcome::ToRoute(cur);
                }
            },
        }
        proof {
            assert forall|w: Seq<Option<ZCPacketView>>|
                w.len() == len && (forall|k: int| i <= k < len ==> w[k] == vs[k])
                    implies #[trigger] pipeline_outcome(kinds, my_peer_id, first, w, len)
                    == pipeline_outcome(kinds, my_peer_id, cur@, w, i as nat) by {
                assert(forall|k: int| n <= k < len ==> w[k] == old_vs[k]);
                assert(w[i as int] == vs[i as int]);
                assert(pipeline_outcome(kinds, my_peer_id, first, w, len) == pipeline_outcome(
                    kinds,
                    my_peer_id,
                    before,
                    w,
                    n as nat,
                ));
            }
            assert forall|w: Seq<Option<ZCPacketView>>|
                w.len() == len && (forall|k: int| i <= k < len ==> w[k] == vs[k])
                    implies #[trigger] answers_admitted(slots@, my_peer_id, first, w, len)
                    == answers_admitted(slots@, my_peer_id, cur@, w, i as nat) by {
                assert(forall|k: int| n <= k < len ==> w[k] == old_vs[k]);
                assert(w[i as int] == vs[i as int]);
                assert(answers_admitted(slots@, my_peer_id, first, w, len) == answers_admitted(
                    slots@,
                    my_peer_id,
                    before,
                    w,
                    n as nat,
                ));
            }
        }
        n = i;
    }
    proof {
        assert(pipeline_outcome(kinds, my_peer_id, first, vs, len) == pipeline_outcome(
            kinds,
            my_peer_id,
            cur@,
            vs,
            0,
        ));
        assert(answers_admitted(slots@, my_peer_id, first, vs, len) == answers_admitted(
            slots@,
            my_peer_id,
            cur@,
            vs,
            0,
        ));
    }
    PeerPacketOutcome::Unhandled(cur)
}

/// One place of the interface-side pipeline.
pub struct NicFilterSlot {
    pub filter: BoxNicPacketFilter,
}

/// Whether the first `n` places of an interface-side pipeline turn
/// `before` into `after`: every filter runs once, from place `n - 1` down
/// to place 0, each on the frame as the filter before it left it.
pub open spec fn nic_run(
    filters: Seq<NicFilterSlot>,
    n: nat,
    before: ZCPacketView,
    after: ZCPacketView,
) -> bool
    decreases n,
{
    if n == 0 {
        after == before
    } else {
        exists|mid: ZCPacketView| #[trigger]
            filters[n - 1].filter.rewrites(before, mid) && nic_run(
                filters,
                (n - 1) as nat,
                mid,
                after,
            )
    }
}

/// Runs `data` through the interface-side pipeline: every filter once,
/// from the last one registered to the first, each on the frame as the
/// filter before it left it.
pub fn run_nic_pipeline(filters: &Vec<NicFilterSlot>, data: &mut ZCPacket)
    ensures
        nic_run(filters@, filters@.len(), old(data)@, final(data)@),
{
    let mut n: usize = filters.len();
    while n > 0
        invariant
            n <= filters@.len(),
            forall|last: ZCPacketView|
                nic_run(filters@, n as nat, data@, last) ==> #[trigger] nic_run(
                    filters@,
                    filters@.len(),
                    old(data)@,
                    last,
                ),
        decreases n,
    {
        let ghost before = data@;
        let ghost m = n;
        n -= 1;
        filters[n].filter.try_process_packet_from_nic(data);
        proof {
            assert forall|last: ZCPacketView|
                nic_run(filters@, n as nat, data@, last) implies #[trigger] nic_run(
                filters@,
                filters@.len(),
                old(data)@,
                last,
            ) by {
                assert(filters@[m - 1].filter.rewrites(before, data@));
                assert(nic_run(filters@, m as nat, before, last));
            }
        }
    }
}

} // verus!
