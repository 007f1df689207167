//! One authenticated connection to one remote peer, as the core sees it: who
//! is at the other end, and the queue of frames waiting to be written.

use vstd::prelude::*;
use uuid::Uuid;
use crate::common::{NetworkIdentity, NetworkIdentityView};
use crate::error::Error;
use crate::outside::uuid_eq;
use crate::packet::{PeerId, ZCPacket, ZCPacketView};

verus! {

/// Identifier of a connection.
pub type PeerConnId = Uuid;

/// The packets of a queue, each by its view.
pub open spec fn packets_view(s: Seq<ZCPacket>) -> Seq<ZCPacketView> {
    s.map_values(|p: ZCPacket| p@)
}

/// What a connection is.
pub struct PeerConnView {
    pub conn_id: PeerConnId,
    pub my_peer_id: PeerId,
    pub peer_id: PeerId,
    pub network_identity: NetworkIdentityView,
    /// Frames accepted for sending and not yet taken by the writer.
    pub tx: Seq<ZCPacketView>,
    pub closed: bool,
}

impl PeerConnView {
    /// The connection after `packet` was handed to it.
    pub open spec fn spec_send(self, packet: ZCPacketView) -> PeerConnView {
        if self.closed {
            self
        } else {
            PeerConnView { tx: self.tx.push(packet), ..self }
        }
    }

    /// What handing a packet to the connection answers.
    pub open spec fn spec_send_result(self) -> Result<(), Error> {
        if self.closed {
            Err(Error::Unknown)
        } else {
            Ok(())
        }
    }

    /// The connection after it was closed: its queue is dropped.
    pub open spec fn spec_close(self) -> PeerConnView {
        PeerConnView { tx: Seq::empty(), closed: true, ..self }
    }
}

/// A connection that finished its handshake.
#[derive(Debug)]
pub struct PeerConn {
    conn_id: PeerConnId,
    my_peer_id: PeerId,
    peer_id: PeerId,
    network_identity: NetworkIdentity,
    tx: Vec<ZCPacket>,
    closed: bool,
}

impl View for PeerConn {
    type V = PeerConnView;

    closed spec fn view(&self) -> PeerConnView {
        PeerConnView {
            conn_id: self.conn_id,
            my_peer_id: self.my_peer_id,
            peer_id: self.peer_id,
            network_identity: self.network_identity@,
            tx: packets_view(self.tx@),
            closed: self.closed,
        }
    }
}

impl PeerConn {
    /// The connection `conn_id` of node `my_peer_id` to the peer `peer_id`,
    /// which presented `network_identity`: open, with nothing queued.
    pub fn new(
        my_peer_id: PeerId,
        conn_id: PeerConnId,
        peer_id: PeerId,
        network_identity: NetworkIdentity,
    ) -> (conn: PeerConn)
        ensures
            conn@ == (PeerConnView {
                conn_id,
                my_peer_id,
                peer_id,
                network_identity: network_identity@,
                tx: Seq::empty(),
                closed: false,
            }),
    {
        let conn = PeerConn {
            conn_id,
            my_peer_id,
            peer_id,
            network_identity,
            tx: Vec::new(),
            closed: false,
        };
        assert(packets_view(conn.tx@) =~= Seq::empty());
        conn
    }

    pub fn get_conn_id(&self) -> (id: PeerConnId)
        ensures
            id == self@.conn_id,
    {
        self.conn_id
    }

    /// Whether this is the connection `conn_id`.
    pub fn has_conn_id(&self, conn_id: &PeerConnId) -> (r: bool)
        ensures
            r == (self@.conn_id == *conn_id),
    {
        uuid_eq(&self.conn_id, conn_id)
    }

    pub fn get_my_peer_id(&self) -> (id: PeerId)
        ensures
            id == self@.my_peer_id,
    {
        self.my_peer_id
    }

    pub fn get_peer_id(&self) -> (id: PeerId)
        ensures
            id == self@.peer_id,
    {
        self.peer_id
    }

    pub fn get_network_identity(&self) -> (id: &NetworkIdentity)
        ensures
            id@ == self@.network_identity,
    {
        &self.network_identity
    }

    pub fn is_closed(&self) -> (r: bool)
        ensures
            r == self@.closed,
    {
        self.closed
    }

    /// Number of frames waiting to be written.
    pub fn pending(&self) -> (n: usize)
        ensures
            n == self@.tx.len(),
    {
        self.tx.len()
    }

    /// Queues `packet` for writing. A closed connection takes nothing and
    /// answers `Unknown`.
    pub fn send(&mut self, packet: ZCPacket) -> (r: Result<(), Error>)
        ensures
            final(self)@ == old(self)@.spec_send(packet@),
            r == old(self)@.spec_send_result(),
    {
        if self.closed {
            return Err(Error::Unknown);
        }
        self.tx.push(packet);
        assert(packets_view(self.tx@) =~= packets_view(old(self).tx@).push(packet@));
        Ok(())
    }

    /// Hands the queued frames to the writer, oldest first, and leaves the
    /// queue empty.
    pub fn take_outbound(&mut self) -> (out: Vec<ZCPacket>)
        ensures
            packets_view(out@) == old(self)@.tx,
            final(self)@ == (PeerConnView { tx: Seq::empty(), ..old(self)@ }),
    {
        let mut out: Vec<ZCPacket> = Vec::new();
        out.append(&mut self.tx);
        assert(out@ =~= old(self).tx@);
        assert(packets_view(self.tx@) =~= Seq::empty());
        out
    }

    /// Closes the connection and drops what was queued.
    pub fn close(&mut self)
        ensures
            final(self)@ == old(self)@.spec_close(),
    {
        self.closed = true;
        self.tx.clear();
        assert(packets_view(self.tx@) =~= Seq::empty());
    }
}

} // verus!
