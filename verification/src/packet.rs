//! Overlay frames: the fixed header that prefixes every frame on the wire and
//! the packet type that carries a decoded header with its payload.

use vstd::prelude::*;
use vstd::slice::{slice_subrange, slice_to_vec};

verus! {

/// Identifier of a node of the overlay. Zero stands for "not filled in yet".
pub type PeerId = u32;

/// Number of bytes of the header on the wire.
pub const HEADER_SIZE: usize = 12;

/// The kinds of frame that the core itself acts on.
#[derive(Clone, Copy, Debug, PartialEq, Eq, Structural)]
pub enum PacketType {
    Data,
    TaRpc,
    Route,
}

impl PacketType {
    /// The byte that stands for this kind in a header.
    pub open spec fn spec_as_u8(self) -> u8 {
        match self {
            PacketType::Data => 1u8,
            PacketType::TaRpc => 2u8,
            PacketType::Route => 3u8,
        }
    }

    #[verifier::when_used_as_spec(spec_as_u8)]
    pub fn as_u8(self) -> (b: u8)
        ensures
            b == self.spec_as_u8(),
    {
        match self {
            PacketType::Data => 1u8,
            PacketType::TaRpc => 2u8,
            PacketType::Route => 3u8,
        }
    }
}

/// The four bytes of `x`, least significant first.
pub open spec fn u32_le_bytes(x: u32) -> Seq<u8> {
    seq![
        (x % 256) as u8,
        ((x / 256) % 256) as u8,
        ((x / 65536) % 256) as u8,
        (x / 16777216) as u8,
    ]
}

/// The number whose little-endian bytes start at `at` in `s`.
pub open spec fn u32_from_le_bytes(s: Seq<u8>, at: int) -> u32 {
    (s[at] as int + s[at + 1] as int * 256 + s[at + 2] as int * 65536 + s[at + 3] as int
        * 16777216) as u32
}

/// The two bytes of `x`, least significant first.
pub open spec fn u16_le_bytes(x: u16) -> Seq<u8> {
    seq![(x % 256) as u8, (x / 256) as u8]
}

/// The number whose little-endian bytes start at `at` in `s`.
pub open spec fn u16_from_le_bytes(s: Seq<u8>, at: int) -> u16 {
    (s[at] as int + s[at + 1] as int * 256) as u16
}

/// The header that prefixes every overlay frame.
#[derive(Clone, Copy, Debug, PartialEq, Eq, Structural)]
pub struct PeerManagerHeader {
    pub from_peer_id: PeerId,
    pub to_peer_id: PeerId,
    pub packet_type: u8,
    pub flags: u8,
    pub reserved: u16,
}

impl PeerManagerHeader {
    /// The header as it stands on the wire: every field little-endian, in
    /// the order of declaration.
    pub open spec fn spec_encode(self) -> Seq<u8> {
        u32_le_bytes(self.from_peer_id) + u32_le_bytes(self.to_peer_id) + seq![
            self.packet_type,
            self.flags,
        ] + u16_le_bytes(self.reserved)
    }

    /// The header that the first `HEADER_SIZE` bytes of `s` hold.
    pub open spec fn spec_decode(s: Seq<u8>) -> PeerManagerHeader {
        PeerManagerHeader {
            from_peer_id: u32_from_le_bytes(s, 0),
            to_peer_id: u32_from_le_bytes(s, 4),
            packet_type: s[8],
            flags: s[9],
            reserved: u16_from_le_bytes(s, 10),
        }
    }

    /// A header with every field zero.
    pub open spec fn spec_zeroed() -> PeerManagerHeader {
        PeerManagerHeader { from_peer_id: 0, to_peer_id: 0, packet_type: 0, flags: 0, reserved: 0 }
    }

    pub fn zeroed() -> (h: PeerManagerHeader)
        ensures
            h == Self::spec_zeroed(),
    {
        PeerManagerHeader { from_peer_id: 0, to_peer_id: 0, packet_type: 0, flags: 0, reserved: 0 }
    }

    /// Appends the wire form of the header to `out`.
    pub fn encode_into(&self, out: &mut Vec<u8>)
        ensures
            final(out)@ == old(out)@ + self.spec_encode(),
    {
        let f: u32 = self.from_peer_id;
        let t: u32 = self.to_peer_id;
        let r: u16 = self.reserved;
        out.push((f % 256) as u8);
        out.push(((f / 256) % 256) as u8);
        out.push(((f / 65536) % 256) as u8);
        out.push((f / 16777216) as u8);
        out.push((t % 256) as u8);
        out.push(((t / 256) % 256) as u8);
        out.push(((t / 65536) % 256) as u8);
        out.push((t / 16777216) as u8);
        out.push(self.packet_type);
        out.push(self.flags);
        out.push((r % 256) as u8);
        out.push((r / 256) as u8);
        assert(out@ =~= old(out)@ + self.spec_encode());
    }

    /// Reads a header from the front of `bytes`; `None` when they are too
    /// few to hold one.
    pub fn decode(bytes: &[u8]) -> (h: Option<PeerManagerHeader>)
        ensures
            bytes@.len() < HEADER_SIZE ==> h.is_none(),
            bytes@.len() >= HEADER_SIZE ==> h == Some(Self::spec_decode(bytes@)),
    {
        if bytes.len() < HEADER_SIZE {
            return None;
        }
        let from_peer_id: u32 = bytes[0] as u32 + bytes[1] as u32 * 256 + bytes[2] as u32 * 65536
            + bytes[3] as u32 * 16777216;
        let to_peer_id: u32 = bytes[4] as u32 + bytes[5] as u32 * 256 + bytes[6] as u32 * 65536
            + bytes[7] as u32 * 16777216;
        let reserved: u16 = bytes[10] as u16 + bytes[11] as u16 * 256;
        Some(
            PeerManagerHeader {
                from_peer_id,
                to_peer_id,
                packet_type: bytes[8],
                flags: bytes[9],
                reserved,
            },
        )
    }
}

/// Decoding the wire form of a header gives the header back, whatever
/// follows it.
pub proof fn lemma_header_decode_encode(h: PeerManagerHeader, rest: Seq<u8>)
    ensures
        h.spec_encode().len() == HEADER_SIZE,
        PeerManagerHeader::spec_decode(h.spec_encode() + rest) == h,
{
    let s = h.spec_encode() + rest;
    assert(h.spec_encode().len() == 12);
    assert(s[0] == (h.from_peer_id % 256) as u8);
    assert(s[1] == ((h.from_peer_id / 256) % 256) as u8);
    assert(s[2] == ((h.from_peer_id / 65536) % 256) as u8);
    assert(s[3] == (h.from_peer_id / 16777216) as u8);
    assert(s[4] == (h.to_peer_id % 256) as u8);
    assert(s[5] == ((h.to_peer_id / 256) % 256) as u8);
    assert(s[6] == ((h.to_peer_id / 65536) % 256) as u8);
    assert(s[7] == (h.to_peer_id / 16777216) as u8);
    assert(s[8] == h.packet_type);
    assert(s[9] == h.flags);
    assert(s[10] == (h.reserved % 256) as u8);
    assert(s[11] == (h.reserved / 256) as u8);
}

/// Four bytes are the little-endian bytes of the number they spell.
pub proof fn lemma_u32_bytes_of_number(b0: u8, b1: u8, b2: u8, b3: u8)
    ensures
        u32_le_bytes((b0 as int + b1 as int * 256 + b2 as int * 65536 + b3 as int * 16777216) as u32)
            == seq![b0, b1, b2, b3],
{
    let x: int = b0 as int + b1 as int * 256 + b2 as int * 65536 + b3 as int * 16777216;
    assert(0 <= x < 0x1_0000_0000);
    assert(x % 256 == b0 as int);
    assert(x / 256 == b1 as int + b2 as int * 256 + b3 as int * 65536);
    assert((x / 256) % 256 == b1 as int);
    assert(x / 65536 == b2 as int + b3 as int * 256);
    assert((x / 65536) % 256 == b2 as int);
    assert(x / 16777216 == b3 as int);
    assert(u32_le_bytes(x as u32) =~= seq![b0, b1, b2, b3]);
}

/// Two bytes are the little-endian bytes of the number they spell.
pub proof fn lemma_u16_bytes_of_number(b0: u8, b1: u8)
    ensures
        u16_le_bytes((b0 as int + b1 as int * 256) as u16) == seq![b0, b1],
{
    let x: int = b0 as int + b1 as int * 256;
    assert(0 <= x < 0x1_0000);
    assert(x % 256 == b0 as int);
    assert(x / 256 == b1 as int);
    assert(u16_le_bytes(x as u16) =~= seq![b0, b1]);
}

/// Encoding the header that the front of `s` holds gives that front back.
pub proof fn lemma_header_encode_decode(s: Seq<u8>)
    requires
        s.len() >= HEADER_SIZE,
    ensures
        PeerManagerHeader::spec_decode(s).spec_encode() == s.subrange(0, HEADER_SIZE as int),
{
    lemma_u32_bytes_of_number(s[0], s[1], s[2], s[3]);
    lemma_u32_bytes_of_number(s[4], s[5], s[6], s[7]);
    lemma_u16_bytes_of_number(s[10], s[11]);
    let h = PeerManagerHeader::spec_decode(s);
    assert(u32_le_bytes(h.from_peer_id) == seq![s[0], s[1], s[2], s[3]]);
    assert(u32_le_bytes(h.to_peer_id) == seq![s[4], s[5], s[6], s[7]]);
    assert(u16_le_bytes(h.reserved) == seq![s[10], s[11]]);
    assert(h.spec_encode() =~= s.subrange(0, 12));
}

/// What a packet is: its header and the bytes that follow it.
pub struct ZCPacketView {
    pub header: PeerManagerHeader,
    pub payload: Seq<u8>,
}

impl ZCPacketView {
    /// The frame as it stands on the wire: the header, then the payload.
    pub open spec fn spec_bytes(self) -> Seq<u8> {
        self.header.spec_encode() + self.payload
    }

    /// The same packet addressed to `to`.
    pub open spec fn with_to(self, to: PeerId) -> ZCPacketView {
        ZCPacketView {
            header: PeerManagerHeader { to_peer_id: to, ..self.header },
            payload: self.payload,
        }
    }

    /// The same packet with the three addressing fields of its header set.
    pub open spec fn with_hdr(self, from: PeerId, to: PeerId, packet_type: u8) -> ZCPacketView {
        ZCPacketView {
            header: PeerManagerHeader {
                from_peer_id: from,
                to_peer_id: to,
                packet_type,
                ..self.header
            },
            payload: self.payload,
        }
    }
}

/// The packet that a frame holds, if the frame is long enough for a header.
pub open spec fn spec_parse_frame(frame: Seq<u8>) -> Option<ZCPacketView> {
    if frame.len() < HEADER_SIZE {
        None
    } else {
        Some(
            ZCPacketView {
                header: PeerManagerHeader::spec_decode(frame),
                payload: frame.subrange(HEADER_SIZE as int, frame.len() as int),
            },
        )
    }
}

/// One overlay frame: a decoded header and the payload behind it.
#[derive(Debug, PartialEq, Eq)]
pub struct ZCPacket {
    pub header: PeerManagerHeader,
    pub payload: Vec<u8>,
}

impl View for ZCPacket {
    type V = ZCPacketView;

    open spec fn view(&self) -> ZCPacketView {
        ZCPacketView { header: self.header, payload: self.payload@ }
    }
}

impl Clone for ZCPacket {
    fn clone(&self) -> (r: Self)
        ensures
            r@ == self@,
    {
        let payload = slice_to_vec(self.payload.as_slice());
        ZCPacket { header: self.header, payload }
    }
}

impl ZCPacket {
    /// A packet around `payload` whose header is still all zero.
    pub fn new_with_payload(payload: &[u8]) -> (p: ZCPacket)
        ensures
            p@ == (ZCPacketView { header: PeerManagerHeader::spec_zeroed(), payload: payload@ }),
    {
        ZCPacket { header: PeerManagerHeader::zeroed(), payload: slice_to_vec(payload) }
    }

    /// Decodes a frame taken off the wire; `None` when it is too short to
    /// hold a header.
    pub fn from_bytes(frame: &[u8]) -> (p: Option<ZCPacket>)
        ensures
            match p {
                Some(q) => spec_parse_frame(frame@) == Some(q@),
                None => spec_parse_frame(frame@).is_none(),
            },
    {
        match PeerManagerHeader::decode(frame) {
            None => None,
            Some(header) => {
                let rest = slice_subrange(frame, HEADER_SIZE, frame.len());
                Some(ZCPacket { header, payload: slice_to_vec(rest) })
            },
        }
    }

    /// The frame to put on the wire.
    pub fn to_bytes(&self) -> (out: Vec<u8>)
        ensures
            out@ == self@.spec_bytes(),
    {
        let mut out: Vec<u8> = Vec::new();
        self.header.encode_into(&mut out);
        let mut i: usize = 0;
        while i < self.payload.len()
            invariant
                i <= self.payload@.len(),
                out@ == self.header.spec_encode() + self.payload@.subrange(0, i as int),
            decreases self.payload@.len() - i,
        {
            out.push(self.payload[i]);
            i += 1;
            assert(out@ =~= self.header.spec_encode() + self.payload@.subrange(0, i as int));
        }
        assert(self.payload@.subrange(0, i as int) =~= self.payload@);
        out
    }

    pub fn peer_manager_header(&self) -> (h: &PeerManagerHeader)
        ensures
            *h == self@.header,
    {
        &self.header
    }

    pub fn payload(&self) -> (bytes: &[u8])
        ensures
            bytes@ == self@.payload,
    {
        self.payload.as_slice()
    }

    /// Sets sender, receiver and kind; flags and reserved bytes stay.
    pub fn fill_peer_manager_hdr(&mut self, from_peer_id: PeerId, to_peer_id: PeerId, packet_type: u8)
        ensures
            final(self)@ == old(self)@.with_hdr(from_peer_id, to_peer_id, packet_type),
    {
        self.header.from_peer_id = from_peer_id;
        self.header.to_peer_id = to_peer_id;
        self.header.packet_type = packet_type;
    }

    /// Readdresses the packet.
    pub fn set_to_peer_id(&mut self, to_peer_id: PeerId)
        ensures
            final(self)@ == old(self)@.with_to(to_peer_id),
    {
        self.header.to_peer_id = to_peer_id;
    }
}

/// A frame that was put on the wire decodes to the packet it was made from.
pub proof fn lemma_parse_of_bytes(p: ZCPacketView)
    ensures
        spec_parse_frame(p.spec_bytes()) == Some(p),
{
    lemma_header_decode_encode(p.header, p.payload);
    let f = p.spec_bytes();
    assert(f.subrange(HEADER_SIZE as int, f.len() as int) =~= p.payload);
}

/// A frame long enough to decode is the wire form of what it decodes to.
pub proof fn lemma_bytes_of_parse(frame: Seq<u8>)
    requires
        frame.len() >= HEADER_SIZE,
    ensures
        spec_parse_frame(frame).unwrap().spec_bytes() == frame,
{
    lemma_header_encode_decode(frame);
    let p = spec_parse_frame(frame).unwrap();
    assert(p.spec_bytes() =~= frame);
}

} // verus!
