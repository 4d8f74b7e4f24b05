use vstd::prelude::*;

verus! {

/// The kind of ILP packet a frame's payload carries: a request, a success
/// reply, or a failure reply.
#[derive(Clone, Copy, Debug, PartialEq, Eq, Structural)]
pub enum PacketKind {
    Prepare,
    Fulfill,
    Reject,
}

/// An ILP packet as the multiplexer handles it: its kind together with the
/// serialized bytes the ILP codec produced. The multiplexer routes packets by
/// kind and carries the bytes as opaque cargo.
#[derive(Clone, Debug, PartialEq, Eq)]
pub enum Packet {
    Prepare(Vec<u8>),
    Fulfill(Vec<u8>),
    Reject(Vec<u8>),
}

impl Packet {
    pub open spec fn kind(self) -> PacketKind {
        match self {
            Packet::Prepare(_) => PacketKind::Prepare,
            Packet::Fulfill(_) => PacketKind::Fulfill,
            Packet::Reject(_) => PacketKind::Reject,
        }
    }

    pub open spec fn payload(self) -> Seq<u8> {
        match self {
            Packet::Prepare(data) => data@,
            Packet::Fulfill(data) => data@,
            Packet::Reject(data) => data@,
        }
    }
}

/// The three kinds of BTP frame on the wire.
#[derive(Clone, Copy, Debug, PartialEq, Eq, Structural)]
pub enum FrameKind {
    Message,
    Response,
    Error,
}

/// The content type of a protocol-data entry.
#[derive(Clone, Copy, Debug, PartialEq, Eq, Structural)]
pub enum ContentType {
    ApplicationOctetStream,
    TextPlainUtf8,
}

/// One protocol-data entry of a BTP frame; the ILP payload travels in the
/// entry named "ilp".
#[derive(Clone, Debug)]
pub struct ProtocolData {
    pub protocol_name: Vec<u8>,
    pub content_type: ContentType,
    pub data: Vec<u8>,
}

/// A BTP frame: a Message, Response or Error with its request id and its
/// protocol-data entries. The byte-level framing is the BTP codec's business;
/// the multiplexer works on this structured form.
#[derive(Clone, Debug)]
pub struct BtpFrame {
    pub kind: FrameKind,
    pub request_id: u32,
    pub protocol_data: Vec<ProtocolData>,
}

} // verus!
