use crate::frames::{BtpFrame, ContentType, FrameKind, Packet, PacketKind, ProtocolData};
use vstd::prelude::*;

verus! {

/// What interledger_packet's parser makes of a byte string: the kind of ILP
/// packet the bytes encode, or `None` where they do not parse. The full ILP
/// grammar is the external codec's business; the result depends on the bytes
/// alone.
pub uninterp spec fn ilp_kind(data: Seq<u8>) -> Option<PacketKind>;

/// The big-endian value of the `n` bytes at `pos`.
pub open spec fn be_value(data: Seq<u8>, pos: int, n: int) -> int
    decreases n,
{
    if n <= 0 {
        0
    } else {
        be_value(data, pos, n - 1) * 256 + data[pos + n - 1]
    }
}

/// A var-octet length read at `pos` (window `pos..end`) panics inside the
/// ILP parser exactly when the length byte is 0x80: its high bit announces
/// a big-endian length of (low bits) bytes, and reading a zero-byte length
/// trips an assertion in byteorder. Every other byte either parses or
/// stops the parser with an error.
pub open spec fn vo_panics(data: Seq<u8>, pos: int, end: int) -> bool {
    pos < end && data[pos] == 0x80
}

/// What the parser's var-octet length read at `pos` in the window
/// `pos..end` yields where it does not panic: the content's start and
/// length where prefix and content fit the window, `None` where the read
/// stops with an error instead.
pub open spec fn vo_read(data: Seq<u8>, pos: int, end: int) -> Option<(int, int)> {
    if pos >= end {
        None
    } else {
        let b = data[pos];
        if b < 0x80 {
            if end - pos - 1 >= b {
                Some((pos + 1, b as int))
            } else {
                None
            }
        } else {
            let n = b - 0x80;
            if n == 0 || n > 8 {
                None
            } else if end - pos - 1 < n {
                None
            } else {
                let l = be_value(data, pos + 1, n as int);
                if end - pos - 1 - n >= l {
                    Some((pos + 1 + n, l))
                } else {
                    None
                }
            }
        }
    }
}

/// The scan of a Prepare's content window: 8 amount bytes, 17 timestamp
/// bytes and the 32-byte condition are fixed, then the destination and the
/// data each carry a var-octet length prefix.
pub open spec fn prepare_scan_ok(data: Seq<u8>, cs: int, ce: int) -> bool {
    if ce - cs < 57 {
        true
    } else if vo_panics(data, cs + 57, ce) {
        false
    } else {
        match vo_read(data, cs + 57, ce) {
            None => true,
            Some((ds, dl)) => !vo_panics(data, ds + dl, ce),
        }
    }
}

/// The scan of a Fulfill's content window: the 32-byte fulfillment is
/// fixed, then the data carries a var-octet length prefix.
pub open spec fn fulfill_scan_ok(data: Seq<u8>, cs: int, ce: int) -> bool {
    if ce - cs < 32 {
        true
    } else {
        !vo_panics(data, cs + 32, ce)
    }
}

/// The scan of a Reject's content window: the 3-byte code is fixed, then
/// the triggered-by, message and data each carry a var-octet length prefix.
pub open spec fn reject_scan_ok(data: Seq<u8>, cs: int, ce: int) -> bool {
    if ce - cs < 3 {
        true
    } else if vo_panics(data, cs + 3, ce) {
        false
    } else {
        match vo_read(data, cs + 3, ce) {
            None => true,
            Some((s1, l1)) => {
                if vo_panics(data, s1 + l1, ce) {
                    false
                } else {
                    match vo_read(data, s1 + l1, ce) {
                        None => true,
                        Some((s2, l2)) => !vo_panics(data, s2 + l2, ce),
                    }
                }
            },
        }
    }
}

/// The ILP parser can read `data` without panicking: no var-octet length
/// prefix it reaches is the one malformed byte 0x80. The scan mirrors the
/// parser's own traversal — the envelope's length at position 1, then the
/// prefixed fields of whichever packet the type byte names, inside the
/// envelope's content window. Where the parser stops with an error before
/// a length read, the scan accepts: the call returns without panicking,
/// and a packet the parser accepts is never rejected here.
pub open spec fn ilp_scan_ok(data: Seq<u8>) -> bool {
    if data.len() == 0 {
        true
    } else {
        let t = data[0];
        let len = data.len() as int;
        if t != 12 && t != 13 && t != 14 {
            true
        } else if vo_panics(data, 1, len) {
            false
        } else {
            match vo_read(data, 1, len) {
                None => true,
                Some((cs, cl)) => {
                    if t == 12 {
                        prepare_scan_ok(data, cs, cs + cl)
                    } else if t == 13 {
                        fulfill_scan_ok(data, cs, cs + cl)
                    } else {
                        reject_scan_ok(data, cs, cs + cl)
                    }
                },
            }
        }
    }
}

/// The classification the library gives a payload: what the ILP parser
/// returns, except that the byte strings kept away from the parser — those
/// on which it would panic — do not parse.
pub open spec fn safe_ilp_kind(data: Seq<u8>) -> Option<PacketKind> {
    if ilp_scan_ok(data) {
        ilp_kind(data)
    } else {
        None
    }
}

/// A packet is well formed when the ILP codec classifies its bytes as its
/// kind; packets decoded from a frame are, by construction.
pub open spec fn packet_wf(packet: Packet) -> bool {
    safe_ilp_kind(packet.payload()) == Some(packet.kind())
}

/// The serialized internal-error Reject: the Reject type byte, a one-byte
/// length, the code `T00`, and empty triggered-by, message and data.
pub open spec fn t00_reject_bytes() -> Seq<u8> {
    seq![14u8, 6u8, 84u8, 48u8, 48u8, 0u8, 0u8, 0u8]
}

/// Relies on interledger_packet::Packet::try_from, which classifies the
/// bytes by their leading type byte and validates the rest of the packet;
/// the result is a function of the bytes alone. The parser panics on one
/// input shape — a var-octet length prefix byte 0x80 announces a zero-byte
/// big-endian length, which trips an assertion inside byteorder — so the
/// precondition admits only byte strings whose length prefixes the library
/// has scanned first. The scan follows the parser's reads exactly on
/// targets whose usize is 64 bits, where the parser's length casts are
/// lossless.
#[verifier::external_body]
fn classify_ilp(data: &Vec<u8>) -> (r: Option<PacketKind>)
    requires
        ilp_scan_ok(data@),
    ensures
        r == ilp_kind(data@),
{
    let buffer = bytes::BytesMut::from(&data[..]);
    match interledger_packet::Packet::try_from(buffer) {
        Ok(interledger_packet::Packet::Prepare(_)) => Some(PacketKind::Prepare),
        Ok(interledger_packet::Packet::Fulfill(_)) => Some(PacketKind::Fulfill),
        Ok(interledger_packet::Packet::Reject(_)) => Some(PacketKind::Reject),
        Err(_) => None,
    }
}

/// Relies on interledger_packet::RejectBuilder::build, which serializes a
/// Reject as the type byte, a var-length length, the three-byte code, and
/// the triggered-by, message and data fields as var-octet strings; with code
/// T00 and everything else empty that is exactly `t00_reject_bytes`.
#[verifier::external_body]
fn build_t00_reject() -> (r: Vec<u8>)
    ensures
        r@ == t00_reject_bytes(),
{
    let reject = interledger_packet::RejectBuilder {
        code: interledger_packet::ErrorCode::T00_INTERNAL_ERROR,
        message: &[],
        triggered_by: None,
        data: &[],
    }.build();
    let buffer = bytes::BytesMut::from(reject);
    buffer[..].to_vec()
}

/// The Reject that resolves a request the service itself had to fail: code
/// `T00_INTERNAL_ERROR` with empty message, triggered-by and data.
pub fn internal_error_reject() -> (r: Vec<u8>)
    ensures
        r@ == t00_reject_bytes(),
{
    build_t00_reject()
}

/// The protocol-data entry name that carries the ILP payload: "ilp".
pub open spec fn ilp_name() -> Seq<u8> {
    seq![105u8, 108u8, 112u8]
}

/// The payload of the first protocol-data entry named "ilp", if any.
pub open spec fn find_ilp_payload(entries: Seq<ProtocolData>) -> Option<Seq<u8>>
    decreases entries.len(),
{
    if entries.len() == 0 {
        None
    } else if entries[0].protocol_name@ == ilp_name() {
        Some(entries[0].data@)
    } else {
        find_ilp_payload(entries.drop_first())
    }
}

/// Why a frame did not decode to an ILP packet.
#[derive(Clone, Copy, Debug, PartialEq, Eq, Structural)]
pub enum ParseError {
    /// BTP Error frames carry no ILP payload for the multiplexer.
    ErrorFrame,
    /// No protocol-data entry named "ilp".
    NoIlpEntry,
    /// The "ilp" entry's payload is not a well-formed ILP packet.
    InvalidIlpPayload,
}

/// What decoding a frame yields: the request id with the kind and payload of
/// its ILP entry, or the exact reason it is refused.
pub open spec fn spec_decode(kind: FrameKind, request_id: u32, entries: Seq<ProtocolData>) -> Result<
    (u32, PacketKind, Seq<u8>),
    ParseError,
> {
    if kind == FrameKind::Error {
        Err(ParseError::ErrorFrame)
    } else {
        match find_ilp_payload(entries) {
            None => Err(ParseError::NoIlpEntry),
            Some(payload) => match safe_ilp_kind(payload) {
                None => Err(ParseError::InvalidIlpPayload),
                Some(k) => Ok((request_id, k, payload)),
            },
        }
    }
}

spec fn pow256(n: int) -> int
    decreases n,
{
    if n <= 0 {
        1
    } else {
        256 * pow256(n - 1)
    }
}

proof fn lemma_pow256_mono(a: int, b: int)
    requires
        0 <= a <= b,
    ensures
        pow256(a) <= pow256(b),
    decreases b,
{
    if a < b {
        lemma_pow256_mono(a, b - 1);
        lemma_pow256_pos(b - 1);
    }
}

proof fn lemma_pow256_pos(n: int)
    ensures
        pow256(n) >= 1,
    decreases n,
{
    if n > 0 {
        lemma_pow256_pos(n - 1);
    }
}

proof fn lemma_be_value_bound(data: Seq<u8>, pos: int, n: int)
    requires
        n >= 0,
    ensures
        0 <= be_value(data, pos, n) < pow256(n),
    decreases n,
{
    if n > 0 {
        lemma_be_value_bound(data, pos, n - 1);
    }
}

/// One var-octet length read, scanned without calling the parser.
enum VarOctetScan {
    /// The parser would panic here: the length byte is 0x80.
    WouldPanic,
    /// The parser would stop with an error here.
    Refused,
    /// The parser would read a content slice here.
    Parsed { start: usize, len: usize },
}

fn scan_var_octet(data: &Vec<u8>, pos: usize, end: usize) -> (r: VarOctetScan)
    requires
        pos <= end,
        end <= data@.len(),
    ensures
        match r {
            VarOctetScan::WouldPanic => vo_panics(data@, pos as int, end as int),
            VarOctetScan::Refused => !vo_panics(data@, pos as int, end as int) && vo_read(
                data@,
                pos as int,
                end as int,
            ) is None,
            VarOctetScan::Parsed { start, len } => !vo_panics(data@, pos as int, end as int)
                && vo_read(data@, pos as int, end as int) == Some(
                (start as int, len as int),
            ) && pos < start && start + len <= end,
        },
{
    if pos >= end {
        return VarOctetScan::Refused;
    }
    let b = data[pos];
    if b == 0x80 {
        return VarOctetScan::WouldPanic;
    }
    if b < 0x80 {
        let l = b as usize;
        if end - pos - 1 >= l {
            VarOctetScan::Parsed { start: pos + 1, len: l }
        } else {
            VarOctetScan::Refused
        }
    } else {
        let n = (b - 0x80) as usize;
        if n > 8 {
            return VarOctetScan::Refused;
        }
        let rem = end - pos - 1;
        if rem < n {
            return VarOctetScan::Refused;
        }
        let mut l: u64 = 0;
        let mut i: usize = 0;
        while i < n
            invariant
                i <= n,
                1 <= n <= 8,
                pos + 1 + n <= end,
                end <= data@.len(),
                l as int == be_value(data@, pos as int + 1, i as int),
                (l as int) < pow256(i as int),
            decreases n - i,
        {
            proof {
                lemma_pow256_mono(i as int, 7);
                assert(pow256(0) == 1);
                assert(pow256(1) == 256);
                assert(pow256(2) == 0x10000);
                assert(pow256(3) == 0x1000000);
                assert(pow256(4) == 0x100000000);
                assert(pow256(5) == 0x10000000000);
                assert(pow256(6) == 0x1000000000000);
                assert(pow256(7) == 0x100000000000000);
            }
            l = l * 256 + (data[pos + 1 + i] as u64);
            i = i + 1;
        }
        if l <= (rem - n) as u64 {
            VarOctetScan::Parsed { start: pos + 1 + n, len: l as usize }
        } else {
            VarOctetScan::Refused
        }
    }
}

fn is_panic_byte(data: &Vec<u8>, pos: usize, end: usize) -> (r: bool)
    requires
        end <= data@.len(),
    ensures
        r == vo_panics(data@, pos as int, end as int),
{
    if pos < end {
        data[pos] == 0x80
    } else {
        false
    }
}

/// Scan `data` as the ILP parser would traverse it and say whether
/// `Packet::try_from` can be called on it without panicking.
fn ilp_scan(data: &Vec<u8>) -> (r: bool)
    ensures
        r == ilp_scan_ok(data@),
{
    if data.len() == 0 {
        return true;
    }
    let t = data[0];
    if t != 12 && t != 13 && t != 14 {
        return true;
    }
    let end = data.len();
    match scan_var_octet(data, 1, end) {
        VarOctetScan::WouldPanic => false,
        VarOctetScan::Refused => true,
        VarOctetScan::Parsed { start: cs, len: cl } => {
            let ce = cs + cl;
            if t == 12 {
                if cl < 57 {
                    return true;
                }
                match scan_var_octet(data, cs + 57, ce) {
                    VarOctetScan::WouldPanic => false,
                    VarOctetScan::Refused => true,
                    VarOctetScan::Parsed { start: ds, len: dl } => !is_panic_byte(
                        data,
                        ds + dl,
                        ce,
                    ),
                }
            } else if t == 13 {
                if cl < 32 {
                    return true;
                }
                !is_panic_byte(data, cs + 32, ce)
            } else {
                if cl < 3 {
                    return true;
                }
                match scan_var_octet(data, cs + 3, ce) {
                    VarOctetScan::WouldPanic => false,
                    VarOctetScan::Refused => true,
                    VarOctetScan::Parsed { start: s1, len: l1 } => {
                        match scan_var_octet(data, s1 + l1, ce) {
                            VarOctetScan::WouldPanic => false,
                            VarOctetScan::Refused => true,
                            VarOctetScan::Parsed { start: s2, len: l2 } => !is_panic_byte(
                                data,
                                s2 + l2,
                                ce,
                            ),
                        }
                    },
                }
            }
        },
    }
}

fn is_ilp_entry(name: &Vec<u8>) -> (r: bool)
    ensures
        r == (name@ == ilp_name()),
{
    if name.len() == 3 {
        let r = name[0] == 105u8 && name[1] == 108u8 && name[2] == 112u8;
        proof {
            if r {
                assert(name@ =~= ilp_name());
            } else {
                assert(name@ != ilp_name());
            }
        }
        r
    } else {
        proof {
            assert(name@.len() != ilp_name().len());
        }
        false
    }
}

/// Decode a BTP frame into the request id and the ILP packet carried by its
/// "ilp" protocol-data entry; Error frames and frames without a well-formed
/// ILP entry are refused with a typed error.
pub fn parse_ilp_packet(frame: &BtpFrame) -> (r: Result<(u32, Packet), ParseError>)
    ensures
        match r {
            Ok(p) => {
                &&& spec_decode(frame.kind, frame.request_id, frame.protocol_data@) == Ok::<
                    _,
                    ParseError,
                >((p.0, p.1.kind(), p.1.payload()))
                &&& p.0 == frame.request_id
                &&& packet_wf(p.1)
            },
            Err(e) => spec_decode(frame.kind, frame.request_id, frame.protocol_data@) == Err::<
                (u32, PacketKind, Seq<u8>),
                _,
            >(e),
        },
{
    if frame.kind == FrameKind::Error {
        return Err(ParseError::ErrorFrame);
    }
    let entries = &frame.protocol_data;
    let ghost all = frame.protocol_data@;
    let mut i: usize = 0;
    proof {
        assert(all.skip(0) =~= all);
    }
    while i < entries.len()
        invariant
            0 <= i <= all.len(),
            entries@ == all,
            frame.kind != FrameKind::Error,
            frame.protocol_data@ == all,
            find_ilp_payload(all) == find_ilp_payload(all.skip(i as int)),
            forall|j: int| 0 <= j < i ==> (#[trigger] all[j]).protocol_name@ != ilp_name(),
        decreases all.len() - i,
    {
        let entry = &entries[i];
        proof {
            assert(all.skip(i as int)[0] == all[i as int]);
        }
        if is_ilp_entry(&entry.protocol_name) {
            let data = entry.data.clone();
            proof {
                assert(find_ilp_payload(all.skip(i as int)) == Some(all[i as int].data@));
                assert(data@ == all[i as int].data@);
            }
            if !ilp_scan(&data) {
                // the parser would panic on these bytes: the library
                // refuses them itself
                proof {
                    assert(safe_ilp_kind(data@) is None);
                }
                return Err(ParseError::InvalidIlpPayload);
            }
            let kind = classify_ilp(&data);
            proof {
                assert(find_ilp_payload(all) == Some(data@));
                assert(kind == safe_ilp_kind(data@));
            }
            match kind {
                Some(PacketKind::Prepare) => {
                    let packet = Packet::Prepare(data);
                    proof {
                        assert(packet.kind() == PacketKind::Prepare);
                        assert(safe_ilp_kind(packet.payload()) == Some(PacketKind::Prepare));
                    }
                    return Ok((frame.request_id, packet));
                },
                Some(PacketKind::Fulfill) => {
                    let packet = Packet::Fulfill(data);
                    proof {
                        assert(packet.kind() == PacketKind::Fulfill);
                        assert(safe_ilp_kind(packet.payload()) == Some(PacketKind::Fulfill));
                    }
                    return Ok((frame.request_id, packet));
                },
                Some(PacketKind::Reject) => {
                    let packet = Packet::Reject(data);
                    proof {
                        assert(packet.kind() == PacketKind::Reject);
                        assert(safe_ilp_kind(packet.payload()) == Some(PacketKind::Reject));
                    }
                    return Ok((frame.request_id, packet));
                },
                None => {
                    return Err(ParseError::InvalidIlpPayload);
                },
            }
        }
        proof {
            assert(all.skip(i as int).drop_first() =~= all.skip(i as int + 1));
        }
        i = i + 1;
    }
    proof {
        assert(all.skip(i as int) =~= Seq::<ProtocolData>::empty());
    }
    Err(ParseError::NoIlpEntry)
}

/// Holds when `frame` is the BTP encoding of the packet `(kind, payload)`
/// under `id`: a Message for a Prepare, a Response for a reply, carrying the
/// single protocol-data entry named "ilp" with the packet's bytes.
pub open spec fn is_frame_encoding(frame: BtpFrame, id: u32, kind: PacketKind, payload: Seq<u8>) -> bool {
    &&& frame.kind == (if kind == PacketKind::Prepare {
        FrameKind::Message
    } else {
        FrameKind::Response
    })
    &&& frame.request_id == id
    &&& frame.protocol_data@.len() == 1
    &&& frame.protocol_data@[0].protocol_name@ == ilp_name()
    &&& frame.protocol_data@[0].content_type == ContentType::ApplicationOctetStream
    &&& frame.protocol_data@[0].data@ == payload
}

/// Encode `(request_id, packet)` as a BTP frame: a Prepare rides in a
/// Message, a Fulfill or Reject in a Response, each with one protocol-data
/// entry named "ilp" holding the packet's bytes.
pub fn ilp_packet_to_frame(request_id: u32, packet: Packet) -> (r: BtpFrame)
    ensures
        is_frame_encoding(r, request_id, packet.kind(), packet.payload()),
{
    let kind = match &packet {
        Packet::Prepare(_) => FrameKind::Message,
        Packet::Fulfill(_) => FrameKind::Response,
        Packet::Reject(_) => FrameKind::Response,
    };
    let data = match packet {
        Packet::Prepare(data) => data,
        Packet::Fulfill(data) => data,
        Packet::Reject(data) => data,
    };
    let mut name: Vec<u8> = Vec::new();
    name.push(105u8);
    name.push(108u8);
    name.push(112u8);
    proof {
        assert(name@ =~= ilp_name());
    }
    let entry = ProtocolData {
        protocol_name: name,
        content_type: ContentType::ApplicationOctetStream,
        data,
    };
    let mut protocol_data: Vec<ProtocolData> = Vec::new();
    protocol_data.push(entry);
    BtpFrame { kind, request_id, protocol_data }
}

/// Codec round trip: a frame that encodes `(id, packet)` decodes back to
/// exactly `(id, packet)`, for every packet whose bytes the ILP codec
/// classifies as its kind.
pub proof fn lemma_codec_round_trip(frame: BtpFrame, id: u32, kind: PacketKind, payload: Seq<u8>)
    requires
        is_frame_encoding(frame, id, kind, payload),
        safe_ilp_kind(payload) == Some(kind),
    ensures
        spec_decode(frame.kind, frame.request_id, frame.protocol_data@) == Ok::<_, ParseError>(
            (id, kind, payload),
        ),
{
    assert(find_ilp_payload(frame.protocol_data@) == Some(payload));
}

} // verus!
