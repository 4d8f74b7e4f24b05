use bytes::BytesMut;
use interledger_btp::codec::{internal_error_reject, parse_ilp_packet, ParseError};
use interledger_btp::codec::ilp_packet_to_frame;
use interledger_btp::frames::{BtpFrame, ContentType, FrameKind, Packet, ProtocolData};
use interledger_packet::{Address, ErrorCode, FulfillBuilder, PrepareBuilder, RejectBuilder};
use std::convert::TryFrom;
use std::time::{Duration, UNIX_EPOCH};

fn prepare_bytes() -> Vec<u8> {
    let prepare = PrepareBuilder {
        amount: 100,
        expires_at: UNIX_EPOCH + Duration::from_secs(1_600_000_000),
        execution_condition: &[0u8; 32],
        destination: Address::try_from(&b"example.receiver"[..]).unwrap(),
        data: &[9, 9],
    }
    .build();
    let buffer = BytesMut::from(prepare);
    buffer[..].to_vec()
}

fn fulfill_bytes() -> Vec<u8> {
    let fulfill = FulfillBuilder { fulfillment: &[7u8; 32], data: &[4, 5] }.build();
    let buffer = BytesMut::from(fulfill);
    buffer[..].to_vec()
}

fn reject_f99_bytes() -> Vec<u8> {
    let triggered_by = Address::try_from(&b"example.connector"[..]).unwrap();
    let reject = RejectBuilder {
        code: ErrorCode::F99_APPLICATION_ERROR,
        message: b"denied",
        triggered_by: Some(&triggered_by),
        data: &[1, 2, 3],
    }
    .build();
    let buffer = BytesMut::from(reject);
    buffer[..].to_vec()
}

fn ilp_entry(data: Vec<u8>) -> ProtocolData {
    ProtocolData {
        protocol_name: b"ilp".to_vec(),
        content_type: ContentType::ApplicationOctetStream,
        data,
    }
}

#[test]
fn round_trip_prepare() {
    let bytes = prepare_bytes();
    let frame = ilp_packet_to_frame(7, Packet::Prepare(bytes.clone()));
    assert_eq!(frame.kind, FrameKind::Message);
    assert_eq!(frame.request_id, 7);
    assert_eq!(frame.protocol_data.len(), 1);
    assert_eq!(frame.protocol_data[0].protocol_name, b"ilp".to_vec());
    match parse_ilp_packet(&frame) {
        Ok((id, Packet::Prepare(data))) => {
            assert_eq!(id, 7);
            assert_eq!(data, bytes);
        },
        _ => panic!("a Prepare frame must decode back to the same Prepare"),
    }
}

#[test]
fn round_trip_fulfill() {
    let bytes = fulfill_bytes();
    let frame = ilp_packet_to_frame(8, Packet::Fulfill(bytes.clone()));
    assert_eq!(frame.kind, FrameKind::Response);
    match parse_ilp_packet(&frame) {
        Ok((id, Packet::Fulfill(data))) => {
            assert_eq!(id, 8);
            assert_eq!(data, bytes);
        },
        _ => panic!("a Fulfill frame must decode back to the same Fulfill"),
    }
}

#[test]
fn round_trip_reject() {
    let bytes = reject_f99_bytes();
    let frame = ilp_packet_to_frame(9, Packet::Reject(bytes.clone()));
    assert_eq!(frame.kind, FrameKind::Response);
    match parse_ilp_packet(&frame) {
        Ok((id, Packet::Reject(data))) => {
            assert_eq!(id, 9);
            assert_eq!(data, bytes);
        },
        _ => panic!("a Reject frame must decode back to the same Reject"),
    }
}

#[test]
fn error_frame_is_refused() {
    let frame = BtpFrame {
        kind: FrameKind::Error,
        request_id: 1,
        protocol_data: vec![ilp_entry(prepare_bytes())],
    };
    assert_eq!(parse_ilp_packet(&frame), Err(ParseError::ErrorFrame));
}

#[test]
fn missing_ilp_entry_is_refused() {
    let frame = BtpFrame {
        kind: FrameKind::Message,
        request_id: 2,
        protocol_data: vec![ProtocolData {
            protocol_name: b"auth".to_vec(),
            content_type: ContentType::TextPlainUtf8,
            data: vec![1, 2],
        }],
    };
    assert_eq!(parse_ilp_packet(&frame), Err(ParseError::NoIlpEntry));
}

#[test]
fn frame_without_entries_is_refused() {
    let frame = BtpFrame { kind: FrameKind::Message, request_id: 0, protocol_data: vec![] };
    assert_eq!(parse_ilp_packet(&frame), Err(ParseError::NoIlpEntry));
}

#[test]
fn invalid_payload_is_refused() {
    let frame = BtpFrame {
        kind: FrameKind::Response,
        request_id: 3,
        protocol_data: vec![ilp_entry(vec![0xFF, 0x01])],
    };
    assert_eq!(parse_ilp_packet(&frame), Err(ParseError::InvalidIlpPayload));
}

#[test]
fn ilp_entry_found_among_others() {
    let bytes = fulfill_bytes();
    let frame = BtpFrame {
        kind: FrameKind::Response,
        request_id: 4,
        protocol_data: vec![
            ProtocolData {
                protocol_name: b"auth_token".to_vec(),
                content_type: ContentType::TextPlainUtf8,
                data: vec![],
            },
            ilp_entry(bytes.clone()),
        ],
    };
    match parse_ilp_packet(&frame) {
        Ok((id, Packet::Fulfill(data))) => {
            assert_eq!(id, 4);
            assert_eq!(data, bytes);
        },
        _ => panic!("the entry named ilp must be found among other entries"),
    }
}

#[test]
fn malformed_length_prefix_is_refused_not_parsed() {
    // a var-octet length byte 0x80 announces a zero-byte big-endian
    // length; the ILP parser must never see one, and the decoder refuses
    // the payload instead. One per packet type, at the envelope's length:
    for t in [12u8, 13, 14] {
        let frame = BtpFrame {
            kind: FrameKind::Message,
            request_id: 1,
            protocol_data: vec![ilp_entry(vec![t, 0x80])],
        };
        assert_eq!(parse_ilp_packet(&frame), Err(ParseError::InvalidIlpPayload));
    }

    // at a Reject's triggered-by field, behind a well-formed envelope
    let reject = vec![14u8, 5, 84, 48, 48, 0x80, 0];
    let frame = BtpFrame {
        kind: FrameKind::Response,
        request_id: 2,
        protocol_data: vec![ilp_entry(reject)],
    };
    assert_eq!(parse_ilp_packet(&frame), Err(ParseError::InvalidIlpPayload));

    // at a Fulfill's data field, after the 32-byte fulfillment
    let mut fulfill = vec![13u8, 33];
    fulfill.extend(std::iter::repeat(0u8).take(32));
    fulfill.push(0x80);
    let frame = BtpFrame {
        kind: FrameKind::Response,
        request_id: 3,
        protocol_data: vec![ilp_entry(fulfill)],
    };
    assert_eq!(parse_ilp_packet(&frame), Err(ParseError::InvalidIlpPayload));

    // at a Prepare's destination field, after the 57 fixed bytes
    let mut prepare = vec![12u8, 58];
    prepare.extend(std::iter::repeat(0u8).take(57));
    prepare.push(0x80);
    let frame = BtpFrame {
        kind: FrameKind::Message,
        request_id: 4,
        protocol_data: vec![ilp_entry(prepare)],
    };
    assert_eq!(parse_ilp_packet(&frame), Err(ParseError::InvalidIlpPayload));
}

#[test]
fn internal_error_reject_wire_form() {
    let bytes = internal_error_reject();
    // Reject type byte, length 6, code "T00", three empty var-octet strings
    assert_eq!(bytes, vec![14, 6, 84, 48, 48, 0, 0, 0]);
    assert_eq!(&bytes[2..5], b"T00");
}
