use bytes::BytesMut;
use interledger_btp::frames::{BtpFrame, ContentType, FrameKind, ProtocolData};
use interledger_btp::service::{
    BtpOutgoingService, BtpService, InboundAction, SendOutcome, TrySendOutcome,
};
use interledger_packet::{
    Address, ErrorCode, FulfillBuilder, PrepareBuilder, Reject, RejectBuilder,
};
use std::convert::TryFrom;
use std::time::{Duration, UNIX_EPOCH};

fn prepare_bytes() -> Vec<u8> {
    let prepare = PrepareBuilder {
        amount: 100,
        expires_at: UNIX_EPOCH + Duration::from_secs(1_600_000_000),
        execution_condition: &[0u8; 32],
        destination: Address::try_from(&b"example.receiver"[..]).unwrap(),
        data: &[9, 9],
    }
    .build();
    let buffer = BytesMut::from(prepare);
    buffer[..].to_vec()
}

fn fulfill_bytes() -> Vec<u8> {
    let fulfill = FulfillBuilder { fulfillment: &[7u8; 32], data: &[4, 5] }.build();
    let buffer = BytesMut::from(fulfill);
    buffer[..].to_vec()
}

fn reject_f99_bytes() -> Vec<u8> {
    let triggered_by = Address::try_from(&b"example.connector"[..]).unwrap();
    let reject = RejectBuilder {
        code: ErrorCode::F99_APPLICATION_ERROR,
        message: b"denied",
        triggered_by: Some(&triggered_by),
        data: &[1, 2, 3],
    }
    .build();
    let buffer = BytesMut::from(reject);
    buffer[..].to_vec()
}

fn wire_frame(kind: FrameKind, request_id: u32, data: Vec<u8>) -> BtpFrame {
    BtpFrame {
        kind,
        request_id,
        protocol_data: vec![ProtocolData {
            protocol_name: b"ilp".to_vec(),
            content_type: ContentType::ApplicationOctetStream,
            data,
        }],
    }
}

const T00_WIRE: [u8; 8] = [14, 6, 84, 48, 48, 0, 0, 0];

#[test]
fn happy_path_outgoing() {
    let mut svc = BtpOutgoingService::new();
    let (replaced, dropped) = svc.add_connection(1);
    assert!(!replaced);
    assert!(dropped.is_empty());

    let id = match svc.send_request(1, prepare_bytes()) {
        SendOutcome::Queued { request_id } => request_id,
        _ => panic!("an account with a live session must queue the request"),
    };
    assert!(svc.is_pending(id));

    // the frame on the wire carries the same id the slot is keyed under
    let sent = svc.sent_frames(1).expect("session must exist");
    assert_eq!(sent.len(), 1);
    assert_eq!(sent[0].kind, FrameKind::Message);
    assert_eq!(sent[0].request_id, id);

    let fulfill = fulfill_bytes();
    let reply = wire_frame(FrameKind::Response, id, fulfill.clone());
    match svc.handle_message(1, &reply) {
        InboundAction::Resolve { request_id, reply: Ok(data) } => {
            assert_eq!(request_id, id);
            assert_eq!(data, fulfill);
        },
        _ => panic!("the fulfill must resolve the pending request"),
    }
    assert!(!svc.is_pending(id));
}

#[test]
fn rejected_outgoing() {
    let mut svc = BtpOutgoingService::new();
    svc.add_connection(1);
    let id = match svc.send_request(1, prepare_bytes()) {
        SendOutcome::Queued { request_id } => request_id,
        _ => panic!("expected the request to queue"),
    };

    let reject = reject_f99_bytes();
    let reply = wire_frame(FrameKind::Response, id, reject.clone());
    match svc.handle_message(1, &reply) {
        InboundAction::Resolve { request_id, reply: Err(data) } => {
            assert_eq!(request_id, id);
            assert_eq!(data, reject);
            let parsed = Reject::try_from(BytesMut::from(&data[..])).unwrap();
            assert_eq!(parsed.code(), ErrorCode::F99_APPLICATION_ERROR);
            assert_eq!(parsed.data(), &[1, 2, 3]);
        },
        _ => panic!("the reject must resolve the pending request as an error"),
    }
}

#[test]
fn stale_reply_has_no_effect() {
    let mut svc = BtpOutgoingService::new();
    svc.add_connection(1);
    let reply = wire_frame(FrameKind::Response, 0xDEAD_BEEF, fulfill_bytes());
    match svc.handle_message(1, &reply) {
        InboundAction::Stale { request_id } => assert_eq!(request_id, 0xDEAD_BEEF),
        _ => panic!("a reply that was never allocated must be dropped as stale"),
    }
    // the service still works afterwards
    match svc.send_request(1, prepare_bytes()) {
        SendOutcome::Queued { .. } => {},
        _ => panic!("the service must keep working after a stale reply"),
    }
}

#[test]
fn at_most_one_reply() {
    let mut svc = BtpOutgoingService::new();
    svc.add_connection(1);
    let id = match svc.send_request(1, prepare_bytes()) {
        SendOutcome::Queued { request_id } => request_id,
        _ => panic!("expected the request to queue"),
    };
    let reply = wire_frame(FrameKind::Response, id, fulfill_bytes());
    assert!(matches!(
        svc.handle_message(1, &reply),
        InboundAction::Resolve { .. }
    ));
    // the same reply again finds no slot
    match svc.handle_message(1, &reply) {
        InboundAction::Stale { request_id } => assert_eq!(request_id, id),
        _ => panic!("a second reply with the same id must be dropped"),
    }
}

#[test]
fn session_drop_with_in_flight_request() {
    let mut svc = BtpOutgoingService::new();
    svc.add_connection(1);
    let id = match svc.send_request(1, prepare_bytes()) {
        SendOutcome::Queued { request_id } => request_id,
        _ => panic!("expected the request to queue"),
    };

    let dropped = svc.close_connection(1);
    assert_eq!(dropped, vec![id]);
    assert!(!svc.is_pending(id));
    assert!(!svc.has_session(1));
    // the slot resolves with the internal-error Reject
    assert_eq!(
        interledger_btp::codec::internal_error_reject(),
        T00_WIRE.to_vec()
    );

    // a later request for the account falls through to the next service
    match svc.send_request(1, prepare_bytes()) {
        SendOutcome::NoSession { .. } => {},
        _ => panic!("after teardown the account must fall through"),
    }
}

#[test]
fn connection_down_fails_fast() {
    let mut svc = BtpOutgoingService::new();
    svc.add_connection(1);
    svc.connection_down(1);
    match svc.send_request(1, prepare_bytes()) {
        SendOutcome::Failed { reject } => assert_eq!(reject, T00_WIRE.to_vec()),
        _ => panic!("a closed channel must fail the caller with the T00 Reject"),
    }
}

#[test]
fn replacing_a_connection_drops_its_in_flight_requests() {
    let mut svc = BtpOutgoingService::new();
    let (replaced, _) = svc.add_connection(1);
    assert!(!replaced);
    let id = match svc.send_request(1, prepare_bytes()) {
        SendOutcome::Queued { request_id } => request_id,
        _ => panic!("expected the request to queue"),
    };
    let (replaced, dropped) = svc.add_connection(1);
    assert!(replaced);
    assert_eq!(dropped, vec![id]);
    let sent = svc.sent_frames(1).expect("the fresh session must exist");
    assert!(sent.is_empty());
}

#[test]
fn id_collision_is_detected() {
    let mut svc = BtpOutgoingService::new();
    svc.add_connection(1);
    let prepare = prepare_bytes();
    assert!(matches!(
        svc.try_send_request(1, 42, &prepare),
        TrySendOutcome::Queued
    ));
    assert!(matches!(
        svc.try_send_request(1, 42, &prepare),
        TrySendOutcome::IdCollision
    ));
    assert!(matches!(
        svc.try_send_request(2, 43, &prepare),
        TrySendOutcome::NoSession
    ));
}

#[test]
fn buffered_inbound_prepares_drain_in_order() {
    let mut svc = BtpOutgoingService::new();
    svc.add_connection(1);
    svc.add_connection(2);
    let prepare = prepare_bytes();

    match svc.handle_message(1, &wire_frame(FrameKind::Message, 1, prepare.clone())) {
        InboundAction::Buffered { request_id } => assert_eq!(request_id, 1),
        _ => panic!("a Prepare before binding must buffer"),
    }
    match svc.handle_message(2, &wire_frame(FrameKind::Message, 2, prepare.clone())) {
        InboundAction::Buffered { request_id } => assert_eq!(request_id, 2),
        _ => panic!("a Prepare before binding must buffer"),
    }
    assert_eq!(svc.buffered_len(), 2);

    let (mut bound, drained) = svc.handle_incoming();
    assert_eq!(drained.len(), 2);
    assert_eq!(drained[0].from, 1);
    assert_eq!(drained[0].request_id, 1);
    assert_eq!(drained[0].prepare, prepare);
    assert_eq!(drained[1].from, 2);
    assert_eq!(drained[1].request_id, 2);

    // the handler fulfills both; each response goes to its own session
    // under the original request id
    let fulfill = fulfill_bytes();
    assert!(bound.send_response(1, 1, Ok(fulfill.clone())));
    assert!(bound.send_response(2, 2, Ok(fulfill.clone())));
    let sent_one = bound.sent_frames(1).expect("session 1 must exist");
    assert_eq!(sent_one.len(), 1);
    assert_eq!(sent_one[0].kind, FrameKind::Response);
    assert_eq!(sent_one[0].request_id, 1);
    assert_eq!(sent_one[0].protocol_data[0].data, fulfill);
    let sent_two = bound.sent_frames(2).expect("session 2 must exist");
    assert_eq!(sent_two.len(), 1);
    assert_eq!(sent_two[0].request_id, 2);
}

#[test]
fn post_binding_prepare_is_delivered_and_answered() {
    let mut svc = BtpService::new();
    svc.add_connection(1);
    let prepare = prepare_bytes();

    match svc.handle_message(1, &wire_frame(FrameKind::Message, 42, prepare.clone())) {
        InboundAction::Deliver { from, request_id, prepare: delivered } => {
            assert_eq!(from, 1);
            assert_eq!(request_id, 42);
            assert_eq!(delivered, prepare);
        },
        _ => panic!("after binding, a Prepare must go to the handler"),
    }

    let reject = reject_f99_bytes();
    assert!(svc.send_response(1, 42, Err(reject.clone())));
    let sent = svc.sent_frames(1).expect("session must exist");
    assert_eq!(sent.len(), 1);
    assert_eq!(sent[0].kind, FrameKind::Response);
    assert_eq!(sent[0].request_id, 42);
    assert_eq!(sent[0].protocol_data[0].data, reject);
}

#[test]
fn response_is_dropped_without_a_session() {
    let mut svc = BtpService::new();
    assert!(!svc.send_response(9, 1, Ok(fulfill_bytes())));
    svc.add_connection(9);
    svc.connection_down(9);
    assert!(!svc.send_response(9, 1, Ok(fulfill_bytes())));
}

#[test]
fn unknown_account_falls_through_unchanged() {
    let mut svc = BtpOutgoingService::new();
    svc.add_connection(1);
    let prepare = prepare_bytes();
    match svc.send_request(2, prepare.clone()) {
        SendOutcome::NoSession { prepare: returned } => assert_eq!(returned, prepare),
        _ => panic!("an account without a session must fall through"),
    }
    // nothing changed: no session appeared, nothing was queued or buffered
    assert!(!svc.has_session(2));
    assert_eq!(svc.buffered_len(), 0);
    let sent = svc.sent_frames(1).expect("session 1 must exist");
    assert!(sent.is_empty());
}

#[test]
fn bound_service_still_multiplexes_outgoing() {
    let mut svc = BtpService::new();
    svc.add_connection(1);
    let id = match svc.send_request(1, prepare_bytes()) {
        SendOutcome::Queued { request_id } => request_id,
        _ => panic!("expected the request to queue"),
    };
    let fulfill = fulfill_bytes();
    match svc.handle_message(1, &wire_frame(FrameKind::Response, id, fulfill.clone())) {
        InboundAction::Resolve { request_id, reply: Ok(data) } => {
            assert_eq!(request_id, id);
            assert_eq!(data, fulfill);
        },
        _ => panic!("the bound service must resolve replies too"),
    }
    let dropped = svc.close_connection(1);
    assert!(dropped.is_empty());
    assert!(!svc.has_session(1));
}

#[test]
fn stale_teardown_does_not_evict_the_replacement() {
    let mut svc = BtpOutgoingService::new();
    svc.add_connection(1);
    let first_token = svc.session_token(1).expect("session exists");
    // the connection is replaced before its teardown event fires
    let (replaced, _) = svc.add_connection(1);
    assert!(replaced);
    let second_token = svc.session_token(1).expect("replacement exists");
    assert_ne!(first_token, second_token);
    // the old session's teardown arrives late: it must not touch the
    // replacement
    assert!(svc.close_connection_if(1, first_token).is_none());
    assert!(svc.has_session(1));
    // the current session's teardown does tear it down
    let id = match svc.send_request(1, prepare_bytes()) {
        SendOutcome::Queued { request_id } => request_id,
        _ => panic!("expected the request to queue"),
    };
    let dropped = svc.close_connection_if(1, second_token).expect("token is current");
    assert_eq!(dropped, vec![id]);
    assert!(!svc.has_session(1));
}

#[test]
fn shutdown_drains_every_in_flight_request() {
    let mut svc = BtpOutgoingService::new();
    svc.add_connection(1);
    svc.add_connection(2);
    let id1 = match svc.send_request(1, prepare_bytes()) {
        SendOutcome::Queued { request_id } => request_id,
        _ => panic!("expected the request to queue"),
    };
    let id2 = match svc.send_request(2, prepare_bytes()) {
        SendOutcome::Queued { request_id } => request_id,
        _ => panic!("expected the request to queue"),
    };
    let dropped = svc.shutdown();
    assert_eq!(dropped, vec![id1, id2]);
    assert!(!svc.has_session(1));
    assert!(!svc.has_session(2));
    assert!(!svc.is_pending(id1));
    assert!(!svc.is_pending(id2));
    match svc.send_request(1, prepare_bytes()) {
        SendOutcome::NoSession { .. } => {},
        _ => panic!("after shutdown every account must fall through"),
    }
}

#[test]
fn inbound_error_frame_is_ignored() {
    let mut svc = BtpOutgoingService::new();
    svc.add_connection(1);
    let frame = wire_frame(FrameKind::Error, 5, fulfill_bytes());
    assert!(matches!(svc.handle_message(1, &frame), InboundAction::Ignored));
    // an undecodable payload is ignored too, as the first auth frame would be
    let garbage = wire_frame(FrameKind::Message, 6, vec![0xAB, 0xCD]);
    assert!(matches!(svc.handle_message(1, &garbage), InboundAction::Ignored));
    // so is a payload whose length prefix the parser must never see
    let malformed = wire_frame(FrameKind::Response, 7, vec![14, 0x80]);
    assert!(matches!(svc.handle_message(1, &malformed), InboundAction::Ignored));
    assert_eq!(svc.buffered_len(), 0);
}
