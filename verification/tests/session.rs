//! Tests of routing, waiting, repeating and collecting over one connection.
use klartext::client::error::{ClientError, Outcome};
use klartext::client::session::{
    hex_frame, keepalive_frame, read_timeout, request_frame, responder_addresses, Collector,
    Delivery, Retry, Router, Wait, WaitEvent, MAX_BROADCAST_RESPONDERS, MAX_PENDING_TICKS,
};
use klartext::hsfz::{control, Error, HsfzFrame};
use klartext::uds::{is_retry_safe, P2_STAR_SERVER_MAX_DEFAULT_MS};

fn from_ecu(ecu: u8, uds: &[u8]) -> HsfzFrame {
    HsfzFrame::diagnostic(ecu, 0xF4, uds.to_vec())
}

/// An ack echoes the frame it accepts: same addresses, same request.
fn ack(target: u8, uds: &[u8]) -> HsfzFrame {
    let mut frame = HsfzFrame::diagnostic(0xF4, target, uds.to_vec());
    frame.control = control::ACK;
    frame
}

fn payload(delivery: Delivery) -> (u8, Vec<u8>) {
    match delivery {
        Delivery::Final { target, outcome: Ok(payload), .. } => (target, payload),
        other => panic!("expected a response, got {other:?}"),
    }
}

#[test]
fn routes_responses_to_the_right_target() {
    let mut router = Router::new();
    router.register(0x12, 0x22).unwrap();
    router.register(0x40, 0x22).unwrap();
    let a = router.route_frame(from_ecu(0x12, &[0x62, 0xF1, 0x90, 0x12]));
    let b = router.route_frame(from_ecu(0x40, &[0x62, 0xF1, 0x90, 0x40]));
    assert_eq!(payload(a), (0x12, vec![0x62, 0xF1, 0x90, 0x12]));
    assert_eq!(payload(b), (0x40, vec![0x62, 0xF1, 0x90, 0x40]));
}

#[test]
fn concurrent_requests_to_distinct_targets_share_one_socket() {
    let mut router = Router::new();
    for target in [0x12, 0x40, 0x60] {
        router.register(target, 0x22).unwrap();
    }
    for target in [0x60, 0x12, 0x40] {
        let delivered = router.route_frame(from_ecu(target, &[0x62, 0xF1, 0x90, target]));
        assert_eq!(payload(delivered).1[3], target);
    }
}

#[test]
fn one_target_takes_one_request_at_a_time() {
    let mut router = Router::new();
    let first = router.register(0x12, 0x22).unwrap();
    assert!(matches!(
        router.register(0x12, 0x19),
        Err(ClientError::RequestInFlight { target: 0x12 })
    ));
    assert!(router.release(0x12, first).is_some());
    let second = router.register(0x12, 0x19).unwrap();
    assert_ne!(first, second);
    assert!(router.release(0x12, first).is_none(), "a stale guard spares the newer request");
    assert!(router.release(0x12, second).is_some());
}

#[test]
fn a_closed_connection_ends_every_wait() {
    let mut router = Router::new();
    router.register(0x12, 0x22).unwrap();
    router.register(0x40, 0x22).unwrap();
    let mut ended: Vec<u8> = router.close().iter().map(|(target, _)| *target).collect();
    ended.sort_unstable();
    assert_eq!(ended, vec![0x12, 0x40]);
    assert!(router.register(0x12, 0x22).is_ok());
}

#[test]
fn route_frame_records_the_gateway_ack_without_delivering_it() {
    let mut router = Router::new();
    let generation = router.register(0x12, 0x22).unwrap();
    let delivered = router.route_frame(ack(0x12, &[0x22, 0xF1, 0x90]));
    assert!(matches!(delivered, Delivery::Dropped), "an ack is not a response");
    let pending = router.release(0x12, generation).expect("the request must still be waiting");
    assert!(pending.acked, "the ack must be recorded");
}

#[test]
fn an_ack_for_a_different_service_is_not_credited() {
    let mut router = Router::new();
    let generation = router.register(0x10, 0x22).unwrap();
    router.route_frame(ack(0x10, &[0x3E, 0x80]));
    assert!(!router.release(0x10, generation).unwrap().acked);
}

#[test]
fn route_frame_skips_a_stray_keepalive_nack_then_delivers_the_real_response() {
    let mut router = Router::new();
    router.register(0x12, 0x22).unwrap();
    let stray = router.route_frame(from_ecu(0x12, &[0x7F, 0x3E, 0x22]));
    assert!(matches!(stray, Delivery::Dropped), "the stray NAK must not be delivered");
    let real = router.route_frame(from_ecu(0x12, &[0x62, 0xF1, 0x90, 0xAB]));
    assert_eq!(payload(real), (0x12, vec![0x62, 0xF1, 0x90, 0xAB]));
}

#[test]
fn route_frame_delivers_our_negative_as_a_typed_nrc() {
    let mut router = Router::new();
    router.register(0x12, 0x22).unwrap();
    match router.route_frame(from_ecu(0x12, &[0x7F, 0x22, 0x31])) {
        Delivery::Final {
            target: 0x12,
            outcome: Err(ClientError::Negative { sid: 0x22, nrc: 0x31 }),
            ..
        } => {}
        other => panic!("expected a typed NRC, got {other:?}"),
    }
}

#[test]
fn a_pending_answer_keeps_the_request_waiting() {
    let mut router = Router::new();
    let generation = router.register(0x12, 0x22).unwrap();
    let delivered = router.route_frame(from_ecu(0x12, &[0x7F, 0x22, 0x78]));
    assert!(matches!(delivered, Delivery::Pending { target: 0x12, .. }));
    assert!(router.release(0x12, generation).is_some());
}

#[test]
fn request_functional_collects_every_ecu_that_answers_one_broadcast() {
    let mut router = Router::new();
    router.register_broadcast(0xDF, 0x14, 0xF4).unwrap();
    let mut collector = Collector::start(MAX_BROADCAST_RESPONDERS);
    for ecu in [0x12, 0x40, 0x60] {
        match router.route_frame(from_ecu(ecu, &[0x54])) {
            Delivery::Responder { source, payload } => collector.offer(Some((source, payload))),
            other => panic!("expected a responder, got {other:?}"),
        }
    }
    assert!(collector.collecting());
    collector.offer(None);
    assert!(!collector.collecting());
    let responders = collector.finish();
    assert_eq!(
        responders,
        vec![(0x12, vec![0x54]), (0x40, vec![0x54]), (0x60, vec![0x54])],
        "every responder, told apart by its own source address, in arrival order"
    );
    assert_eq!(responder_addresses(&responders), vec![0x12, 0x40, 0x60]);
}

#[test]
fn collection_stops_at_the_responder_cap() {
    let mut collector = Collector::start(2);
    for ecu in [0x12, 0x40, 0x60] {
        collector.offer(Some((ecu, vec![0x54])));
    }
    assert!(!collector.collecting());
    assert_eq!(collector.finish().len(), 2, "the cap bounds the collection");
}

#[test]
fn a_finished_broadcast_releases_the_slot_for_the_next_one() {
    let mut router = Router::new();
    router.register_broadcast(0xDF, 0x14, 0xF4).unwrap();
    assert!(matches!(
        router.register_broadcast(0xDF, 0x14, 0xF4),
        Err(ClientError::RequestInFlight { target: 0xDF })
    ));
    router.release_broadcast();
    assert!(router.register_broadcast(0xDF, 0x14, 0xF4).is_ok(), "the slot must be free again");
}

#[test]
fn the_broadcast_fall_through_is_not_a_catch_all() {
    let mut router = Router::new();
    router.register_broadcast(0xDF, 0x14, 0xF4).unwrap();
    let other_service = router.route_frame(from_ecu(0x12, &[0x62, 0xF1, 0x90, 0xAB]));
    assert!(matches!(other_service, Delivery::Dropped));
    let refusal = router.route_frame(from_ecu(0x12, &[0x7F, 0x14, 0x22]));
    assert!(matches!(refusal, Delivery::Dropped), "a refusal is not an answer");
    let other_tester = router.route_frame(HsfzFrame::diagnostic(0x12, 0xF1, vec![0x54]));
    assert!(matches!(other_tester, Delivery::Dropped));
    match router.route_frame(from_ecu(0x40, &[0x54])) {
        Delivery::Responder { source, payload } => assert_eq!((source, payload), (0x40, vec![0x54])),
        other => panic!("expected the real answer, got {other:?}"),
    }
}

#[test]
fn a_reply_with_no_waiter_and_no_broadcast_is_dropped() {
    let mut router = Router::new();
    let generation = router.register(0x40, 0x22).unwrap();
    let delivered = router.route_frame(from_ecu(0x12, &[0x62, 0xF1, 0x90, 0xAB]));
    assert!(matches!(delivered, Delivery::Dropped));
    assert!(
        router.release(0x40, generation).is_some(),
        "the unrelated request must still be waiting"
    );
}

fn silence() -> Outcome {
    Err(read_timeout(1200))
}

/// How often a request is sent when its exchanges end so.
fn sent(uds: &[u8], outcomes: Vec<Outcome>) -> (usize, Outcome) {
    let mut retry = Retry::offered(uds);
    let mut count = 0;
    for outcome in outcomes {
        count += 1;
        if !retry.again(&outcome) {
            return (count, outcome);
        }
    }
    panic!("the exchange goes on");
}

#[test]
fn a_timed_out_read_is_repeated_once_and_then_succeeds() {
    let (count, outcome) =
        sent(&[0x22, 0xF1, 0x90], vec![silence(), Ok(vec![0x62, 0xF1, 0x90, 0x12])]);
    assert_eq!(outcome.unwrap(), vec![0x62, 0xF1, 0x90, 0x12]);
    assert_eq!(count, 2, "one attempt plus exactly one retry");
}

#[test]
fn the_retry_is_bounded_to_a_single_repeat() {
    let (count, outcome) =
        sent(&[0x22, 0xF1, 0x90], vec![silence(), silence(), silence()]);
    assert!(matches!(outcome, Err(ClientError::Hsfz(Error::ReadTimeout { .. }))));
    assert_eq!(count, 2, "not unbounded");
}

#[test]
fn a_negative_response_is_never_retried() {
    let refused = Err(ClientError::Negative { sid: 0x22, nrc: 0x31 });
    let (count, outcome) = sent(&[0x22, 0xF1, 0x90], vec![refused]);
    assert!(matches!(outcome, Err(ClientError::Negative { sid: 0x22, nrc: 0x31 })));
    assert_eq!(count, 1, "an NRC is an answer, not a failed exchange");
}

#[test]
fn a_write_is_never_retried_even_when_the_ecu_is_silent() {
    let (count, outcome) = sent(&[0x14, 0xFF, 0xFF, 0xFF], vec![silence()]);
    assert!(matches!(outcome, Err(ClientError::Hsfz(Error::ReadTimeout { .. }))));
    assert_eq!(count, 1, "0x14 is not retry-safe: one attempt only");
    assert!(!is_retry_safe(0x2E) && !is_retry_safe(0x31) && is_retry_safe(0x19));
}

#[test]
fn nrc_0x78_rearms_the_wait_with_p2_star_not_the_initial_timeout() {
    let mut wait = Wait::start(60);
    assert_eq!(wait.deadline, 60);
    assert!(wait.step(WaitEvent::Pending).is_none());
    assert_eq!(wait.deadline, P2_STAR_SERVER_MAX_DEFAULT_MS);
    let done = wait.step(WaitEvent::Final(Ok(vec![0x62, 0xF1, 0x90, 0x12])));
    assert_eq!(done.unwrap().unwrap(), vec![0x62, 0xF1, 0x90, 0x12]);
}

#[test]
fn an_endless_pending_ends_in_a_timeout() {
    let mut wait = Wait::start(60);
    for _ in 0..MAX_PENDING_TICKS {
        assert!(wait.step(WaitEvent::Pending).is_none());
    }
    assert!(matches!(
        wait.step(WaitEvent::Pending),
        Some(Err(ClientError::Hsfz(Error::ReadTimeout { timeout: 5000 })))
    ));
}

#[test]
fn silence_and_a_closed_connection_are_told_apart() {
    let mut wait = Wait::start(60);
    assert!(matches!(
        wait.step(WaitEvent::Elapsed),
        Some(Err(ClientError::Hsfz(Error::ReadTimeout { timeout: 60 })))
    ));
    assert!(matches!(wait.step(WaitEvent::Closed), Some(Err(ClientError::ConnectionClosed))));
}

#[test]
fn frames_carry_the_tester_and_the_target() {
    assert_eq!(
        request_frame(0xF4, 0x12, &[0x22, 0xF1, 0x90]),
        HsfzFrame::diagnostic(0xF4, 0x12, vec![0x22, 0xF1, 0x90])
    );
    assert_eq!(
        keepalive_frame(0xF4, 0x10),
        HsfzFrame::diagnostic(0xF4, 0x10, vec![0x3E, 0x80])
    );
    assert_eq!(hex_frame(&[0x22, 0xF1, 0x0A]), "22 F1 0A");
    assert_eq!(hex_frame(&[]), "");
}
