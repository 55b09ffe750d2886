use titan_events::codec::{encode_event, frame_event, DecodeError};
use titan_events::listener::{
    after_delivery, decode_stream, listener_step, run_listener, trim_line, LoopControl,
    ReadOutcome, StepAction, StopReason,
};
use titan_events::schema::Event;

fn e1() -> Event {
    Event::NewBlock { height: 1, hash: vec![0x11] }
}

fn e2() -> Event {
    Event::NewTransaction { txid: vec![0x22] }
}

fn e3() -> Event {
    Event::RuneTransfer { amount: 9, txid: vec![0x33] }
}

#[test]
fn cancellation_stops_before_anything_else() {
    // Even a valid event line is not delivered once the signal is asserted.
    let line = ReadOutcome::Line(frame_event(&e1()));
    assert_eq!(listener_step(true, &line), StepAction::Stop(StopReason::Cancelled));
    assert_eq!(listener_step(true, &ReadOutcome::Eof), StepAction::Stop(StopReason::Cancelled));
    assert_eq!(
        listener_step(true, &ReadOutcome::WouldBlock),
        StepAction::Stop(StopReason::Cancelled)
    );
}

#[test]
fn disconnect_ends_the_loop_normally() {
    assert_eq!(listener_step(false, &ReadOutcome::Eof), StepAction::Stop(StopReason::Disconnected));
}

#[test]
fn no_data_backs_off_one_poll_interval() {
    assert_eq!(listener_step(false, &ReadOutcome::WouldBlock), StepAction::Backoff);
}

#[test]
fn transport_failure_ends_the_loop() {
    assert_eq!(
        listener_step(false, &ReadOutcome::Failed),
        StepAction::Stop(StopReason::TransportFailed)
    );
}

#[test]
fn valid_line_is_delivered() {
    let action = listener_step(false, &ReadOutcome::Line(frame_event(&e1())));
    assert_eq!(action, StepAction::Deliver(e1()));
}

#[test]
fn line_with_windows_terminator_is_delivered() {
    let mut line = encode_event(&e2());
    line.extend_from_slice(b"\r\n");
    assert_eq!(listener_step(false, &ReadOutcome::Line(line)), StepAction::Deliver(e2()));
}

#[test]
fn blank_line_is_skipped() {
    for raw in [b"\n".to_vec(), b" \t \r\n".to_vec(), Vec::new()] {
        assert_eq!(listener_step(false, &ReadOutcome::Line(raw)), StepAction::SkipBlank);
    }
}

#[test]
fn malformed_line_is_reported_not_fatal() {
    let action = listener_step(false, &ReadOutcome::Line(b"garbage\n".to_vec()));
    assert_eq!(action, StepAction::ReportMalformed(DecodeError::Malformed));
    let action = listener_step(false, &ReadOutcome::Line(b"Z00\n".to_vec()));
    assert_eq!(action, StepAction::ReportMalformed(DecodeError::UnknownKind));
}

#[test]
fn consumer_gone_halts_after_failed_delivery() {
    assert_eq!(after_delivery(true), LoopControl::Proceed);
    assert_eq!(after_delivery(false), LoopControl::Halt(StopReason::ConsumerGone));
}

#[test]
fn order_is_preserved() {
    let lines = vec![frame_event(&e1()), frame_event(&e2()), frame_event(&e3())];
    assert_eq!(decode_stream(&lines), vec![e1(), e2(), e3()]);
}

#[test]
fn one_malformed_line_between_two_valid_events() {
    let lines = vec![frame_event(&e1()), b"not an event\n".to_vec(), frame_event(&e2())];
    assert_eq!(decode_stream(&lines), vec![e1(), e2()]);
}

#[test]
fn blank_lines_are_tolerated_as_padding() {
    let lines = vec![
        b"\n".to_vec(),
        frame_event(&e1()),
        b"\n".to_vec(),
        frame_event(&e2()),
        b"\n".to_vec(),
    ];
    assert_eq!(decode_stream(&lines), vec![e1(), e2()]);
}

#[test]
fn empty_stream_delivers_nothing() {
    assert_eq!(decode_stream(&Vec::new()), Vec::new());
}

#[test]
fn run_stops_at_the_iteration_cancellation_is_observed() {
    // Two events arrive, then the signal is observed: the third line is
    // never delivered, and the run reports cancellation.
    let outcomes = vec![
        ReadOutcome::Line(frame_event(&e1())),
        ReadOutcome::Line(frame_event(&e2())),
        ReadOutcome::Line(frame_event(&e3())),
    ];
    let flags = vec![false, false, true];
    let accepts = vec![true, true, true];
    let (events, stop) = run_listener(&flags, &outcomes, &accepts);
    assert_eq!(events, vec![e1(), e2()]);
    assert_eq!(stop, Some(StopReason::Cancelled));
}

#[test]
fn run_ends_without_error_on_disconnect() {
    let outcomes = vec![
        ReadOutcome::Line(frame_event(&e1())),
        ReadOutcome::WouldBlock,
        ReadOutcome::Eof,
    ];
    let flags = vec![false, false, false];
    let accepts = vec![true, true, true];
    let (events, stop) = run_listener(&flags, &outcomes, &accepts);
    assert_eq!(events, vec![e1()]);
    assert_eq!(stop, Some(StopReason::Disconnected));
}

#[test]
fn run_stops_when_the_consumer_is_gone() {
    let outcomes = vec![
        ReadOutcome::Line(frame_event(&e1())),
        ReadOutcome::Line(frame_event(&e2())),
        ReadOutcome::Line(frame_event(&e3())),
    ];
    let flags = vec![false, false, false];
    let accepts = vec![true, false, true];
    let (events, stop) = run_listener(&flags, &outcomes, &accepts);
    assert_eq!(events, vec![e1()]);
    assert_eq!(stop, Some(StopReason::ConsumerGone));
}

#[test]
fn run_survives_padding_and_malformed_lines() {
    let outcomes = vec![
        ReadOutcome::Line(b"\n".to_vec()),
        ReadOutcome::Line(frame_event(&e1())),
        ReadOutcome::Line(b"garbage\n".to_vec()),
        ReadOutcome::WouldBlock,
        ReadOutcome::Line(frame_event(&e2())),
    ];
    let flags = vec![false; 5];
    let accepts = vec![true; 5];
    let (events, stop) = run_listener(&flags, &outcomes, &accepts);
    assert_eq!(events, vec![e1(), e2()]);
    assert_eq!(stop, None);
}

#[test]
fn trim_removes_surrounding_whitespace_only() {
    assert_eq!(trim_line(&b"  T0102 \r\n".to_vec()), b"T0102".to_vec());
    assert_eq!(trim_line(&b"T0102".to_vec()), b"T0102".to_vec());
    assert_eq!(trim_line(&b" \t\r\n".to_vec()), Vec::new());
    assert_eq!(trim_line(&Vec::new()), Vec::new());
}
