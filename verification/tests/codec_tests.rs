use titan_events::codec::{decode_event, decode_request, encode_event, encode_request};
use titan_events::codec::{frame_event, frame_request, DecodeError};
use titan_events::schema::{Event, SubscriptionRequest};
use titan_events::EventKind;

fn block_event() -> Event {
    Event::NewBlock { height: 850000, hash: vec![0xde, 0xad, 0xbe, 0xef] }
}

fn tx_event() -> Event {
    Event::NewTransaction { txid: vec![0x01, 0x02] }
}

fn rune_event() -> Event {
    Event::RuneTransfer { amount: 5, txid: vec![0xaa] }
}

fn inscription_event() -> Event {
    Event::InscriptionRevealed { index: 3, txid: vec![0xff] }
}

#[test]
fn encode_block_exact() {
    let enc = encode_event(&block_event());
    assert_eq!(enc, b"B00000000000cf850deadbeef".to_vec());
}

#[test]
fn encode_tx_exact() {
    let enc = encode_event(&tx_event());
    assert_eq!(enc, b"T0102".to_vec());
}

#[test]
fn encode_rune_exact() {
    let enc = encode_event(&rune_event());
    assert_eq!(enc, b"R0000000000000005aa".to_vec());
}

#[test]
fn encode_inscription_exact() {
    let enc = encode_event(&inscription_event());
    assert_eq!(enc, b"I0000000000000003ff".to_vec());
}

#[test]
fn round_trip_every_event_variant() {
    for e in [block_event(), tx_event(), rune_event(), inscription_event()] {
        let enc = encode_event(&e);
        assert_eq!(decode_event(&enc), Ok(e));
    }
}

#[test]
fn round_trip_extreme_values() {
    for e in [
        Event::NewBlock { height: 0, hash: vec![] },
        Event::NewBlock { height: u64::MAX, hash: vec![0; 32] },
        Event::NewTransaction { txid: vec![] },
        Event::RuneTransfer { amount: u64::MAX, txid: (0..=255).collect() },
    ] {
        let enc = encode_event(&e);
        assert_eq!(decode_event(&enc), Ok(e));
    }
}

#[test]
fn round_trip_subscription_request() {
    for kinds in [
        vec![],
        vec![EventKind::NewBlock],
        vec![
            EventKind::NewBlock,
            EventKind::NewTransaction,
            EventKind::RuneTransfer,
            EventKind::InscriptionRevealed,
        ],
    ] {
        let req = SubscriptionRequest { kinds };
        let enc = encode_request(&req);
        assert_eq!(decode_request(&enc), Ok(req));
    }
}

#[test]
fn encode_request_exact() {
    let req = SubscriptionRequest { kinds: vec![EventKind::NewBlock, EventKind::RuneTransfer] };
    assert_eq!(encode_request(&req), b"Sbr".to_vec());
}

#[test]
fn decode_empty_line_is_malformed() {
    assert_eq!(decode_event(&vec![]), Err(DecodeError::Malformed));
}

#[test]
fn decode_unrecognized_kind_is_distinguished() {
    // A well-shaped tag this subsystem does not know: not a structural error.
    assert_eq!(decode_event(&b"X0011".to_vec()), Err(DecodeError::UnknownKind));
    // A lowercase first byte is not tag-shaped at all.
    assert_eq!(decode_event(&b"x0011".to_vec()), Err(DecodeError::Malformed));
}

#[test]
fn decode_short_number_is_malformed() {
    assert_eq!(decode_event(&b"B00cf850".to_vec()), Err(DecodeError::Malformed));
}

#[test]
fn decode_non_hex_is_malformed() {
    assert_eq!(decode_event(&b"B00000000000cf85zdead".to_vec()), Err(DecodeError::Malformed));
    assert_eq!(decode_event(&b"Tzz".to_vec()), Err(DecodeError::Malformed));
}

#[test]
fn decode_odd_hex_tail_is_malformed() {
    assert_eq!(decode_event(&b"T012".to_vec()), Err(DecodeError::Malformed));
}

#[test]
fn decode_request_rejects_foreign_bytes() {
    assert_eq!(decode_request(&b"Sbx".to_vec()), Err(DecodeError::Malformed));
    assert_eq!(decode_request(&b"T01".to_vec()), Err(DecodeError::Malformed));
    assert_eq!(decode_request(&vec![]), Err(DecodeError::Malformed));
}

#[test]
fn framing_appends_exactly_one_terminator() {
    let e = tx_event();
    let mut expected = encode_event(&e);
    expected.push(b'\n');
    assert_eq!(frame_event(&e), expected);
    assert!(expected[..expected.len() - 1].iter().all(|&b| b != b'\n'));

    let req = SubscriptionRequest { kinds: vec![EventKind::NewTransaction] };
    let mut expected = encode_request(&req);
    expected.push(b'\n');
    assert_eq!(frame_request(&req), expected);
}
