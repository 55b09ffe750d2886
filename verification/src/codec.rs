//! The line codec of the delivery wire protocol.
//!
//! Every event and the subscription request serialize to exactly one line of
//! text: a tag byte followed by fixed-width hexadecimal numbers and a
//! hexadecimal byte string. Decoding distinguishes a structurally invalid
//! line from a well-shaped line whose kind tag is not recognized.

use vstd::prelude::*;
use crate::EventKind;
use crate::schema::{Event, EventV, SubscriptionRequest};

verus! {

/// The line terminator of the wire protocol.
pub const NL: u8 = 0x0a;

/// Returns whether a byte is an ASCII whitespace byte of the protocol
/// (space, tab, carriage return, line feed).
pub open spec fn is_space(c: u8) -> bool {
    c == 0x20 || c == 0x09 || c == 0x0d || c == 0x0a
}

/// Returns whether a byte string contains no line terminator.
pub open spec fn single_line(s: Seq<u8>) -> bool {
    forall|i: int| 0 <= i < s.len() ==> #[trigger] s[i] != NL
}

/// Returns whether a byte is a lowercase hexadecimal digit.
pub open spec fn is_hex_digit(c: u8) -> bool {
    (0x30 <= c && c <= 0x39) || (0x61 <= c && c <= 0x66)
}

/// The lowercase hexadecimal digit of a value below 16.
pub open spec fn hex_digit(v: u8) -> u8
    recommends
        v < 16,
{
    if v < 10 {
        (v + 0x30) as u8
    } else {
        (v + 0x57) as u8
    }
}

/// The value of a lowercase hexadecimal digit.
pub open spec fn hex_val(c: u8) -> u8
    recommends
        is_hex_digit(c),
{
    if c <= 0x39 {
        (c - 0x30) as u8
    } else {
        ((c - 0x61) + 10) as u8
    }
}

/// Returns whether every byte of a string is a hexadecimal digit.
pub open spec fn all_hex(s: Seq<u8>) -> bool {
    forall|i: int| 0 <= i < s.len() ==> is_hex_digit(#[trigger] s[i])
}

/// Sixteen to the power `w`.
pub open spec fn pow16(w: nat) -> nat
    decreases w,
{
    if w == 0 {
        1
    } else {
        16 * pow16((w - 1) as nat)
    }
}

/// The `w`-digit hexadecimal rendering of `n`, most significant digit first.
pub open spec fn spec_hex_w(n: nat, w: nat) -> Seq<u8>
    decreases w,
{
    if w == 0 {
        Seq::empty()
    } else {
        spec_hex_w(n / 16, (w - 1) as nat).push(hex_digit((n % 16) as u8))
    }
}

/// The sixteen-digit hexadecimal rendering of a 64-bit number.
pub open spec fn spec_hex16(n: u64) -> Seq<u8> {
    spec_hex_w(n as nat, 16)
}

/// The number a hexadecimal digit string denotes.
pub open spec fn spec_unhex(s: Seq<u8>) -> nat
    decreases s.len(),
{
    if s.len() == 0 {
        0
    } else {
        spec_unhex(s.drop_last()) * 16 + hex_val(s.last()) as nat
    }
}

proof fn lemma_div16_bound(n: nat, p: nat)
    by (nonlinear_arith)
    requires
        n < 16 * p,
    ensures
        n / 16 < p,
{
}

proof fn lemma_mul16_bound(u: nat, p: nat)
    by (nonlinear_arith)
    requires
        u < p,
    ensures
        u * 16 + 15 < 16 * p,
{
}

/// A hexadecimal digit decodes back to the value it was made from.
pub proof fn lemma_hex_val_digit(v: u8)
    requires
        v < 16,
    ensures
        hex_val(hex_digit(v)) == v,
        is_hex_digit(hex_digit(v)),
{
}

/// Fixed-width hexadecimal rendering is injective: it has the stated width,
/// holds only digits, and decodes back to the number.
pub proof fn lemma_hex_w_props(n: nat, w: nat)
    requires
        n < pow16(w),
    ensures
        spec_hex_w(n, w).len() == w,
        all_hex(spec_hex_w(n, w)),
        spec_unhex(spec_hex_w(n, w)) == n,
    decreases w,
{
    if w == 0 {
    } else {
        lemma_div16_bound(n, pow16((w - 1) as nat));
        lemma_hex_w_props(n / 16, (w - 1) as nat);
        lemma_hex_val_digit((n % 16) as u8);
        let base = spec_hex_w(n / 16, (w - 1) as nat);
        let s = spec_hex_w(n, w);
        assert(s == base.push(hex_digit((n % 16) as u8)));
        assert(s.drop_last() =~= base);
        assert forall|i: int| 0 <= i < s.len() implies is_hex_digit(#[trigger] s[i]) by {
            if i < s.len() - 1 {
                assert(s[i] == base[i]);
            }
        }
        assert(spec_unhex(s) == spec_unhex(base) * 16 + (n % 16));
        vstd::arithmetic::div_mod::lemma_fundamental_div_mod(n as int, 16);
    }
}

/// A hexadecimal digit string of width `w` denotes a number below `16^w`.
pub proof fn lemma_unhex_bound(s: Seq<u8>)
    requires
        all_hex(s),
    ensures
        spec_unhex(s) < pow16(s.len()),
    decreases s.len(),
{
    if s.len() == 0 {
    } else {
        assert(forall|i: int| 0 <= i < s.len() - 1 ==> #[trigger] s.drop_last()[i] == s[i]);
        lemma_unhex_bound(s.drop_last());
        let u = spec_unhex(s.drop_last());
        let p = pow16((s.len() - 1) as nat);
        lemma_mul16_bound(u, p);
        assert(hex_val(s.last()) as nat <= 15);
    }
}

/// Powers of sixteen grow with the exponent.
pub proof fn lemma_pow16_mono(a: nat, b: nat)
    requires
        a <= b,
    ensures
        pow16(a) <= pow16(b),
    decreases b,
{
    if a < b {
        lemma_pow16_mono(a, (b - 1) as nat);
        assert(pow16(b) == 16 * pow16((b - 1) as nat));
    }
}

/// The powers of sixteen that bound a 64-bit number's rendering.
pub proof fn lemma_pow16_64()
    ensures
        pow16(15) == 0x1000000000000000,
        pow16(16) == 0x10000000000000000,
{
    assert(pow16(0) == 1);
    assert(pow16(1) == 16);
    assert(pow16(2) == 0x100);
    assert(pow16(3) == 0x1000);
    assert(pow16(4) == 0x10000);
    assert(pow16(5) == 0x100000);
    assert(pow16(6) == 0x1000000);
    assert(pow16(7) == 0x10000000);
    assert(pow16(8) == 0x100000000);
    assert(pow16(9) == 0x1000000000);
    assert(pow16(10) == 0x10000000000);
    assert(pow16(11) == 0x100000000000);
    assert(pow16(12) == 0x1000000000000);
    assert(pow16(13) == 0x10000000000000);
    assert(pow16(14) == 0x100000000000000);
    assert(pow16(15) == 0x1000000000000000);
    assert(pow16(16) == 0x10000000000000000);
}

fn hex_digit_exec(v: u8) -> (r: u8)
    requires
        v < 16,
    ensures
        r == hex_digit(v),
{
    if v < 10 {
        v + 0x30
    } else {
        v + 0x57
    }
}

fn is_hex_digit_exec(c: u8) -> (r: bool)
    ensures
        r == is_hex_digit(c),
{
    (0x30 <= c && c <= 0x39) || (0x61 <= c && c <= 0x66)
}

fn hex_val_exec(c: u8) -> (r: u8)
    requires
        is_hex_digit(c),
    ensures
        r == hex_val(c),
        r < 16,
{
    if c <= 0x39 {
        c - 0x30
    } else {
        (c - 0x61) + 10
    }
}

/// Renders `n` as `w` hexadecimal digits, most significant first.
fn hex_w(n: u64, w: usize) -> (r: Vec<u8>)
    ensures
        r@ == spec_hex_w(n as nat, w as nat),
    decreases w,
{
    if w == 0 {
        Vec::new()
    } else {
        let mut r = hex_w(n / 16, w - 1);
        r.push(hex_digit_exec((n % 16) as u8));
        r
    }
}

/// Renders a 64-bit number as sixteen hexadecimal digits.
pub fn hex16(n: u64) -> (r: Vec<u8>)
    ensures
        r@ == spec_hex16(n),
{
    hex_w(n, 16)
}

/// Parses the sixteen hexadecimal digits at `start` as a 64-bit number.
pub fn parse_hex16(line: &Vec<u8>, start: usize) -> (r: Option<u64>)
    requires
        start + 16 <= line@.len(),
    ensures
        ({
            let w = line@.subrange(start as int, start + 16);
            match r {
                Some(v) => all_hex(w) && v as nat == spec_unhex(w),
                None => !all_hex(w),
            }
        }),
{
    let ghost w = line@.subrange(start as int, start + 16);
    let n = line.len();
    let mut acc: u64 = 0;
    let mut i: usize = 0;
    while i < 16
        invariant
            0 <= i <= 16,
            n == line@.len(),
            start + 16 <= line@.len(),
            w == line@.subrange(start as int, start + 16),
            all_hex(line@.subrange(start as int, start + i)),
            acc as nat == spec_unhex(line@.subrange(start as int, start + i)),
        decreases 16 - i,
    {
        let ghost p = line@.subrange(start as int, start + i);
        let c = line[start + i];
        if !is_hex_digit_exec(c) {
            proof {
                assert(w[i as int] == c);
            }
            return None;
        }
        let v = hex_val_exec(c);
        proof {
            lemma_unhex_bound(p);
            lemma_pow16_mono(p.len(), 15);
            lemma_pow16_64();
            lemma_mul16_bound(acc as nat, 0x1000000000000000);
        }
        acc = acc * 16 + v as u64;
        proof {
            let p2 = line@.subrange(start as int, start + i + 1);
            assert(p2.drop_last() =~= p);
            assert(p2.last() == c);
        }
        i = i + 1;
    }
    proof {
        assert(line@.subrange(start as int, start + 16) =~= w);
    }
    Some(acc)
}

/// The hexadecimal rendering of a byte string: two digits per byte.
pub open spec fn spec_hex_bytes(b: Seq<u8>) -> Seq<u8>
    decreases b.len(),
{
    if b.len() == 0 {
        Seq::empty()
    } else {
        spec_hex_bytes(b.drop_last()) + seq![
            hex_digit((b.last() / 16) as u8),
            hex_digit((b.last() % 16) as u8),
        ]
    }
}

/// Returns whether a string is a well-formed hexadecimal byte string:
/// an even number of hexadecimal digits.
pub open spec fn valid_hex_str(s: Seq<u8>) -> bool {
    s.len() % 2 == 0 && all_hex(s)
}

/// The bytes a hexadecimal byte string denotes.
pub open spec fn spec_unhex_bytes(s: Seq<u8>) -> Seq<u8>
    decreases s.len(),
{
    if s.len() < 2 {
        Seq::empty()
    } else {
        spec_unhex_bytes(s.subrange(0, s.len() - 2)).push(
            (hex_val(s[s.len() - 2]) * 16 + hex_val(s[s.len() - 1])) as u8,
        )
    }
}

/// The hexadecimal byte-string rendering is injective: it has twice the
/// length, is a well-formed hexadecimal string, and decodes back to the bytes.
pub proof fn lemma_hex_bytes_props(b: Seq<u8>)
    ensures
        spec_hex_bytes(b).len() == 2 * b.len(),
        valid_hex_str(spec_hex_bytes(b)),
        spec_unhex_bytes(spec_hex_bytes(b)) == b,
    decreases b.len(),
{
    if b.len() == 0 {
        assert(spec_hex_bytes(b) =~= Seq::<u8>::empty());
        assert(spec_unhex_bytes(spec_hex_bytes(b)) =~= b);
    } else {
        lemma_hex_bytes_props(b.drop_last());
        let hh = spec_hex_bytes(b.drop_last());
        let h = spec_hex_bytes(b);
        let x = b.last();
        let hi = hex_digit((x / 16) as u8);
        let lo = hex_digit((x % 16) as u8);
        lemma_hex_val_digit((x / 16) as u8);
        lemma_hex_val_digit((x % 16) as u8);
        assert(h == hh + seq![hi, lo]);
        assert(h.len() == hh.len() + 2);
        assert forall|i: int| 0 <= i < h.len() implies is_hex_digit(#[trigger] h[i]) by {
            if i < hh.len() {
                assert(h[i] == hh[i]);
            } else if i == hh.len() {
                assert(h[i] == hi);
            } else {
                assert(h[i] == lo);
            }
        }
        assert(h.subrange(0, h.len() - 2) =~= hh);
        assert(h[h.len() - 2] == hi && h[h.len() - 1] == lo);
        assert(hex_val(hi) * 16 + hex_val(lo) == (x / 16) * 16 + x % 16);
        assert((x / 16) * 16 + x % 16 == x) by {
            vstd::arithmetic::div_mod::lemma_fundamental_div_mod(x as int, 16);
        }
        assert(spec_unhex_bytes(h) == b.drop_last().push(x));
        assert(b.drop_last().push(x) =~= b);
    }
}

/// Renders a byte string in hexadecimal, two digits per byte.
pub fn hex_bytes(b: &Vec<u8>) -> (r: Vec<u8>)
    ensures
        r@ == spec_hex_bytes(b@),
{
    let mut r: Vec<u8> = Vec::new();
    let mut i: usize = 0;
    while i < b.len()
        invariant
            0 <= i <= b.len(),
            r@ == spec_hex_bytes(b@.subrange(0, i as int)),
        decreases b.len() - i,
    {
        let ghost p = b@.subrange(0, i as int);
        let x = b[i];
        r.push(hex_digit_exec(x / 16));
        r.push(hex_digit_exec(x % 16));
        proof {
            let p2 = b@.subrange(0, i + 1);
            assert(p2.drop_last() =~= p);
            assert(p2.last() == x);
            assert(r@ =~= spec_hex_bytes(p) + seq![
                hex_digit((x / 16) as u8),
                hex_digit((x % 16) as u8),
            ]);
        }
        i = i + 1;
    }
    proof {
        assert(b@.subrange(0, b@.len() as int) =~= b@);
    }
    r
}

/// Parses the tail of the line from `start` as a hexadecimal byte string.
pub fn parse_hex_bytes(line: &Vec<u8>, start: usize) -> (r: Option<Vec<u8>>)
    requires
        start <= line@.len(),
    ensures
        ({
            let t = line@.subrange(start as int, line@.len() as int);
            match r {
                Some(b) => valid_hex_str(t) && b@ == spec_unhex_bytes(t),
                None => !valid_hex_str(t),
            }
        }),
{
    let ghost t = line@.subrange(start as int, line@.len() as int);
    let n = line.len();
    if (n - start) % 2 != 0 {
        return None;
    }
    let mut out: Vec<u8> = Vec::new();
    let mut i: usize = start;
    while i < n
        invariant
            start <= i <= n,
            n == line@.len(),
            t == line@.subrange(start as int, line@.len() as int),
            (n - start) % 2 == 0,
            (i - start) % 2 == 0,
            all_hex(line@.subrange(start as int, i as int)),
            out@ == spec_unhex_bytes(line@.subrange(start as int, i as int)),
        decreases n - i,
    {
        let ghost p = line@.subrange(start as int, i as int);
        let c1 = line[i];
        let c2 = line[i + 1];
        if !is_hex_digit_exec(c1) {
            proof {
                assert(t[i - start] == c1);
            }
            return None;
        }
        if !is_hex_digit_exec(c2) {
            proof {
                assert(t[i + 1 - start] == c2);
            }
            return None;
        }
        out.push(hex_val_exec(c1) * 16 + hex_val_exec(c2));
        proof {
            let p2 = line@.subrange(start as int, i + 2);
            assert(p2.subrange(0, p2.len() - 2) =~= p);
            assert(p2[p2.len() - 2] == c1 && p2[p2.len() - 1] == c2);
            assert forall|j: int| 0 <= j < p2.len() implies is_hex_digit(#[trigger] p2[j]) by {
                if j < p.len() {
                    assert(p2[j] == p[j]);
                }
            }
        }
        i = i + 2;
    }
    proof {
        assert(line@.subrange(start as int, i as int) =~= t);
    }
    Some(out)
}

/// The tag byte that opens a new-block event line.
pub const TAG_BLOCK: u8 = 0x42;

/// The tag byte that opens a new-transaction event line.
pub const TAG_TX: u8 = 0x54;

/// The tag byte that opens a rune-transfer event line.
pub const TAG_RUNE: u8 = 0x52;

/// The tag byte that opens an inscription-reveal event line.
pub const TAG_INSCRIPTION: u8 = 0x49;

/// The tag byte that opens a subscription-request line.
pub const TAG_REQUEST: u8 = 0x53;

/// Why a line failed to decode: either its structure is wrong, or it is a
/// well-shaped line whose kind tag this subsystem does not recognize.
#[derive(Clone, Copy, Debug, PartialEq, Eq, Structural)]
pub enum DecodeError {
    Malformed,
    UnknownKind,
}

/// Returns whether a byte is an uppercase ASCII letter: the shape of every
/// event kind tag, known or not.
pub open spec fn is_tag_shaped(c: u8) -> bool {
    0x41 <= c && c <= 0x5a
}

/// The one-line encoding of an event value.
pub open spec fn spec_encode_event(ev: EventV) -> Seq<u8> {
    match ev {
        EventV::NewBlock { height, hash } => seq![TAG_BLOCK] + spec_hex16(height)
            + spec_hex_bytes(hash),
        EventV::NewTransaction { txid } => seq![TAG_TX] + spec_hex_bytes(txid),
        EventV::RuneTransfer { amount, txid } => seq![TAG_RUNE] + spec_hex16(amount)
            + spec_hex_bytes(txid),
        EventV::InscriptionRevealed { index, txid } => seq![TAG_INSCRIPTION] + spec_hex16(index)
            + spec_hex_bytes(txid),
    }
}

/// What a line decodes to: the event value it denotes, or the reason it is
/// not a valid event line.
pub open spec fn spec_decode_event(line: Seq<u8>) -> Result<EventV, DecodeError> {
    if line.len() == 0 {
        Err(DecodeError::Malformed)
    } else if line[0] == TAG_BLOCK {
        if line.len() >= 17 && all_hex(line.subrange(1, 17)) && valid_hex_str(
            line.subrange(17, line.len() as int),
        ) {
            Ok(
                EventV::NewBlock {
                    height: spec_unhex(line.subrange(1, 17)) as u64,
                    hash: spec_unhex_bytes(line.subrange(17, line.len() as int)),
                },
            )
        } else {
            Err(DecodeError::Malformed)
        }
    } else if line[0] == TAG_TX {
        if valid_hex_str(line.subrange(1, line.len() as int)) {
            Ok(EventV::NewTransaction { txid: spec_unhex_bytes(line.subrange(1, line.len() as int)) })
        } else {
            Err(DecodeError::Malformed)
        }
    } else if line[0] == TAG_RUNE {
        if line.len() >= 17 && all_hex(line.subrange(1, 17)) && valid_hex_str(
            line.subrange(17, line.len() as int),
        ) {
            Ok(
                EventV::RuneTransfer {
                    amount: spec_unhex(line.subrange(1, 17)) as u64,
                    txid: spec_unhex_bytes(line.subrange(17, line.len() as int)),
                },
            )
        } else {
            Err(DecodeError::Malformed)
        }
    } else if line[0] == TAG_INSCRIPTION {
        if line.len() >= 17 && all_hex(line.subrange(1, 17)) && valid_hex_str(
            line.subrange(17, line.len() as int),
        ) {
            Ok(
                EventV::InscriptionRevealed {
                    index: spec_unhex(line.subrange(1, 17)) as u64,
                    txid: spec_unhex_bytes(line.subrange(17, line.len() as int)),
                },
            )
        } else {
            Err(DecodeError::Malformed)
        }
    } else if is_tag_shaped(line[0]) {
        Err(DecodeError::UnknownKind)
    } else {
        Err(DecodeError::Malformed)
    }
}

/// Encodes an event as one line of text, without the terminator.
pub fn encode_event(e: &Event) -> (r: Vec<u8>)
    ensures
        r@ == spec_encode_event(e@),
{
    match e {
        Event::NewBlock { height, hash } => {
            let mut r: Vec<u8> = Vec::new();
            r.push(TAG_BLOCK);
            let mut num = hex16(*height);
            r.append(&mut num);
            let mut hs = hex_bytes(hash);
            r.append(&mut hs);
            proof {
                assert(r@ =~= seq![TAG_BLOCK] + spec_hex16(*height) + spec_hex_bytes(hash@));
            }
            r
        }
        Event::NewTransaction { txid } => {
            let mut r: Vec<u8> = Vec::new();
            r.push(TAG_TX);
            let mut hs = hex_bytes(txid);
            r.append(&mut hs);
            proof {
                assert(r@ =~= seq![TAG_TX] + spec_hex_bytes(txid@));
            }
            r
        }
        Event::RuneTransfer { amount, txid } => {
            let mut r: Vec<u8> = Vec::new();
            r.push(TAG_RUNE);
            let mut num = hex16(*amount);
            r.append(&mut num);
            let mut hs = hex_bytes(txid);
            r.append(&mut hs);
            proof {
                assert(r@ =~= seq![TAG_RUNE] + spec_hex16(*amount) + spec_hex_bytes(txid@));
            }
            r
        }
        Event::InscriptionRevealed { index, txid } => {
            let mut r: Vec<u8> = Vec::new();
            r.push(TAG_INSCRIPTION);
            let mut num = hex16(*index);
            r.append(&mut num);
            let mut hs = hex_bytes(txid);
            r.append(&mut hs);
            proof {
                assert(r@ =~= seq![TAG_INSCRIPTION] + spec_hex16(*index) + spec_hex_bytes(txid@));
            }
            r
        }
    }
}

/// The value of a decode result, for stating that executable decoding agrees
/// with the specification.
pub open spec fn decode_result_view(r: Result<Event, DecodeError>) -> Result<EventV, DecodeError> {
    match r {
        Ok(e) => Ok(e@),
        Err(x) => Err(x),
    }
}

/// Decodes one line into an event, or says why the line is not one.
pub fn decode_event(line: &Vec<u8>) -> (r: Result<Event, DecodeError>)
    ensures
        decode_result_view(r) == spec_decode_event(line@),
{
    if line.len() == 0 {
        return Err(DecodeError::Malformed);
    }
    let tag = line[0];
    if tag == TAG_BLOCK || tag == TAG_RUNE || tag == TAG_INSCRIPTION {
        if line.len() < 17 {
            return Err(DecodeError::Malformed);
        }
        match parse_hex16(line, 1) {
            Some(v) => match parse_hex_bytes(line, 17) {
                Some(bytes) => {
                    if tag == TAG_BLOCK {
                        Ok(Event::NewBlock { height: v, hash: bytes })
                    } else if tag == TAG_RUNE {
                        Ok(Event::RuneTransfer { amount: v, txid: bytes })
                    } else {
                        Ok(Event::InscriptionRevealed { index: v, txid: bytes })
                    }
                },
                None => Err(DecodeError::Malformed),
            },
            None => Err(DecodeError::Malformed),
        }
    } else if tag == TAG_TX {
        match parse_hex_bytes(line, 1) {
            Some(bytes) => Ok(Event::NewTransaction { txid: bytes }),
            None => Err(DecodeError::Malformed),
        }
    } else if 0x41 <= tag && tag <= 0x5a {
        Err(DecodeError::UnknownKind)
    } else {
        Err(DecodeError::Malformed)
    }
}

/// Every event decodes from its own encoding: the round-trip law of the
/// event schema.
pub proof fn lemma_event_round_trip(ev: EventV)
    ensures
        spec_decode_event(spec_encode_event(ev)) == Ok::<EventV, DecodeError>(ev),
{
    lemma_pow16_64();
    match ev {
        EventV::NewBlock { height, hash } => {
            lemma_hex_w_props(height as nat, 16);
            lemma_hex_bytes_props(hash);
            let enc = spec_encode_event(ev);
            assert(enc[0] == TAG_BLOCK);
            assert(enc.subrange(1, 17) =~= spec_hex16(height));
            assert(enc.subrange(17, enc.len() as int) =~= spec_hex_bytes(hash));
        }
        EventV::NewTransaction { txid } => {
            lemma_hex_bytes_props(txid);
            let enc = spec_encode_event(ev);
            assert(enc[0] == TAG_TX);
            assert(enc.subrange(1, enc.len() as int) =~= spec_hex_bytes(txid));
        }
        EventV::RuneTransfer { amount, txid } => {
            lemma_hex_w_props(amount as nat, 16);
            lemma_hex_bytes_props(txid);
            let enc = spec_encode_event(ev);
            assert(enc[0] == TAG_RUNE);
            assert(enc.subrange(1, 17) =~= spec_hex16(amount));
            assert(enc.subrange(17, enc.len() as int) =~= spec_hex_bytes(txid));
        }
        EventV::InscriptionRevealed { index, txid } => {
            lemma_hex_w_props(index as nat, 16);
            lemma_hex_bytes_props(txid);
            let enc = spec_encode_event(ev);
            assert(enc[0] == TAG_INSCRIPTION);
            assert(enc.subrange(1, 17) =~= spec_hex16(index));
            assert(enc.subrange(17, enc.len() as int) =~= spec_hex_bytes(txid));
        }
    }
}

/// An encoded event is one non-empty line: it holds no line terminator, and
/// neither its first nor its last byte is whitespace.
pub proof fn lemma_encode_event_line_shape(ev: EventV)
    ensures
        spec_encode_event(ev).len() > 0,
        single_line(spec_encode_event(ev)),
        !is_space(spec_encode_event(ev).first()),
        !is_space(spec_encode_event(ev).last()),
{
    lemma_pow16_64();
    let enc = spec_encode_event(ev);
    match ev {
        EventV::NewBlock { height, hash } => {
            lemma_hex_w_props(height as nat, 16);
            lemma_hex_bytes_props(hash);
            lemma_all_hex_concat(spec_hex16(height), spec_hex_bytes(hash));
            lemma_tagged_line_shape(TAG_BLOCK, spec_hex16(height) + spec_hex_bytes(hash));
            assert(enc =~= seq![TAG_BLOCK] + (spec_hex16(height) + spec_hex_bytes(hash)));
        }
        EventV::NewTransaction { txid } => {
            lemma_hex_bytes_props(txid);
            lemma_tagged_line_shape(TAG_TX, spec_hex_bytes(txid));
            assert(enc =~= seq![TAG_TX] + spec_hex_bytes(txid));
        }
        EventV::RuneTransfer { amount, txid } => {
            lemma_hex_w_props(amount as nat, 16);
            lemma_hex_bytes_props(txid);
            lemma_all_hex_concat(spec_hex16(amount), spec_hex_bytes(txid));
            lemma_tagged_line_shape(TAG_RUNE, spec_hex16(amount) + spec_hex_bytes(txid));
            assert(enc =~= seq![TAG_RUNE] + (spec_hex16(amount) + spec_hex_bytes(txid)));
        }
        EventV::InscriptionRevealed { index, txid } => {
            lemma_hex_w_props(index as nat, 16);
            lemma_hex_bytes_props(txid);
            lemma_all_hex_concat(spec_hex16(index), spec_hex_bytes(txid));
            lemma_tagged_line_shape(TAG_INSCRIPTION, spec_hex16(index) + spec_hex_bytes(txid));
            assert(enc =~= seq![TAG_INSCRIPTION] + (spec_hex16(index) + spec_hex_bytes(txid)));
        }
    }
}

/// A tag byte followed by hexadecimal digits is one non-empty line with
/// non-whitespace ends.
proof fn lemma_tagged_line_shape(tag: u8, body: Seq<u8>)
    requires
        0x41 <= tag && tag <= 0x5a,
        all_hex(body),
    ensures
        (seq![tag] + body).len() > 0,
        single_line(seq![tag] + body),
        !is_space((seq![tag] + body).first()),
        !is_space((seq![tag] + body).last()),
{
    let s = seq![tag] + body;
    assert(s[0] == tag);
    assert forall|i: int| 0 <= i < s.len() implies #[trigger] s[i] != NL by {
        if i >= 1 {
            assert(s[i] == body[i - 1]);
        }
    }
    if body.len() > 0 {
        assert(s.last() == body.last());
    }
}

/// The byte that stands for an event kind in a subscription request.
pub open spec fn kind_byte(k: EventKind) -> u8 {
    match k {
        EventKind::NewBlock => 0x62,
        EventKind::NewTransaction => 0x74,
        EventKind::RuneTransfer => 0x72,
        EventKind::InscriptionRevealed => 0x69,
    }
}

/// Returns whether a byte stands for some event kind.
pub open spec fn is_kind_byte(c: u8) -> bool {
    c == 0x62 || c == 0x74 || c == 0x72 || c == 0x69
}

/// The event kind a request byte stands for.
pub open spec fn byte_kind(c: u8) -> EventKind
    recommends
        is_kind_byte(c),
{
    if c == 0x62 {
        EventKind::NewBlock
    } else if c == 0x74 {
        EventKind::NewTransaction
    } else if c == 0x72 {
        EventKind::RuneTransfer
    } else {
        EventKind::InscriptionRevealed
    }
}

/// The bytes that stand for a list of event kinds, in order.
pub open spec fn spec_kind_bytes(kinds: Seq<EventKind>) -> Seq<u8>
    decreases kinds.len(),
{
    if kinds.len() == 0 {
        Seq::empty()
    } else {
        spec_kind_bytes(kinds.drop_last()).push(kind_byte(kinds.last()))
    }
}

/// The kinds a string of request bytes stands for, in order.
pub open spec fn spec_kinds_of_bytes(s: Seq<u8>) -> Seq<EventKind>
    decreases s.len(),
{
    if s.len() == 0 {
        Seq::empty()
    } else {
        spec_kinds_of_bytes(s.drop_last()).push(byte_kind(s.last()))
    }
}

/// The one-line encoding of a subscription request.
pub open spec fn spec_encode_request(kinds: Seq<EventKind>) -> Seq<u8> {
    seq![TAG_REQUEST] + spec_kind_bytes(kinds)
}

/// What a line decodes to as a subscription request.
pub open spec fn spec_decode_request(line: Seq<u8>) -> Result<Seq<EventKind>, DecodeError> {
    if line.len() >= 1 && line[0] == TAG_REQUEST && (forall|i: int|
        1 <= i < line.len() ==> is_kind_byte(#[trigger] line[i])) {
        Ok(spec_kinds_of_bytes(line.subrange(1, line.len() as int)))
    } else {
        Err(DecodeError::Malformed)
    }
}

/// Encodes a subscription request as one line of text, without the
/// terminator.
pub fn encode_request(req: &SubscriptionRequest) -> (r: Vec<u8>)
    ensures
        r@ == spec_encode_request(req@),
{
    let mut r: Vec<u8> = Vec::new();
    r.push(TAG_REQUEST);
    let mut i: usize = 0;
    while i < req.kinds.len()
        invariant
            0 <= i <= req.kinds@.len(),
            r@ == seq![TAG_REQUEST] + spec_kind_bytes(req.kinds@.subrange(0, i as int)),
        decreases req.kinds@.len() - i,
    {
        let ghost p = req.kinds@.subrange(0, i as int);
        let b: u8 = match req.kinds[i] {
            EventKind::NewBlock => 0x62,
            EventKind::NewTransaction => 0x74,
            EventKind::RuneTransfer => 0x72,
            EventKind::InscriptionRevealed => 0x69,
        };
        r.push(b);
        proof {
            let p2 = req.kinds@.subrange(0, i + 1);
            assert(p2.drop_last() =~= p);
            assert(p2.last() == req.kinds@[i as int]);
            assert(r@ =~= seq![TAG_REQUEST] + spec_kind_bytes(p2));
        }
        i = i + 1;
    }
    proof {
        assert(req.kinds@.subrange(0, req.kinds@.len() as int) =~= req.kinds@);
    }
    r
}

/// The value of a request decode result.
pub open spec fn request_result_view(r: Result<SubscriptionRequest, DecodeError>) -> Result<
    Seq<EventKind>,
    DecodeError,
> {
    match r {
        Ok(req) => Ok(req@),
        Err(x) => Err(x),
    }
}

/// Decodes one line into a subscription request.
pub fn decode_request(line: &Vec<u8>) -> (r: Result<SubscriptionRequest, DecodeError>)
    ensures
        request_result_view(r) == spec_decode_request(line@),
{
    if line.len() == 0 {
        return Err(DecodeError::Malformed);
    }
    if line[0] != TAG_REQUEST {
        return Err(DecodeError::Malformed);
    }
    let ghost t = line@.subrange(1, line@.len() as int);
    let n = line.len();
    let mut kinds: Vec<EventKind> = Vec::new();
    let mut i: usize = 1;
    while i < n
        invariant
            1 <= i <= n,
            n == line@.len(),
            t == line@.subrange(1, line@.len() as int),
            forall|j: int| 1 <= j < i ==> is_kind_byte(#[trigger] line@[j]),
            kinds@ == spec_kinds_of_bytes(line@.subrange(1, i as int)),
        decreases n - i,
    {
        let ghost p = line@.subrange(1, i as int);
        let c = line[i];
        let k: EventKind = if c == 0x62 {
            EventKind::NewBlock
        } else if c == 0x74 {
            EventKind::NewTransaction
        } else if c == 0x72 {
            EventKind::RuneTransfer
        } else if c == 0x69 {
            EventKind::InscriptionRevealed
        } else {
            return Err(DecodeError::Malformed);
        };
        kinds.push(k);
        proof {
            let p2 = line@.subrange(1, i + 1);
            assert(p2.drop_last() =~= p);
            assert(p2.last() == c);
        }
        i = i + 1;
    }
    proof {
        assert(line@.subrange(1, i as int) =~= t);
    }
    Ok(SubscriptionRequest { kinds })
}

/// Every subscription request decodes from its own encoding: the round-trip
/// law of the request schema.
pub proof fn lemma_request_round_trip(kinds: Seq<EventKind>)
    ensures
        spec_decode_request(spec_encode_request(kinds)) == Ok::<Seq<EventKind>, DecodeError>(kinds),
{
    let enc = spec_encode_request(kinds);
    lemma_kind_bytes_props(kinds);
    assert(enc[0] == TAG_REQUEST);
    assert forall|i: int| 1 <= i < enc.len() implies is_kind_byte(#[trigger] enc[i]) by {
        assert(enc[i] == spec_kind_bytes(kinds)[i - 1]);
    }
    assert(enc.subrange(1, enc.len() as int) =~= spec_kind_bytes(kinds));
}

/// The request-byte rendering of a kind list is injective and holds only
/// request bytes.
pub proof fn lemma_kind_bytes_props(kinds: Seq<EventKind>)
    ensures
        spec_kind_bytes(kinds).len() == kinds.len(),
        forall|i: int|
            0 <= i < kinds.len() ==> is_kind_byte(#[trigger] spec_kind_bytes(kinds)[i]),
        spec_kinds_of_bytes(spec_kind_bytes(kinds)) == kinds,
    decreases kinds.len(),
{
    if kinds.len() == 0 {
        assert(spec_kinds_of_bytes(spec_kind_bytes(kinds)) =~= kinds);
    } else {
        lemma_kind_bytes_props(kinds.drop_last());
        let bs = spec_kind_bytes(kinds);
        let bb = spec_kind_bytes(kinds.drop_last());
        assert(bs == bb.push(kind_byte(kinds.last())));
        assert forall|i: int| 0 <= i < kinds.len() implies is_kind_byte(#[trigger] bs[i]) by {
            if i < kinds.len() - 1 {
                assert(bs[i] == bb[i]);
            }
        }
        assert(bs.drop_last() =~= bb);
        assert(spec_kinds_of_bytes(bs) == kinds.drop_last().push(byte_kind(kind_byte(kinds.last()))));
        assert(kinds.drop_last().push(kinds.last()) =~= kinds);
    }
}

/// An encoded subscription request is one non-empty line with
/// non-whitespace ends.
pub proof fn lemma_encode_request_line_shape(kinds: Seq<EventKind>)
    ensures
        spec_encode_request(kinds).len() > 0,
        single_line(spec_encode_request(kinds)),
        !is_space(spec_encode_request(kinds).first()),
        !is_space(spec_encode_request(kinds).last()),
{
    let enc = spec_encode_request(kinds);
    lemma_kind_bytes_props(kinds);
    assert(enc[0] == TAG_REQUEST);
    assert forall|i: int| 0 <= i < enc.len() implies #[trigger] enc[i] != NL by {
        if i >= 1 {
            assert(enc[i] == spec_kind_bytes(kinds)[i - 1]);
        }
    }
    if kinds.len() > 0 {
        assert(enc.last() == spec_kind_bytes(kinds)[enc.len() - 2]);
    }
}

/// Frames an event for the wire: its one-line encoding followed by the
/// line terminator.
pub fn frame_event(e: &Event) -> (r: Vec<u8>)
    ensures
        r@ == spec_encode_event(e@) + seq![NL],
{
    let mut r = encode_event(e);
    r.push(NL);
    proof {
        assert(r@ =~= spec_encode_event(e@) + seq![NL]);
    }
    r
}

/// Frames a subscription request for the handshake: its one-line encoding
/// followed by the line terminator.
pub fn frame_request(req: &SubscriptionRequest) -> (r: Vec<u8>)
    ensures
        r@ == spec_encode_request(req@) + seq![NL],
{
    let mut r = encode_request(req);
    r.push(NL);
    proof {
        assert(r@ =~= spec_encode_request(req@) + seq![NL]);
    }
    r
}

/// Concatenating two all-hexadecimal strings yields one.
proof fn lemma_all_hex_concat(a: Seq<u8>, b: Seq<u8>)
    requires
        all_hex(a),
        all_hex(b),
    ensures
        all_hex(a + b),
{
    assert forall|i: int| 0 <= i < (a + b).len() implies is_hex_digit(#[trigger] (a + b)[i]) by {
        if i < a.len() {
            assert((a + b)[i] == a[i]);
        } else {
            assert((a + b)[i] == b[i - a.len()]);
        }
    }
}

} // verus!
