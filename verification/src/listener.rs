//! Decision logic of the event delivery listener.
//!
//! The listener's read loop is a polling cooperative-cancellation state
//! machine. Each iteration observes the cancellation signal and one read
//! outcome, and decides what to do next; the surrounding process performs
//! the reads, the sleeps, and the channel sends, and feeds the results back
//! in. Everything the loop decides is specified and verified here.

use vstd::prelude::*;
use crate::codec::{decode_event, is_space, spec_decode_event, spec_encode_event, DecodeError};
use crate::codec::{lemma_encode_event_line_shape, lemma_event_round_trip};
use crate::schema::{Event, EventV};

verus! {

/// What one read attempt on the delivery connection produced.
pub enum ReadOutcome {
    /// The peer closed the connection: a read of zero bytes.
    Eof,
    /// One line was read, terminator included if the stream had one.
    Line(Vec<u8>),
    /// No data is available right now on the non-blocking stream.
    WouldBlock,
    /// Any other transport failure.
    Failed,
}

/// Why the read loop terminated.
#[derive(Clone, Copy, Debug, PartialEq, Eq, Structural)]
pub enum StopReason {
    /// The cancellation signal was observed asserted.
    Cancelled,
    /// The peer closed the connection: a normal, expected ending.
    Disconnected,
    /// A fatal transport error was reported by a read.
    TransportFailed,
    /// The consumer of the delivery channel is gone.
    ConsumerGone,
}

/// What one loop iteration does with its read outcome.
#[derive(Debug, PartialEq, Eq)]
pub enum StepAction {
    /// Push this event onto the delivery channel.
    Deliver(Event),
    /// The line was blank protocol padding: read on.
    SkipBlank,
    /// The line did not decode: emit a diagnostic and read on.
    ReportMalformed(DecodeError),
    /// No data yet: sleep one poll interval, then re-check cancellation.
    Backoff,
    /// Terminate the loop for the given reason.
    Stop(StopReason),
}

/// Whether the loop goes on after an attempted delivery.
#[derive(Clone, Copy, Debug, PartialEq, Eq, Structural)]
pub enum LoopControl {
    Proceed,
    Halt(StopReason),
}

/// The string with leading whitespace removed.
pub open spec fn spec_trim_start(s: Seq<u8>) -> Seq<u8>
    decreases s.len(),
{
    if s.len() > 0 && is_space(s.first()) {
        spec_trim_start(s.drop_first())
    } else {
        s
    }
}

/// The string with trailing whitespace removed.
pub open spec fn spec_trim_end(s: Seq<u8>) -> Seq<u8>
    decreases s.len(),
{
    if s.len() > 0 && is_space(s.last()) {
        spec_trim_end(s.drop_last())
    } else {
        s
    }
}

/// The string with whitespace removed from both ends.
pub open spec fn spec_trim(s: Seq<u8>) -> Seq<u8> {
    spec_trim_end(spec_trim_start(s))
}

/// A string with non-whitespace ends is its own trim.
pub proof fn lemma_trim_untrimmed(s: Seq<u8>)
    requires
        s.len() > 0,
        !is_space(s.first()),
        !is_space(s.last()),
    ensures
        spec_trim(s) == s,
{
}

fn is_space_exec(c: u8) -> (r: bool)
    ensures
        r == is_space(c),
{
    c == 0x20 || c == 0x09 || c == 0x0d || c == 0x0a
}

/// Removes whitespace from both ends of a line; a read line carries its
/// terminator, and padding lines may hold nothing else.
pub fn trim_line(line: &Vec<u8>) -> (r: Vec<u8>)
    ensures
        r@ == spec_trim(line@),
{
    let n = line.len();
    proof {
        assert(line@.subrange(0, n as int) =~= line@);
    }
    let mut a: usize = 0;
    while a < n && is_space_exec(line[a])
        invariant
            0 <= a <= n,
            n == line@.len(),
            spec_trim_start(line@) == spec_trim_start(line@.subrange(a as int, n as int)),
        decreases n - a,
    {
        proof {
            let s = line@.subrange(a as int, n as int);
            assert(s.first() == line@[a as int]);
            assert(s.drop_first() =~= line@.subrange(a + 1, n as int));
        }
        a = a + 1;
    }
    proof {
        let s = line@.subrange(a as int, n as int);
        if s.len() > 0 {
            assert(s.first() == line@[a as int]);
        }
        assert(spec_trim_start(line@) == s);
    }
    let mut b: usize = n;
    while b > a && is_space_exec(line[b - 1])
        invariant
            a <= b <= n,
            n == line@.len(),
            spec_trim_start(line@) == line@.subrange(a as int, n as int),
            spec_trim_end(line@.subrange(a as int, n as int)) == spec_trim_end(
                line@.subrange(a as int, b as int),
            ),
        decreases b,
    {
        proof {
            let s = line@.subrange(a as int, b as int);
            assert(s.last() == line@[b - 1]);
            assert(s.drop_last() =~= line@.subrange(a as int, b - 1));
        }
        b = b - 1;
    }
    proof {
        let s = line@.subrange(a as int, b as int);
        if s.len() > 0 {
            assert(s.last() == line@[b - 1]);
        }
        assert(spec_trim(line@) == s);
    }
    let mut r: Vec<u8> = Vec::new();
    let mut i: usize = a;
    while i < b
        invariant
            a <= i <= b <= n,
            n == line@.len(),
            r@ == line@.subrange(a as int, i as int),
        decreases b - i,
    {
        r.push(line[i]);
        proof {
            assert(r@ =~= line@.subrange(a as int, i + 1));
        }
        i = i + 1;
    }
    proof {
        assert(r@ == line@.subrange(a as int, b as int));
    }
    r
}

/// Decides one iteration of the read loop.
///
/// The cancellation signal is checked first, so an asserted signal stops the
/// loop at the very next iteration boundary. The peer closing the connection
/// stops the loop as a normal ending; "no data yet" backs off for one poll
/// interval; any other transport failure stops the loop. A read line is
/// trimmed; blank padding is skipped, a line that does not decode is
/// reported and the loop goes on, and a decoded event is handed to the
/// delivery channel.
pub fn listener_step(cancelled: bool, outcome: &ReadOutcome) -> (a: StepAction)
    ensures
        cancelled ==> a == StepAction::Stop(StopReason::Cancelled),
        !cancelled ==> match *outcome {
            ReadOutcome::Eof => a == StepAction::Stop(StopReason::Disconnected),
            ReadOutcome::WouldBlock => a == StepAction::Backoff,
            ReadOutcome::Failed => a == StepAction::Stop(StopReason::TransportFailed),
            ReadOutcome::Line(l) => ({
                let t = spec_trim(l@);
                if t.len() == 0 {
                    a == StepAction::SkipBlank
                } else {
                    match spec_decode_event(t) {
                        Ok(ev) => a matches StepAction::Deliver(e) && e@ == ev,
                        Err(er) => a == StepAction::ReportMalformed(er),
                    }
                }
            }),
        },
{
    if cancelled {
        return StepAction::Stop(StopReason::Cancelled);
    }
    match outcome {
        ReadOutcome::Eof => StepAction::Stop(StopReason::Disconnected),
        ReadOutcome::WouldBlock => StepAction::Backoff,
        ReadOutcome::Failed => StepAction::Stop(StopReason::TransportFailed),
        ReadOutcome::Line(l) => {
            let t = trim_line(l);
            if t.len() == 0 {
                StepAction::SkipBlank
            } else {
                match decode_event(&t) {
                    Ok(e) => StepAction::Deliver(e),
                    Err(er) => StepAction::ReportMalformed(er),
                }
            }
        },
    }
}

/// Decides whether the loop goes on after an attempted delivery: a consumer
/// that is gone terminates the loop rather than letting it block forever.
pub fn after_delivery(accepted: bool) -> (c: LoopControl)
    ensures
        accepted ==> c == LoopControl::Proceed,
        !accepted ==> c == LoopControl::Halt(StopReason::ConsumerGone),
{
    if accepted {
        LoopControl::Proceed
    } else {
        LoopControl::Halt(StopReason::ConsumerGone)
    }
}

/// The event one line of the stream contributes, if any: blank padding and
/// lines that do not decode contribute none.
pub open spec fn spec_line_event(l: Seq<u8>) -> Option<EventV> {
    let t = spec_trim(l);
    if t.len() == 0 {
        None
    } else {
        match spec_decode_event(t) {
            Ok(ev) => Some(ev),
            Err(_) => None,
        }
    }
}

/// The events a whole stream of lines delivers, in stream order.
pub open spec fn spec_delivered(lines: Seq<Seq<u8>>) -> Seq<EventV>
    decreases lines.len(),
{
    if lines.len() == 0 {
        Seq::empty()
    } else {
        let rest = spec_delivered(lines.drop_last());
        match spec_line_event(lines.last()) {
            Some(ev) => rest.push(ev),
            None => rest,
        }
    }
}

/// Decodes a finite stream of lines into the events it delivers, in order:
/// exactly what the read loop would push onto the delivery channel for that
/// stream, with blank lines skipped and undecodable lines reported and
/// passed over.
pub fn decode_stream(lines: &Vec<Vec<u8>>) -> (events: Vec<Event>)
    ensures
        events@.map_values(|e: Event| e@) == spec_delivered(
            lines@.map_values(|l: Vec<u8>| l@),
        ),
{
    let mut events: Vec<Event> = Vec::new();
    let mut i: usize = 0;
    while i < lines.len()
        invariant
            0 <= i <= lines@.len(),
            events@.map_values(|e: Event| e@) == spec_delivered(
                lines@.subrange(0, i as int).map_values(|l: Vec<u8>| l@),
            ),
        decreases lines@.len() - i,
    {
        let ghost pl = lines@.subrange(0, i as int).map_values(|l: Vec<u8>| l@);
        let ghost pl2 = lines@.subrange(0, i + 1).map_values(|l: Vec<u8>| l@);
        proof {
            assert(pl2.drop_last() =~= pl);
            assert(pl2.last() == lines@[i as int]@);
        }
        let t = trim_line(&lines[i]);
        if t.len() > 0 {
            match decode_event(&t) {
                Ok(e) => {
                    let ghost before = events@;
                    events.push(e);
                    proof {
                        assert(events@.map_values(|e: Event| e@) =~= before.map_values(
                            |e: Event| e@,
                        ).push(e@));
                    }
                },
                Err(_) => {},
            }
        }
        i = i + 1;
    }
    proof {
        assert(lines@.subrange(0, lines@.len() as int) =~= lines@);
    }
    events
}

/// What one whole run of the read loop produces: the events delivered, in
/// order, and why the loop stopped — or nothing, when the observation
/// window ended with the loop still live.
pub struct RunResult {
    pub delivered: Seq<EventV>,
    pub stop: Option<StopReason>,
}

/// The result of running the read loop from iteration `i` of a finite
/// script of observations: at each iteration the loop observes the
/// cancellation flag, one read outcome, and whether the delivery channel
/// would accept a send.
pub open spec fn spec_run(
    flags: Seq<bool>,
    outcomes: Seq<ReadOutcome>,
    accepts: Seq<bool>,
    i: int,
) -> RunResult
    recommends
        flags.len() == outcomes.len(),
        flags.len() == accepts.len(),
        0 <= i <= flags.len(),
    decreases flags.len() - i,
{
    if i < 0 || i >= flags.len() {
        RunResult { delivered: Seq::empty(), stop: None }
    } else if flags[i] {
        RunResult { delivered: Seq::empty(), stop: Some(StopReason::Cancelled) }
    } else {
        match outcomes[i] {
            ReadOutcome::Eof => RunResult {
                delivered: Seq::empty(),
                stop: Some(StopReason::Disconnected),
            },
            ReadOutcome::WouldBlock => spec_run(flags, outcomes, accepts, i + 1),
            ReadOutcome::Failed => RunResult {
                delivered: Seq::empty(),
                stop: Some(StopReason::TransportFailed),
            },
            ReadOutcome::Line(l) => {
                let t = spec_trim(l@);
                if t.len() == 0 {
                    spec_run(flags, outcomes, accepts, i + 1)
                } else {
                    match spec_decode_event(t) {
                        Err(_) => spec_run(flags, outcomes, accepts, i + 1),
                        Ok(ev) => {
                            if accepts[i] {
                                let rest = spec_run(flags, outcomes, accepts, i + 1);
                                RunResult {
                                    delivered: seq![ev] + rest.delivered,
                                    stop: rest.stop,
                                }
                            } else {
                                RunResult {
                                    delivered: Seq::empty(),
                                    stop: Some(StopReason::ConsumerGone),
                                }
                            }
                        },
                    }
                }
            },
        }
    }
}

/// Runs the read loop over a finite script of observations, one iteration
/// per script entry, and returns the delivered events in order together
/// with the reason the loop stopped, if it did.
///
/// This ties the per-iteration decisions together at run level: an asserted
/// cancellation flag stops the run at that very iteration with nothing
/// further delivered; the peer closing the connection stops it with no
/// error; a refused delivery stops it; blank, undecodable and not-ready
/// iterations deliver nothing and keep it going.
pub fn run_listener(
    flags: &Vec<bool>,
    outcomes: &Vec<ReadOutcome>,
    accepts: &Vec<bool>,
) -> (r: (Vec<Event>, Option<StopReason>))
    requires
        flags@.len() == outcomes@.len(),
        flags@.len() == accepts@.len(),
    ensures
        r.0@.map_values(|e: Event| e@) == spec_run(flags@, outcomes@, accepts@, 0).delivered,
        r.1 == spec_run(flags@, outcomes@, accepts@, 0).stop,
{
    let ghost whole = spec_run(flags@, outcomes@, accepts@, 0);
    let n = flags.len();
    let mut events: Vec<Event> = Vec::new();
    let mut i: usize = 0;
    while i < n
        invariant
            0 <= i <= n,
            n == flags@.len(),
            n == outcomes@.len(),
            n == accepts@.len(),
            whole == spec_run(flags@, outcomes@, accepts@, 0),
            whole.delivered == events@.map_values(|e: Event| e@) + spec_run(
                flags@,
                outcomes@,
                accepts@,
                i as int,
            ).delivered,
            whole.stop == spec_run(flags@, outcomes@, accepts@, i as int).stop,
        decreases n - i,
    {
        let ghost here = spec_run(flags@, outcomes@, accepts@, i as int);
        let ghost next = spec_run(flags@, outcomes@, accepts@, i + 1);
        let cancelled = flags[i];
        let action = listener_step(cancelled, &outcomes[i]);
        match action {
            StepAction::Deliver(event) => {
                if accepts[i] {
                    let ghost before = events@;
                    events.push(event);
                    proof {
                        assert(here.delivered == seq![event@] + next.delivered);
                        assert(events@.map_values(|e: Event| e@) =~= before.map_values(
                            |e: Event| e@,
                        ).push(event@));
                        assert(before.map_values(|e: Event| e@).push(event@) + next.delivered
                            =~= before.map_values(|e: Event| e@) + here.delivered);
                    }
                } else {
                    proof {
                        assert(here.stop == Some(StopReason::ConsumerGone));
                        assert(here.delivered =~= Seq::<EventV>::empty());
                        assert(events@.map_values(|e: Event| e@) + here.delivered
                            =~= events@.map_values(|e: Event| e@));
                    }
                    return (events, Some(StopReason::ConsumerGone));
                }
            },
            StepAction::SkipBlank => {
                proof {
                    assert(here == next);
                }
            },
            StepAction::ReportMalformed(_) => {
                proof {
                    assert(here == next);
                }
            },
            StepAction::Backoff => {
                proof {
                    assert(here == next);
                }
            },
            StepAction::Stop(reason) => {
                proof {
                    assert(here.stop == Some(reason));
                    assert(here.delivered =~= Seq::<EventV>::empty());
                    assert(events@.map_values(|e: Event| e@) + here.delivered =~= events@.map_values(
                        |e: Event| e@,
                    ));
                }
                return (events, Some(reason));
            },
        }
        i = i + 1;
    }
    proof {
        let tail = spec_run(flags@, outcomes@, accepts@, n as int);
        assert(tail.delivered =~= Seq::<EventV>::empty());
        assert(events@.map_values(|e: Event| e@) + tail.delivered =~= events@.map_values(
            |e: Event| e@,
        ));
    }
    (events, None)
}

/// Order preservation: a stream of three well-formed event lines delivers
/// exactly those three events, in stream order.
pub proof fn lemma_order_preservation(e1: EventV, e2: EventV, e3: EventV)
    ensures
        spec_delivered(
            seq![spec_encode_event(e1), spec_encode_event(e2), spec_encode_event(e3)],
        ) == seq![e1, e2, e3],
{
    reveal_with_fuel(spec_delivered, 4);
    lemma_encoded_line_event(e1);
    lemma_encoded_line_event(e2);
    lemma_encoded_line_event(e3);
    let l1 = spec_encode_event(e1);
    let l2 = spec_encode_event(e2);
    let l3 = spec_encode_event(e3);
    let s1 = seq![l1];
    let s2 = seq![l1, l2];
    let s = seq![l1, l2, l3];
    assert(s1.drop_last() =~= Seq::<Seq<u8>>::empty());
    assert(s1.last() == l1);
    assert(spec_delivered(s1) == Seq::<EventV>::empty().push(e1));
    assert(s2.drop_last() =~= s1);
    assert(s2.last() == l2);
    assert(spec_delivered(s2) == spec_delivered(s1).push(e2));
    assert(s.drop_last() =~= s2);
    assert(s.last() == l3);
    assert(spec_delivered(s) == spec_delivered(s2).push(e3));
    assert(Seq::<EventV>::empty().push(e1).push(e2).push(e3) =~= seq![e1, e2, e3]);
}

/// Delivery is complete and order-preserving: a stream made of well-formed
/// event lines, one per event, delivers exactly those events, in stream
/// order — however many there are.
pub proof fn lemma_delivery_complete(events: Seq<EventV>)
    ensures
        spec_delivered(events.map_values(|ev: EventV| spec_encode_event(ev))) == events,
    decreases events.len(),
{
    let lines = events.map_values(|ev: EventV| spec_encode_event(ev));
    if events.len() == 0 {
        assert(lines =~= Seq::<Seq<u8>>::empty());
        assert(spec_delivered(lines) =~= events);
    } else {
        lemma_delivery_complete(events.drop_last());
        lemma_encoded_line_event(events.last());
        assert(lines.drop_last() =~= events.drop_last().map_values(
            |ev: EventV| spec_encode_event(ev),
        ));
        assert(lines.last() == spec_encode_event(events.last()));
        assert(spec_delivered(lines) == spec_delivered(lines.drop_last()).push(events.last()));
        assert(events.drop_last().push(events.last()) =~= events);
    }
}

/// An encoded event line contributes exactly its event.
pub proof fn lemma_encoded_line_event(ev: EventV)
    ensures
        spec_line_event(spec_encode_event(ev)) == Some(ev),
{
    lemma_encode_event_line_shape(ev);
    lemma_trim_untrimmed(spec_encode_event(ev));
    lemma_event_round_trip(ev);
}

/// Malformed-line resilience: one line that does not decode, standing
/// between two well-formed event lines, costs nothing but itself — the
/// stream delivers exactly the two events around it.
pub proof fn lemma_malformed_line_resilience(
    good1: Seq<u8>,
    bad: Seq<u8>,
    good2: Seq<u8>,
    e1: EventV,
    e2: EventV,
)
    requires
        spec_line_event(good1) == Some(e1),
        spec_trim(bad).len() > 0,
        spec_decode_event(spec_trim(bad)) is Err,
        spec_line_event(good2) == Some(e2),
    ensures
        spec_delivered(seq![good1, bad, good2]) == seq![e1, e2],
{
    reveal_with_fuel(spec_delivered, 4);
    let s1 = seq![good1];
    let s2 = seq![good1, bad];
    let s = seq![good1, bad, good2];
    assert(spec_line_event(bad) is None);
    assert(s1.drop_last() =~= Seq::<Seq<u8>>::empty());
    assert(s1.last() == good1);
    assert(spec_delivered(s1) == Seq::<EventV>::empty().push(e1));
    assert(s2.drop_last() =~= s1);
    assert(s2.last() == bad);
    assert(spec_delivered(s2) == spec_delivered(s1));
    assert(s.drop_last() =~= s2);
    assert(s.last() == good2);
    assert(spec_delivered(s) == spec_delivered(s2).push(e2));
    assert(Seq::<EventV>::empty().push(e1).push(e2) =~= seq![e1, e2]);
}

/// Blank-line tolerance: blank padding lines between and before event lines
/// deliver nothing, and the stream yields exactly the events, in order.
pub proof fn lemma_blank_line_tolerance(e1: EventV, e2: EventV)
    ensures
        spec_delivered(
            seq![
                Seq::<u8>::empty(),
                spec_encode_event(e1),
                Seq::<u8>::empty(),
                spec_encode_event(e2),
            ],
        ) == seq![e1, e2],
{
    lemma_encoded_line_event(e1);
    lemma_encoded_line_event(e2);
    reveal_with_fuel(spec_delivered, 5);
    let blank = Seq::<u8>::empty();
    let l1 = spec_encode_event(e1);
    let l2 = spec_encode_event(e2);
    let s1 = seq![blank];
    let s2 = seq![blank, l1];
    let s3 = seq![blank, l1, blank];
    let s = seq![blank, l1, blank, l2];
    assert(spec_line_event(blank) is None);
    assert(s1.drop_last() =~= Seq::<Seq<u8>>::empty());
    assert(s1.last() == blank);
    assert(spec_delivered(s1) == Seq::<EventV>::empty());
    assert(s2.drop_last() =~= s1);
    assert(s2.last() == l1);
    assert(spec_delivered(s2) == Seq::<EventV>::empty().push(e1));
    assert(s3.drop_last() =~= s2);
    assert(s3.last() == blank);
    assert(spec_delivered(s3) == spec_delivered(s2));
    assert(s.drop_last() =~= s3);
    assert(s.last() == l2);
    assert(spec_delivered(s) == spec_delivered(s3).push(e2));
    assert(Seq::<EventV>::empty().push(e1).push(e2) =~= seq![e1, e2]);
}

} // verus!
