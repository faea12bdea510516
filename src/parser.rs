//! The byte-streaming feeder: gathers lines and pairs guarded blocks.
use vstd::prelude::*;
use vstd::slice::{slice_subrange, slice_to_vec};
use vstd::string::StringSliceAdditionalSpecFns;
use vstd::utf8::{decode_utf8, valid_utf8};

use crate::event::{events_view, Event, EventV, Guarded, GuardedV};
use crate::line::{
    guard_line, lemma_guard_line, lemma_line_event_not_guarded, line_event, parse_line, Keyword,
    LineError,
};
use crate::unvis::string_from_utf8;

verus! {

/// Ends every line.
pub const LINE_FEED: u8 = 10;

/// Dropped where it stands just before a line feed.
pub const CARRIAGE_RETURN: u8 = 13;

/// A line that could not be handled, with the input that was not consumed.
#[derive(Debug, Clone, PartialEq, Eq)]
pub struct FeedError {
    /// The offending line, without its line ending.
    pub line: Vec<u8>,
    /// The bytes of the caller's buffer from the line feed that ended the line on.
    pub rest: Vec<u8>,
}

/// Mathematical state of a [`Parser`]: the partial line and the open guarded block.
pub struct FeedState {
    pub buffer: Seq<u8>,
    pub begun: Option<GuardedV>,
}

/// The state of a parser that has seen nothing.
pub open spec fn initial_state() -> FeedState {
    FeedState { buffer: Seq::empty(), begun: None }
}

/// A line with one trailing carriage return removed.
pub open spec fn strip_cr(b: Seq<u8>) -> Seq<u8> {
    if b.len() > 0 && b.last() == CARRIAGE_RETURN {
        b.drop_last()
    } else {
        b
    }
}

/// The terminator fields match those of the open block.
pub open spec fn same_guard(g: GuardedV, timestamp: i64, number: u64, flags: i64) -> bool {
    g.timestamp == timestamp && g.number == number && g.flags == flags
}

/// What one complete line does to the open block, and the event it emits;
/// `None` where the line is rejected. A `%begin` always opens a fresh block,
/// dropping any block that was still open.
pub open spec fn line_step(begun: Option<GuardedV>, line: Seq<u8>) -> Option<
    (Option<GuardedV>, Option<EventV>),
> {
    match begun {
        None => match line_event(line) {
            Ok(EventV::Begin { timestamp, number, flags }) => Some(
                (
                    Some(GuardedV { error: false, timestamp, number, flags, output: Seq::empty() }),
                    None,
                ),
            ),
            Ok(EventV::End { .. }) => Some((None, None)),
            Ok(EventV::Error { .. }) => Some((None, None)),
            Ok(e) => Some((None, Some(e))),
            Err(_) => None,
        },
        Some(g) => match line_event(line) {
            Ok(EventV::Begin { timestamp, number, flags }) => Some(
                (
                    Some(GuardedV { error: false, timestamp, number, flags, output: Seq::empty() }),
                    None,
                ),
            ),
            Ok(EventV::End { timestamp, number, flags }) => if same_guard(
                g,
                timestamp,
                number,
                flags,
            ) {
                Some((None, Some(EventV::Guarded(g))))
            } else {
                Some((None, None))
            },
            Ok(EventV::Error { timestamp, number, flags }) => if same_guard(
                g,
                timestamp,
                number,
                flags,
            ) {
                Some((None, Some(EventV::Guarded(GuardedV { error: true, ..g }))))
            } else {
                Some((None, None))
            },
            _ => if valid_utf8(line) {
                Some(
                    (
                        Some(GuardedV { output: g.output + decode_utf8(line) + seq!['\n'], ..g }),
                        None,
                    ),
                )
            } else {
                None
            },
        },
    }
}

/// One input byte: the new state and the event emitted, or, where the line that
/// it ends is rejected, the state left behind and that line.
pub open spec fn feed_byte(st: FeedState, b: u8) -> Result<
    (FeedState, Option<EventV>),
    (FeedState, Seq<u8>),
> {
    if b == LINE_FEED {
        let line = strip_cr(st.buffer);
        match line_step(st.begun, line) {
            Some((begun, e)) => Ok((FeedState { buffer: Seq::empty(), begun }, e)),
            None => Err((FeedState { buffer: Seq::empty(), begun: st.begun }, line)),
        }
    } else {
        Ok((FeedState { buffer: st.buffer.push(b), begun: st.begun }, None))
    }
}

/// The events of an optional event, as a sequence.
pub open spec fn opt_seq(e: Option<EventV>) -> Seq<EventV> {
    match e {
        Some(x) => seq![x],
        None => Seq::empty(),
    }
}

/// `x` is the exec counterpart of the optional event `e`.
pub open spec fn event_out(x: Option<Event>, e: Option<EventV>) -> bool {
    match e {
        Some(ev) => x matches Some(y) && y@ == ev,
        None => x is None,
    }
}

/// How feeding a run of bytes ends.
pub enum FeedOutcome {
    /// Every byte was consumed: the final state and the events in order.
    Done(FeedState, Seq<EventV>),
    /// The line ended by the byte at the given index was rejected.
    Failed(FeedState, Seq<u8>, int),
}

/// Feeds `s` byte by byte from state `st`, stopping at the first rejected line.
pub open spec fn feed_run(st: FeedState, s: Seq<u8>) -> FeedOutcome
    decreases s.len(),
{
    if s.len() == 0 {
        FeedOutcome::Done(st, Seq::empty())
    } else {
        match feed_run(st, s.drop_last()) {
            FeedOutcome::Done(st1, evs) => match feed_byte(st1, s.last()) {
                Ok((st2, e)) => FeedOutcome::Done(st2, evs + opt_seq(e)),
                Err((st2, line)) => FeedOutcome::Failed(st2, line, s.len() - 1),
            },
            FeedOutcome::Failed(st1, line, i) => FeedOutcome::Failed(st1, line, i),
        }
    }
}

/// Incremental parser of a control-mode byte stream.
pub struct Parser {
    buffer: Vec<u8>,
    begun: Option<Guarded>,
}

impl View for Parser {
    type V = FeedState;

    closed spec fn view(&self) -> FeedState {
        FeedState {
            buffer: self.buffer@,
            begun: match self.begun {
                Some(g) => Some(g@),
                None => None,
            },
        }
    }
}

impl Parser {
    /// A parser with no partial line and no open block.
    pub fn new() -> (p: Parser)
        ensures
            p@ == initial_state(),
    {
        Parser { buffer: Vec::new(), begun: None }
    }

    /// Feeds one byte; a line feed completes a line, which may yield an event.
    pub fn advance_byte(&mut self, c: u8) -> (r: Result<Option<Event>, FeedError>)
        ensures
            match feed_byte(old(self)@, c) {
                Ok((st, e)) => final(self)@ == st && (r matches Ok(x) && event_out(x, e)),
                Err((st, line)) => final(self)@ == st && (r matches Err(err) && err.line@ == line
                    && err.rest@.len() == 0),
            },
    {
        if c == LINE_FEED {
            match self.process_line() {
                Ok(e) => Ok(e),
                Err(line) => Err(FeedError { line, rest: Vec::new() }),
            }
        } else {
            self.buffer.push(c);
            Ok(None)
        }
    }

    /// Feeds UTF-8 text; the same as feeding its bytes.
    pub fn advance_string(&mut self, s: &str) -> (r: Result<Vec<Event>, FeedError>)
        ensures
            feed_result(old(self)@, s.spec_bytes(), final(self)@, r),
    {
        self.advance_bytes(s.as_bytes())
    }

    /// Feeds a buffer; returns the events of the lines it completes, in order.
    /// A rejected line ends the call with that line and the bytes not yet consumed.
    pub fn advance_bytes(&mut self, bytes: &[u8]) -> (r: Result<Vec<Event>, FeedError>)
        ensures
            feed_result(old(self)@, bytes@, final(self)@, r),
    {
        let mut events: Vec<Event> = Vec::new();
        let mut i: usize = 0;
        assert(bytes@.subrange(0, 0) =~= Seq::<u8>::empty());
        assert(events_view(events@) =~= Seq::<EventV>::empty());
        while i < bytes.len()
            invariant
                i <= bytes@.len(),
                feed_run(old(self)@, bytes@.subrange(0, i as int)) == FeedOutcome::Done(
                    self@,
                    events_view(events@),
                ),
            decreases bytes@.len() - i,
        {
            assert(bytes@.subrange(0, i + 1).drop_last() =~= bytes@.subrange(0, i as int));
            match self.advance_byte(bytes[i]) {
                Ok(Some(e)) => {
                    let ghost before = events@;
                    let ghost ev = e@;
                    events.push(e);
                    assert(events_view(events@) =~= events_view(before) + seq![ev]);
                },
                Ok(None) => {
                    assert(events_view(events@) =~= events_view(events@) + Seq::<EventV>::empty());
                },
                Err(err) => {
                    proof {
                        lemma_failure_sticks(old(self)@, bytes@, i + 1);
                    }
                    let rest = slice_to_vec(slice_subrange(bytes, i, bytes.len()));
                    assert(rest@ =~= bytes@.skip(i as int));
                    return Err(FeedError { line: err.line, rest });
                },
            }
            i += 1;
        }
        assert(bytes@.subrange(0, bytes@.len() as int) =~= bytes@);
        Ok(events)
    }

    /// Handles the complete line in the buffer; on rejection returns that line.
    fn process_line(&mut self) -> (r: Result<Option<Event>, Vec<u8>>)
        ensures
            match feed_byte(old(self)@, LINE_FEED) {
                Ok((st, e)) => final(self)@ == st && (r matches Ok(x) && event_out(x, e)),
                Err((st, line)) => final(self)@ == st && (r matches Err(l) && l@ == line),
            },
    {
        let ghost line = strip_cr(old(self)@.buffer);
        if self.buffer.len() > 0 && self.buffer[self.buffer.len() - 1] == CARRIAGE_RETURN {
            self.buffer.pop();
        }
        assert(self.buffer@ =~= line);
        let parsed = parse_line(self.buffer.as_slice());
        let begun = self.begun.take();
        let result = match begun {
            None => match parsed {
                Ok(Event::Begin { timestamp, number, flags }) => {
                    self.begun = Some(
                        Guarded { error: false, timestamp, number, flags, output: String::new() },
                    );
                    Ok(None)
                },
                Ok(Event::End { .. }) | Ok(Event::Error { .. }) => Ok(None),
                Ok(event) => Ok(Some(event)),
                Err(_) => Err(()),
            },
            Some(mut g) => match parsed {
                Ok(Event::Begin { timestamp, number, flags }) => {
                    self.begun = Some(
                        Guarded { error: false, timestamp, number, flags, output: String::new() },
                    );
                    Ok(None)
                },
                Ok(Event::End { timestamp, number, flags }) => {
                    if g.timestamp == timestamp && g.number == number && g.flags == flags {
                        Ok(Some(Event::Guarded(g)))
                    } else {
                        Ok(None)
                    }
                },
                Ok(Event::Error { timestamp, number, flags }) => {
                    if g.timestamp == timestamp && g.number == number && g.flags == flags {
                        g.error = true;
                        Ok(Some(Event::Guarded(g)))
                    } else {
                        Ok(None)
                    }
                },
                _ => match string_from_utf8(slice_to_vec(self.buffer.as_slice())) {
                    None => {
                        self.begun = Some(g);
                        Err(())
                    },
                    Some(text) => {
                        let ghost g0 = g@;
                        g.output.append(text.as_str());
                        proof {
                            reveal_strlit("\n");
                        }
                        assert("\n"@ =~= seq!['\n']);
                        g.output.append("\n");
                        assert(g.output@ =~= g0.output + decode_utf8(line) + seq!['\n']);
                        self.begun = Some(g);
                        Ok(None)
                    },
                },
            },
        };
        match result {
            Ok(e) => {
                self.buffer.clear();
                Ok(e)
            },
            Err(()) => {
                let line = slice_to_vec(self.buffer.as_slice());
                self.buffer.clear();
                Err(line)
            },
        }
    }
}

/// `r` and the final state `after` are what feeding `bytes` from `before` yields.
pub open spec fn feed_result(
    before: FeedState,
    bytes: Seq<u8>,
    after: FeedState,
    r: Result<Vec<Event>, FeedError>,
) -> bool {
    match feed_run(before, bytes) {
        FeedOutcome::Done(st, evs) => after == st && (r matches Ok(v) && events_view(v@) == evs),
        FeedOutcome::Failed(st, line, i) => after == st && (r matches Err(e) && e.line@ == line
            && e.rest@ == bytes.skip(i)),
    }
}

/// Once a line of a prefix is rejected, feeding the whole input fails the same way.
proof fn lemma_failure_sticks(st: FeedState, s: Seq<u8>, k: int)
    requires
        0 <= k <= s.len(),
        feed_run(st, s.subrange(0, k)) is Failed,
    ensures
        feed_run(st, s) == feed_run(st, s.subrange(0, k)),
    decreases s.len() - k,
{
    if k == s.len() {
        assert(s.subrange(0, k) =~= s);
    } else {
        assert(s.subrange(0, k + 1).drop_last() =~= s.subrange(0, k));
        lemma_failure_sticks(st, s, k + 1);
    }
}


/// The outcome of feeding `a` and then `b`, as two separate calls would report it.
pub open spec fn feed_in_two(st: FeedState, a: Seq<u8>, b: Seq<u8>) -> FeedOutcome {
    match feed_run(st, a) {
        FeedOutcome::Done(st1, e1) => match feed_run(st1, b) {
            FeedOutcome::Done(st2, e2) => FeedOutcome::Done(st2, e1 + e2),
            FeedOutcome::Failed(st2, line, i) => FeedOutcome::Failed(st2, line, a.len() + i),
        },
        FeedOutcome::Failed(st1, line, i) => FeedOutcome::Failed(st1, line, i),
    }
}

/// Feeding the concatenation of two buffers yields the same events, final state
/// and failure as feeding them one after the other.
pub proof fn lemma_streaming_equals_chunked(st: FeedState, a: Seq<u8>, b: Seq<u8>)
    ensures
        feed_run(st, a + b) == feed_in_two(st, a, b),
    decreases b.len(),
{
    if b.len() == 0 {
        assert(a + b =~= a);
        match feed_run(st, a) {
            FeedOutcome::Done(st1, e1) => {
                assert(e1 + Seq::<EventV>::empty() =~= e1);
            },
            _ => {},
        }
    } else {
        lemma_streaming_equals_chunked(st, a, b.drop_last());
        assert((a + b).drop_last() =~= a + b.drop_last());
        assert((a + b).last() == b.last());
        match feed_run(st, a) {
            FeedOutcome::Done(st1, e1) => {
                match feed_run(st1, b.drop_last()) {
                    FeedOutcome::Done(st2, e2) => {
                        match feed_byte(st2, b.last()) {
                            Ok((st3, e)) => {
                                assert(e1 + e2 + opt_seq(e) =~= e1 + (e2 + opt_seq(e)));
                            },
                            Err(_) => {},
                        }
                    },
                    _ => {},
                }
            },
            _ => {},
        }
    }
}

/// Bytes without a line feed complete no line: they only extend the buffer.
pub proof fn lemma_partial_line_is_silent(st: FeedState, s: Seq<u8>)
    requires
        forall|i: int| 0 <= i < s.len() ==> s[i] != LINE_FEED,
    ensures
        feed_run(st, s) == FeedOutcome::Done(
            FeedState { buffer: st.buffer + s, begun: st.begun },
            Seq::empty(),
        ),
    decreases s.len(),
{
    if s.len() == 0 {
        assert(st.buffer + s =~= st.buffer);
    } else {
        lemma_partial_line_is_silent(st, s.drop_last());
        assert((st.buffer + s.drop_last()).push(s.last()) =~= st.buffer + s);
        assert(Seq::<EventV>::empty() + Seq::<EventV>::empty() =~= Seq::<EventV>::empty());
    }
}

/// Two outcomes agree on everything but the index at which a failure was found.
pub open spec fn same_effect(x: FeedOutcome, y: FeedOutcome) -> bool {
    match (x, y) {
        (FeedOutcome::Done(s1, e1), FeedOutcome::Done(s2, e2)) => s1 == s2 && e1 == e2,
        (FeedOutcome::Failed(s1, l1, _), FeedOutcome::Failed(s2, l2, _)) => s1 == s2 && l1 == l2,
        _ => false,
    }
}

/// Feeding a single byte.
proof fn lemma_feed_one(st: FeedState, b: u8)
    ensures
        feed_run(st, seq![b]) == match feed_byte(st, b) {
            Ok((s, e)) => FeedOutcome::Done(s, opt_seq(e)),
            Err((s, line)) => FeedOutcome::Failed(s, line, 0),
        },
{
    assert(seq![b].drop_last() =~= Seq::<u8>::empty());
    assert(seq![b].last() == b);
    assert(feed_run(st, Seq::<u8>::empty()) == FeedOutcome::Done(st, Seq::<EventV>::empty()));
    match feed_byte(st, b) {
        Ok((s, e)) => {
            assert(Seq::<EventV>::empty() + opt_seq(e) =~= opt_seq(e));
        },
        Err(_) => {},
    }
}

/// Feeding bytes without a line feed and then one line feed.
proof fn lemma_one_line(st: FeedState, l: Seq<u8>)
    requires
        forall|i: int| 0 <= i < l.len() ==> l[i] != LINE_FEED,
    ensures
        ({
            let st1 = FeedState { buffer: st.buffer + l, begun: st.begun };
            feed_run(st, l + seq![LINE_FEED]) == match feed_byte(st1, LINE_FEED) {
                Ok((s, e)) => FeedOutcome::Done(s, opt_seq(e)),
                Err((s, line)) => FeedOutcome::Failed(s, line, l.len() as int),
            }
        }),
{
    let st1 = FeedState { buffer: st.buffer + l, begun: st.begun };
    lemma_partial_line_is_silent(st, l);
    lemma_streaming_equals_chunked(st, l, seq![LINE_FEED]);
    lemma_feed_one(st1, LINE_FEED);
    match feed_byte(st1, LINE_FEED) {
        Ok((s, e)) => {
            assert(Seq::<EventV>::empty() + opt_seq(e) =~= opt_seq(e));
        },
        Err(_) => {},
    }
}

/// A line ended by carriage return and line feed is handled as the same line ended
/// by a line feed alone (where the line itself does not already end in a carriage
/// return, which would then be taken as the line's ending).
pub proof fn lemma_crlf_same_as_lf(st: FeedState, l: Seq<u8>)
    requires
        forall|i: int| 0 <= i < l.len() ==> l[i] != LINE_FEED,
        !((st.buffer + l).len() > 0 && (st.buffer + l).last() == CARRIAGE_RETURN),
    ensures
        same_effect(feed_run(st, l + seq![CARRIAGE_RETURN, LINE_FEED]), feed_run(st, l + seq![LINE_FEED])),
{
    let lc = l.push(CARRIAGE_RETURN);
    assert forall|i: int| 0 <= i < lc.len() implies lc[i] != LINE_FEED by {
        if i < l.len() {
            assert(lc[i] == l[i]);
        }
    }
    lemma_one_line(st, lc);
    lemma_one_line(st, l);
    assert(lc + seq![LINE_FEED] =~= l + seq![CARRIAGE_RETURN, LINE_FEED]);
    let b1 = st.buffer + lc;
    let b2 = st.buffer + l;
    assert(b1 =~= b2.push(CARRIAGE_RETURN));
    assert(strip_cr(b1) =~= b2);
    assert(strip_cr(b2) == b2);
}

/// A `%begin` line directly followed by an `%end` line with the same three numbers
/// yields exactly one guarded block, with empty output, and closes it.
pub proof fn lemma_begin_end_empty_block(
    l1: Seq<u8>,
    l2: Seq<u8>,
    timestamp: i64,
    number: u64,
    flags: i64,
)
    requires
        forall|i: int| 0 <= i < l1.len() ==> l1[i] != LINE_FEED,
        forall|i: int| 0 <= i < l2.len() ==> l2[i] != LINE_FEED,
        strip_cr(l1) == l1,
        strip_cr(l2) == l2,
        line_event(l1) == Ok::<EventV, LineError>(EventV::Begin { timestamp, number, flags }),
        line_event(l2) == Ok::<EventV, LineError>(EventV::End { timestamp, number, flags }),
    ensures
        feed_run(initial_state(), l1 + seq![LINE_FEED] + l2 + seq![LINE_FEED]) == FeedOutcome::Done(
            initial_state(),
            seq![
                EventV::Guarded(
                    GuardedV { error: false, timestamp, number, flags, output: Seq::empty() },
                ),
            ],
        ),
{
    let g = GuardedV { error: false, timestamp, number, flags, output: Seq::empty() };
    let st1 = FeedState { buffer: Seq::empty(), begun: Some(g) };
    lemma_one_line(initial_state(), l1);
    assert(Seq::<u8>::empty() + l1 =~= l1);
    assert(Seq::<u8>::empty() + l2 =~= l2);
    assert(opt_seq(None) =~= Seq::<EventV>::empty());
    lemma_one_line(st1, l2);
    let ev = EventV::Guarded(g);
    lemma_streaming_equals_chunked(initial_state(), l1 + seq![LINE_FEED], l2 + seq![LINE_FEED]);
    assert(l1 + seq![LINE_FEED] + l2 + seq![LINE_FEED] =~= (l1 + seq![LINE_FEED]) + (l2 + seq![LINE_FEED]));
    assert(Seq::<EventV>::empty() + seq![ev] =~= seq![ev]);
}

/// The block that a complete line closes, with its error flag set for `%error`.
pub open spec fn closed_block(g: GuardedV, line: Seq<u8>) -> Option<GuardedV> {
    match line_event(line) {
        Ok(EventV::End { timestamp, number, flags }) => if same_guard(g, timestamp, number, flags) {
            Some(g)
        } else {
            None
        },
        Ok(EventV::Error { timestamp, number, flags }) => if same_guard(
            g,
            timestamp,
            number,
            flags,
        ) {
            Some(GuardedV { error: true, ..g })
        } else {
            None
        },
        _ => None,
    }
}

/// A raw guard line event, which never leaves the parser.
pub open spec fn is_raw_guard(e: EventV) -> bool {
    e is Begin || e is End || e is Error
}

/// The guarded block that feeding `b` emits, if any.
pub open spec fn emitted_block(st: FeedState, b: u8) -> Option<GuardedV> {
    match feed_byte(st, b) {
        Ok((_, Some(EventV::Guarded(x)))) => Some(x),
        _ => None,
    }
}

/// The block that `b` closes: it ends a line that terminates the open block.
pub open spec fn block_closed_by(st: FeedState, b: u8) -> Option<GuardedV> {
    if b == LINE_FEED {
        match st.begun {
            Some(open) => closed_block(open, strip_cr(st.buffer)),
            None => None,
        }
    } else {
        None
    }
}

/// One byte emits a guarded block exactly when it ends a line that closes the open
/// block with matching numbers; that block is then no longer open. No byte ever
/// emits a raw `Begin`, `End` or `Error`.
pub proof fn lemma_guarded_blocks(st: FeedState, b: u8)
    ensures
        emitted_block(st, b) == block_closed_by(st, b),
        emitted_block(st, b) is Some ==> (feed_byte(st, b) matches Ok((st2, _)) && st2.begun is None),
        feed_byte(st, b) matches Ok((st2, Some(e))) ==> !is_raw_guard(e),
{
    lemma_line_event_not_guarded(strip_cr(st.buffer));
}

/// No run of bytes emits a raw `Begin`, `End` or `Error`.
pub proof fn lemma_no_raw_guard_events(st: FeedState, s: Seq<u8>)
    ensures
        feed_run(st, s) matches FeedOutcome::Done(_, evs) ==> forall|i: int|
            0 <= i < evs.len() ==> !is_raw_guard(#[trigger] evs[i]),
    decreases s.len(),
{
    if s.len() > 0 {
        lemma_no_raw_guard_events(st, s.drop_last());
        match feed_run(st, s.drop_last()) {
            FeedOutcome::Done(st1, evs) => {
                lemma_guarded_blocks(st1, s.last());
                match feed_byte(st1, s.last()) {
                    Ok((st2, e)) => {
                        let all = evs + opt_seq(e);
                        assert forall|i: int| 0 <= i < all.len() implies !is_raw_guard(
                            #[trigger] all[i],
                        ) by {
                            if i >= evs.len() {
                                assert(all[i] == e->Some_0);
                            } else {
                                assert(all[i] == evs[i]);
                            }
                        }
                    },
                    Err(_) => {},
                }
            },
            _ => {},
        }
    }
}


/// Feeding a buffer is feeding its bytes one at a time: the run over `s` and then
/// `b` is the run over `s` followed by the single step that `advance_byte` takes.
pub proof fn lemma_bytes_one_at_a_time(st: FeedState, s: Seq<u8>, b: u8)
    ensures
        feed_run(st, s.push(b)) == match feed_run(st, s) {
            FeedOutcome::Done(st1, evs) => match feed_byte(st1, b) {
                Ok((st2, e)) => FeedOutcome::Done(st2, evs + opt_seq(e)),
                Err((st2, line)) => FeedOutcome::Failed(st2, line, s.len() as int),
            },
            FeedOutcome::Failed(st1, line, i) => FeedOutcome::Failed(st1, line, i),
        },
{
    assert(s.push(b).drop_last() =~= s);
    assert(s.push(b).last() == b);
}


/// Complete lines, each followed by its line feed.
pub open spec fn lines_bytes(ls: Seq<Seq<u8>>) -> Seq<u8>
    decreases ls.len(),
{
    if ls.len() == 0 {
        Seq::empty()
    } else {
        lines_bytes(ls.drop_last()) + ls.last() + seq![LINE_FEED]
    }
}

/// The text that body lines add to a guarded block: each line and a newline.
pub open spec fn body_text(ls: Seq<Seq<u8>>) -> Seq<char>
    decreases ls.len(),
{
    if ls.len() == 0 {
        Seq::empty()
    } else {
        body_text(ls.drop_last()) + decode_utf8(ls.last()) + seq!['\n']
    }
}

/// A line as the feeder sees it: no line feed in it, no carriage return ending it.
pub open spec fn bare_line(l: Seq<u8>) -> bool {
    &&& forall|i: int| 0 <= i < l.len() ==> l[i] != LINE_FEED
    &&& strip_cr(l) == l
}

/// A line that an open guarded block takes as body: UTF-8, and not a guard line.
pub open spec fn body_line(l: Seq<u8>) -> bool {
    &&& bare_line(l)
    &&& valid_utf8(l)
    &&& !(line_event(l) matches Ok(e) && is_raw_guard(e))
}

/// Body lines fed to an open block are appended to its output and emit nothing.
proof fn lemma_body_lines(g: GuardedV, ls: Seq<Seq<u8>>)
    requires
        forall|k: int| 0 <= k < ls.len() ==> body_line(#[trigger] ls[k]),
    ensures
        feed_run(FeedState { buffer: Seq::empty(), begun: Some(g) }, lines_bytes(ls))
            == FeedOutcome::Done(
            FeedState {
                buffer: Seq::empty(),
                begun: Some(GuardedV { output: g.output + body_text(ls), ..g }),
            },
            Seq::<EventV>::empty(),
        ),
    decreases ls.len(),
{
    let st0 = FeedState { buffer: Seq::empty(), begun: Some(g) };
    if ls.len() == 0 {
        assert(g.output + body_text(ls) =~= g.output);
    } else {
        let dl = ls.drop_last();
        let l = ls.last();
        assert forall|k: int| 0 <= k < dl.len() implies body_line(#[trigger] dl[k]) by {
            assert(dl[k] == ls[k]);
        }
        assert(body_line(ls[ls.len() - 1]));
        lemma_body_lines(g, dl);
        let g1 = GuardedV { output: g.output + body_text(dl), ..g };
        let st1 = FeedState { buffer: Seq::empty(), begun: Some(g1) };
        lemma_streaming_equals_chunked(st0, lines_bytes(dl), l + seq![LINE_FEED]);
        assert(lines_bytes(ls) =~= lines_bytes(dl) + (l + seq![LINE_FEED]));
        lemma_one_line(st1, l);
        assert(Seq::<u8>::empty() + l =~= l);
        assert(g1.output + decode_utf8(l) + seq!['\n'] =~= g.output + body_text(ls));
        assert(Seq::<EventV>::empty() + opt_seq(None) =~= Seq::<EventV>::empty());
    }
}

/// A `%begin` line, any body lines, and an `%end` (or `%error`) line with the same
/// three numbers yield exactly one guarded block, at the terminator, carrying the
/// numbers of the `%begin`, the error flag of the terminator, and the body lines
/// each followed by a newline; no block is left open.
pub proof fn lemma_guarded_block_output(
    first: Seq<u8>,
    body: Seq<Seq<u8>>,
    last: Seq<u8>,
    timestamp: i64,
    number: u64,
    flags: i64,
    error: bool,
)
    requires
        bare_line(first),
        bare_line(last),
        forall|k: int| 0 <= k < body.len() ==> body_line(#[trigger] body[k]),
        line_event(first) == Ok::<EventV, LineError>(EventV::Begin { timestamp, number, flags }),
        line_event(last) == if error {
            Ok::<EventV, LineError>(EventV::Error { timestamp, number, flags })
        } else {
            Ok::<EventV, LineError>(EventV::End { timestamp, number, flags })
        },
    ensures
        feed_run(initial_state(), first + seq![LINE_FEED] + lines_bytes(body) + last + seq![LINE_FEED])
            == FeedOutcome::Done(
            initial_state(),
            seq![
                EventV::Guarded(
                    GuardedV { error, timestamp, number, flags, output: body_text(body) },
                ),
            ],
        ),
{
    let g0 = GuardedV { error: false, timestamp, number, flags, output: Seq::empty() };
    let st1 = FeedState { buffer: Seq::empty(), begun: Some(g0) };
    let seg1 = first + seq![LINE_FEED];
    let seg2 = lines_bytes(body);
    let seg3 = last + seq![LINE_FEED];
    lemma_one_line(initial_state(), first);
    assert(Seq::<u8>::empty() + first =~= first);
    assert(opt_seq(None) =~= Seq::<EventV>::empty());
    lemma_body_lines(g0, body);
    let g1 = GuardedV { output: g0.output + body_text(body), ..g0 };
    assert(g1.output =~= body_text(body));
    let st2 = FeedState { buffer: Seq::empty(), begun: Some(g1) };
    lemma_one_line(st2, last);
    assert(Seq::<u8>::empty() + last =~= last);
    let ev = EventV::Guarded(GuardedV { error, timestamp, number, flags, output: body_text(body) });
    assert(feed_run(st2, seg3) == FeedOutcome::Done(initial_state(), seq![ev]));
    lemma_streaming_equals_chunked(initial_state(), seg1, seg2);
    lemma_streaming_equals_chunked(initial_state(), seg1 + seg2, seg3);
    assert(first + seq![LINE_FEED] + lines_bytes(body) + last + seq![LINE_FEED] =~= (seg1 + seg2)
        + seg3);
    assert(Seq::<EventV>::empty() + Seq::<EventV>::empty() =~= Seq::<EventV>::empty());
    assert(Seq::<EventV>::empty() + seq![ev] =~= seq![ev]);
}


/// `%begin T N F` directly followed by `%end T N F`, written in decimal, yields one
/// guarded block with those numbers and empty output, and closes it.
pub proof fn lemma_formatted_begin_end(timestamp: i64, number: u64, flags: i64)
    requires
        timestamp >= 0,
        flags >= 0,
    ensures
        feed_run(
            initial_state(),
            guard_line(Keyword::Begin, timestamp, number, flags) + seq![LINE_FEED] + guard_line(
                Keyword::End,
                timestamp,
                number,
                flags,
            ) + seq![LINE_FEED],
        ) == FeedOutcome::Done(
            initial_state(),
            seq![
                EventV::Guarded(
                    GuardedV { error: false, timestamp, number, flags, output: Seq::empty() },
                ),
            ],
        ),
{
    let l1 = guard_line(Keyword::Begin, timestamp, number, flags);
    let l2 = guard_line(Keyword::End, timestamp, number, flags);
    lemma_guard_line(Keyword::Begin, timestamp, number, flags);
    lemma_guard_line(Keyword::End, timestamp, number, flags);
    assert forall|i: int| 0 <= i < l1.len() implies l1[i] != LINE_FEED by {
        assert(l1[i] != 10);
    }
    assert forall|i: int| 0 <= i < l2.len() implies l2[i] != LINE_FEED by {
        assert(l2[i] != 10);
    }
    lemma_begin_end_empty_block(l1, l2, timestamp, number, flags);
}

} // verus!
