//! The trace accumulator: merges the lines of one trace into one record,
//! under byte, line and time limits.
use vstd::prelude::*;
use vstd::utf8::encode_utf8;

use crate::clock::now_millis;
use crate::config::{ConfigError, ProgrammingLanguages};
use crate::detector::{
    DetectionStatus, ExceptionDetector, StateMachine, classify, effective_languages,
    get_state_machines, machine_rules, patterns_compile, rules_of,
};
use crate::events::DetectExceptionsStaleEventFlushed;
use crate::record::{Fields, LogEvent, MESSAGE_KEY, message_of, with_field};
use crate::rules::ExceptionState;

verus! {

/// The length of a line in bytes, as `str::len` reports it.
pub open spec fn byte_len(line: Seq<char>) -> nat {
    (encode_utf8(line).len() as usize) as nat
}

/// The total length in bytes of `lines`.
pub open spec fn total_bytes(lines: Seq<Seq<char>>) -> nat
    decreases lines.len(),
{
    if lines.len() == 0 {
        0
    } else {
        total_bytes(lines.drop_last()) + byte_len(lines.last())
    }
}

/// `lines` joined by newlines.
pub open spec fn join_lines(lines: Seq<Seq<char>>) -> Seq<char>
    decreases lines.len(),
{
    if lines.len() == 0 {
        seq![]
    } else if lines.len() == 1 {
        lines[0]
    } else {
        join_lines(lines.drop_last()) + seq!['\n'] + lines.last()
    }
}

pub open spec fn records_view(v: Seq<LogEvent>) -> Seq<Fields> {
    v.map_values(|e: LogEvent| e@)
}

pub open spec fn lines_view(v: Seq<String>) -> Seq<Seq<char>> {
    v.map_values(|s: String| s@)
}

/// What an accumulator holds between calls.
pub ghost struct Buffer {
    /// The detector's state.
    pub state: ExceptionState,
    /// The pending lines, in arrival order.
    pub lines: Seq<Seq<char>>,
    /// The first record of the pending trace.
    pub anchor: Fields,
    /// When the pending trace began, in milliseconds.
    pub start: int,
}

/// What an accumulator is configured with.
pub ghost struct Limits {
    pub machine: StateMachine,
    /// Byte limit; 0 means none.
    pub max_bytes: nat,
    /// Line limit; 0 means none.
    pub max_lines: nat,
    /// How old a pending trace may grow, in milliseconds.
    pub interval: nat,
}

/// The records that a flush of `b` emits: nothing for no line, the anchor
/// for one line, and otherwise the anchor with its message replaced by the
/// lines joined by newlines.
pub open spec fn flushed_records(b: Buffer) -> Seq<Fields> {
    if b.lines.len() == 0 {
        seq![]
    } else if b.lines.len() == 1 {
        seq![b.anchor]
    } else {
        seq![with_field(b.anchor, MESSAGE_KEY@, join_lines(b.lines))]
    }
}

/// `b` once flushed: no line and an empty anchor.
pub open spec fn cleared(b: Buffer) -> Buffer {
    Buffer { lines: seq![], anchor: seq![], ..b }
}

/// A flush that also puts the detector back to `StartState`.
pub open spec fn force_flushed(b: Buffer) -> (Buffer, Seq<Fields>) {
    (Buffer { state: ExceptionState::StartState, ..cleared(b) }, flushed_records(b))
}

/// `b` with the line `msg` of record `rec` added at time `now`; the first
/// line of a buffer makes `rec` the anchor and `now` the start.
pub open spec fn added(b: Buffer, rec: Fields, msg: Option<Seq<char>>, now: int) -> Buffer {
    match msg {
        None => b,
        Some(line) => {
            let b1 = if b.lines.len() == 0 {
                Buffer { anchor: rec, start: now, ..b }
            } else {
                b
            };
            Buffer { lines: b1.lines.push(line), ..b1 }
        },
    }
}

/// The buffering decision for a record `rec` with message `msg` classified
/// as `status`: the new buffer and the records emitted.
pub open spec fn buffered(
    b: Buffer,
    status: DetectionStatus,
    msg: Option<Seq<char>>,
    rec: Fields,
    now: int,
) -> (Buffer, Seq<Fields>) {
    if b.lines.len() == 0 && (status == DetectionStatus::NoTrace || status
        == DetectionStatus::EndTrace) {
        (b, seq![rec])
    } else {
        match status {
            DetectionStatus::InsideTrace => (added(b, rec, msg, now), seq![]),
            DetectionStatus::EndTrace => {
                let a = added(b, rec, msg, now);
                (cleared(a), flushed_records(a))
            },
            DetectionStatus::NoTrace => {
                let c = cleared(b);
                match msg {
                    Some(_) => {
                        let a = added(c, rec, msg, now);
                        (cleared(a), flushed_records(b) + flushed_records(a))
                    },
                    None => (c, flushed_records(b).push(rec)),
                }
            },
            DetectionStatus::StartTrace => (added(cleared(b), rec, msg, now), flushed_records(b)),
        }
    }
}

/// Whether adding `line` to `b` would pass the byte limit (or, with none
/// configured, what a `usize` can count).
pub open spec fn exceeds(l: Limits, b: Buffer, line: Seq<char>) -> bool {
    let total = total_bytes(b.lines) + byte_len(line);
    if l.max_bytes > 0 {
        total > l.max_bytes
    } else {
        total > usize::MAX
    }
}

/// What `push` does with record `rec` at time `now`: the new buffer and the
/// records emitted, in order.
pub open spec fn pushed(l: Limits, b: Buffer, rec: Fields, now: int) -> (Buffer, Seq<Fields>) {
    let (b2, out) = match message_of(rec) {
        None => buffered(
            Buffer { state: ExceptionState::StartState, ..b },
            DetectionStatus::NoTrace,
            None,
            rec,
            now,
        ),
        Some(line) => {
            let (b0, out0) = if exceeds(l, b, line) {
                force_flushed(b)
            } else {
                (b, seq![])
            };
            let (status, next) = classify(l.machine, b0.state, line);
            let (b1, out1) = buffered(Buffer { state: next, ..b0 }, status, Some(line), rec, now);
            (b1, out0 + out1)
        },
    };
    if l.max_lines > 0 && b2.lines.len() == l.max_lines {
        let (b3, out3) = force_flushed(b2);
        (b3, out + out3)
    } else {
        (b2, out)
    }
}

/// Whether the pending trace of `b` is older than the interval at `now`.
pub open spec fn is_stale(l: Limits, b: Buffer, now: int) -> bool {
    now - b.start > l.interval
}

pub struct TraceAccumulator {
    max_bytes: usize,
    max_lines: usize,
    multiline_flush_interval: u64,
    first_event: LogEvent,
    buffer_size: usize,
    detector: ExceptionDetector,
    buffer_start_time: i64,
    accumulated_messages: Vec<String>,
}

impl TraceAccumulator {
    pub closed spec fn buffer(&self) -> Buffer {
        Buffer {
            state: self.detector.current_state,
            lines: lines_view(self.accumulated_messages@),
            anchor: self.first_event@,
            start: self.buffer_start_time as int,
        }
    }

    pub closed spec fn limits(&self) -> Limits {
        Limits {
            machine: self.detector.state_machine,
            max_bytes: self.max_bytes as nat,
            max_lines: self.max_lines as nat,
            interval: self.multiline_flush_interval as nat,
        }
    }

    /// The byte count matches the lines, and an empty buffer has an empty
    /// anchor.
    pub closed spec fn wf(&self) -> bool {
        &&& self.buffer_size as nat == total_bytes(self.buffer().lines)
        &&& self.buffer().lines.len() == 0 ==> self.buffer().anchor.len() == 0
    }

    /// A valid accumulator with no pending line has an empty anchor.
    pub proof fn lemma_empty_anchor(&self)
        requires
            self.wf(),
        ensures
            self.buffer().lines.len() == 0 ==> self.buffer().anchor == Fields::empty(),
    {
        if self.buffer().lines.len() == 0 {
            assert(self.buffer().anchor =~= Fields::empty());
        }
    }

    /// Fewer lines are pending than the line limit, when there is one.
    pub open spec fn within_limits(&self) -> bool {
        self.limits().max_lines > 0 ==> self.buffer().lines.len() < self.limits().max_lines
    }

    /// An accumulator for `languages` whose buffer starts at `now`.
    pub fn new_at(
        languages: Vec<ProgrammingLanguages>,
        multiline_flush_interval: u64,
        max_bytes: usize,
        max_lines: usize,
        now: i64,
    ) -> (r: Result<TraceAccumulator, ConfigError>)
        ensures
            r is Ok <==> patterns_compile(rules_of(effective_languages(languages@))),
            r matches Err(e) ==> e == ConfigError::InvalidPattern,
            r matches Ok(a) ==> {
                &&& a.wf()
                &&& a.within_limits()
                &&& a.buffer() == Buffer {
                    state: ExceptionState::StartState,
                    lines: seq![],
                    anchor: seq![],
                    start: now as int,
                }
                &&& a.limits().max_bytes == max_bytes
                &&& a.limits().max_lines == max_lines
                &&& a.limits().interval == multiline_flush_interval
                &&& forall|s: ExceptionState| #[trigger]
                    a.limits().machine.rules_for(s) == machine_rules(languages@, s)
            },
    {
        let ghost langs = languages@;
        let state_machine = match get_state_machines(languages) {
            Ok(m) => m,
            Err(e) => {
                return Err(e);
            },
        };
        let r = TraceAccumulator {
            buffer_size: 0,
            max_bytes,
            max_lines,
            multiline_flush_interval,
            first_event: LogEvent::new(),
            buffer_start_time: now,
            accumulated_messages: Vec::new(),
            detector: ExceptionDetector { state_machine, current_state: ExceptionState::StartState },
        };
        assert(r.buffer().lines =~= seq![]);
        Ok(r)
    }

    /// An accumulator for `languages` whose buffer starts now.
    pub fn new(
        languages: Vec<ProgrammingLanguages>,
        multiline_flush_interval: u64,
        max_bytes: usize,
        max_lines: usize,
    ) -> (r: Result<TraceAccumulator, ConfigError>)
        ensures
            r is Ok <==> patterns_compile(rules_of(effective_languages(languages@))),
            r matches Err(e) ==> e == ConfigError::InvalidPattern,
            r matches Ok(a) ==> {
                &&& a.wf()
                &&& a.within_limits()
                &&& a.buffer().state == ExceptionState::StartState
                &&& a.buffer().lines == Seq::<Seq<char>>::empty()
                &&& a.buffer().anchor == Fields::empty()
                &&& a.limits().max_bytes == max_bytes
                &&& a.limits().max_lines == max_lines
                &&& a.limits().interval == multiline_flush_interval
                &&& forall|s: ExceptionState| #[trigger]
                    a.limits().machine.rules_for(s) == machine_rules(languages@, s)
            },
    {
        let now = now_millis();
        TraceAccumulator::new_at(languages, multiline_flush_interval, max_bytes, max_lines, now)
    }

    /// The pending lines.
    pub fn accumulated_messages(&self) -> (r: &Vec<String>)
        ensures
            lines_view(r@) == self.buffer().lines,
    {
        &self.accumulated_messages
    }

    /// When the pending trace began, in milliseconds.
    pub fn buffer_start_time(&self) -> (r: i64)
        ensures
            r as int == self.buffer().start,
    {
        self.buffer_start_time
    }

    /// Emits the pending trace, if any, and empties the buffer.
    pub fn flush(&mut self, output: &mut Vec<LogEvent>)
        requires
            old(self).wf(),
        ensures
            final(self).wf(),
            final(self).limits() == old(self).limits(),
            final(self).buffer() == cleared(old(self).buffer()),
            records_view(final(output)@) == records_view(old(output)@) + flushed_records(
                old(self).buffer(),
            ),
    {
        let ghost b = self.buffer();
        let n = self.accumulated_messages.len();
        if n == 0 {
            assert(records_view(output@) =~= records_view(output@) + flushed_records(b));
            assert(b.lines =~= seq![]);
            assert(b.anchor =~= seq![]);
            return;
        }
        if n > 1 {
            let joined = join(&self.accumulated_messages);
            self.first_event.insert(MESSAGE_KEY, joined);
        }
        let mut anchor = LogEvent::new();
        std::mem::swap(&mut anchor, &mut self.first_event);
        let ghost before = output@;
        output.push(anchor);
        assert(records_view(output@) =~= records_view(before) + flushed_records(b));
        self.accumulated_messages = Vec::new();
        self.buffer_size = 0;
        assert(self.buffer().lines =~= seq![]);
        assert(self.buffer().anchor =~= seq![]);
    }

    /// A flush that also resets the detector.
    pub fn force_flush(&mut self, output: &mut Vec<LogEvent>)
        requires
            old(self).wf(),
        ensures
            final(self).wf(),
            final(self).limits() == old(self).limits(),
            (final(self).buffer(), records_view(final(output)@)) == {
                let (b, out) = force_flushed(old(self).buffer());
                (b, records_view(old(output)@) + out)
            },
    {
        self.flush(output);
        self.detector.reset();
    }

    /// Appends the line `message` of record `le` to the buffer; the first
    /// line makes `le` the anchor and `now` the start.
    pub fn add(&mut self, le: &LogEvent, message: Option<&String>, now: i64)
        requires
            old(self).wf(),
            message matches Some(m) ==> total_bytes(old(self).buffer().lines) + byte_len(m@)
                <= usize::MAX,
        ensures
            final(self).wf(),
            final(self).limits() == old(self).limits(),
            final(self).buffer() == added(
                old(self).buffer(),
                le@,
                match message {
                    Some(m) => Some(m@),
                    None => None,
                },
                now as int,
            ),
    {
        if let Some(line) = message {
            if self.accumulated_messages.len() == 0 {
                self.first_event = le.duplicate();
                self.buffer_start_time = now;
            }
            let ghost lines = self.buffer().lines;
            let line_len = line.as_str().len();
            self.accumulated_messages.push(line.clone());
            self.buffer_size = self.buffer_size + line_len;
            assert(self.buffer().lines =~= lines.push(line@));
            assert(self.buffer().lines.drop_last() =~= lines);
        }
    }

    /// Whether adding a line of `n` bytes would pass the byte limit, or
    /// what a `usize` can count when there is none.
    fn exceeds_bytes(&self, n: usize) -> (r: bool)
        requires
            self.wf(),
        ensures
            r == if self.limits().max_bytes > 0 {
                total_bytes(self.buffer().lines) + n > self.limits().max_bytes
            } else {
                total_bytes(self.buffer().lines) + n > usize::MAX
            },
    {
        match self.buffer_size.checked_add(n) {
            None => true,
            Some(total) => self.max_bytes > 0 && total > self.max_bytes,
        }
    }

    /// Buffers or emits record `le`, whose message `message` was classified as
    /// `detection_status`.
    pub fn update_buffer(
        &mut self,
        detection_status: DetectionStatus,
        message: Option<&String>,
        le: &LogEvent,
        now: i64,
        output: &mut Vec<LogEvent>,
    )
        requires
            old(self).wf(),
            message matches Some(m) ==> total_bytes(old(self).buffer().lines) + byte_len(m@)
                <= usize::MAX,
        ensures
            final(self).wf(),
            final(self).limits() == old(self).limits(),
            (final(self).buffer(), records_view(final(output)@)) == {
                let (b, out) = buffered(
                    old(self).buffer(),
                    detection_status,
                    match message {
                        Some(m) => Some(m@),
                        None => None,
                    },
                    le@,
                    now as int,
                );
                (b, records_view(old(output)@) + out)
            },
    {
        let ghost msg = match message {
            Some(m) => Some(m@),
            None => None,
        };
        let ghost b = self.buffer();
        let ghost out0 = records_view(output@);
        let trigger_emit = match detection_status {
            DetectionStatus::NoTrace => true,
            DetectionStatus::EndTrace => true,
            _ => false,
        };
        if self.accumulated_messages.len() == 0 && trigger_emit {
            output.push(le.duplicate());
            assert(records_view(output@) =~= out0 + seq![le@]);
            return;
        }
        match detection_status {
            DetectionStatus::InsideTrace => {
                self.add(le, message, now);
                assert(records_view(output@) =~= out0 + seq![]);
            },
            DetectionStatus::EndTrace => {
                self.add(le, message, now);
                self.flush(output);
            },
            DetectionStatus::NoTrace => {
                self.flush(output);
                let ghost out1 = records_view(output@);
                match message {
                    Some(_) => {
                        self.add(le, message, now);
                        self.flush(output);
                        assert(records_view(output@) =~= out0 + (flushed_records(b)
                            + flushed_records(added(cleared(b), le@, msg, now as int))));
                    },
                    None => {
                        let ghost before = output@;
                        output.push(le.duplicate());
                        assert(records_view(output@) =~= records_view(before).push(le@));
                        assert(records_view(output@) =~= out0 + flushed_records(b).push(le@));
                    },
                }
            },
            DetectionStatus::StartTrace => {
                self.flush(output);
                self.add(le, message, now);
            },
        }
    }

    /// Takes record `le`, received at `now`: classifies its message, and
    /// buffers or emits as the classification and the limits decide.
    pub fn push_at(&mut self, le: &LogEvent, now: i64, output: &mut Vec<LogEvent>)
        requires
            old(self).wf(),
        ensures
            final(self).wf(),
            final(self).limits() == old(self).limits(),
            old(self).within_limits() ==> final(self).within_limits(),
            (final(self).buffer(), records_view(final(output)@)) == {
                let (b, out) = pushed(old(self).limits(), old(self).buffer(), le@, now as int);
                (b, records_view(old(output)@) + out)
            },
    {
        let ghost l = self.limits();
        let ghost b = self.buffer();
        let ghost out0 = records_view(output@);
        let mut detection_status = DetectionStatus::NoTrace;
        let message = le.get(MESSAGE_KEY);
        match message {
            None => {
                self.detector.reset();
            },
            Some(s) => {
                let n = s.as_str().len();
                if self.exceeds_bytes(n) {
                    self.force_flush(output);
                }
                detection_status = self.detector.update(s);
            },
        }
        let ghost b1 = self.buffer();
        let ghost out1 = records_view(output@);
        self.update_buffer(detection_status, message, le, now, output);
        let ghost b2 = self.buffer();
        let ghost out2 = records_view(output@);
        if self.max_lines > 0 && self.accumulated_messages.len() == self.max_lines {
            self.force_flush(output);
        }
        proof {
            match message_of(le@) {
                None => {
                    assert(out2 =~= out0 + (out2.subrange(out0.len() as int, out2.len() as int)));
                },
                Some(line) => {
                    assert(out2 =~= out0 + (out1.subrange(out0.len() as int, out1.len() as int)
                        + out2.subrange(out1.len() as int, out2.len() as int)));
                },
            }
            if l.max_lines > 0 && b2.lines.len() == l.max_lines {
                assert(records_view(output@) =~= out2 + records_view(output@).subrange(
                    out2.len() as int,
                    records_view(output@).len() as int,
                ));
            }
        }
    }

    /// `push_at` at the current time.
    pub fn push(&mut self, le: &LogEvent, output: &mut Vec<LogEvent>)
        requires
            old(self).wf(),
        ensures
            final(self).wf(),
            final(self).limits() == old(self).limits(),
            old(self).within_limits() ==> final(self).within_limits(),
            exists|now: int|
                (final(self).buffer(), records_view(final(output)@)) == {
                    let (b, out) = #[trigger] pushed(
                        old(self).limits(),
                        old(self).buffer(),
                        le@,
                        now,
                    );
                    (b, records_view(old(output)@) + out)
                },
    {
        let now = now_millis();
        self.push_at(le, now, output);
    }

    /// Force-flushes the pending trace when it is older than the flush
    /// interval at `now`, and reports that it did.
    pub fn flush_stale_into(&mut self, now: i64, output: &mut Vec<LogEvent>) -> (r: Option<
        DetectExceptionsStaleEventFlushed,
    >)
        requires
            old(self).wf(),
        ensures
            final(self).wf(),
            final(self).limits() == old(self).limits(),
            old(self).within_limits() ==> final(self).within_limits(),
            r is Some <==> is_stale(old(self).limits(), old(self).buffer(), now as int),
            r is Some ==> (final(self).buffer(), records_view(final(output)@)) == {
                let (b, out) = force_flushed(old(self).buffer());
                (b, records_view(old(output)@) + out)
            },
            r is None ==> final(self).buffer() == old(self).buffer() && final(output)@ == old(
                output,
            )@,
    {
        let age = (now as i128) - (self.buffer_start_time as i128);
        if age > self.multiline_flush_interval as i128 {
            self.force_flush(output);
            Some(DetectExceptionsStaleEventFlushed)
        } else {
            None
        }
    }
}

/// The lines joined by newlines.
fn join(lines: &Vec<String>) -> (r: String)
    requires
        lines@.len() > 1,
    ensures
        r@ == join_lines(lines_view(lines@)),
{
    proof {
        reveal_strlit("\n");
    }
    let ghost v = lines_view(lines@);
    let mut r = lines[0].clone();
    let mut k: usize = 1;
    assert(v.take(1).drop_last() =~= seq![]);
    while k < lines.len()
        invariant
            1 <= k <= lines@.len(),
            v == lines_view(lines@),
            r@ == join_lines(v.take(k as int)),
        decreases lines@.len() - k,
    {
        proof {
            reveal_strlit("\n");
        }
        r.append("\n");
        r.append(lines[k].as_str());
        assert(v.take(k + 1).drop_last() =~= v.take(k as int));
        k = k + 1;
    }
    assert(v.take(lines@.len() as int) =~= v);
    r
}

} // verus!
