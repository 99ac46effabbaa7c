//! Properties of the accumulator and the router, proved over the
//! specifications that their operations meet.
use vstd::prelude::*;

use crate::accumulator::{
    TraceAccumulator, Buffer, Limits, added, buffered, byte_len, cleared, exceeds, flushed_records, force_flushed,
    is_stale, join_lines, pushed, total_bytes,
};
use crate::detector::{DetectionStatus, StateMachine, classify};
use crate::record::{Fields, MESSAGE_KEY, message_of, with_field};
use crate::rules::ExceptionState;
use crate::transform::{
    GroupModel, Key, fresh_buffer, index_of_key, is_expired, lemma_index_of_key, routed, tick_group,
    ticked,
};

verus! {

/// Flushing twice in a row: the second flush emits nothing and leaves the
/// buffer as the first left it.
pub proof fn lemma_flush_idempotent(b: Buffer)
    ensures
        flushed_records(cleared(b)) == Seq::<Fields>::empty(),
        cleared(cleared(b)) == cleared(b),
        force_flushed(force_flushed(b).0).1 == Seq::<Fields>::empty(),
        force_flushed(force_flushed(b).0).0 == force_flushed(b).0,
{
}

/// Flushing a valid accumulator that holds no line emits nothing and leaves
/// its buffer as it was.
pub proof fn lemma_flush_empty_accumulator(a: TraceAccumulator)
    requires
        a.wf(),
        a.buffer().lines.len() == 0,
    ensures
        flushed_records(a.buffer()) == Seq::<Fields>::empty(),
        cleared(a.buffer()) == a.buffer(),
{
    a.lemma_empty_anchor();
    assert(a.buffer().lines =~= seq![]);
    assert(flushed_records(a.buffer()) =~= Seq::<Fields>::empty());
}

/// Whether a line so classified leaves a trace open: a new one begins
/// (`StartTrace`), or, from `StartState`, the line matched a rule that leads
/// into a trace (`InsideTrace`).
pub open spec fn opens_trace(status: DetectionStatus) -> bool {
    status == DetectionStatus::StartTrace || status == DetectionStatus::InsideTrace
}

/// A line that starts a trace, taken into an empty buffer, is held alone;
/// when it is flushed, its record comes out unmodified.
pub proof fn lemma_single_line_trace(l: Limits, b: Buffer, rec: Fields, now: int)
    requires
        b.lines.len() == 0,
        message_of(rec) is Some,
        !exceeds(l, b, message_of(rec)->Some_0),
        opens_trace(classify(l.machine, b.state, message_of(rec)->Some_0).0),
        l.max_lines != 1,
    ensures
        pushed(l, b, rec, now).1 == Seq::<Fields>::empty(),
        pushed(l, b, rec, now).0.lines == seq![message_of(rec)->Some_0],
        flushed_records(pushed(l, b, rec, now).0) == seq![rec],
{
    let line = message_of(rec)->Some_0;
    let next = classify(l.machine, b.state, line).1;
    let b1 = Buffer { state: next, ..b };
    assert(flushed_records(b1) =~= seq![]);
    assert(seq![] + seq![] =~= Seq::<Fields>::empty());
}

/// A line unrelated to any trace, taken into an empty buffer, comes out at
/// once and unchanged.
pub proof fn lemma_unrelated_line_passes(l: Limits, b: Buffer, rec: Fields, now: int)
    requires
        b.lines.len() == 0,
        message_of(rec) is Some,
        !exceeds(l, b, message_of(rec)->Some_0),
        classify(l.machine, b.state, message_of(rec)->Some_0).0 == DetectionStatus::NoTrace,
    ensures
        pushed(l, b, rec, now).1 == seq![rec],
        pushed(l, b, rec, now).0.lines.len() == 0,
{
    assert(seq![] + seq![rec] =~= seq![rec]);
}

/// A pending trace followed by a line unrelated to any trace: the trace
/// comes out as one record, then the line, unchanged.
pub proof fn lemma_trace_then_unrelated_line(l: Limits, b: Buffer, rec: Fields, now: int)
    requires
        b.lines.len() > 1,
        message_of(rec) is Some,
        !exceeds(l, b, message_of(rec)->Some_0),
        classify(l.machine, b.state, message_of(rec)->Some_0).0 == DetectionStatus::NoTrace,
    ensures
        pushed(l, b, rec, now).1 == seq![
            with_field(b.anchor, MESSAGE_KEY@, join_lines(b.lines)),
            rec,
        ],
        pushed(l, b, rec, now).0.lines.len() == 0,
{
    let line = message_of(rec)->Some_0;
    let next = classify(l.machine, b.state, line).1;
    let b1 = Buffer { state: next, ..b };
    let a = added(cleared(b1), rec, Some(line), now);
    assert(a.lines =~= seq![line]);
    assert(seq![] + (flushed_records(b1) + flushed_records(a)) =~= seq![
        with_field(b.anchor, MESSAGE_KEY@, join_lines(b.lines)),
        rec,
    ]);
}

/// The state of a detector that starts in `s` after the lines `lines`,
/// when no limit interrupts.
pub open spec fn state_after(m: StateMachine, s: ExceptionState, lines: Seq<Seq<char>>) -> ExceptionState
    decreases lines.len(),
{
    if lines.len() == 0 {
        s
    } else {
        classify(m, state_after(m, s, lines.drop_last()), lines.last()).1
    }
}

/// The classification of line `k` of `lines`, fed in turn from state `s`.
pub open spec fn status_at(m: StateMachine, s: ExceptionState, lines: Seq<Seq<char>>, k: int) -> DetectionStatus {
    classify(m, state_after(m, s, lines.take(k)), lines[k]).0
}

/// The records `recs`, received at `times`, pushed in turn.
pub open spec fn push_all(l: Limits, b: Buffer, recs: Seq<Fields>, times: Seq<int>) -> (Buffer, Seq<Fields>)
    decreases recs.len(),
{
    if recs.len() == 0 {
        (b, seq![])
    } else {
        let (b1, out1) = push_all(l, b, recs.drop_last(), times);
        let (b2, out2) = pushed(l, b1, recs.last(), times[recs.len() - 1]);
        (b2, out1 + out2)
    }
}

proof fn lemma_total_bytes_prefix(lines: Seq<Seq<char>>, k: int)
    requires
        0 <= k <= lines.len(),
    ensures
        total_bytes(lines.take(k)) <= total_bytes(lines),
    decreases lines.len() - k,
{
    if k < lines.len() {
        lemma_total_bytes_prefix(lines, k + 1);
        assert(lines.take(k + 1).drop_last() =~= lines.take(k));
    } else {
        assert(lines.take(k) =~= lines);
    }
}

/// The lines of one trace, none of them past a limit, pushed in turn into
/// an empty buffer: nothing comes out, the buffer holds every line with the
/// first record as anchor, and its flush is one record, the first one with
/// its message replaced by the lines joined by newlines.
pub proof fn lemma_trace_merged(
    l: Limits,
    b: Buffer,
    recs: Seq<Fields>,
    lines: Seq<Seq<char>>,
    times: Seq<int>,
)
    requires
        b.lines.len() == 0,
        recs.len() > 1,
        lines.len() == recs.len(),
        times.len() >= recs.len(),
        forall|k: int| 0 <= k < recs.len() ==> message_of(#[trigger] recs[k]) == Some(lines[k]),
        opens_trace(status_at(l.machine, b.state, lines, 0)),
        forall|k: int|
            0 < k < recs.len() ==> #[trigger] status_at(l.machine, b.state, lines, k)
                == DetectionStatus::InsideTrace,
        l.max_lines == 0 || l.max_lines > recs.len(),
        if l.max_bytes > 0 {
            total_bytes(lines) <= l.max_bytes
        } else {
            total_bytes(lines) <= usize::MAX
        },
    ensures
        push_all(l, b, recs, times) == (
        Buffer {
            state: state_after(l.machine, b.state, lines),
            lines: lines,
            anchor: recs[0],
            start: times[0],
        },
        Seq::<Fields>::empty()),
        flushed_records(push_all(l, b, recs, times).0) == seq![
            with_field(recs[0], MESSAGE_KEY@, join_lines(lines)),
        ],
{
    lemma_trace_prefix(l, b, recs, lines, times, recs.len() as int);
    assert(recs.take(recs.len() as int) =~= recs);
    assert(lines.take(lines.len() as int) =~= lines);
}

proof fn lemma_trace_prefix(
    l: Limits,
    b: Buffer,
    recs: Seq<Fields>,
    lines: Seq<Seq<char>>,
    times: Seq<int>,
    n: int,
)
    requires
        b.lines.len() == 0,
        1 <= n <= recs.len(),
        lines.len() == recs.len(),
        times.len() >= recs.len(),
        forall|k: int| 0 <= k < recs.len() ==> message_of(#[trigger] recs[k]) == Some(lines[k]),
        opens_trace(status_at(l.machine, b.state, lines, 0)),
        forall|k: int|
            0 < k < recs.len() ==> #[trigger] status_at(l.machine, b.state, lines, k)
                == DetectionStatus::InsideTrace,
        l.max_lines == 0 || l.max_lines > recs.len(),
        if l.max_bytes > 0 {
            total_bytes(lines) <= l.max_bytes
        } else {
            total_bytes(lines) <= usize::MAX
        },
    ensures
        push_all(l, b, recs.take(n), times) == (
        Buffer {
            state: state_after(l.machine, b.state, lines.take(n)),
            lines: lines.take(n),
            anchor: recs[0],
            start: times[0],
        },
        Seq::<Fields>::empty()),
    decreases n,
{
    let m = l.machine;
    let prev = recs.take(n).drop_last();
    assert(prev =~= recs.take(n - 1));
    assert(lines.take(n).drop_last() =~= lines.take(n - 1));
    assert(recs.take(n).last() == recs[n - 1]);
    lemma_total_bytes_prefix(lines, n);
    let line = lines[n - 1];
    if n == 1 {
        assert(recs.take(0) =~= Seq::<Fields>::empty());
        assert(lines.take(0) =~= Seq::<Seq<char>>::empty());
        assert(lines.take(1) =~= seq![line]);
        assert(total_bytes(lines.take(1)) == byte_len(line)) by {
            assert(lines.take(1).drop_last() =~= Seq::<Seq<char>>::empty());
            assert(lines.take(1).last() == line);
            assert(total_bytes(Seq::<Seq<char>>::empty()) == 0);
            assert(total_bytes(lines.take(1)) == total_bytes(lines.take(1).drop_last()) + byte_len(
                lines.take(1).last(),
            ));
        }
        assert(!exceeds(l, b, line));
        let (status, next) = classify(m, b.state, line);
        assert(opens_trace(status));
        let b1 = Buffer { state: next, ..b };
        assert(buffered(b1, status, Some(line), recs[0], times[0]).1 =~= Seq::<Fields>::empty());
        assert(added(cleared(b1), recs[0], Some(line), times[0]).lines =~= seq![line]);
        assert(added(b1, recs[0], Some(line), times[0]).lines =~= seq![line]);
        assert(cleared(b1).lines =~= b1.lines);
        assert(buffered(b1, status, Some(line), recs[0], times[0]).0 == added(
            b1,
            recs[0],
            Some(line),
            times[0],
        ));
        assert(recs.take(1).drop_last() =~= recs.take(0));
        assert(Seq::<Fields>::empty() + (Seq::<Fields>::empty() + Seq::<Fields>::empty())
            =~= Seq::<Fields>::empty());
    } else {
        lemma_trace_prefix(l, b, recs, lines, times, n - 1);
        let b0 = push_all(l, b, recs.take(n - 1), times).0;
        assert(b0.lines == lines.take(n - 1));
        assert(total_bytes(lines.take(n)) == total_bytes(lines.take(n - 1)) + byte_len(line));
        assert(!exceeds(l, b0, line));
        assert(status_at(m, b.state, lines, n - 1) == DetectionStatus::InsideTrace);
        let (status, next) = classify(m, b0.state, line);
        assert(lines.take(n) =~= lines.take(n - 1).push(line));
        assert(Seq::<Fields>::empty() + (Seq::<Fields>::empty() + Seq::<Fields>::empty())
            =~= Seq::<Fields>::empty());
    }
}

/// With a line limit of `L`, the line that brings a pending trace to `L`
/// lines flushes it at once, though the trace has not ended.
pub proof fn lemma_line_limit(l: Limits, b: Buffer, rec: Fields, now: int)
    requires
        l.max_lines > 0,
        b.lines.len() > 0,
        b.lines.len() + 1 == l.max_lines,
        message_of(rec) is Some,
        !exceeds(l, b, message_of(rec)->Some_0),
        classify(l.machine, b.state, message_of(rec)->Some_0).0 == DetectionStatus::InsideTrace,
    ensures
        pushed(l, b, rec, now).0.lines.len() == 0,
        pushed(l, b, rec, now).0.state == ExceptionState::StartState,
        pushed(l, b, rec, now).1 == flushed_records(
            Buffer { lines: b.lines.push(message_of(rec)->Some_0), ..b },
        ),
{
    let line = message_of(rec)->Some_0;
    let next = classify(l.machine, b.state, line).1;
    let b1 = Buffer { state: next, ..b };
    assert(flushed_records(added(b1, rec, Some(line), now)) == flushed_records(
        Buffer { lines: b.lines.push(line), ..b },
    ));
    assert(Seq::<Fields>::empty() + Seq::<Fields>::empty() + flushed_records(
        added(b1, rec, Some(line), now),
    ) =~= flushed_records(added(b1, rec, Some(line), now)));
}

/// After a tick at `now`, no remaining group holds a stale trace, and none
/// is empty and idle for longer than `expire`.
pub proof fn lemma_tick_clears_stale(gs: Seq<GroupModel>, now: int, expire: int)
    ensures
        forall|i: int|
            0 <= i < ticked(gs, now, expire).len() ==> {
                let g = #[trigger] ticked(gs, now, expire)[i];
                &&& g.buffer.lines.len() == 0 || !is_stale(g.limits, g.buffer, now)
                &&& !is_expired(g, now, expire)
            },
    decreases gs.len(),
{
    if gs.len() > 0 {
        lemma_tick_clears_stale(gs.drop_last(), now, expire);
        let g = tick_group(gs.last(), now);
        let rest = ticked(gs.drop_last(), now, expire);
        assert forall|i: int| 0 <= i < ticked(gs, now, expire).len() implies {
            let h = #[trigger] ticked(gs, now, expire)[i];
            &&& h.buffer.lines.len() == 0 || !is_stale(h.limits, h.buffer, now)
            &&& !is_expired(h, now, expire)
        } by {
            if i < rest.len() {
                assert(ticked(gs, now, expire)[i] == rest[i]);
            } else {
                assert(ticked(gs, now, expire)[i] == g);
            }
        }
    }
}

/// The items of `xs` whose key in `keys` is `k`, in order.
pub open spec fn select<T>(keys: Seq<Key>, xs: Seq<T>, k: Key) -> Seq<T>
    decreases xs.len(),
{
    if xs.len() == 0 {
        seq![]
    } else {
        select(keys, xs.drop_last(), k) + if keys[xs.len() - 1] == k {
            seq![xs.last()]
        } else {
            seq![]
        }
    }
}

/// The records emitted at the steps whose key in `keys` is `k`, in order.
pub open spec fn select_emitted(keys: Seq<Key>, emitted: Seq<Seq<Fields>>, k: Key) -> Seq<Fields>
    decreases emitted.len(),
{
    if emitted.len() == 0 {
        seq![]
    } else {
        select_emitted(keys, emitted.drop_last(), k) + if keys[emitted.len() - 1] == k {
            emitted.last()
        } else {
            seq![]
        }
    }
}

proof fn lemma_index_of_key_props(gs: Seq<GroupModel>, k: Key)
    ensures
        0 <= index_of_key(gs, k) <= gs.len(),
        forall|j: int| 0 <= j < index_of_key(gs, k) ==> (#[trigger] gs[j]).key != k,
        index_of_key(gs, k) < gs.len() ==> gs[index_of_key(gs, k)].key == k,
    decreases gs.len(),
{
    if gs.len() > 0 && gs[0].key != k {
        lemma_index_of_key_props(gs.drop_first(), k);
        assert forall|j: int| 0 <= j < index_of_key(gs, k) implies (#[trigger] gs[j]).key != k by {
            if j > 0 {
                assert(gs[j] == gs.drop_first()[j - 1]);
            }
        }
    }
}

/// Groups are isolated: over any run of routing steps from no group, the
/// group of key `k` holds, and has emitted, exactly what a lone accumulator
/// with its configuration would after taking only the records of key `k`,
/// starting at the first of them. Records of other keys never reach its
/// buffer.
pub proof fn lemma_groups_isolated(
    states: Seq<Seq<GroupModel>>,
    keys: Seq<Key>,
    recs: Seq<Fields>,
    times: Seq<int>,
    emitted: Seq<Seq<Fields>>,
    k: Key,
)
    requires
        states.len() == recs.len() + 1,
        keys.len() == recs.len(),
        times.len() == recs.len(),
        emitted.len() == recs.len(),
        states[0].len() == 0,
        forall|j: int|
            0 <= j < recs.len() ==> #[trigger] routed(
                states[j],
                states[j + 1],
                keys[j],
                recs[j],
                times[j],
                seq![],
                emitted[j],
            ),
    ensures
        ({
            let last = states[recs.len() as int];
            let i = index_of_key(last, k);
            let mine = select(keys, recs, k);
            if i < last.len() {
                let run = push_all(
                    last[i].limits,
                    fresh_buffer(select(keys, times, k)[0]),
                    mine,
                    select(keys, times, k),
                );
                &&& mine.len() > 0
                &&& last[i].buffer == run.0
                &&& select_emitted(keys, emitted, k) == run.1
            } else {
                &&& mine.len() == 0
                &&& select_emitted(keys, emitted, k) == Seq::<Fields>::empty()
            }
        }),
    decreases recs.len(),
{
    let n = recs.len() as int;
    if n == 0 {
        return;
    }
    let p = n - 1;
    let pre_states = states.take(n);
    assert forall|j: int| 0 <= j < p implies #[trigger] routed(
        pre_states[j],
        pre_states[j + 1],
        keys.drop_last()[j],
        recs.drop_last()[j],
        times.drop_last()[j],
        seq![],
        emitted.drop_last()[j],
    ) by {
        assert(routed(states[j], states[j + 1], keys[j], recs[j], times[j], seq![], emitted[j]));
    }
    lemma_groups_isolated(pre_states, keys.drop_last(), recs.drop_last(), times.drop_last(), emitted.drop_last(), k);
    let before = states[p];
    let after = states[p + 1];
    assert(pre_states[p] == before);
    assert(routed(states[p], states[p + 1], keys[p], recs[p], times[p], seq![], emitted[p]));
    assert(states[recs.len() as int] == after);
    let kp = keys[p];
    let ip = index_of_key(before, kp);
    let i0 = index_of_key(before, k);
    lemma_index_of_key_props(before, k);
    lemma_index_of_key_props(before, kp);
    let mine0 = select(keys.drop_last(), recs.drop_last(), k);
    let ts0 = select(keys.drop_last(), times.drop_last(), k);
    assert(keys.drop_last() == keys.take(p));
    assert forall|q: int| 0 <= q < p implies #[trigger] keys.drop_last()[q] == keys[q] by {}
    lemma_select_prefix(keys, recs, k);
    lemma_select_prefix(keys, times, k);
    lemma_select_emitted_prefix(keys, emitted, k);
    if kp == k {
        assert(ip == i0);
        assert forall|j: int| 0 <= j < i0 implies (#[trigger] after[j]).key != k by {
            assert(after[j] == before[j]);
        }
        lemma_index_of_key(after, k, i0);
        let mine = select(keys, recs, k);
        let ts = select(keys, times, k);
        assert(mine == mine0.push(recs[p]));
        assert(ts == ts0.push(times[p]));
        assert(mine.drop_last() == mine0);
        if i0 < before.len() {
            lemma_select_len(keys.drop_last(), recs.drop_last(), times.drop_last(), k);
            assert(ts0.len() == mine0.len());
            assert(ts[0] == ts0[0]);
            lemma_push_all_times(after[i0].limits, fresh_buffer(ts0[0]), mine0, ts0, ts);
            assert(emitted[p] == pushed(after[i0].limits, before[i0].buffer, recs[p], times[p]).1) by {
                assert(Seq::<Fields>::empty() + pushed(after[i0].limits, before[i0].buffer, recs[p], times[p]).1
                    =~= pushed(after[i0].limits, before[i0].buffer, recs[p], times[p]).1);
            }
        } else {
            assert(mine0.len() == 0);
            lemma_select_len(keys.drop_last(), recs.drop_last(), times.drop_last(), k);
            assert(ts0.len() == 0);
            assert(mine =~= seq![recs[p]]);
            assert(ts =~= seq![times[p]]);
            assert(mine.drop_last() =~= Seq::<Fields>::empty());
            assert(push_all(after[i0].limits, fresh_buffer(ts[0]), mine.drop_last(), ts) == (
            fresh_buffer(ts[0]),
            Seq::<Fields>::empty()));
            assert(emitted[p] =~= Seq::<Fields>::empty() + pushed(after[i0].limits, fresh_buffer(times[p]), recs[p], times[p]).1);
            assert(select_emitted(keys.drop_last(), emitted.drop_last(), k) =~= Seq::<Fields>::empty());
        }
    } else {
        assert(select(keys, recs, k) == mine0);
        assert(select(keys, times, k) == ts0);
        assert(i0 != ip || (i0 == before.len() && ip == before.len()));
        assert forall|j: int| 0 <= j < i0 && j < after.len() implies (#[trigger] after[j]).key != k by {
            if j != ip {
                assert(after[j] == before[j]);
            }
        }
        if i0 < before.len() {
            assert(after[i0] == before[i0]);
            lemma_index_of_key(after, k, i0);
        } else {
            if ip == before.len() {
                assert(after[ip].key == kp);
            }
            lemma_index_of_key(after, k, after.len() as int);
        }
        assert(select_emitted(keys, emitted, k) =~= select_emitted(keys.drop_last(), emitted.drop_last(), k));
    }
}

/// With one group only (no grouping field, so every key is the same), that
/// group holds and has emitted exactly what a lone accumulator would after
/// taking the whole stream.
pub proof fn lemma_single_group(
    states: Seq<Seq<GroupModel>>,
    keys: Seq<Key>,
    recs: Seq<Fields>,
    times: Seq<int>,
    emitted: Seq<Seq<Fields>>,
    k: Key,
)
    requires
        recs.len() > 0,
        states.len() == recs.len() + 1,
        keys.len() == recs.len(),
        times.len() == recs.len(),
        emitted.len() == recs.len(),
        states[0].len() == 0,
        forall|j: int| 0 <= j < keys.len() ==> #[trigger] keys[j] == k,
        forall|j: int|
            0 <= j < recs.len() ==> #[trigger] routed(
                states[j],
                states[j + 1],
                keys[j],
                recs[j],
                times[j],
                seq![],
                emitted[j],
            ),
    ensures
        states[recs.len() as int].len() == 1,
        ({
            let g = states[recs.len() as int][0];
            let run = push_all(g.limits, fresh_buffer(times[0]), recs, times);
            &&& g.buffer == run.0
            &&& select_emitted(keys, emitted, k) == run.1
        }),
{
    lemma_groups_isolated(states, keys, recs, times, emitted, k);
    lemma_select_all(keys, recs, k);
    lemma_select_all(keys, times, k);
    lemma_one_group(states, keys, recs, times, emitted, k, recs.len() as int);
    lemma_index_of_key_props(states[recs.len() as int], k);
}

proof fn lemma_one_group(
    states: Seq<Seq<GroupModel>>,
    keys: Seq<Key>,
    recs: Seq<Fields>,
    times: Seq<int>,
    emitted: Seq<Seq<Fields>>,
    k: Key,
    n: int,
)
    requires
        1 <= n <= recs.len(),
        states.len() == recs.len() + 1,
        keys.len() == recs.len(),
        times.len() == recs.len(),
        emitted.len() == recs.len(),
        states[0].len() == 0,
        forall|j: int| 0 <= j < keys.len() ==> #[trigger] keys[j] == k,
        forall|j: int|
            0 <= j < recs.len() ==> #[trigger] routed(
                states[j],
                states[j + 1],
                keys[j],
                recs[j],
                times[j],
                seq![],
                emitted[j],
            ),
    ensures
        states[n].len() == 1,
        states[n][0].key == k,
    decreases n,
{
    let p = n - 1;
    assert(routed(states[p], states[p + 1], keys[p], recs[p], times[p], seq![], emitted[p]));
    if n == 1 {
        assert(index_of_key(states[0], k) == 0);
    } else {
        lemma_one_group(states, keys, recs, times, emitted, k, n - 1);
        assert(index_of_key(states[p], k) == 0);
    }
}

proof fn lemma_select_all<T>(keys: Seq<Key>, xs: Seq<T>, k: Key)
    requires
        xs.len() <= keys.len(),
        forall|j: int| 0 <= j < keys.len() ==> #[trigger] keys[j] == k,
    ensures
        select(keys, xs, k) == xs,
    decreases xs.len(),
{
    if xs.len() > 0 {
        lemma_select_all(keys, xs.drop_last(), k);
        assert(keys[xs.len() - 1] == k);
        assert(xs.drop_last().push(xs.last()) =~= xs);
    }
}

proof fn lemma_select_len<T, U>(keys: Seq<Key>, xs: Seq<T>, ys: Seq<U>, k: Key)
    requires
        xs.len() == ys.len(),
    ensures
        select(keys, xs, k).len() == select(keys, ys, k).len(),
    decreases xs.len(),
{
    if xs.len() > 0 {
        lemma_select_len(keys, xs.drop_last(), ys.drop_last(), k);
    }
}

proof fn lemma_push_all_times(l: Limits, b: Buffer, recs: Seq<Fields>, t1: Seq<int>, t2: Seq<int>)
    requires
        recs.len() <= t1.len(),
        recs.len() <= t2.len(),
        forall|q: int| 0 <= q < recs.len() ==> t1[q] == t2[q],
    ensures
        push_all(l, b, recs, t1) == push_all(l, b, recs, t2),
    decreases recs.len(),
{
    if recs.len() > 0 {
        lemma_push_all_times(l, b, recs.drop_last(), t1, t2);
    }
}

proof fn lemma_select_prefix<T>(keys: Seq<Key>, xs: Seq<T>, k: Key)
    requires
        xs.len() > 0,
        keys.len() == xs.len(),
    ensures
        select(keys, xs, k) == select(keys.drop_last(), xs.drop_last(), k) + if keys.last() == k {
            seq![xs.last()]
        } else {
            seq![]
        },
{
    lemma_select_same_keys(keys, keys.drop_last(), xs.drop_last(), k);
}

proof fn lemma_select_same_keys<T>(keys: Seq<Key>, keys2: Seq<Key>, xs: Seq<T>, k: Key)
    requires
        xs.len() <= keys.len(),
        xs.len() <= keys2.len(),
        forall|q: int| 0 <= q < xs.len() ==> keys[q] == keys2[q],
    ensures
        select(keys, xs, k) == select(keys2, xs, k),
    decreases xs.len(),
{
    if xs.len() > 0 {
        lemma_select_same_keys(keys, keys2, xs.drop_last(), k);
    }
}

proof fn lemma_select_emitted_prefix(keys: Seq<Key>, emitted: Seq<Seq<Fields>>, k: Key)
    requires
        emitted.len() > 0,
        keys.len() == emitted.len(),
    ensures
        select_emitted(keys, emitted, k) == select_emitted(keys.drop_last(), emitted.drop_last(), k)
            + if keys.last() == k {
            emitted.last()
        } else {
            seq![]
        },
{
    lemma_select_emitted_same_keys(keys, keys.drop_last(), emitted.drop_last(), k);
}

proof fn lemma_select_emitted_same_keys(keys: Seq<Key>, keys2: Seq<Key>, emitted: Seq<Seq<Fields>>, k: Key)
    requires
        emitted.len() <= keys.len(),
        emitted.len() <= keys2.len(),
        forall|q: int| 0 <= q < emitted.len() ==> keys[q] == keys2[q],
    ensures
        select_emitted(keys, emitted, k) == select_emitted(keys2, emitted, k),
    decreases emitted.len(),
{
    if emitted.len() > 0 {
        lemma_select_emitted_same_keys(keys, keys2, emitted.drop_last(), k);
    }
}

proof fn lemma_push_all_concat(l: Limits, b: Buffer, xs: Seq<Fields>, ys: Seq<Fields>, times: Seq<int>)
    requires
        xs.len() + ys.len() <= times.len(),
    ensures
        ({
            let (b1, o1) = push_all(l, b, xs, times);
            let (b2, o2) = push_all(l, b1, ys, times.skip(xs.len() as int));
            push_all(l, b, xs + ys, times) == (b2, o1 + o2)
        }),
    decreases ys.len(),
{
    let (b1, o1) = push_all(l, b, xs, times);
    if ys.len() == 0 {
        assert(xs + ys =~= xs);
        assert(o1 + Seq::<Fields>::empty() =~= o1);
    } else {
        lemma_push_all_concat(l, b, xs, ys.drop_last(), times);
        assert((xs + ys).drop_last() =~= xs + ys.drop_last());
        assert((xs + ys).last() == ys.last());
        assert(times.skip(xs.len() as int)[ys.len() - 1] == times[xs.len() + ys.len() - 1]);
        let (b2, o2) = push_all(l, b1, ys.drop_last(), times.skip(xs.len() as int));
        let (b3, o3) = pushed(l, b2, ys.last(), times[xs.len() + ys.len() - 1]);
        assert(o1 + o2 + o3 =~= o1 + (o2 + o3));
    }
}

/// Whether record `rec` carries a message that is unrelated to any trace:
/// from `StartState` no rule, or only a rule back to `StartState`, fires.
pub open spec fn is_unrelated(m: StateMachine, rec: Fields) -> bool {
    &&& message_of(rec) is Some
    &&& classify(m, ExceptionState::StartState, message_of(rec)->Some_0).0 == DetectionStatus::NoTrace
}

proof fn lemma_unrelated_run(l: Limits, b: Buffer, us: Seq<Fields>, times: Seq<int>)
    requires
        b.lines.len() == 0,
        b.state == ExceptionState::StartState,
        l.max_bytes == 0,
        us.len() <= times.len(),
        forall|j: int| 0 <= j < us.len() ==> is_unrelated(l.machine, #[trigger] us[j]),
    ensures
        push_all(l, b, us, times) == (b, us),
    decreases us.len(),
{
    if us.len() > 0 {
        lemma_unrelated_run(l, b, us.drop_last(), times);
        let rec = us.last();
        assert(is_unrelated(l.machine, us[us.len() - 1]));
        let line = message_of(rec)->Some_0;
        assert(!exceeds(l, b, line));
        let next = classify(l.machine, b.state, line).1;
        assert(next == ExceptionState::StartState);
        assert(Buffer { state: next, ..b } == b);
        assert(us.drop_last() + (Seq::<Fields>::empty() + seq![rec]) =~= us);
    }
}

/// A whole stream: unrelated lines, one trace of several lines, then
/// unrelated lines, fed from an idle buffer with no byte limit. The output is
/// the first unrelated lines unchanged, exactly one merged record (the
/// trace's first record with its message replaced by the trace's lines
/// joined by newlines), then the other unrelated lines unchanged.
pub proof fn lemma_stream_with_one_trace(
    l: Limits,
    b: Buffer,
    u1: Seq<Fields>,
    t: Seq<Fields>,
    tl: Seq<Seq<char>>,
    u2: Seq<Fields>,
    times: Seq<int>,
)
    requires
        b.lines.len() == 0,
        b.state == ExceptionState::StartState,
        l.max_bytes == 0,
        l.max_lines == 0 || l.max_lines > t.len(),
        t.len() > 1,
        tl.len() == t.len(),
        u2.len() > 0,
        times.len() == u1.len() + t.len() + u2.len(),
        forall|k: int| 0 <= k < t.len() ==> message_of(#[trigger] t[k]) == Some(tl[k]),
        opens_trace(status_at(l.machine, ExceptionState::StartState, tl, 0)),
        forall|k: int|
            0 < k < t.len() ==> #[trigger] status_at(l.machine, ExceptionState::StartState, tl, k)
                == DetectionStatus::InsideTrace,
        forall|j: int| 0 <= j < u1.len() ==> is_unrelated(l.machine, #[trigger] u1[j]),
        forall|j: int| 0 <= j < u2.len() ==> is_unrelated(l.machine, #[trigger] u2[j]),
        classify(
            l.machine,
            state_after(l.machine, ExceptionState::StartState, tl),
            message_of(u2[0])->Some_0,
        ).0 == DetectionStatus::NoTrace,
        total_bytes(tl) + byte_len(message_of(u2[0])->Some_0) <= usize::MAX,
    ensures
        push_all(l, b, u1 + t + u2, times).1 == u1 + seq![
            with_field(t[0], MESSAGE_KEY@, join_lines(tl)),
        ] + u2,
        push_all(l, b, u1 + t + u2, times).0.lines.len() == 0,
{
    let m = l.machine;
    let tt = times.skip(u1.len() as int);
    let ts2 = times.skip((u1 + t).len() as int);
    lemma_unrelated_run(l, b, u1, times);
    assert(push_all(l, b, u1, times) == (b, u1));
    lemma_trace_merged(l, b, t, tl, tt);
    let bt = push_all(l, b, t, tt).0;
    assert(push_all(l, b, t, tt).1 == Seq::<Fields>::empty());
    assert(bt.lines == tl);
    assert(bt.state == state_after(m, ExceptionState::StartState, tl));
    lemma_push_all_concat(l, b, u1, t, times);
    assert(push_all(l, b, u1 + t, times) == (bt, u1 + Seq::<Fields>::empty()));
    assert(u1 + Seq::<Fields>::empty() =~= u1);
    lemma_push_all_concat(l, b, u1 + t, u2, times);
    let rec = u2[0];
    let line = message_of(rec)->Some_0;
    assert(!exceeds(l, bt, line));
    assert(is_unrelated(m, u2[0]));
    lemma_trace_then_unrelated_line(l, bt, rec, ts2[0]);
    let (b3, o3) = pushed(l, bt, rec, ts2[0]);
    assert(o3 == seq![with_field(t[0], MESSAGE_KEY@, join_lines(tl)), rec]);
    assert(b3.lines.len() == 0);
    assert(b3.state == ExceptionState::StartState);
    let first = seq![rec];
    let rest = u2.skip(1);
    assert(first + rest =~= u2);
    assert(first.drop_last() =~= Seq::<Fields>::empty());
    assert(first.last() == rec);
    assert(push_all(l, bt, first.drop_last(), ts2) == (bt, Seq::<Fields>::empty()));
    assert(push_all(l, bt, first, ts2) == (b3, Seq::<Fields>::empty() + o3));
    assert(Seq::<Fields>::empty() + o3 =~= o3);
    lemma_push_all_concat(l, bt, first, rest, ts2);
    assert forall|j: int| 0 <= j < rest.len() implies is_unrelated(m, #[trigger] rest[j]) by {
        assert(rest[j] == u2[j + 1]);
        assert(is_unrelated(m, u2[j + 1]));
    }
    lemma_unrelated_run(l, b3, rest, ts2.skip(1));
    assert(push_all(l, bt, u2, ts2) == (b3, o3 + rest));
    assert(u1 + (o3 + rest) =~= u1 + seq![
        with_field(t[0], MESSAGE_KEY@, join_lines(tl)),
    ] + u2);
}

} // verus!
