//! The transform: one trace accumulator per group of records, driven by
//! records and by periodic ticks.
use vstd::prelude::*;

use crate::accumulator::{
    Buffer, Limits, TraceAccumulator, cleared, flushed_records, force_flushed, is_stale, pushed,
    records_view,
};
use crate::clock::now_millis;
use crate::config::{ConfigError, DetectExceptionsConfig, ProgrammingLanguages};
use crate::detector::{get_state_machines, machine_rules, patterns_compile, rules_of};
use crate::events::DetectExceptionsStaleEventFlushed;
use crate::record::{Fields, LogEvent, lookup};
use crate::rules::ExceptionState;

verus! {

/// A group key as a value: for each grouping field, the record's value of it.
pub type Key = Seq<Option<Seq<char>>>;

pub open spec fn strings_view(v: Seq<String>) -> Seq<Seq<char>> {
    v.map_values(|s: String| s@)
}

/// The key of a record with fields `fields` when grouping by `group_by`.
pub open spec fn discriminant_of(fields: Fields, group_by: Seq<Seq<char>>) -> Key {
    group_by.map_values(|f: Seq<char>| lookup(fields, f))
}

/// The values of a record's grouping fields.
pub struct Discriminant {
    values: Vec<Option<String>>,
}

pub open spec fn option_view(o: Option<String>) -> Option<Seq<char>> {
    match o {
        Some(s) => Some(s@),
        None => None,
    }
}

impl View for Discriminant {
    type V = Key;

    closed spec fn view(&self) -> Key {
        self.values@.map_values(|o: Option<String>| option_view(o))
    }
}

impl Discriminant {
    /// The key of `le` when grouping by `group_by`.
    pub fn from_log_event(le: &LogEvent, group_by: &Vec<String>) -> (r: Discriminant)
        ensures
            r@ == discriminant_of(le@, strings_view(group_by@)),
    {
        let mut values: Vec<Option<String>> = Vec::new();
        let mut i: usize = 0;
        while i < group_by.len()
            invariant
                0 <= i <= group_by@.len(),
                values@.len() == i,
                forall|j: int| 0 <= j < i ==> option_view(#[trigger] values@[j]) == lookup(
                    le@,
                    group_by@[j]@,
                ),
            decreases group_by@.len() - i,
        {
            match le.get(group_by[i].as_str()) {
                Some(v) => values.push(Some(v.clone())),
                None => values.push(None),
            }
            i = i + 1;
        }
        let r = Discriminant { values };
        assert(r@ =~= discriminant_of(le@, strings_view(group_by@)));
        r
    }

    /// Whether the two keys are equal.
    pub fn same_as(&self, other: &Discriminant) -> (r: bool)
        ensures
            r == (self@ == other@),
    {
        if self.values.len() != other.values.len() {
            assert(self@.len() != other@.len());
            return false;
        }
        let mut i: usize = 0;
        while i < self.values.len()
            invariant
                0 <= i <= self.values@.len(),
                self.values@.len() == other.values@.len(),
                forall|j: int| 0 <= j < i ==> #[trigger] self@[j] == other@[j],
            decreases self.values@.len() - i,
        {
            assert(self@[i as int] == option_view(self.values@[i as int]));
            assert(other@[i as int] == option_view(other.values@[i as int]));
            let same = match (&self.values[i], &other.values[i]) {
                (Some(a), Some(b)) => *a == *b,
                (None, None) => true,
                _ => false,
            };
            if !same {
                assert(self@[i as int] != other@[i as int]);
                return false;
            }
            i = i + 1;
        }
        assert(self@ =~= other@);
        true
    }
}

/// One group as a value: its key, its buffer and its configuration.
pub ghost struct GroupModel {
    pub key: Key,
    pub buffer: Buffer,
    pub limits: Limits,
    /// When the group last received a record (or was created), in
    /// milliseconds.
    pub last_activity: int,
}

struct Group {
    key: Discriminant,
    acc: TraceAccumulator,
    last_activity: i64,
}

spec fn group_model(g: Group) -> GroupModel {
    GroupModel {
        key: g.key@,
        buffer: g.acc.buffer(),
        limits: g.acc.limits(),
        last_activity: g.last_activity as int,
    }
}

/// The position of the group with key `k`, or the number of groups when
/// there is none.
pub open spec fn index_of_key(gs: Seq<GroupModel>, k: Key) -> int
    decreases gs.len(),
{
    if gs.len() == 0 {
        0
    } else if gs[0].key == k {
        0
    } else {
        1 + index_of_key(gs.drop_first(), k)
    }
}

/// The position of key `k` is the first position that holds it, or the
/// number of groups.
pub proof fn lemma_index_of_key(gs: Seq<GroupModel>, k: Key, i: int)
    requires
        0 <= i <= gs.len(),
        forall|j: int| 0 <= j < i ==> (#[trigger] gs[j]).key != k,
        i < gs.len() ==> gs[i].key == k,
    ensures
        index_of_key(gs, k) == i,
    decreases i,
{
    if i > 0 {
        lemma_index_of_key(gs.drop_first(), k, i - 1);
    }
}

/// A buffer with nothing pending, started at `now`.
pub open spec fn fresh_buffer(now: int) -> Buffer {
    Buffer { state: ExceptionState::StartState, lines: seq![], anchor: seq![], start: now }
}

/// One record routed: `after` is `before` where the group of key `k`
/// (created empty at `now` when there was none, at the end) has taken record
/// `rec` at `now`, and `out_after` is `out_before` followed by what it
/// emitted. No other group changes.
pub open spec fn routed(
    before: Seq<GroupModel>,
    after: Seq<GroupModel>,
    k: Key,
    rec: Fields,
    now: int,
    out_before: Seq<Fields>,
    out_after: Seq<Fields>,
) -> bool {
    let i = index_of_key(before, k);
    let found = i < before.len();
    let start = if found {
        before[i].buffer
    } else {
        fresh_buffer(now)
    };
    let g = after[i];
    &&& after.len() == if found {
        before.len()
    } else {
        before.len() + 1
    }
    &&& forall|j: int| 0 <= j < before.len() && j != i ==> #[trigger] after[j] == before[j]
    &&& g.key == k
    &&& g.last_activity == now
    &&& found ==> g.limits == before[i].limits
    &&& g.buffer == pushed(g.limits, start, rec, now).0
    &&& out_after == out_before + pushed(g.limits, start, rec, now).1
}

/// A group after a tick at `now`: force-flushed when stale.
pub open spec fn tick_group(g: GroupModel, now: int) -> GroupModel {
    if is_stale(g.limits, g.buffer, now) {
        GroupModel { buffer: force_flushed(g.buffer).0, ..g }
    } else {
        g
    }
}

/// Whether a group, after a tick at `now`, is dropped: nothing is pending and
/// it has received no record for longer than `expire`.
pub open spec fn is_expired(g: GroupModel, now: int, expire: int) -> bool {
    g.buffer.lines.len() == 0 && now - g.last_activity > expire
}

/// The groups that remain after a tick at `now`, in order.
pub open spec fn ticked(gs: Seq<GroupModel>, now: int, expire: int) -> Seq<GroupModel>
    decreases gs.len(),
{
    if gs.len() == 0 {
        seq![]
    } else {
        let g = tick_group(gs.last(), now);
        ticked(gs.drop_last(), now, expire) + if is_expired(g, now, expire) {
            seq![]
        } else {
            seq![g]
        }
    }
}

/// The records that a tick at `now` emits, group after group.
pub open spec fn tick_output(gs: Seq<GroupModel>, now: int) -> Seq<Fields>
    decreases gs.len(),
{
    if gs.len() == 0 {
        seq![]
    } else {
        tick_output(gs.drop_last(), now) + if is_stale(gs.last().limits, gs.last().buffer, now) {
            flushed_records(gs.last().buffer)
        } else {
            seq![]
        }
    }
}

/// How many groups are stale at `now`.
pub open spec fn stale_count(gs: Seq<GroupModel>, now: int) -> nat
    decreases gs.len(),
{
    if gs.len() == 0 {
        0
    } else {
        stale_count(gs.drop_last(), now) + if is_stale(gs.last().limits, gs.last().buffer, now) {
            1nat
        } else {
            0nat
        }
    }
}

/// A group once flushed.
pub open spec fn drained(g: GroupModel) -> GroupModel {
    GroupModel { buffer: cleared(g.buffer), ..g }
}

/// The records that flushing every group emits, group after group.
pub open spec fn drain_output(gs: Seq<GroupModel>) -> Seq<Fields>
    decreases gs.len(),
{
    if gs.len() == 0 {
        seq![]
    } else {
        drain_output(gs.drop_last()) + flushed_records(gs.last().buffer)
    }
}

/// The configuration of a transform, as values; durations in milliseconds.
pub ghost struct Settings {
    pub languages: Seq<ProgrammingLanguages>,
    pub group_by: Seq<Seq<char>>,
    pub expire_after: int,
    pub flush_period: int,
    pub interval: nat,
    pub max_bytes: nat,
    pub max_lines: nat,
}

pub struct DetectExceptions {
    accumulators: Vec<Group>,
    languages: Vec<ProgrammingLanguages>,
    expire_after: u64,
    flush_period: u64,
    multiline_flush_interval: u64,
    max_bytes: usize,
    max_lines: usize,
    group_by: Vec<String>,
}

fn copy_languages(v: &Vec<ProgrammingLanguages>) -> (r: Vec<ProgrammingLanguages>)
    ensures
        r@ == v@,
{
    let mut r = Vec::new();
    let mut i: usize = 0;
    while i < v.len()
        invariant
            0 <= i <= v@.len(),
            r@ == v@.take(i as int),
        decreases v@.len() - i,
    {
        r.push(v[i]);
        assert(v@.take(i + 1) =~= v@.take(i as int).push(v@[i as int]));
        i = i + 1;
    }
    assert(v@.take(v@.len() as int) =~= v@);
    r
}

fn copy_strings(v: &Vec<String>) -> (r: Vec<String>)
    ensures
        strings_view(r@) == strings_view(v@),
{
    let mut r: Vec<String> = Vec::new();
    let mut i: usize = 0;
    while i < v.len()
        invariant
            0 <= i <= v@.len(),
            r@.len() == i,
            forall|j: int| 0 <= j < i ==> (#[trigger] r@[j])@ == v@[j]@,
        decreases v@.len() - i,
    {
        r.push(v[i].clone());
        i = i + 1;
    }
    assert(strings_view(r@) =~= strings_view(v@));
    r
}

impl DetectExceptions {
    /// The groups, in the order they were created.
    pub closed spec fn groups(&self) -> Seq<GroupModel> {
        self.accumulators@.map_values(|g: Group| group_model(g))
    }

    /// The configuration the transform was built with.
    pub closed spec fn settings(&self) -> Settings {
        Settings {
            languages: self.languages@,
            group_by: strings_view(self.group_by@),
            expire_after: self.expire_after as int,
            flush_period: self.flush_period as int,
            interval: self.multiline_flush_interval as nat,
            max_bytes: self.max_bytes as nat,
            max_lines: self.max_lines as nat,
        }
    }

    /// Whether `l` is the configuration that this transform gives its groups.
    pub open spec fn configures(&self, l: Limits) -> bool {
        &&& l.max_bytes == self.settings().max_bytes
        &&& l.max_lines == self.settings().max_lines
        &&& l.interval == self.settings().interval
        &&& forall|s: ExceptionState| #[trigger]
            l.machine.rules_for(s) == machine_rules(self.settings().languages, s)
    }

    pub closed spec fn wf(&self) -> bool {
        &&& self.languages@.len() > 0
        &&& patterns_compile(rules_of(self.languages@))
        &&& forall|j: int|
            0 <= j < self.accumulators@.len() ==> {
                let g = #[trigger] self.accumulators@[j];
                &&& g.acc.wf()
                &&& g.acc.within_limits()
                &&& self.configures(g.acc.limits())
            }
        &&& forall|i: int, j: int|
            0 <= i < j < self.accumulators@.len() ==> (#[trigger] self.accumulators@[i]).key@
                != (#[trigger] self.accumulators@[j]).key@
    }

    /// Builds the transform. Fails when no language is given, or when a
    /// pattern of the given languages does not compile.
    pub fn new(config: &DetectExceptionsConfig) -> (r: Result<DetectExceptions, ConfigError>)
        ensures
            r matches Err(e) ==> (e == ConfigError::EmptyLanguages <==> config.languages@.len()
                == 0),
            r is Ok <==> config.languages@.len() > 0 && patterns_compile(
                rules_of(config.languages@),
            ),
            r matches Ok(d) ==> {
                &&& d.wf()
                &&& d.groups().len() == 0
                &&& d.settings() == (Settings {
                    languages: config.languages@,
                    group_by: strings_view(config.group_by@),
                    expire_after: config.expire_after_ms as int,
                    flush_period: config.flush_period_ms as int,
                    interval: config.multiline_flush_interval_ms as nat,
                    max_bytes: config.max_bytes as nat,
                    max_lines: config.max_lines as nat,
                })
            },
    {
        if config.languages.len() == 0 {
            return Err(ConfigError::EmptyLanguages);
        }
        match get_state_machines(copy_languages(&config.languages)) {
            Ok(_) => {},
            Err(e) => {
                return Err(e);
            },
        }
        let d = DetectExceptions {
            accumulators: Vec::new(),
            languages: copy_languages(&config.languages),
            group_by: copy_strings(&config.group_by),
            expire_after: config.expire_after_ms,
            multiline_flush_interval: config.multiline_flush_interval_ms,
            max_bytes: config.max_bytes,
            max_lines: config.max_lines,
            flush_period: config.flush_period_ms,
        };
        assert(d.groups() =~= seq![]);
        Ok(d)
    }

    /// How many groups are held.
    pub fn group_count(&self) -> (r: usize)
        ensures
            r == self.groups().len(),
    {
        self.accumulators.len()
    }

    /// The interval between ticks, in milliseconds.
    pub fn flush_period(&self) -> (r: u64)
        ensures
            r == self.settings().flush_period,
    {
        self.flush_period
    }

    /// Routes record `e`, received at `now`, to the accumulator of its group,
    /// creating that group when it is new. No other group changes.
    pub fn consume_one_at(&mut self, output: &mut Vec<LogEvent>, e: LogEvent, now: i64)
        requires
            old(self).wf(),
        ensures
            final(self).wf(),
            final(self).settings() == old(self).settings(),
            routed(
                old(self).groups(),
                final(self).groups(),
                discriminant_of(e@, old(self).settings().group_by),
                e@,
                now as int,
                records_view(old(output)@),
                records_view(final(output)@),
            ),
            old(self).configures(
                final(self).groups()[index_of_key(
                    old(self).groups(),
                    discriminant_of(e@, old(self).settings().group_by),
                )].limits,
            ),
    {
        let discriminant = Discriminant::from_log_event(&e, &self.group_by);
        let ghost k = discriminant@;
        let ghost gs = self.groups();
        let mut i: usize = 0;
        let mut found = false;
        while i < self.accumulators.len() && !found
            invariant
                0 <= i <= self.accumulators@.len(),
                gs == self.groups(),
                k == discriminant@,
                found ==> i < gs.len() && gs[i as int].key == k,
                forall|j: int| 0 <= j < i ==> (#[trigger] gs[j]).key != k,
            decreases self.accumulators@.len() - i + if found {
                0int
            } else {
                1int
            },
        {
            assert(gs[i as int] == group_model(self.accumulators@[i as int]));
            if self.accumulators[i].key.same_as(&discriminant) {
                found = true;
            } else {
                i = i + 1;
            }
        }
        proof {
            lemma_index_of_key(gs, k, i as int);
        }
        if !found {
            let acc = match TraceAccumulator::new_at(
                copy_languages(&self.languages),
                self.multiline_flush_interval,
                self.max_bytes,
                self.max_lines,
                now,
            ) {
                Ok(a) => a,
                Err(_) => {
                    return;
                },
            };
            proof {
                assert forall|s: ExceptionState| #[trigger]
                    acc.limits().machine.rules_for(s) == machine_rules(self.languages@, s) by {}
            }
            self.accumulators.push(Group { key: discriminant, acc, last_activity: now });
            proof {
                assert forall|a: int, b: int|
                    0 <= a < b < self.accumulators@.len() implies (
                    #[trigger] self.accumulators@[a]).key@ != (
                    #[trigger] self.accumulators@[b]).key@ by {
                    if b == i {
                        assert(gs[a] == group_model(self.accumulators@[a]));
                    }
                }
            }
        }
        let ghost mid = self.groups();
        let ghost mid_groups = self.accumulators@;
        assert(mid[i as int] == group_model(mid_groups[i as int]));
        self.accumulators[i].acc.push_at(&e, now, output);
        self.accumulators[i].last_activity = now;
        proof {
            assert forall|j: int| 0 <= j < self.accumulators@.len() && j != i implies #[trigger]
                self.accumulators@[j] == mid_groups[j] by {}
            assert forall|a: int, b: int|
                0 <= a < b < self.accumulators@.len() implies (
                #[trigger] self.accumulators@[a]).key@ != (#[trigger] self.accumulators@[b]).key@ by {
                assert(mid_groups[a].key@ != mid_groups[b].key@);
            }
            assert forall|j: int|
                0 <= j < gs.len() && j != i implies #[trigger] self.groups()[j] == gs[j] by {
                assert(self.accumulators@[j] == mid_groups[j]);
            }
        }
    }

    /// `consume_one_at` at the current time.
    pub fn consume_one(&mut self, output: &mut Vec<LogEvent>, e: LogEvent)
        requires
            old(self).wf(),
        ensures
            final(self).wf(),
            final(self).settings() == old(self).settings(),
            exists|now: int|
                #[trigger] routed(
                    old(self).groups(),
                    final(self).groups(),
                    discriminant_of(e@, old(self).settings().group_by),
                    e@,
                    now,
                    records_view(old(output)@),
                    records_view(final(output)@),
                ),
            old(self).configures(
                final(self).groups()[index_of_key(
                    old(self).groups(),
                    discriminant_of(e@, old(self).settings().group_by),
                )].limits,
            ),
    {
        let now = now_millis();
        self.consume_one_at(output, e, now);
        assert(routed(
            old(self).groups(),
            self.groups(),
            discriminant_of(e@, old(self).settings().group_by),
            e@,
            now as int,
            records_view(old(output)@),
            records_view(output@),
        ));
    }

    /// Flushes every group, whatever its age; used when the input ends.
    pub fn flush_all_into(&mut self, output: &mut Vec<LogEvent>)
        requires
            old(self).wf(),
        ensures
            final(self).wf(),
            final(self).settings() == old(self).settings(),
            final(self).groups().len() == old(self).groups().len(),
            forall|j: int|
                0 <= j < old(self).groups().len() ==> #[trigger] final(self).groups()[j] == drained(
                    old(self).groups()[j],
                ),
            records_view(final(output)@) == records_view(old(output)@) + drain_output(
                old(self).groups(),
            ),
    {
        let ghost gs = self.groups();
        let ghost out0 = records_view(output@);
        let mut i: usize = 0;
        while i < self.accumulators.len()
            invariant
                0 <= i <= self.accumulators@.len(),
                self.wf(),
                self.languages@ == old(self).languages@,
                self.group_by@ == old(self).group_by@,
                self.expire_after == old(self).expire_after,
                self.max_bytes == old(self).max_bytes,
                self.max_lines == old(self).max_lines,
                self.multiline_flush_interval == old(self).multiline_flush_interval,
                self.flush_period == old(self).flush_period,
                gs.len() == self.accumulators@.len(),
                forall|j: int|
                    0 <= j < i ==> #[trigger] self.groups()[j] == drained(gs[j]),
                forall|j: int| i <= j < gs.len() ==> #[trigger] self.groups()[j] == gs[j],
                records_view(output@) == out0 + drain_output(gs.take(i as int)),
            decreases self.accumulators@.len() - i,
        {
            let ghost before = self.accumulators@;
            let ghost prev = self.groups();
            assert(self.groups()[i as int] == gs[i as int]);
            self.accumulators[i].acc.flush(output);
            proof {
                assert forall|j: int| 0 <= j < gs.len() && j != i implies #[trigger]
                    self.groups()[j] == prev[j] by {
                    assert(self.accumulators@[j] == before[j]);
                }
                assert(self.groups()[i as int] == drained(gs[i as int]));
                assert(gs.take(i + 1).drop_last() =~= gs.take(i as int));
                assert forall|j: int| 0 <= j < self.accumulators@.len() && j != i implies #[trigger]
                    self.accumulators@[j] == before[j] by {}
                assert forall|j: int| 0 <= j < gs.len() && j != i implies #[trigger]
                    self.groups()[j] == group_model(before[j]) by {}
                assert forall|a: int, b: int|
                    0 <= a < b < self.accumulators@.len() implies (
                    #[trigger] self.accumulators@[a]).key@ != (
                    #[trigger] self.accumulators@[b]).key@ by {
                    assert(before[a].key@ != before[b].key@);
                }
                assert forall|j: int| 0 <= j < self.accumulators@.len() implies {
                    let g = #[trigger] self.accumulators@[j];
                    &&& g.acc.wf()
                    &&& g.acc.within_limits()
                    &&& self.configures(g.acc.limits())
                } by {
                    if j != i {
                        assert(self.accumulators@[j] == before[j]);
                    }
                }
                assert(records_view(output@) =~= out0 + drain_output(gs.take(i + 1)));
            }
            i = i + 1;
        }
        proof {
            assert(gs.take(gs.len() as int) =~= gs);
        }
    }

    /// A tick at `now`: force-flushes every stale group, then drops the groups
    /// that hold nothing and began longer than the expiry ago. Reports one
    /// event per stale flush.
    pub fn flush_stale_at(&mut self, now: i64, output: &mut Vec<LogEvent>) -> (r: Vec<
        DetectExceptionsStaleEventFlushed,
    >)
        requires
            old(self).wf(),
        ensures
            final(self).wf(),
            final(self).settings() == old(self).settings(),
            final(self).groups() == ticked(old(self).groups(), now as int, old(self).settings().expire_after),
            records_view(final(output)@) == records_view(old(output)@) + tick_output(
                old(self).groups(),
                now as int,
            ),
            r@.len() == stale_count(old(self).groups(), now as int),
    {
        let ghost gs = self.groups();
        let ghost out0 = records_view(output@);
        let mut events: Vec<DetectExceptionsStaleEventFlushed> = Vec::new();
        let mut i: usize = 0;
        while i < self.accumulators.len()
            invariant
                0 <= i <= self.accumulators@.len(),
                self.wf(),
                self.languages@ == old(self).languages@,
                self.group_by@ == old(self).group_by@,
                self.expire_after == old(self).expire_after,
                self.max_bytes == old(self).max_bytes,
                self.max_lines == old(self).max_lines,
                self.multiline_flush_interval == old(self).multiline_flush_interval,
                self.flush_period == old(self).flush_period,
                gs.len() == self.accumulators@.len(),
                forall|j: int| 0 <= j < i ==> #[trigger] self.groups()[j] == tick_group(gs[j], now as int),
                forall|j: int| i <= j < gs.len() ==> #[trigger] self.groups()[j] == gs[j],
                records_view(output@) == out0 + tick_output(gs.take(i as int), now as int),
                events@.len() == stale_count(gs.take(i as int), now as int),
            decreases self.accumulators@.len() - i,
        {
            let ghost before = self.accumulators@;
            let ghost prev = self.groups();
            assert(self.groups()[i as int] == gs[i as int]);
            let flushed = self.accumulators[i].acc.flush_stale_into(now, output);
            if let Some(ev) = flushed {
                events.push(ev);
            }
            proof {
                assert forall|j: int| 0 <= j < gs.len() && j != i implies #[trigger]
                    self.groups()[j] == prev[j] by {
                    assert(self.accumulators@[j] == before[j]);
                }
                assert(self.groups()[i as int] == tick_group(gs[i as int], now as int));
                assert(gs.take(i + 1).drop_last() =~= gs.take(i as int));
                assert forall|j: int| 0 <= j < self.accumulators@.len() && j != i implies #[trigger]
                    self.accumulators@[j] == before[j] by {}
                assert forall|j: int| 0 <= j < gs.len() && j != i implies #[trigger]
                    self.groups()[j] == group_model(before[j]) by {}
                assert forall|a: int, b: int|
                    0 <= a < b < self.accumulators@.len() implies (
                    #[trigger] self.accumulators@[a]).key@ != (
                    #[trigger] self.accumulators@[b]).key@ by {
                    assert(before[a].key@ != before[b].key@);
                }
                assert forall|j: int| 0 <= j < self.accumulators@.len() implies {
                    let g = #[trigger] self.accumulators@[j];
                    &&& g.acc.wf()
                    &&& g.acc.within_limits()
                    &&& self.configures(g.acc.limits())
                } by {
                    if j != i {
                        assert(self.accumulators@[j] == before[j]);
                    }
                }
                assert(records_view(output@) =~= out0 + tick_output(gs.take(i + 1), now as int));
            }
            i = i + 1;
        }
        proof {
            assert(gs.take(gs.len() as int) =~= gs);
        }
        let ghost fs = self.groups();
        let mut rest: Vec<Group> = Vec::new();
        std::mem::swap(&mut rest, &mut self.accumulators);
        let ghost all = rest@;
        let mut kept: Vec<Group> = Vec::new();
        let mut i: usize = 0;
        while rest.len() > 0
            invariant
                0 <= i <= all.len(),
                all.len() <= usize::MAX,
                rest@ == all.skip(i as int),
                all.len() == gs.len(),
                fs == all.map_values(|g: Group| group_model(g)),
                forall|j: int| 0 <= j < gs.len() ==> #[trigger] fs[j] == tick_group(gs[j], now as int),
                kept@.map_values(|g: Group| group_model(g)) == ticked(gs.take(i as int), now as int, self.expire_after as int),
                forall|j: int|
                    0 <= j < all.len() ==> {
                        let g = #[trigger] all[j];
                        &&& g.acc.wf()
                        &&& g.acc.within_limits()
                        &&& self.configures(g.acc.limits())
                    },
                forall|a: int, b: int|
                    0 <= a < b < all.len() ==> (#[trigger] all[a]).key@ != (#[trigger] all[b]).key@,
                forall|a: int|
                    0 <= a < kept@.len() ==> {
                        let g = #[trigger] kept@[a];
                        &&& g.acc.wf()
                        &&& g.acc.within_limits()
                        &&& self.configures(g.acc.limits())
                    },
                forall|a: int, b: int|
                    0 <= a < b < kept@.len() ==> (#[trigger] kept@[a]).key@ != (#[trigger] kept@[b]).key@,
                forall|a: int, j: int|
                    0 <= a < kept@.len() && i <= j < all.len() ==> (#[trigger] kept@[a]).key@ != (#[trigger] all[j]).key@,
            decreases all.len() - i,
        {
            assert(rest@[0] == all[i as int]);
            assert(i < all.len());
            let g = rest.remove(0);
            let ghost km = kept@.map_values(|g: Group| group_model(g));
            assert(fs[i as int] == group_model(g));
            assert(gs.take(i + 1).drop_last() =~= gs.take(i as int));
            let idle = (now as i128) - (g.last_activity as i128);
            if g.acc.accumulated_messages().len() == 0 && idle > self.expire_after as i128 {
                assert(ticked(gs.take(i + 1), now as int, self.expire_after as int) =~= km);
            } else {
                kept.push(g);
                assert(kept@.map_values(|g: Group| group_model(g)) =~= km.push(group_model(g)));
            }
            assert(rest@ =~= all.skip(i + 1));
            i = i + 1;
        }
        proof {
            assert(gs.take(gs.len() as int) =~= gs);
        }
        self.accumulators = kept;
        proof {
            assert(self.groups() =~= ticked(gs, now as int, self.expire_after as int));
        }
        events
    }

    /// A tick at the current time.
    pub fn flush_stale_into(&mut self, output: &mut Vec<LogEvent>) -> (r: Vec<
        DetectExceptionsStaleEventFlushed,
    >)
        requires
            old(self).wf(),
        ensures
            final(self).wf(),
            final(self).settings() == old(self).settings(),
            exists|now: int|
                {
                    &&& final(self).groups() == #[trigger] ticked(
                        old(self).groups(),
                        now,
                        old(self).settings().expire_after,
                    )
                    &&& records_view(final(output)@) == records_view(old(output)@) + tick_output(
                        old(self).groups(),
                        now,
                    )
                    &&& r@.len() == stale_count(old(self).groups(), now)
                },
    {
        let now = now_millis();
        let r = self.flush_stale_at(now, output);
        assert(self.groups() == ticked(old(self).groups(), now as int, old(self).settings().expire_after));
        r
    }
}

} // verus!
