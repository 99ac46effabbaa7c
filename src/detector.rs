//! The exception detector: a state machine over lines, built from the rule
//! tables of the requested languages.
use vstd::prelude::*;

use crate::config::{ConfigError, ProgrammingLanguages};
use crate::pattern::{Pattern, compile, regex_compiles, regex_is_match};
use crate::rules::{
    ExceptionState, Rule, RuleModel, STATE_COUNT, lang_table, lemma_state_index_injective,
    rule_models, rules_by_lang, state_index,
};

verus! {

/// The classification of one line.
#[derive(Debug, PartialEq, Eq, Hash, Clone, Copy, Structural)]
pub enum DetectionStatus {
    NoTrace,
    StartTrace,
    InsideTrace,
    EndTrace,
}

/// A compiled pattern and the state that a match leads to.
pub struct RuleTarget {
    regex: Pattern,
    to_state: ExceptionState,
}

impl View for RuleTarget {
    type V = (Seq<char>, ExceptionState);

    closed spec fn view(&self) -> (Seq<char>, ExceptionState) {
        (self.regex@, self.to_state)
    }
}

pub open spec fn targets_view(ts: Seq<RuleTarget>) -> Seq<(Seq<char>, ExceptionState)> {
    ts.map_values(|t: RuleTarget| t@)
}

/// The languages actually used: an empty request means every language.
pub open spec fn effective_languages(langs: Seq<ProgrammingLanguages>) -> Seq<ProgrammingLanguages> {
    if langs.len() == 0 {
        seq![ProgrammingLanguages::All]
    } else {
        langs
    }
}

/// The rule tables of `langs`, one after the other.
pub open spec fn rules_of(langs: Seq<ProgrammingLanguages>) -> Seq<RuleModel>
    decreases langs.len(),
{
    if langs.len() == 0 {
        seq![]
    } else {
        rules_of(langs.drop_last()) + lang_table(langs.last())
    }
}

/// One `(pattern, target)` entry of rule `r` for each of the first `n` of its
/// source states that is `s`.
pub open spec fn hits(r: RuleModel, s: ExceptionState, n: int) -> Seq<(Seq<char>, ExceptionState)>
    decreases n,
{
    if n <= 0 {
        seq![]
    } else {
        hits(r, s, n - 1) + if r.from[n - 1] == s {
            seq![(r.pattern, r.to)]
        } else {
            seq![]
        }
    }
}

/// The ordered rule list of state `s` in the machine combined from `rules`.
pub open spec fn targets_of(rules: Seq<RuleModel>, s: ExceptionState) -> Seq<
    (Seq<char>, ExceptionState),
>
    decreases rules.len(),
{
    if rules.len() == 0 {
        seq![]
    } else {
        targets_of(rules.drop_last(), s) + hits(rules.last(), s, rules.last().from.len() as int)
    }
}

/// Every pattern among `rules` compiles.
pub open spec fn patterns_compile(rules: Seq<RuleModel>) -> bool {
    forall|i: int| 0 <= i < rules.len() ==> regex_compiles(#[trigger] rules[i].pattern)
}

/// The state machine of `langs`: what `get_state_machines` builds.
pub open spec fn machine_rules(langs: Seq<ProgrammingLanguages>, s: ExceptionState) -> Seq<
    (Seq<char>, ExceptionState),
> {
    targets_of(rules_of(effective_languages(langs)), s)
}

/// For each state, the ordered list of patterns tried from it and their
/// targets. Every state has a list, possibly empty.
pub struct StateMachine {
    targets: Vec<Vec<RuleTarget>>,
}

impl StateMachine {
    #[verifier::type_invariant]
    spec fn well_formed(&self) -> bool {
        self.targets@.len() == STATE_COUNT
    }

    /// The rule list of state `s`.
    pub closed spec fn rules_for(&self, s: ExceptionState) -> Seq<(Seq<char>, ExceptionState)> {
        targets_view(self.targets@[state_index(s)]@)
    }

    fn targets_for(&self, s: ExceptionState) -> (r: &Vec<RuleTarget>)
        ensures
            targets_view(r@) == self.rules_for(s),
    {
        proof {
            use_type_invariant(self);
        }
        &self.targets[s.index()]
    }
}

/// Builds the state machine of `langs` (all languages when `langs` is empty):
/// each rule of each language, in order, is appended to the list of each of
/// its source states. Fails when a pattern does not compile.
pub fn get_state_machines(langs: Vec<ProgrammingLanguages>) -> (r: Result<
    StateMachine,
    ConfigError,
>)
    ensures
        r is Ok <==> patterns_compile(rules_of(effective_languages(langs@))),
        r matches Err(e) ==> e == ConfigError::InvalidPattern,
        r matches Ok(m) ==> forall|s: ExceptionState| #[trigger]
            m.rules_for(s) == machine_rules(langs@, s),
{
    if langs.len() == 0 {
        let all = vec![ProgrammingLanguages::All];
        assert(all@ =~= effective_languages(langs@));
        build_machine(&all)
    } else {
        build_machine(&langs)
    }
}

fn build_machine(used: &Vec<ProgrammingLanguages>) -> (r: Result<StateMachine, ConfigError>)
    ensures
        r is Ok ==> patterns_compile(rules_of(used@)),
        r is Err ==> !patterns_compile(rules_of(used@)),
        r matches Err(e) ==> e == ConfigError::InvalidPattern,
        r matches Ok(m) ==> forall|s: ExceptionState| #[trigger]
            m.rules_for(s) == targets_of(rules_of(used@), s),
{
    let ghost requested = used@;
    let mut rules: Vec<Rule<'static>> = Vec::new();
    let mut i: usize = 0;
    while i < used.len()
        invariant
            0 <= i <= used@.len(),
            rule_models(rules@) == rules_of(used@.take(i as int)),
        decreases used@.len() - i,
    {
        let mut more = rules_by_lang(used[i]);
        let ghost before = rules@;
        rules.append(&mut more);
        proof {
            assert(used@.take(i + 1).drop_last() =~= used@.take(i as int));
            assert(rule_models(rules@) =~= rule_models(before) + lang_table(used@[i as int]));
        }
        i = i + 1;
    }
    assert(used@.take(used@.len() as int) =~= used@);
    let ghost rm = rule_models(rules@);
    assert(rm == rules_of(requested));
    let mut targets: Vec<Vec<RuleTarget>> = Vec::new();
    let mut k: usize = 0;
    while k < STATE_COUNT
        invariant
            0 <= k <= STATE_COUNT,
            targets@.len() == k,
            forall|t: int| 0 <= t < k ==> (#[trigger] targets@[t])@.len() == 0,
        decreases STATE_COUNT - k,
    {
        targets.push(Vec::new());
        k = k + 1;
    }
    proof {
        assert forall|s: ExceptionState| #[trigger]
            targets_view(targets@[state_index(s)]@) == targets_of(rm.take(0), s) by {
            lemma_state_index_injective(s, s);
            assert(targets_view(targets@[state_index(s)]@) =~= seq![]);
        }
    }
    let mut i: usize = 0;
    while i < rules.len()
        invariant
            0 <= i <= rules@.len(),
            rm == rule_models(rules@),
            rm == rules_of(requested),
            requested == used@,
            targets@.len() == STATE_COUNT,
            forall|s: ExceptionState| #[trigger]
                targets_view(targets@[state_index(s)]@) == targets_of(rm.take(i as int), s),
            forall|q: int| 0 <= q < i ==> regex_compiles(#[trigger] rm[q].pattern),
        decreases rules@.len() - i,
    {
        let rule = &rules[i];
        let compiled = compile(rule.pattern);
        let p = match compiled {
            Ok(p) => p,
            Err(_) => {
                assert(!regex_compiles(rm[i as int].pattern));
                assert(!patterns_compile(rules_of(requested)));
                return Err(ConfigError::InvalidPattern);
            },
        };
        let ghost r = rm[i as int];
        let mut j: usize = 0;
        while j < rule.from_states.len()
            invariant
                0 <= i < rules@.len(),
                rm == rule_models(rules@),
                r == rm[i as int],
                rule == &rules@[i as int],
                p@ == r.pattern,
                0 <= j <= r.from.len(),
                targets@.len() == STATE_COUNT,
                forall|s: ExceptionState| #[trigger]
                    targets_view(targets@[state_index(s)]@) == targets_of(rm.take(i as int), s)
                        + hits(r, s, j as int),
            decreases r.from.len() - j,
        {
            let from = rule.from_states[j];
            let idx = from.index();
            let ghost old_targets = targets@;
            targets[idx].push(RuleTarget { regex: p.duplicate(), to_state: rule.to_state });
            proof {
                assert forall|s: ExceptionState| #[trigger]
                    targets_view(targets@[state_index(s)]@) == targets_of(rm.take(i as int), s)
                        + hits(r, s, j + 1) by {
                    lemma_state_index_injective(s, from);
                    if s == from {
                        assert(targets_view(targets@[state_index(s)]@) =~= targets_view(
                            old_targets[state_index(s)]@,
                        ).push((r.pattern, r.to)));
                        assert(targets_of(rm.take(i as int), s) + hits(r, s, j + 1) =~= (
                        targets_of(rm.take(i as int), s) + hits(r, s, j as int)).push(
                            (r.pattern, r.to),
                        ));
                    } else {
                        assert(targets@[state_index(s)] == old_targets[state_index(s)]);
                        assert(targets_of(rm.take(i as int), s) + hits(r, s, j + 1) =~= (
                        targets_of(rm.take(i as int), s) + hits(r, s, j as int)));
                    }
                }
            }
            j = j + 1;
        }
        proof {
            assert(rm.take(i + 1).drop_last() =~= rm.take(i as int));
            assert(rm.take(i + 1).last() == r);
        }
        i = i + 1;
    }
    proof {
        assert(rm.take(rm.len() as int) =~= rm);
    }
    Ok(StateMachine { targets })
}

/// The target of the first entry of `ts` whose pattern matches `line`.
pub open spec fn first_match(ts: Seq<(Seq<char>, ExceptionState)>, line: Seq<char>) -> Option<
    ExceptionState,
>
    decreases ts.len(),
{
    if ts.len() == 0 {
        None
    } else if regex_is_match(ts[0].0, line) {
        Some(ts[0].1)
    } else {
        first_match(ts.drop_first(), line)
    }
}

/// One transition from `s` on `line`: whether a rule fired, and the new
/// state (`StartState` when none did).
pub open spec fn step(m: StateMachine, s: ExceptionState, line: Seq<char>) -> (bool, ExceptionState) {
    match first_match(m.rules_for(s), line) {
        Some(t) => (true, t),
        None => (false, ExceptionState::StartState),
    }
}

/// The classification of `line` from state `s`, and the state after it.
/// When no rule fires from `s`, the line is tried once more from
/// `StartState`, to see whether it begins a new trace.
pub open spec fn classify(m: StateMachine, s: ExceptionState, line: Seq<char>) -> (
    DetectionStatus,
    ExceptionState,
) {
    let (before, s1) = step(m, s, line);
    let s2 = if before {
        s1
    } else {
        step(m, s1, line).1
    };
    let after = s2 != ExceptionState::StartState;
    let status = if before && after {
        DetectionStatus::InsideTrace
    } else if before {
        DetectionStatus::EndTrace
    } else if after {
        DetectionStatus::StartTrace
    } else {
        DetectionStatus::NoTrace
    };
    (status, s2)
}

#[derive(Debug, Clone)]
pub struct ExceptionDetectorConfig {}

pub struct ExceptionDetector {
    pub state_machine: StateMachine,
    pub current_state: ExceptionState,
}

impl ExceptionDetector {
    /// Classifies `line` and moves to the state after it.
    pub fn update(&mut self, line: &String) -> (r: DetectionStatus)
        ensures
            final(self).state_machine == old(self).state_machine,
            (r, final(self).current_state) == classify(
                old(self).state_machine,
                old(self).current_state,
                line@,
            ),
    {
        let trace_seen_before = self.transition(line);
        if !trace_seen_before {
            self.transition(line);
        }
        let trace_seen_after = self.current_state != ExceptionState::StartState;
        match (trace_seen_before, trace_seen_after) {
            (true, true) => DetectionStatus::InsideTrace,
            (true, false) => DetectionStatus::EndTrace,
            (false, true) => DetectionStatus::StartTrace,
            (false, false) => DetectionStatus::NoTrace,
        }
    }

    /// Tries the rules of the current state on `message`, in order; the first
    /// that matches decides the next state, and with none it is `StartState`.
    pub fn transition(&mut self, message: &String) -> (r: bool)
        ensures
            final(self).state_machine == old(self).state_machine,
            (r, final(self).current_state) == step(
                old(self).state_machine,
                old(self).current_state,
                message@,
            ),
    {
        let transitions = self.state_machine.targets_for(self.current_state);
        let ghost ts = targets_view(transitions@);
        assert(ts.skip(0) =~= ts);
        let mut k: usize = 0;
        while k < transitions.len()
            invariant
                0 <= k <= transitions@.len(),
                ts == targets_view(transitions@),
                self.state_machine == old(self).state_machine,
                self.current_state == old(self).current_state,
                ts == self.state_machine.rules_for(self.current_state),
                first_match(ts, message@) == first_match(ts.skip(k as int), message@),
            decreases transitions@.len() - k,
        {
            let t = &transitions[k];
            assert(ts.skip(k as int)[0] == t@);
            if t.regex.is_match(message.as_str()) {
                self.current_state = t.to_state;
                return true;
            }
            assert(ts.skip(k as int).drop_first() =~= ts.skip(k + 1));
            k = k + 1;
        }
        self.current_state = ExceptionState::StartState;
        false
    }

    /// Forces the detector back to `StartState`.
    pub fn reset(&mut self)
        ensures
            final(self).state_machine == old(self).state_machine,
            final(self).current_state == ExceptionState::StartState,
    {
        self.current_state = ExceptionState::StartState;
    }
}

} // verus!
