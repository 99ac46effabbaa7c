//! The per-language rule tables.
use vstd::prelude::*;

use crate::config::ProgrammingLanguages;

verus! {

/// The states of the combined exception-detection state machine.
#[derive(Debug, Clone, PartialEq, Eq, Hash, Copy, Structural)]
pub enum ExceptionState {
    /// StartState for all languages
    StartState,
    /// Java states
    JavaStartException,
    JavaAfterException,
    Java,
    /// Python states
    Python,
    PythonCode,
    /// Php states
    PhpStackBegin,
    PhpStackFrames,
    /// Golang states
    GoAfterPanic,
    GoGoRoutine,
    GoAfterSignal,
    GoFrame1,
    GoFrame2,
    /// Ruby states
    RubyBeforeRailsTrace,
    Ruby,
    /// Dart states
    DartExc,
    DartStack,
    DartTypeErr1,
    DartTypeErr2,
    DartTypeErr3,
    DartTypeErr4,
    DartFormatErr1,
    DartFormatErr2,
    DartFormatErr3,
    DartMethodErr1,
    DartMethodErr2,
    DartMethodErr3,
}

/// How many states there are; `state_index` maps them onto `0..STATE_COUNT`.
pub const STATE_COUNT: usize = 27;

pub open spec fn state_index(s: ExceptionState) -> int {
    match s {
        ExceptionState::StartState => 0,
        ExceptionState::JavaStartException => 1,
        ExceptionState::JavaAfterException => 2,
        ExceptionState::Java => 3,
        ExceptionState::Python => 4,
        ExceptionState::PythonCode => 5,
        ExceptionState::PhpStackBegin => 6,
        ExceptionState::PhpStackFrames => 7,
        ExceptionState::GoAfterPanic => 8,
        ExceptionState::GoGoRoutine => 9,
        ExceptionState::GoAfterSignal => 10,
        ExceptionState::GoFrame1 => 11,
        ExceptionState::GoFrame2 => 12,
        ExceptionState::RubyBeforeRailsTrace => 13,
        ExceptionState::Ruby => 14,
        ExceptionState::DartExc => 15,
        ExceptionState::DartStack => 16,
        ExceptionState::DartTypeErr1 => 17,
        ExceptionState::DartTypeErr2 => 18,
        ExceptionState::DartTypeErr3 => 19,
        ExceptionState::DartTypeErr4 => 20,
        ExceptionState::DartFormatErr1 => 21,
        ExceptionState::DartFormatErr2 => 22,
        ExceptionState::DartFormatErr3 => 23,
        ExceptionState::DartMethodErr1 => 24,
        ExceptionState::DartMethodErr2 => 25,
        ExceptionState::DartMethodErr3 => 26,
    }
}

impl ExceptionState {
    /// The position of this state in a table indexed by state.
    pub fn index(&self) -> (r: usize)
        ensures
            r as int == state_index(*self),
            r < STATE_COUNT,
    {
        match self {
            ExceptionState::StartState => 0,
            ExceptionState::JavaStartException => 1,
            ExceptionState::JavaAfterException => 2,
            ExceptionState::Java => 3,
            ExceptionState::Python => 4,
            ExceptionState::PythonCode => 5,
            ExceptionState::PhpStackBegin => 6,
            ExceptionState::PhpStackFrames => 7,
            ExceptionState::GoAfterPanic => 8,
            ExceptionState::GoGoRoutine => 9,
            ExceptionState::GoAfterSignal => 10,
            ExceptionState::GoFrame1 => 11,
            ExceptionState::GoFrame2 => 12,
            ExceptionState::RubyBeforeRailsTrace => 13,
            ExceptionState::Ruby => 14,
            ExceptionState::DartExc => 15,
            ExceptionState::DartStack => 16,
            ExceptionState::DartTypeErr1 => 17,
            ExceptionState::DartTypeErr2 => 18,
            ExceptionState::DartTypeErr3 => 19,
            ExceptionState::DartTypeErr4 => 20,
            ExceptionState::DartFormatErr1 => 21,
            ExceptionState::DartFormatErr2 => 22,
            ExceptionState::DartFormatErr3 => 23,
            ExceptionState::DartMethodErr1 => 24,
            ExceptionState::DartMethodErr2 => 25,
            ExceptionState::DartMethodErr3 => 26,
        }
    }
}

/// Two distinct states have distinct indices.
pub proof fn lemma_state_index_injective(a: ExceptionState, b: ExceptionState)
    ensures
        state_index(a) == state_index(b) <==> a == b,
        0 <= state_index(a) < STATE_COUNT,
{
}

/// A rule as a value: from any of `from` states, a line matching `pattern`
/// moves the machine to `to`.
pub ghost struct RuleModel {
    pub from: Seq<ExceptionState>,
    pub pattern: Seq<char>,
    pub to: ExceptionState,
}

#[derive(Debug, Clone)]
pub struct Rule<'a> {
    pub from_states: Vec<ExceptionState>,
    pub pattern: &'a str,
    pub to_state: ExceptionState,
}

impl<'a> View for Rule<'a> {
    type V = RuleModel;

    open spec fn view(&self) -> RuleModel {
        RuleModel { from: self.from_states@, pattern: self.pattern@, to: self.to_state }
    }
}

/// The values of a sequence of rules.
pub open spec fn rule_models(rules: Seq<Rule>) -> Seq<RuleModel> {
    rules.map_values(|r: Rule| r@)
}

pub open spec fn rule_spec(from: Seq<ExceptionState>, pattern: &str, to: ExceptionState) -> RuleModel {
    RuleModel { from, pattern: pattern@, to }
}

fn rule<'a>(from_states: Vec<ExceptionState>, pattern_str: &'a str, to_state: ExceptionState) -> (r:
    Rule<'a>)
    ensures
        r@ == rule_spec(from_states@, pattern_str, to_state),
{
    Rule { from_states, pattern: pattern_str, to_state }
}

fn states1(a: ExceptionState) -> (r: Vec<ExceptionState>)
    ensures
        r@ == seq![a],
{
    let mut r = Vec::new();
    r.push(a);
    r
}

fn states2(a: ExceptionState, b: ExceptionState) -> (r: Vec<ExceptionState>)
    ensures
        r@ == seq![a, b],
{
    let mut r = states1(a);
    r.push(b);
    r
}

fn states3(a: ExceptionState, b: ExceptionState, c: ExceptionState) -> (r: Vec<ExceptionState>)
    ensures
        r@ == seq![a, b, c],
{
    let mut r = states2(a, b);
    r.push(c);
    r
}

pub open spec fn java_table() -> Seq<RuleModel> {
    seq![
        rule_spec(seq![ExceptionState::StartState, ExceptionState::JavaStartException],
            r"(?:(Exception|Error|Throwable|V8 errors stack trace)[:\r\n]|java[x]?\..*(Exception|Error))",
            ExceptionState::JavaAfterException),
        rule_spec(seq![ExceptionState::StartState, ExceptionState::JavaStartException],
            r"Error\s*$|V8 errors stack trace\s*$", ExceptionState::JavaAfterException),
        rule_spec(seq![ExceptionState::JavaAfterException], r"^[\t ]*nested exception is:[\t ]*",
            ExceptionState::JavaStartException),
        rule_spec(seq![ExceptionState::JavaAfterException], r"^[\r\n]*$", ExceptionState::JavaAfterException),
        rule_spec(seq![ExceptionState::JavaAfterException, ExceptionState::Java], "^[\t ]+(?:eval )?at ",
            ExceptionState::Java),
        rule_spec(seq![ExceptionState::JavaAfterException, ExceptionState::Java],
            r"^[\t ]+--- End of inner exception stack trace ---$", ExceptionState::Java),
        rule_spec(seq![ExceptionState::JavaAfterException, ExceptionState::Java],
            r"^--- End of stack trace from previous (?x:
           )location where exception was thrown ---$", ExceptionState::Java),
        rule_spec(seq![ExceptionState::JavaAfterException, ExceptionState::Java],
            r"^[\t ]*(?:Caused by|Suppressed):", ExceptionState::JavaAfterException),
        rule_spec(seq![ExceptionState::JavaAfterException, ExceptionState::Java],
            r"^[\t ]*... \d+ (?:more|common frames omitted)", ExceptionState::Java),
    ]
}

fn java_rules() -> (r: Vec<Rule<'static>>)
    ensures
        rule_models(r@) == java_table(),
{
    let r = vec![
        rule(states2(ExceptionState::StartState, ExceptionState::JavaStartException),
            r"(?:(Exception|Error|Throwable|V8 errors stack trace)[:\r\n]|java[x]?\..*(Exception|Error))",
            ExceptionState::JavaAfterException),
        rule(states2(ExceptionState::StartState, ExceptionState::JavaStartException),
            r"Error\s*$|V8 errors stack trace\s*$", ExceptionState::JavaAfterException),
        rule(states1(ExceptionState::JavaAfterException), r"^[\t ]*nested exception is:[\t ]*",
            ExceptionState::JavaStartException),
        rule(states1(ExceptionState::JavaAfterException), r"^[\r\n]*$", ExceptionState::JavaAfterException),
        rule(states2(ExceptionState::JavaAfterException, ExceptionState::Java), "^[\t ]+(?:eval )?at ",
            ExceptionState::Java),
        // C# nested exception.
        rule(states2(ExceptionState::JavaAfterException, ExceptionState::Java),
            r"^[\t ]+--- End of inner exception stack trace ---$", ExceptionState::Java),
        // C# exception from async code.
        rule(states2(ExceptionState::JavaAfterException, ExceptionState::Java),
            r"^--- End of stack trace from previous (?x:
           )location where exception was thrown ---$", ExceptionState::Java),
        rule(states2(ExceptionState::JavaAfterException, ExceptionState::Java),
            r"^[\t ]*(?:Caused by|Suppressed):", ExceptionState::JavaAfterException),
        rule(states2(ExceptionState::JavaAfterException, ExceptionState::Java),
            r"^[\t ]*... \d+ (?:more|common frames omitted)", ExceptionState::Java),
    ];
    assert(rule_models(r@) =~= java_table());
    r
}

pub open spec fn python_table() -> Seq<RuleModel> {
    seq![
        rule_spec(seq![ExceptionState::StartState], r"^Traceback \(most recent call last\):$", ExceptionState::Python),
        rule_spec(seq![ExceptionState::Python], r"^[\t ]+File ", ExceptionState::PythonCode),
        rule_spec(seq![ExceptionState::PythonCode], r"[^\t ]", ExceptionState::Python),
        rule_spec(seq![ExceptionState::Python], r"^(?:[^\s.():]+\.)*[^\s.():]+:", ExceptionState::StartState),
    ]
}

fn python_rules() -> (r: Vec<Rule<'static>>)
    ensures
        rule_models(r@) == python_table(),
{
    let r = vec![
        rule(states1(ExceptionState::StartState), r"^Traceback \(most recent call last\):$", ExceptionState::Python),
        rule(states1(ExceptionState::Python), r"^[\t ]+File ", ExceptionState::PythonCode),
        rule(states1(ExceptionState::PythonCode), r"[^\t ]", ExceptionState::Python),
        rule(states1(ExceptionState::Python), r"^(?:[^\s.():]+\.)*[^\s.():]+:", ExceptionState::StartState),
    ];
    assert(rule_models(r@) =~= python_table());
    r
}

pub open spec fn php_table() -> Seq<RuleModel> {
    seq![
        rule_spec(seq![ExceptionState::StartState], r"(?:PHP\s(?:Notice|Parse\serror|Fatal\serror|Warning):)|(?:exception\s'[^']+'\swith\smessage\s')", ExceptionState::PhpStackBegin),
        rule_spec(seq![ExceptionState::PhpStackBegin], r"^Stack trace:", ExceptionState::PhpStackFrames),
        rule_spec(seq![ExceptionState::PhpStackFrames], r"^#\d", ExceptionState::PhpStackFrames),
        rule_spec(seq![ExceptionState::PhpStackFrames], r"^\s+thrown in ", ExceptionState::StartState),
    ]
}

fn php_rules() -> (r: Vec<Rule<'static>>)
    ensures
        rule_models(r@) == php_table(),
{
    let r = vec![
        rule(states1(ExceptionState::StartState), r"(?:PHP\s(?:Notice|Parse\serror|Fatal\serror|Warning):)|(?:exception\s'[^']+'\swith\smessage\s')", ExceptionState::PhpStackBegin),
        rule(states1(ExceptionState::PhpStackBegin), r"^Stack trace:", ExceptionState::PhpStackFrames),
        rule(states1(ExceptionState::PhpStackFrames), r"^#\d", ExceptionState::PhpStackFrames),
        rule(states1(ExceptionState::PhpStackFrames), r"^\s+thrown in ", ExceptionState::StartState),
    ];
    assert(rule_models(r@) =~= php_table());
    r
}

pub open spec fn go_table() -> Seq<RuleModel> {
    seq![
        rule_spec(seq![ExceptionState::StartState], r"\bpanic: ", ExceptionState::GoAfterPanic),
        rule_spec(seq![ExceptionState::StartState], r"http: panic serving", ExceptionState::GoGoRoutine),
        rule_spec(seq![ExceptionState::GoAfterPanic], r"^$", ExceptionState::GoGoRoutine),
        rule_spec(seq![ExceptionState::GoAfterPanic, ExceptionState::GoAfterSignal, ExceptionState::GoFrame1], r"^$", ExceptionState::GoGoRoutine),
        rule_spec(seq![ExceptionState::GoAfterPanic], r"^\[signal ", ExceptionState::GoAfterSignal),
        rule_spec(seq![ExceptionState::GoGoRoutine], r"^goroutine \d+ \[[^\]]+\]:$", ExceptionState::GoFrame1),
        rule_spec(seq![ExceptionState::GoFrame1], r"^(?:[^\s.:]+\.)*[^\s.():]+\(|^created by ", ExceptionState::GoFrame2),
        rule_spec(seq![ExceptionState::GoFrame2], r"^\s", ExceptionState::GoFrame1),
    ]
}

fn go_rules() -> (r: Vec<Rule<'static>>)
    ensures
        rule_models(r@) == go_table(),
{
    let r = vec![
        rule(states1(ExceptionState::StartState), r"\bpanic: ", ExceptionState::GoAfterPanic),
        rule(states1(ExceptionState::StartState), r"http: panic serving", ExceptionState::GoGoRoutine),
        rule(states1(ExceptionState::GoAfterPanic), r"^$", ExceptionState::GoGoRoutine),
        rule(states3(ExceptionState::GoAfterPanic, ExceptionState::GoAfterSignal, ExceptionState::GoFrame1), r"^$", ExceptionState::GoGoRoutine),
        rule(states1(ExceptionState::GoAfterPanic), r"^\[signal ", ExceptionState::GoAfterSignal),
        rule(states1(ExceptionState::GoGoRoutine), r"^goroutine \d+ \[[^\]]+\]:$", ExceptionState::GoFrame1),
        rule(states1(ExceptionState::GoFrame1), r"^(?:[^\s.:]+\.)*[^\s.():]+\(|^created by ", ExceptionState::GoFrame2),
        rule(states1(ExceptionState::GoFrame2), r"^\s", ExceptionState::GoFrame1),
    ];
    assert(rule_models(r@) =~= go_table());
    r
}

pub open spec fn ruby_table() -> Seq<RuleModel> {
    seq![
        rule_spec(seq![ExceptionState::StartState], r"Error \(.*\):$", ExceptionState::RubyBeforeRailsTrace),
        rule_spec(seq![ExceptionState::RubyBeforeRailsTrace], r"^  $", ExceptionState::Ruby),
        rule_spec(seq![ExceptionState::RubyBeforeRailsTrace], r"^[\t ]+.*?\.rb:\d+:in `", ExceptionState::Ruby),
        rule_spec(seq![ExceptionState::Ruby], r"^[\t ]+.*?\.rb:\d+:in `", ExceptionState::Ruby),
    ]
}

fn ruby_rules() -> (r: Vec<Rule<'static>>)
    ensures
        rule_models(r@) == ruby_table(),
{
    let r = vec![
        rule(states1(ExceptionState::StartState), r"Error \(.*\):$", ExceptionState::RubyBeforeRailsTrace),
        rule(states1(ExceptionState::RubyBeforeRailsTrace), r"^  $", ExceptionState::Ruby),
        rule(states1(ExceptionState::RubyBeforeRailsTrace), r"^[\t ]+.*?\.rb:\d+:in `", ExceptionState::Ruby),
        rule(states1(ExceptionState::Ruby), r"^[\t ]+.*?\.rb:\d+:in `", ExceptionState::Ruby),
    ];
    assert(rule_models(r@) =~= ruby_table());
    r
}

pub open spec fn dart_table() -> Seq<RuleModel> {
    seq![
        rule_spec(seq![ExceptionState::StartState], r"^Unhandled exception:$", ExceptionState::DartExc),
        rule_spec(seq![ExceptionState::DartExc], r"^Instance of", ExceptionState::DartStack),
        rule_spec(seq![ExceptionState::DartExc], r"^Exception", ExceptionState::DartStack),
        rule_spec(seq![ExceptionState::DartExc], r"^Bad state", ExceptionState::DartStack),
        rule_spec(seq![ExceptionState::DartExc], r"^IntegerDivisionByZeroException", ExceptionState::DartStack),
        rule_spec(seq![ExceptionState::DartExc], r"^Invalid argument", ExceptionState::DartStack),
        rule_spec(seq![ExceptionState::DartExc], r"^RangeError", ExceptionState::DartStack),
        rule_spec(seq![ExceptionState::DartExc], r"^Assertion failed", ExceptionState::DartStack),
        rule_spec(seq![ExceptionState::DartExc], r"^Cannot instantiate", ExceptionState::DartStack),
        rule_spec(seq![ExceptionState::DartExc], r"^Reading static variable", ExceptionState::DartStack),
        rule_spec(seq![ExceptionState::DartExc], r"^UnimplementedError", ExceptionState::DartStack),
        rule_spec(seq![ExceptionState::DartExc], r"^Unsupported operation", ExceptionState::DartStack),
        rule_spec(seq![ExceptionState::DartExc], r"^Concurrent modification", ExceptionState::DartStack),
        rule_spec(seq![ExceptionState::DartExc], r"^Out of Memory", ExceptionState::DartStack),
        rule_spec(seq![ExceptionState::DartExc], r"^Stack Overflow", ExceptionState::DartStack),
        rule_spec(seq![ExceptionState::DartExc], r"^'.+?':.+?$", ExceptionState::DartTypeErr1),
        rule_spec(seq![ExceptionState::DartTypeErr1], r"^#\d+\s+.+?\(.+?\)$", ExceptionState::DartStack),
        rule_spec(seq![ExceptionState::DartTypeErr1], r"^.+?$", ExceptionState::DartTypeErr2),
        rule_spec(seq![ExceptionState::DartTypeErr2], r"^.*?\^.*?$", ExceptionState::DartTypeErr3),
        rule_spec(seq![ExceptionState::DartTypeErr3], r"^$", ExceptionState::DartTypeErr4),
        rule_spec(seq![ExceptionState::DartTypeErr4], r"^$", ExceptionState::DartStack),
        rule_spec(seq![ExceptionState::DartExc], r"^FormatException", ExceptionState::DartFormatErr1),
        rule_spec(seq![ExceptionState::DartFormatErr1], r"^#\d+\s+.+?\(.+?\)$", ExceptionState::DartStack),
        rule_spec(seq![ExceptionState::DartFormatErr1], r"^.", ExceptionState::DartFormatErr2),
        rule_spec(seq![ExceptionState::DartFormatErr2], r"^.*?\^", ExceptionState::DartFormatErr3),
        rule_spec(seq![ExceptionState::DartFormatErr3], r"^$", ExceptionState::DartStack),
        rule_spec(seq![ExceptionState::DartExc], r"^NoSuchMethodError:", ExceptionState::DartMethodErr1),
        rule_spec(seq![ExceptionState::DartMethodErr1], r"^Receiver:", ExceptionState::DartMethodErr2),
        rule_spec(seq![ExceptionState::DartMethodErr2], r"^Tried calling:", ExceptionState::DartMethodErr3),
        rule_spec(seq![ExceptionState::DartMethodErr3], r"^Found:", ExceptionState::DartStack),
        rule_spec(seq![ExceptionState::DartMethodErr3], r"^#\d+\s+.+?\(.+?\)$", ExceptionState::DartStack),
        rule_spec(seq![ExceptionState::DartStack], r"^#\d+\s+.+?\(.+?\)$", ExceptionState::DartStack),
        rule_spec(seq![ExceptionState::DartStack], r"^<asynchronous suspension>$", ExceptionState::DartStack),
    ]
}

fn dart_rules() -> (r: Vec<Rule<'static>>)
    ensures
        rule_models(r@) == dart_table(),
{
    let r = vec![
        rule(states1(ExceptionState::StartState), r"^Unhandled exception:$", ExceptionState::DartExc),
        rule(states1(ExceptionState::DartExc), r"^Instance of", ExceptionState::DartStack),
        rule(states1(ExceptionState::DartExc), r"^Exception", ExceptionState::DartStack),
        rule(states1(ExceptionState::DartExc), r"^Bad state", ExceptionState::DartStack),
        rule(states1(ExceptionState::DartExc), r"^IntegerDivisionByZeroException", ExceptionState::DartStack),
        rule(states1(ExceptionState::DartExc), r"^Invalid argument", ExceptionState::DartStack),
        rule(states1(ExceptionState::DartExc), r"^RangeError", ExceptionState::DartStack),
        rule(states1(ExceptionState::DartExc), r"^Assertion failed", ExceptionState::DartStack),
        rule(states1(ExceptionState::DartExc), r"^Cannot instantiate", ExceptionState::DartStack),
        rule(states1(ExceptionState::DartExc), r"^Reading static variable", ExceptionState::DartStack),
        rule(states1(ExceptionState::DartExc), r"^UnimplementedError", ExceptionState::DartStack),
        rule(states1(ExceptionState::DartExc), r"^Unsupported operation", ExceptionState::DartStack),
        rule(states1(ExceptionState::DartExc), r"^Concurrent modification", ExceptionState::DartStack),
        rule(states1(ExceptionState::DartExc), r"^Out of Memory", ExceptionState::DartStack),
        rule(states1(ExceptionState::DartExc), r"^Stack Overflow", ExceptionState::DartStack),
        rule(states1(ExceptionState::DartExc), r"^'.+?':.+?$", ExceptionState::DartTypeErr1),
        rule(states1(ExceptionState::DartTypeErr1), r"^#\d+\s+.+?\(.+?\)$", ExceptionState::DartStack),
        rule(states1(ExceptionState::DartTypeErr1), r"^.+?$", ExceptionState::DartTypeErr2),
        rule(states1(ExceptionState::DartTypeErr2), r"^.*?\^.*?$", ExceptionState::DartTypeErr3),
        rule(states1(ExceptionState::DartTypeErr3), r"^$", ExceptionState::DartTypeErr4),
        rule(states1(ExceptionState::DartTypeErr4), r"^$", ExceptionState::DartStack),
        rule(states1(ExceptionState::DartExc), r"^FormatException", ExceptionState::DartFormatErr1),
        rule(states1(ExceptionState::DartFormatErr1), r"^#\d+\s+.+?\(.+?\)$", ExceptionState::DartStack),
        rule(states1(ExceptionState::DartFormatErr1), r"^.", ExceptionState::DartFormatErr2),
        rule(states1(ExceptionState::DartFormatErr2), r"^.*?\^", ExceptionState::DartFormatErr3),
        rule(states1(ExceptionState::DartFormatErr3), r"^$", ExceptionState::DartStack),
        rule(states1(ExceptionState::DartExc), r"^NoSuchMethodError:", ExceptionState::DartMethodErr1),
        rule(states1(ExceptionState::DartMethodErr1), r"^Receiver:", ExceptionState::DartMethodErr2),
        rule(states1(ExceptionState::DartMethodErr2), r"^Tried calling:", ExceptionState::DartMethodErr3),
        rule(states1(ExceptionState::DartMethodErr3), r"^Found:", ExceptionState::DartStack),
        rule(states1(ExceptionState::DartMethodErr3), r"^#\d+\s+.+?\(.+?\)$", ExceptionState::DartStack),
        rule(states1(ExceptionState::DartStack), r"^#\d+\s+.+?\(.+?\)$", ExceptionState::DartStack),
        rule(states1(ExceptionState::DartStack), r"^<asynchronous suspension>$", ExceptionState::DartStack),
    ];
    assert(rule_models(r@) =~= dart_table());
    r
}


pub open spec fn all_table() -> Seq<RuleModel> {
    java_table() + python_table() + php_table() + go_table() + ruby_table() + dart_table()
}

fn all_rules() -> (r: Vec<Rule<'static>>)
    ensures
        rule_models(r@) == all_table(),
{
    let mut r = java_rules();
    let mut python = python_rules();
    let mut php = php_rules();
    let mut go = go_rules();
    let mut ruby = ruby_rules();
    let mut dart = dart_rules();
    r.append(&mut python);
    r.append(&mut php);
    r.append(&mut go);
    r.append(&mut ruby);
    r.append(&mut dart);
    assert(rule_models(r@) =~= all_table());
    r
}

/// The rules of one language. Javascript and C# share Java's table; `All`
/// holds every table, in the order Java, Python, Php, Go, Ruby, Dart.
pub open spec fn lang_table(lang: ProgrammingLanguages) -> Seq<RuleModel> {
    match lang {
        ProgrammingLanguages::Java => java_table(),
        ProgrammingLanguages::Javascript => java_table(),
        ProgrammingLanguages::Js => java_table(),
        ProgrammingLanguages::Csharp => java_table(),
        ProgrammingLanguages::Python => python_table(),
        ProgrammingLanguages::Py => python_table(),
        ProgrammingLanguages::Php => php_table(),
        ProgrammingLanguages::Go => go_table(),
        ProgrammingLanguages::Ruby => ruby_table(),
        ProgrammingLanguages::Rb => ruby_table(),
        ProgrammingLanguages::Dart => dart_table(),
        ProgrammingLanguages::All => all_table(),
    }
}

/// The rule list of `lang`.
pub fn rules_by_lang(lang: ProgrammingLanguages) -> (r: Vec<Rule<'static>>)
    ensures
        rule_models(r@) == lang_table(lang),
{
    match lang {
        ProgrammingLanguages::Java => java_rules(),
        ProgrammingLanguages::Javascript => java_rules(),
        ProgrammingLanguages::Js => java_rules(),
        ProgrammingLanguages::Csharp => java_rules(),
        ProgrammingLanguages::Python => python_rules(),
        ProgrammingLanguages::Py => python_rules(),
        ProgrammingLanguages::Php => php_rules(),
        ProgrammingLanguages::Go => go_rules(),
        ProgrammingLanguages::Ruby => ruby_rules(),
        ProgrammingLanguages::Rb => ruby_rules(),
        ProgrammingLanguages::Dart => dart_rules(),
        ProgrammingLanguages::All => all_rules(),
    }
}

} // verus!
