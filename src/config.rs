//! Configuration of the transform.
use vstd::prelude::*;

verus! {

/// ProgrammingLanguages
#[derive(Debug, Clone, PartialEq, Eq, Hash, Copy, Structural)]
pub enum ProgrammingLanguages {
    /// Java
    Java,
    /// Javascript
    Javascript,
    /// Javascript
    Js,
    /// Csharp
    Csharp,
    /// Python
    Python,
    /// Python
    Py,
    /// Php
    Php,
    /// Go
    Go,
    /// Ruby
    Ruby,
    /// Ruby
    Rb,
    /// Dart
    Dart,
    /// All languages
    All,
}

} // verus!

verus! {

/// Why a transform or an accumulator could not be built.
#[derive(Debug, Clone, Copy, PartialEq, Eq, Structural)]
pub enum ConfigError {
    /// The list of languages was empty.
    EmptyLanguages,
    /// A rule's pattern was refused by the regex compiler.
    InvalidPattern,
}

} // verus!

verus! {

/// Configuration for the `detect_exceptions` transform. Durations are in
/// milliseconds.
pub struct DetectExceptionsConfig {
    /// Programming languages for which to detect exceptions.
    pub languages: Vec<ProgrammingLanguages>,
    /// How long a group may stay idle and empty before it is dropped.
    pub expire_after_ms: u64,
    /// The interval between checks for stale traces.
    pub flush_period_ms: u64,
    /// The fields by which records are grouped; empty means one group.
    pub group_by: Vec<String>,
    /// How old a pending trace may grow before it is flushed.
    pub multiline_flush_interval_ms: u64,
    /// Maximum number of bytes to buffer (0 means no limit).
    pub max_bytes: usize,
    /// Maximum number of lines to buffer (0 means no limit).
    pub max_lines: usize,
}

pub fn default_programming_languages() -> (r: Vec<ProgrammingLanguages>)
    ensures
        r@ == seq![ProgrammingLanguages::All],
{
    let mut r = Vec::new();
    r.push(ProgrammingLanguages::All);
    r
}

pub fn default_expire_after_ms() -> (r: u64)
    ensures
        r == 30000,
{
    30000
}

pub fn default_flush_period_ms() -> (r: u64)
    ensures
        r == 1000,
{
    1000
}

pub fn default_multiline_flush_interval_ms() -> (r: u64)
    ensures
        r == 1000,
{
    1000
}

pub fn default_max_bytes_size() -> (r: usize)
    ensures
        r == 0,
{
    0
}

pub fn default_max_lines_num() -> (r: usize)
    ensures
        r == 1000,
{
    1000
}

impl Default for DetectExceptionsConfig {
    fn default() -> (r: Self)
        ensures
            r.languages@ == seq![ProgrammingLanguages::All],
            r.expire_after_ms == 30000,
            r.flush_period_ms == 1000,
            r.group_by@.len() == 0,
            r.multiline_flush_interval_ms == 1000,
            r.max_bytes == 0,
            r.max_lines == 1000,
    {
        Self {
            languages: default_programming_languages(),
            expire_after_ms: default_expire_after_ms(),
            flush_period_ms: default_flush_period_ms(),
            multiline_flush_interval_ms: default_multiline_flush_interval_ms(),
            max_bytes: default_max_bytes_size(),
            max_lines: default_max_lines_num(),
            group_by: Vec::new(),
        }
    }
}

} // verus!
