//! Detection of multi-line exception traces in a stream of log records.
//!
//! Each incoming line is classified by a per-language regular-expression
//! state machine ([`detector`]); classified lines are merged into single
//! records under byte, line and time limits ([`accumulator`]); a router keeps
//! one accumulator per group of records ([`transform`]).
pub mod accumulator;
pub mod clock;
pub mod codecs;
pub mod config;
pub mod detector;
pub mod events;
pub mod laws;
pub mod pattern;
pub mod record;
pub mod rules;
pub mod transform;

pub use accumulator::TraceAccumulator;
pub use config::{ConfigError, DetectExceptionsConfig, ProgrammingLanguages};
pub use detector::{DetectionStatus, ExceptionDetector, get_state_machines};
pub use record::LogEvent;
pub use rules::{ExceptionState, Rule, rules_by_lang};
pub use transform::DetectExceptions;
