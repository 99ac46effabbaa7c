use detect_exceptions::accumulator::TraceAccumulator;
use detect_exceptions::config::{ConfigError, DetectExceptionsConfig, ProgrammingLanguages};
use detect_exceptions::record::LogEvent;
use detect_exceptions::transform::DetectExceptions;

const JAVA_SIMPLE_EXCEPTION: &str = "
Jul 09, 2015 3:23:29 PM com.google.devtools.search.cloud.feeder.MakeLog: RuntimeException: Run from this message!
    at com.my.app.Object.do$a1(MakeLog.java:50)
    at java.lang.Thing.call(Thing.java:10)
    at com.my.app.Object.help(MakeLog.java:40)
    at sun.javax.API.method(API.java:100)
    at com.jetty.Framework.main(MakeLog.java:30)
 ";

fn java_config() -> DetectExceptionsConfig {
    let mut config = DetectExceptionsConfig::default();
    config.languages = vec![ProgrammingLanguages::Java];
    config
}

fn message(le: &LogEvent) -> Option<String> {
    le.get("message").cloned()
}

fn field(le: &LogEvent, name: &str) -> Option<String> {
    le.get(name).cloned()
}

fn java_accumulator(max_bytes: usize, max_lines: usize) -> TraceAccumulator {
    TraceAccumulator::new_at(vec![ProgrammingLanguages::Java], 1000, max_bytes, max_lines, 0)
        .unwrap()
}

#[test]
fn generate_config() {
    let config = DetectExceptionsConfig::default();
    assert_eq!(config.languages, vec![ProgrammingLanguages::All]);
    assert_eq!(config.expire_after_ms, 30000);
    assert_eq!(config.flush_period_ms, 1000);
    assert!(config.group_by.is_empty());
    assert_eq!(config.multiline_flush_interval_ms, 1000);
    assert_eq!(config.max_bytes, 0);
    assert_eq!(config.max_lines, 1000);
}

#[test]
fn test_exception_detector() {
    let mut detect_exceptions = DetectExceptions::new(&java_config()).unwrap();
    let java_simple_log = "Jul 09, 2015 3:23:39 PM new log message";
    let lines = format!("{}\n{}", JAVA_SIMPLE_EXCEPTION.trim(), java_simple_log);

    let mut output = Vec::new();
    let mut counter = 0;
    for line in lines.trim().split("\n") {
        let mut le = LogEvent::from_message(line);
        le.insert("counter", counter.to_string());
        counter += 1;
        detect_exceptions.consume_one_at(&mut output, le, 0);
    }
    detect_exceptions.flush_all_into(&mut output);

    assert_eq!(output.len(), 2);
    assert_eq!(message(&output[0]), Some(JAVA_SIMPLE_EXCEPTION.trim().to_string()));
    assert_eq!(field(&output[0], "counter"), Some("0".to_string()));
    assert_eq!(message(&output[1]), Some(java_simple_log.trim().to_string()));
    assert_eq!(field(&output[1], "counter"), Some("6".to_string()));
}

#[test]
fn empty_languages_are_refused() {
    let mut config = DetectExceptionsConfig::default();
    config.languages = vec![];
    assert_eq!(DetectExceptions::new(&config).err(), Some(ConfigError::EmptyLanguages));
}

#[test]
fn accumulator_with_no_language_uses_all() {
    let mut acc = TraceAccumulator::new_at(vec![], 1000, 0, 0, 0).unwrap();
    let mut output = Vec::new();
    acc.push_at(&LogEvent::from_message("Traceback (most recent call last):"), 0, &mut output);
    assert!(output.is_empty());
    assert_eq!(acc.accumulated_messages().len(), 1);
}

#[test]
fn second_flush_emits_nothing() {
    let mut acc = java_accumulator(0, 0);
    let mut output = Vec::new();
    acc.push_at(&LogEvent::from_message("java.lang.RuntimeException: boom"), 5, &mut output);
    acc.push_at(&LogEvent::from_message("    at a.b.C.d(C.java:1)"), 6, &mut output);
    assert!(output.is_empty());
    acc.flush(&mut output);
    assert_eq!(output.len(), 1);
    acc.flush(&mut output);
    assert_eq!(output.len(), 1);
    assert!(acc.accumulated_messages().is_empty());
}

#[test]
fn single_line_trace_comes_out_unmodified() {
    let mut acc = java_accumulator(0, 0);
    let mut output = Vec::new();
    let mut le = LogEvent::from_message("javax.servlet.ServletException: Something bad happened");
    le.insert("host", "h1".to_string());
    acc.push_at(&le, 0, &mut output);
    assert!(output.is_empty());
    assert_eq!(acc.accumulated_messages().len(), 1);
    acc.push_at(&LogEvent::from_message("plain line"), 1, &mut output);
    assert_eq!(output.len(), 2);
    assert_eq!(output[0].fields(), le.fields());
    assert_eq!(message(&output[1]), Some("plain line".to_string()));
}

#[test]
fn trace_among_unrelated_lines_is_merged() {
    let mut acc = java_accumulator(0, 0);
    let mut output = Vec::new();
    let lines = [
        "before",
        "java.lang.IllegalStateException: bad",
        "    at a.b.C.d(C.java:1)",
        "    at a.b.C.e(C.java:2)",
        "after",
    ];
    for (i, line) in lines.iter().enumerate() {
        let mut le = LogEvent::from_message(line);
        le.insert("n", i.to_string());
        acc.push_at(&le, i as i64, &mut output);
    }
    assert_eq!(output.len(), 3);
    assert_eq!(message(&output[0]), Some("before".to_string()));
    assert_eq!(
        message(&output[1]),
        Some("java.lang.IllegalStateException: bad\n    at a.b.C.d(C.java:1)\n    at a.b.C.e(C.java:2)".to_string())
    );
    assert_eq!(field(&output[1], "n"), Some("1".to_string()));
    assert_eq!(message(&output[2]), Some("after".to_string()));
    assert_eq!(field(&output[2], "n"), Some("4".to_string()));
}

#[test]
fn line_limit_flushes_at_the_limit() {
    let mut acc = java_accumulator(0, 3);
    let mut output = Vec::new();
    acc.push_at(&LogEvent::from_message("java.lang.RuntimeException: boom"), 0, &mut output);
    acc.push_at(&LogEvent::from_message("    at a.b.C.d(C.java:1)"), 0, &mut output);
    assert!(output.is_empty());
    acc.push_at(&LogEvent::from_message("    at a.b.C.e(C.java:2)"), 0, &mut output);
    assert_eq!(output.len(), 1);
    assert_eq!(
        message(&output[0]),
        Some("java.lang.RuntimeException: boom\n    at a.b.C.d(C.java:1)\n    at a.b.C.e(C.java:2)".to_string())
    );
    assert!(acc.accumulated_messages().is_empty());
    // The detector was reset: the next frame line starts nothing.
    acc.push_at(&LogEvent::from_message("    at a.b.C.f(C.java:3)"), 0, &mut output);
    assert_eq!(output.len(), 2);
}

#[test]
fn byte_limit_flushes_before_the_line() {
    let mut acc = java_accumulator(40, 0);
    let mut output = Vec::new();
    acc.push_at(&LogEvent::from_message("java.lang.RuntimeException: boom"), 0, &mut output);
    assert!(output.is_empty());
    acc.push_at(&LogEvent::from_message("    at a.b.C.d(C.java:1)"), 0, &mut output);
    assert_eq!(output.len(), 2);
    assert_eq!(message(&output[0]), Some("java.lang.RuntimeException: boom".to_string()));
    assert_eq!(message(&output[1]), Some("    at a.b.C.d(C.java:1)".to_string()));
}

#[test]
fn record_without_message_passes_through() {
    let mut acc = java_accumulator(0, 0);
    let mut output = Vec::new();
    let mut le = LogEvent::new();
    le.insert("host", "h1".to_string());
    acc.push_at(&le, 0, &mut output);
    assert_eq!(output.len(), 1);
    acc.push_at(&LogEvent::from_message("java.lang.RuntimeException: boom"), 0, &mut output);
    acc.push_at(&LogEvent::from_message("    at a.b.C.d(C.java:1)"), 0, &mut output);
    acc.push_at(&le, 0, &mut output);
    assert_eq!(output.len(), 3);
    assert_eq!(field(&output[2], "host"), Some("h1".to_string()));
    assert!(acc.accumulated_messages().is_empty());
}

#[test]
fn stale_trace_is_flushed() {
    let mut acc = java_accumulator(0, 0);
    let mut output = Vec::new();
    acc.push_at(&LogEvent::from_message("java.lang.RuntimeException: boom"), 100, &mut output);
    assert_eq!(acc.buffer_start_time(), 100);
    assert!(acc.flush_stale_into(1100, &mut output).is_none());
    assert!(output.is_empty());
    assert!(acc.flush_stale_into(1101, &mut output).is_some());
    assert_eq!(output.len(), 1);
    assert!(acc.accumulated_messages().is_empty());
}

#[test]
fn idle_group_is_removed_on_tick() {
    let mut config = java_config();
    config.expire_after_ms = 5000;
    let mut d = DetectExceptions::new(&config).unwrap();
    let mut output = Vec::new();
    d.consume_one_at(&mut output, LogEvent::from_message("java.lang.RuntimeException: boom"), 0);
    let stale = d.flush_stale_at(2000, &mut output);
    assert_eq!(stale.len(), 1);
    assert_eq!(output.len(), 1);
    assert_eq!(d.group_count(), 1);
    let stale = d.flush_stale_at(5001, &mut output);
    assert_eq!(stale.len(), 1);
    assert_eq!(output.len(), 1);
    assert_eq!(d.group_count(), 0);
}

#[test]
fn groups_do_not_mix_traces() {
    let mut config = java_config();
    config.group_by = vec!["host".to_string()];
    let mut d = DetectExceptions::new(&config).unwrap();
    let mut output = Vec::new();
    let input = [
        ("a", "java.lang.RuntimeException: from a"),
        ("b", "java.lang.IllegalStateException: from b"),
        ("a", "    at a.A.run(A.java:1)"),
        ("b", "    at b.B.run(B.java:1)"),
        ("a", "a is done"),
        ("b", "b is done"),
    ];
    for (host, line) in input {
        let mut le = LogEvent::from_message(line);
        le.insert("host", host.to_string());
        d.consume_one_at(&mut output, le, 0);
    }
    let messages: Vec<(Option<String>, Option<String>)> =
        output.iter().map(|e| (field(e, "host"), message(e))).collect();
    assert_eq!(
        messages,
        vec![
            (Some("a".to_string()), Some("java.lang.RuntimeException: from a\n    at a.A.run(A.java:1)".to_string())),
            (Some("a".to_string()), Some("a is done".to_string())),
            (Some("b".to_string()), Some("java.lang.IllegalStateException: from b\n    at b.B.run(B.java:1)".to_string())),
            (Some("b".to_string()), Some("b is done".to_string())),
        ]
    );
}

#[test]
fn one_group_mixes_interleaved_sources() {
    let mut d = DetectExceptions::new(&java_config()).unwrap();
    let mut output = Vec::new();
    d.consume_one_at(&mut output, LogEvent::from_message("java.lang.RuntimeException: from a"), 0);
    d.consume_one_at(&mut output, LogEvent::from_message("java.lang.IllegalStateException: from b"), 0);
    d.flush_all_into(&mut output);
    assert_eq!(output.len(), 2);
    assert_eq!(d.group_count(), 1);
}

#[test]
fn clock_driven_entry_points() {
    let mut acc = TraceAccumulator::new(vec![ProgrammingLanguages::Python], 1000, 0, 0).unwrap();
    let mut output = Vec::new();
    acc.push(&LogEvent::from_message("Traceback (most recent call last):"), &mut output);
    assert!(output.is_empty());
    assert!(acc.buffer_start_time() > 0);
    acc.push(&LogEvent::from_message("  File \"x.py\", line 1, in <module>"), &mut output);
    acc.push(&LogEvent::from_message("    raise Exception('spam')"), &mut output);
    acc.push(&LogEvent::from_message("Exception: spam"), &mut output);
    assert_eq!(output.len(), 1);
    assert_eq!(
        message(&output[0]),
        Some("Traceback (most recent call last):\n  File \"x.py\", line 1, in <module>\n    raise Exception('spam')\nException: spam".to_string())
    );

    let mut d = DetectExceptions::new(&java_config()).unwrap();
    let mut output = Vec::new();
    d.consume_one(&mut output, LogEvent::from_message("plain"));
    assert_eq!(output.len(), 1);
    let stale = d.flush_stale_into(&mut output);
    assert!(stale.is_empty());
    assert_eq!(d.group_count(), 1);
}

#[test]
fn recent_activity_keeps_a_group() {
    let mut config = java_config();
    config.expire_after_ms = 5000;
    let mut d = DetectExceptions::new(&config).unwrap();
    let mut output = Vec::new();
    d.consume_one_at(&mut output, LogEvent::from_message("plain at start"), 0);
    d.consume_one_at(&mut output, LogEvent::from_message("plain later"), 4000);
    assert_eq!(output.len(), 2);
    d.flush_stale_at(5001, &mut output);
    assert_eq!(d.group_count(), 1);
    d.flush_stale_at(9001, &mut output);
    assert_eq!(d.group_count(), 0);
}
