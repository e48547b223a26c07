use tracing_formal::text::{push_decimal, same_text};
use tracing_formal::{Alternates, FieldLogger, Side, TracingFormal, Violation};

fn logger(function: &str, line: u32, callsite: &str) -> FieldLogger {
    FieldLogger::new(
        function.to_string(),
        "examples/example.rs".to_string(),
        line,
        callsite.to_string(),
    )
}

fn written(n: u32) -> String {
    let mut out = String::new();
    push_decimal(&mut out, n);
    out
}

#[test]
fn report_line_names_function_file_line_and_callsite() {
    let violation = Violation {
        function: "chau".to_string(),
        file: "examples/example.rs".to_string(),
        line: 12,
        callsite: "Identifier(0x5581e0a3c0f8)".to_string(),
        relation: 0,
        side: Side::Right,
    };
    assert_eq!(
        violation.report_line(),
        "violation: function \"chau()\" defined at examples/example.rs:12, call it at Identifier(0x5581e0a3c0f8)"
    );
}

#[test]
fn report_line_of_empty_fields() {
    let violation = Violation {
        function: String::new(),
        file: String::new(),
        line: 0,
        callsite: String::new(),
        relation: 3,
        side: Side::Left,
    };
    assert_eq!(violation.report_line(), "violation: function \"()\" defined at :0, call it at ");
}

#[test]
fn numbers_are_written_in_base_ten() {
    assert_eq!(written(0), "0");
    assert_eq!(written(7), "7");
    assert_eq!(written(9), "9");
    assert_eq!(written(10), "10");
    assert_eq!(written(12), "12");
    assert_eq!(written(100), "100");
    assert_eq!(written(1234567890), "1234567890");
    assert_eq!(written(4294967295), "4294967295");
}

#[test]
fn numbers_are_appended_to_what_is_there() {
    let mut out = "line ".to_string();
    push_decimal(&mut out, 305);
    assert_eq!(out, "line 305");
}

#[test]
fn same_text_compares_characters() {
    assert!(same_text("", ""));
    assert!(same_text("event", "event"));
    assert!(!same_text("event", "events"));
    assert!(!same_text("event", "evenT"));
    assert!(!same_text("", "e"));
    assert!(same_text("día_ñ", "día_ñ"));
    assert!(!same_text("día", "dia"));
}

#[test]
fn logger_keeps_its_provenance() {
    let logger = logger("hola", 6, "site");
    assert_eq!(logger.function, "hola");
    assert_eq!(logger.file, "examples/example.rs");
    assert_eq!(logger.line, 6);
    assert_eq!(logger.callsite, "site");
}

#[test]
fn logger_makes_the_occurrence_of_an_event() {
    let occurrence = logger("hola", 6, "site").occurrence("do_hola");
    assert_eq!(occurrence.name, "do_hola");
    assert_eq!(occurrence.function, "hola");
    assert_eq!(occurrence.file, "examples/example.rs");
    assert_eq!(occurrence.line, 6);
    assert_eq!(occurrence.callsite, "site");
}

#[test]
fn hola_chau_chau_reports_the_second_chau() {
    let relation = Alternates::new("do_hola", "do_chau").unwrap();
    let mut monitor = TracingFormal::new(vec![relation]);
    let hola = logger("hola", 6, "Identifier(0x1000)");
    let chau = logger("chau", 12, "Identifier(0x2000)");

    assert!(hola.record_str(&mut monitor, "event", "do_hola").is_empty());
    assert!(chau.record_str(&mut monitor, "event", "do_chau").is_empty());
    let reports = chau.record_str(&mut monitor, "event", "do_chau");
    assert_eq!(
        reports,
        vec![
            "violation: function \"chau()\" defined at examples/example.rs:12, call it at Identifier(0x2000)"
                .to_string()
        ]
    );
}

#[test]
fn fields_other_than_event_are_ignored() {
    let relation = Alternates::new("do_hola", "do_chau").unwrap();
    let mut monitor = TracingFormal::new(vec![relation]);
    let hola = logger("hola", 6, "site");
    assert!(hola.record_str(&mut monitor, "event", "do_hola").is_empty());
    assert!(hola.record_str(&mut monitor, "message", "do_hola").is_empty());
    assert!(hola.record_str(&mut monitor, "Event", "do_hola").is_empty());
    assert!(hola.record_str(&mut monitor, "", "do_hola").is_empty());
    assert!(hola.record_str(&mut monitor, "events", "do_hola").is_empty());
    assert_eq!(hola.record_str(&mut monitor, "event", "do_hola").len(), 1);
}

#[test]
fn one_line_is_reported_for_each_broken_relation() {
    let mut monitor = TracingFormal::new(vec![
        Alternates::new("open", "close").unwrap(),
        Alternates::new("open", "flush").unwrap(),
    ]);
    let open = logger("open_file", 40, "site-7");
    assert!(open.record_str(&mut monitor, "event", "open").is_empty());
    let reports = open.record_str(&mut monitor, "event", "open");
    let line = "violation: function \"open_file()\" defined at examples/example.rs:40, call it at site-7";
    assert_eq!(reports, vec![line.to_string(), line.to_string()]);
}
