use tracing_formal::{Alternates, Expectation, Occurrence, Side, TracingFormal, Violation};

fn fired(name: &str, function: &str, line: u32) -> Occurrence {
    Occurrence {
        name: name.to_string(),
        function: function.to_string(),
        file: "src/demo.rs".to_string(),
        line,
        callsite: format!("Identifier(0x{:x})", line),
    }
}

fn monitor_of(pairs: &[(&str, &str)]) -> TracingFormal {
    let mut relations = Vec::new();
    for (left, right) in pairs {
        relations.push(Alternates::new(left, right).unwrap());
    }
    TracingFormal::new(relations)
}

fn deliver(monitor: &mut TracingFormal, names: &[&str]) -> Vec<Violation> {
    let mut found = Vec::new();
    for (position, name) in names.iter().enumerate() {
        let occurrence = fired(name, name, position as u32 + 1);
        found.extend(monitor.on_occurrence(&occurrence));
    }
    found
}

fn states(monitor: &TracingFormal) -> Vec<Expectation> {
    monitor.relations.iter().map(|relation| relation.expectation()).collect()
}

#[test]
fn new_monitor_owns_the_relations_in_order() {
    let monitor = monitor_of(&[("a", "b"), ("c", "d")]);
    assert_eq!(monitor.relations.len(), 2);
    assert_eq!(monitor.relations[0].left_name(), "a");
    assert_eq!(monitor.relations[0].right_name(), "b");
    assert_eq!(monitor.relations[1].left_name(), "c");
    assert_eq!(monitor.relations[1].right_name(), "d");
    assert_eq!(states(&monitor), vec![Expectation::ExpectEither, Expectation::ExpectEither]);
}

#[test]
fn monitor_without_relations_reports_nothing() {
    let mut monitor = TracingFormal::new(Vec::new());
    assert!(deliver(&mut monitor, &["a", "a", "a"]).is_empty());
    assert!(monitor.relations.is_empty());
}

#[test]
fn two_rounds_yield_no_violation() {
    let mut monitor = monitor_of(&[("A", "B")]);
    assert!(deliver(&mut monitor, &["A", "B", "A", "B"]).is_empty());
    assert_eq!(states(&monitor), vec![Expectation::ExpectLeft]);
}

#[test]
fn repeated_left_yields_one_violation_on_the_second() {
    let mut monitor = monitor_of(&[("A", "B")]);
    assert!(monitor.on_occurrence(&fired("A", "first", 10)).is_empty());
    let found = monitor.on_occurrence(&fired("A", "second", 20));
    assert_eq!(found.len(), 1);
    assert_eq!(found[0].function, "second");
    assert_eq!(found[0].line, 20);
    assert_eq!(found[0].relation, 0);
    assert_eq!(found[0].side, Side::Left);
    assert_eq!(states(&monitor), vec![Expectation::ExpectRight]);
}

#[test]
fn right_after_repeated_left_adds_no_violation() {
    let mut monitor = monitor_of(&[("A", "B")]);
    let found = deliver(&mut monitor, &["A", "A", "B"]);
    assert_eq!(found.len(), 1);
    assert_eq!(found[0].line, 2);
    assert_eq!(states(&monitor), vec![Expectation::ExpectLeft]);
}

#[test]
fn right_then_left_yields_no_violation() {
    let mut monitor = monitor_of(&[("A", "B")]);
    assert!(deliver(&mut monitor, &["B", "A"]).is_empty());
    assert_eq!(states(&monitor), vec![Expectation::ExpectRight]);
}

#[test]
fn repeated_right_yields_one_violation() {
    let mut monitor = monitor_of(&[("A", "B")]);
    let found = deliver(&mut monitor, &["B", "B"]);
    assert_eq!(found.len(), 1);
    assert_eq!(found[0].line, 2);
    assert_eq!(found[0].side, Side::Right);
    assert_eq!(states(&monitor), vec![Expectation::ExpectLeft]);
}

#[test]
fn unrelated_names_change_nothing_and_report_nothing() {
    let mut monitor = monitor_of(&[("A", "B")]);
    assert!(deliver(&mut monitor, &["C", "", "a", "AB", "A ", "C"]).is_empty());
    assert_eq!(states(&monitor), vec![Expectation::ExpectEither]);
    assert!(deliver(&mut monitor, &["A"]).is_empty());
    assert!(deliver(&mut monitor, &["C", "D", "C"]).is_empty());
    assert_eq!(states(&monitor), vec![Expectation::ExpectRight]);
    assert_eq!(monitor.relations[0].left_name(), "A");
    assert_eq!(monitor.relations[0].right_name(), "B");
}

#[test]
fn unrelated_names_between_a_repetition_do_not_hide_it() {
    let mut monitor = monitor_of(&[("A", "B")]);
    let found = deliver(&mut monitor, &["A", "C", "C", "A"]);
    assert_eq!(found.len(), 1);
    assert_eq!(found[0].line, 4);
}

#[test]
fn self_paired_relation_evaluates_each_occurrence_twice() {
    // As left the occurrence makes the relation expect the right side, as
    // right it makes it expect the left side again: nothing is reported.
    let mut monitor = monitor_of(&[("T", "T")]);
    assert!(deliver(&mut monitor, &["T"]).is_empty());
    assert_eq!(states(&monitor), vec![Expectation::ExpectLeft]);
    assert!(deliver(&mut monitor, &["T", "T", "T"]).is_empty());
    assert_eq!(states(&monitor), vec![Expectation::ExpectLeft]);
}

#[test]
fn self_paired_relation_that_expects_right_reports_the_left_evaluation() {
    let mut relation = Alternates::new("T", "T").unwrap();
    assert!(relation.evaluate(true, false));
    let mut monitor = TracingFormal::new(vec![relation]);
    assert_eq!(states(&monitor), vec![Expectation::ExpectRight]);
    let found = monitor.on_occurrence(&fired("T", "tick", 5));
    assert_eq!(found.len(), 1);
    assert_eq!(found[0].side, Side::Left);
    assert_eq!(states(&monitor), vec![Expectation::ExpectLeft]);
}

#[test]
fn violation_carries_the_provenance_of_the_occurrence() {
    let mut monitor = monitor_of(&[("A", "B")]);
    let occurrence = Occurrence {
        name: "B".to_string(),
        function: "chau".to_string(),
        file: "examples/example.rs".to_string(),
        line: 12,
        callsite: "Identifier(0x55d0c0)".to_string(),
    };
    assert!(monitor.on_occurrence(&occurrence).is_empty());
    let found = monitor.on_occurrence(&occurrence);
    assert_eq!(
        found,
        vec![Violation {
            function: "chau".to_string(),
            file: "examples/example.rs".to_string(),
            line: 12,
            callsite: "Identifier(0x55d0c0)".to_string(),
            relation: 0,
            side: Side::Right,
        }]
    );
}

#[test]
fn every_matching_relation_judges_the_occurrence() {
    let mut monitor = monitor_of(&[("A", "B"), ("C", "D"), ("A", "C")]);
    assert!(deliver(&mut monitor, &["A"]).is_empty());
    assert_eq!(
        states(&monitor),
        vec![Expectation::ExpectRight, Expectation::ExpectEither, Expectation::ExpectRight]
    );
    let found = deliver(&mut monitor, &["A"]);
    assert_eq!(found.len(), 2);
    assert_eq!((found[0].relation, found[0].side), (0, Side::Left));
    assert_eq!((found[1].relation, found[1].side), (2, Side::Left));
    let found = deliver(&mut monitor, &["C"]);
    assert!(found.is_empty());
    assert_eq!(
        states(&monitor),
        vec![Expectation::ExpectRight, Expectation::ExpectRight, Expectation::ExpectLeft]
    );
}

#[test]
fn violations_come_in_the_order_of_the_relations() {
    let mut monitor = monitor_of(&[("X", "A"), ("A", "Y"), ("A", "A")]);
    assert!(deliver(&mut monitor, &["A"]).is_empty());
    assert_eq!(
        states(&monitor),
        vec![Expectation::ExpectLeft, Expectation::ExpectRight, Expectation::ExpectLeft]
    );
    let found = deliver(&mut monitor, &["A"]);
    let seen: Vec<(usize, Side)> = found.iter().map(|v| (v.relation, v.side)).collect();
    assert_eq!(seen, vec![(0, Side::Right), (1, Side::Left)]);
}

#[test]
fn long_alternation_yields_no_violation() {
    let mut monitor = monitor_of(&[("A", "B")]);
    let mut found = 0;
    for _ in 0..500 {
        found += monitor.on_occurrence(&fired("B", "b", 2)).len();
        found += monitor.on_occurrence(&fired("A", "a", 1)).len();
    }
    assert_eq!(found, 0);
    assert_eq!(states(&monitor), vec![Expectation::ExpectRight]);
}

#[test]
fn every_repetition_is_one_violation() {
    let mut monitor = monitor_of(&[("A", "B")]);
    let found = deliver(&mut monitor, &["A", "A", "A", "B", "x", "B", "A", "B", "B"]);
    let lines: Vec<u32> = found.iter().map(|v| v.line).collect();
    assert_eq!(lines, vec![2, 3, 6, 9]);
    let sides: Vec<Side> = found.iter().map(|v| v.side).collect();
    assert_eq!(sides, vec![Side::Left, Side::Left, Side::Right, Side::Right]);
    assert_eq!(states(&monitor), vec![Expectation::ExpectLeft]);
}
