use gherkin_expand::{
    filter_and_prepend_background, has_tag, prepend_background_steps, Background, Examples,
    Feature, Scenario, Step, StepType, Table,
};

fn step(value: &str) -> Step {
    Step { keyword: "Given".to_string(), ty: StepType::Given, value: value.to_string() }
}

fn scenario(name: &str, tags: &[&str], steps: &[&str]) -> Scenario {
    Scenario {
        name: name.to_string(),
        tags: tags.iter().map(|tag| tag.to_string()).collect(),
        steps: steps.iter().map(|value| step(value)).collect(),
        examples: vec![],
    }
}

fn feature(background: Option<&[&str]>, scenarios: Vec<Scenario>) -> Feature {
    Feature {
        keyword: "Feature".to_string(),
        name: "f".to_string(),
        background: background
            .map(|steps| Background { steps: steps.iter().map(|value| step(value)).collect() }),
        scenarios,
    }
}

#[test]
fn a_tag_matches_exactly() {
    let tagged = scenario("s", &["x", "y"], &[]);
    assert!(has_tag(&tagged, &"x".to_string()));
    assert!(has_tag(&tagged, &"y".to_string()));
    assert!(!has_tag(&tagged, &"z".to_string()));
    assert!(!has_tag(&tagged, &"xy".to_string()));
    assert!(!has_tag(&tagged, &"X".to_string()));
    assert!(!has_tag(&tagged, &"".to_string()));
}

#[test]
fn a_scenario_without_tags_matches_nothing() {
    let plain = scenario("s", &[], &[]);
    assert!(!has_tag(&plain, &"x".to_string()));
    assert!(!has_tag(&plain, &"".to_string()));
}

#[test]
fn background_steps_come_first_and_keep_their_order() {
    let background = Background { steps: vec![step("A"), step("B")] };
    let source = scenario("s", &["t"], &["C", "D"]);
    let merged = prepend_background_steps(&background, &source);
    assert_eq!(merged, scenario("s", &["t"], &["A", "B", "C", "D"]));
}

#[test]
fn an_empty_background_changes_nothing() {
    let background = Background { steps: vec![] };
    let source = scenario("s", &["t"], &["C"]);
    assert_eq!(prepend_background_steps(&background, &source), source);
}

#[test]
fn merging_keeps_the_example_sections() {
    let background = Background { steps: vec![step("A")] };
    let mut source = scenario("s", &[], &["C"]);
    source.examples = vec![Examples { table: Some(Table { rows: vec![vec!["u".to_string()]] }) }];
    let merged = prepend_background_steps(&background, &source);
    assert_eq!(merged.examples, source.examples);
    assert_eq!(merged.steps, vec![step("A"), step("C")]);
}

#[test]
fn filtering_keeps_the_order_of_the_tagged_scenarios() {
    let source = feature(
        None,
        vec![
            scenario("one", &["x"], &["1"]),
            scenario("two", &["z"], &["2"]),
            scenario("three", &["y", "x"], &["3"]),
            scenario("four", &[], &["4"]),
            scenario("one", &["x"], &["5"]),
        ],
    );
    let kept = filter_and_prepend_background(&source, &"x".to_string());
    assert_eq!(
        kept,
        vec![
            scenario("one", &["x"], &["1"]),
            scenario("three", &["y", "x"], &["3"]),
            scenario("one", &["x"], &["5"]),
        ]
    );
}

#[test]
fn filtering_by_an_absent_tag_keeps_nothing() {
    let source = feature(Some(&["A"]), vec![scenario("one", &["x"], &["1"])]);
    assert_eq!(filter_and_prepend_background(&source, &"z".to_string()), vec![]);
}

#[test]
fn filtering_puts_the_background_in_front_of_each_kept_scenario() {
    let source = feature(
        Some(&["A", "B"]),
        vec![
            scenario("one", &["x"], &["1"]),
            scenario("two", &[], &["2"]),
            scenario("three", &["x"], &[]),
        ],
    );
    let kept = filter_and_prepend_background(&source, &"x".to_string());
    assert_eq!(
        kept,
        vec![scenario("one", &["x"], &["A", "B", "1"]), scenario("three", &["x"], &["A", "B"])]
    );
}

#[test]
fn a_copy_equals_what_it_was_made_from() {
    let mut source = feature(
        Some(&["A", "B"]),
        vec![scenario("one", &["x", "y"], &["1", "2"]), scenario("two", &[], &[])],
    );
    source.scenarios[0].examples = vec![
        Examples { table: None },
        Examples { table: Some(Table { rows: vec![vec!["u".to_string()], vec![]] }) },
    ];
    assert_eq!(source.clone(), source);
    assert_eq!(source.scenarios[0].clone(), source.scenarios[0]);
    assert_eq!(source.scenarios[0].steps[1].clone(), source.scenarios[0].steps[1]);
    assert_eq!(source.scenarios[0].examples[1].clone(), source.scenarios[0].examples[1]);
    assert_eq!(source.background.clone(), source.background);
}
