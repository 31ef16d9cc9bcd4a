use gherkin_expand::{
    decimal_string, feature_to_string, output_files, output_path, split_feature, Background,
    Examples, Feature, Scenario, Step, StepType, Table,
};

fn step(keyword: &str, ty: StepType, value: &str) -> Step {
    Step { keyword: keyword.to_string(), ty, value: value.to_string() }
}

fn scenario(name: &str, steps: Vec<Step>) -> Scenario {
    Scenario { name: name.to_string(), tags: vec![], steps, examples: vec![] }
}

fn feature(name: &str, scenarios: Vec<Scenario>) -> Feature {
    Feature { keyword: "Feature".to_string(), name: name.to_string(), background: None, scenarios }
}

fn step_type(ty: gherkin::StepType) -> StepType {
    match ty {
        gherkin::StepType::Given => StepType::Given,
        gherkin::StepType::When => StepType::When,
        gherkin::StepType::Then => StepType::Then,
    }
}

fn steps_of(steps: &[gherkin::Step]) -> Vec<Step> {
    steps
        .iter()
        .map(|s| Step { keyword: s.keyword.clone(), ty: step_type(s.ty), value: s.value.clone() })
        .collect()
}

fn parsed(text: &str) -> Feature {
    let tree = gherkin::Feature::parse(text, gherkin::GherkinEnv::default()).unwrap();
    Feature {
        keyword: tree.keyword.clone(),
        name: tree.name.clone(),
        background: tree.background.as_ref().map(|b| Background { steps: steps_of(&b.steps) }),
        scenarios: tree
            .scenarios
            .iter()
            .map(|s| Scenario {
                name: s.name.clone(),
                tags: s.tags.clone(),
                steps: steps_of(&s.steps),
                examples: s
                    .examples
                    .iter()
                    .map(|e| Examples {
                        table: e.table.as_ref().map(|t| Table { rows: t.rows.clone() }),
                    })
                    .collect(),
            })
            .collect(),
    }
}

#[test]
fn a_feature_is_rendered_line_by_line() {
    let source = feature(
        "Login",
        vec![
            scenario(
                "Sign in",
                vec![
                    step("Given", StepType::Given, "base"),
                    step("When", StepType::When, "I use alice"),
                ],
            ),
            scenario("Sign out", vec![step("Then", StepType::Then, "I am out")]),
        ],
    );
    assert_eq!(
        feature_to_string(&source),
        "Feature: Login\n\n  Scenario: Sign in\n    Given base\n    When I use alice\n\n  Scenario: Sign out\n    Then I am out\n\n"
    );
}

#[test]
fn a_step_is_rendered_as_keyword_space_value() {
    let source = feature("f", vec![scenario("s", vec![step("And", StepType::When, "more  text ")])]);
    assert_eq!(feature_to_string(&source), "Feature: f\n\n  Scenario: s\n    And more  text \n\n");
}

#[test]
fn the_kind_of_a_step_is_not_rendered() {
    let given = feature("f", vec![scenario("s", vec![step("*", StepType::Given, "x")])]);
    let then = feature("f", vec![scenario("s", vec![step("*", StepType::Then, "x")])]);
    assert_eq!(feature_to_string(&given), "Feature: f\n\n  Scenario: s\n    * x\n\n");
    assert_eq!(feature_to_string(&given), feature_to_string(&then));
}

#[test]
fn a_feature_without_scenarios_is_its_title_and_an_empty_line() {
    assert_eq!(feature_to_string(&feature("Empty", vec![])), "Feature: Empty\n\n");
}

#[test]
fn a_scenario_without_steps_is_its_title_and_an_empty_line() {
    let source = feature("f", vec![scenario("bare", vec![])]);
    assert_eq!(feature_to_string(&source), "Feature: f\n\n  Scenario: bare\n\n");
}

#[test]
fn the_keyword_of_the_feature_is_rendered_as_it_is() {
    let mut source = feature("Anmeldung", vec![]);
    source.keyword = "Funktionalität".to_string();
    assert_eq!(feature_to_string(&source), "Funktionalität: Anmeldung\n\n");
}

#[test]
fn the_background_is_not_rendered() {
    let mut source = feature("f", vec![scenario("s", vec![step("When", StepType::When, "w")])]);
    let plain = feature_to_string(&source);
    source.background = Some(Background { steps: vec![step("Given", StepType::Given, "base")] });
    assert_eq!(feature_to_string(&source), plain);
}

#[test]
fn three_scenarios_split_into_three_features() {
    let mut source = feature(
        "Login",
        vec![
            scenario("one", vec![step("Given", StepType::Given, "1")]),
            scenario("two", vec![step("Given", StepType::Given, "2")]),
            scenario("one", vec![step("Given", StepType::Given, "3")]),
        ],
    );
    source.keyword = "Ability".to_string();
    source.background = Some(Background { steps: vec![step("Given", StepType::Given, "base")] });
    let singles = split_feature(&source);
    assert_eq!(singles.len(), 3);
    for (i, single) in singles.iter().enumerate() {
        assert_eq!(single.keyword, "Ability");
        assert_eq!(single.name, "Login");
        assert_eq!(single.background, source.background);
        assert_eq!(single.scenarios.len(), 1);
        assert_eq!(single.scenarios[0], source.scenarios[i]);
    }
}

#[test]
fn a_feature_without_scenarios_splits_into_nothing() {
    assert_eq!(split_feature(&feature("f", vec![])), vec![]);
}

#[test]
fn rendering_a_parsed_rendering_gives_the_same_text() {
    let document = "Feature:   Login  \n  Background:\n    Given base\n\n  @automated\n  Scenario:  Sign in \n      Given   a user  \n    When I use alice\n    Then I am in\n";
    let first = split_feature(&parsed(document));
    assert_eq!(first.len(), 1);
    let text = feature_to_string(&first[0]);
    assert_eq!(
        text,
        "Feature: Login\n\n  Scenario: Sign in\n    Given  a user\n    When  I use alice\n    Then  I am in\n\n"
    );
    let again = parsed(&text);
    assert_eq!(again.scenarios.len(), 1);
    assert_eq!(feature_to_string(&again), text);
}

#[test]
fn numerals_are_decimal_without_leading_zeros() {
    assert_eq!(decimal_string(0), "0");
    assert_eq!(decimal_string(7), "7");
    assert_eq!(decimal_string(9), "9");
    assert_eq!(decimal_string(10), "10");
    assert_eq!(decimal_string(42), "42");
    assert_eq!(decimal_string(100), "100");
    assert_eq!(decimal_string(1234567890), "1234567890");
    assert_eq!(decimal_string(usize::MAX), usize::MAX.to_string());
}

#[test]
fn a_path_is_directory_position_and_extension() {
    assert_eq!(output_path("./features/temp/", 0), "./features/temp/0.feature");
    assert_eq!(output_path("./features/temp/", 12), "./features/temp/12.feature");
    assert_eq!(output_path("", 3), "3.feature");
    assert_eq!(output_path("out", 3), "out3.feature");
}

#[test]
fn files_are_named_by_position_and_hold_the_rendered_text() {
    let features = vec![
        feature("a", vec![scenario("s", vec![step("Given", StepType::Given, "x")])]),
        feature("b", vec![]),
    ];
    assert_eq!(
        output_files(&features, "out/"),
        vec![
            (
                "out/0.feature".to_string(),
                "Feature: a\n\n  Scenario: s\n    Given x\n\n".to_string()
            ),
            ("out/1.feature".to_string(), "Feature: b\n\n".to_string()),
        ]
    );
}

#[test]
fn no_features_give_no_files() {
    assert_eq!(output_files(&vec![], "out/"), vec![]);
}
