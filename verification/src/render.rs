//! Splitting a feature into single-scenario features and rendering features
//! as text.

use crate::model::{Feature, FeatureView, Scenario, ScenarioView, Step, StepType, StepView, Text};
use vstd::prelude::*;
use vstd::string::StringExecFns;

verus! {

/// The text of a step: its keyword, one space, its value.
pub open spec fn rendered_step(step: StepView) -> Text {
    step.keyword + seq![' '] + step.value
}

/// The line of a step in a rendered scenario.
pub open spec fn step_line(step: StepView) -> Text {
    "    "@ + rendered_step(step) + "\n"@
}

/// [`step_line`] as a function value.
pub open spec fn step_line_fn() -> spec_fn(StepView) -> Text {
    |step: StepView| step_line(step)
}

/// The block of a scenario: its title line, one line per step, and an empty
/// line.
pub open spec fn rendered_scenario(scenario: ScenarioView) -> Text {
    "  Scenario: "@ + scenario.name + "\n"@ + scenario.steps.flat_map(step_line_fn()) + "\n"@
}

/// [`rendered_scenario`] as a function value.
pub open spec fn rendered_scenario_fn() -> spec_fn(ScenarioView) -> Text {
    |scenario: ScenarioView| rendered_scenario(scenario)
}

/// The text of a feature: the title line, an empty line, and the blocks of
/// its scenarios in order. The background is not rendered.
pub open spec fn rendered(feature: FeatureView) -> Text {
    feature.keyword + ": "@ + feature.name + "\n\n"@ + feature.scenarios.flat_map(
        rendered_scenario_fn(),
    )
}

/// One feature per scenario of the feature, in order, each with that one
/// scenario and otherwise like the feature.
pub open spec fn split(feature: FeatureView) -> Seq<FeatureView> {
    feature.scenarios.map_values(
        |scenario: ScenarioView| FeatureView { scenarios: seq![scenario], ..feature },
    )
}

/// Formats a step with `Display` of `gherkin::Step`, which writes the
/// keyword, one space and the value, and nothing of the other fields.
#[verifier::external_body]
fn step_to_string(step: &Step) -> (text: String)
    ensures
        text@ == rendered_step(step@),
{
    let ty = match step.ty {
        StepType::Given => gherkin::StepType::Given,
        StepType::When => gherkin::StepType::When,
        StepType::Then => gherkin::StepType::Then,
    };
    gherkin::Step::builder()
        .keyword(step.keyword.clone())
        .ty(ty)
        .value(step.value.clone())
        .build()
        .to_string()
}

/// Renders the block of one scenario.
fn scenario_to_string(scenario: &Scenario) -> (output: String)
    ensures
        output@ == rendered_scenario(scenario@),
{
    let ghost steps = scenario@.steps;
    let mut lines = String::new();
    let mut i: usize = 0;
    assert(steps.take(0) =~= Seq::empty());
    assert(lines@ =~= steps.take(0).flat_map(step_line_fn()));
    while i < scenario.steps.len()
        invariant
            i <= scenario.steps.len(),
            steps == scenario@.steps,
            lines@ == steps.take(i as int).flat_map(step_line_fn()),
        decreases scenario.steps.len() - i,
    {
        let ghost before = lines@;
        let text = step_to_string(&scenario.steps[i]);
        lines.append("    ");
        lines.append(text.as_str());
        lines.append("\n");
        proof {
            steps.lemma_flat_map_take_append(step_line_fn(), i as int);
            assert(lines@ =~= before + step_line(steps[i as int]));
        }
        i += 1;
    }
    assert(steps.take(i as int) =~= steps);
    let mut output = String::from_str("  Scenario: ");
    output.append(scenario.name.as_str());
    output.append("\n");
    output.append(lines.as_str());
    output.append("\n");
    output
}

/// Renders a feature as text: `keyword: name`, an empty line, then for each
/// scenario a `Scenario: name` line, its steps, indented, and an empty line.
pub fn feature_to_string(feature: &Feature) -> (output: String)
    ensures
        output@ == rendered(feature@),
{
    let ghost scenarios = feature@.scenarios;
    let mut blocks = String::new();
    let mut i: usize = 0;
    assert(scenarios.take(0) =~= Seq::empty());
    assert(blocks@ =~= scenarios.take(0).flat_map(rendered_scenario_fn()));
    while i < feature.scenarios.len()
        invariant
            i <= feature.scenarios.len(),
            scenarios == feature@.scenarios,
            blocks@ == scenarios.take(i as int).flat_map(rendered_scenario_fn()),
        decreases feature.scenarios.len() - i,
    {
        let block = scenario_to_string(&feature.scenarios[i]);
        blocks.append(block.as_str());
        proof {
            scenarios.lemma_flat_map_take_append(rendered_scenario_fn(), i as int);
        }
        i += 1;
    }
    assert(scenarios.take(i as int) =~= scenarios);
    let mut output = feature.keyword.clone();
    output.append(": ");
    output.append(feature.name.as_str());
    output.append("\n\n");
    output.append(blocks.as_str());
    output
}

/// Splits a feature into one feature per scenario. Each keeps the keyword,
/// the name and the background of the feature.
pub fn split_feature(feature: &Feature) -> (res: Vec<Feature>)
    ensures
        res.deep_view() == split(feature@),
{
    let mut res: Vec<Feature> = Vec::new();
    let mut i: usize = 0;
    while i < feature.scenarios.len()
        invariant
            i <= feature.scenarios.len(),
            res.len() == i,
            forall|j: int|
                0 <= j < i ==> (#[trigger] res[j])@ == (FeatureView {
                    scenarios: seq![feature@.scenarios[j]],
                    ..feature@
                }),
        decreases feature.scenarios.len() - i,
    {
        let mut scenarios: Vec<Scenario> = Vec::new();
        scenarios.push(feature.scenarios[i].clone());
        let background = match &feature.background {
            Some(background) => Some(background.clone()),
            None => None,
        };
        let single = Feature {
            keyword: feature.keyword.clone(),
            name: feature.name.clone(),
            background,
            scenarios,
        };
        assert(single@.scenarios =~= seq![feature@.scenarios[i as int]]);
        res.push(single);
        i += 1;
    }
    assert(res.deep_view() =~= split(feature@));
    res
}

} // verus!
