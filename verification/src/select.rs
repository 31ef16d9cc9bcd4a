//! Selection of scenarios by tag and merging of the background steps.

use crate::model::{Background, Feature, FeatureView, Scenario, ScenarioView, Step, StepView, Text};
use vstd::prelude::*;

verus! {

/// The scenario carries the tag: one of its tags is exactly this text.
pub open spec fn tagged(scenario: ScenarioView, tag: Text) -> bool {
    scenario.tags.contains(tag)
}

/// [`tagged`] for a fixed tag, as a function value.
pub open spec fn tagged_fn(tag: Text) -> spec_fn(ScenarioView) -> bool {
    |scenario: ScenarioView| tagged(scenario, tag)
}

/// The scenarios that carry the tag, in their order.
pub open spec fn selected(scenarios: Seq<ScenarioView>, tag: Text) -> Seq<ScenarioView> {
    scenarios.filter(tagged_fn(tag))
}

/// The scenario with the background steps in front of its own. Within each
/// part the order stays; nothing else changes.
pub open spec fn merged(background: Seq<StepView>, scenario: ScenarioView) -> ScenarioView {
    ScenarioView { steps: background + scenario.steps, ..scenario }
}

/// The scenario under an optional background: merged where there is one,
/// unchanged where there is none.
pub open spec fn with_background(
    background: Option<Seq<StepView>>,
    scenario: ScenarioView,
) -> ScenarioView {
    match background {
        Some(steps) => merged(steps, scenario),
        None => scenario,
    }
}

/// The scenarios of the feature that carry the tag, each under the feature's
/// background.
pub open spec fn filtered_and_merged(feature: FeatureView, tag: Text) -> Seq<ScenarioView> {
    selected(feature.scenarios, tag).map_values(
        |scenario: ScenarioView| with_background(feature.background, scenario),
    )
}

/// Selecting from one more scenario appends it if it carries the tag.
pub proof fn lemma_selected_take(scenarios: Seq<ScenarioView>, tag: Text, i: int)
    requires
        0 <= i < scenarios.len(),
    ensures
        selected(scenarios.take(i + 1), tag) == if tagged(scenarios[i], tag) {
            selected(scenarios.take(i), tag).push(scenarios[i])
        } else {
            selected(scenarios.take(i), tag)
        },
{
    assert(scenarios.take(i + 1) =~= scenarios.take(i).push(scenarios[i]));
    scenarios.take(i).lemma_filter_push(scenarios[i], tagged_fn(tag));
}

/// Whether the scenario carries the tag.
pub fn has_tag(scenario: &Scenario, tag: &String) -> (found: bool)
    ensures
        found == tagged(scenario@, tag@),
{
    let mut i: usize = 0;
    while i < scenario.tags.len()
        invariant
            i <= scenario.tags.len(),
            forall|j: int| 0 <= j < i ==> (#[trigger] scenario@.tags[j]) != tag@,
        decreases scenario.tags.len() - i,
    {
        if scenario.tags[i] == *tag {
            assert(scenario@.tags[i as int] == tag@);
            return true;
        }
        i += 1;
    }
    false
}

/// Puts the background steps in front of the steps of the scenario.
pub fn prepend_background_steps(background: &Background, scenario: &Scenario) -> (res: Scenario)
    ensures
        res@ == merged(background@, scenario@),
{
    let mut steps: Vec<Step> = background.steps.clone();
    let mut own: Vec<Step> = scenario.steps.clone();
    steps.append(&mut own);
    let res = Scenario {
        name: scenario.name.clone(),
        tags: scenario.tags.clone(),
        steps,
        examples: scenario.examples.clone(),
    };
    assert(res@.tags =~= scenario@.tags);
    assert(res@.examples =~= scenario@.examples);
    assert(res@.steps =~= background@ + scenario@.steps);
    res
}

/// Selects the scenarios of the feature that carry the tag and puts the
/// feature's background steps, if it has a background, in front of each.
pub fn filter_and_prepend_background(feature: &Feature, tag: &String) -> (res: Vec<Scenario>)
    ensures
        res.deep_view() == filtered_and_merged(feature@, tag@),
{
    let ghost sources = feature@.scenarios;
    let mut res: Vec<Scenario> = Vec::new();
    let mut i: usize = 0;
    proof {
        reveal(Seq::filter);
        assert(sources.take(0) =~= Seq::empty());
        assert(res.deep_view() =~= filtered_and_merged(
            FeatureView { scenarios: sources.take(0), ..feature@ },
            tag@,
        ));
    }
    while i < feature.scenarios.len()
        invariant
            i <= feature.scenarios.len(),
            sources == feature@.scenarios,
            res.deep_view() == filtered_and_merged(
                FeatureView { scenarios: sources.take(i as int), ..feature@ },
                tag@,
            ),
        decreases feature.scenarios.len() - i,
    {
        let scenario = &feature.scenarios[i];
        let ghost before = res.deep_view();
        proof {
            lemma_selected_take(sources, tag@, i as int);
        }
        if has_tag(scenario, tag) {
            let prepared = match &feature.background {
                Some(background) => prepend_background_steps(background, scenario),
                None => scenario.clone(),
            };
            res.push(prepared);
            assert(res.deep_view() =~= before.push(
                with_background(feature@.background, scenario@),
            ));
            assert(res.deep_view() =~= filtered_and_merged(
                FeatureView { scenarios: sources.take(i + 1), ..feature@ },
                tag@,
            ));
        }
        i += 1;
    }
    assert(sources.take(i as int) =~= sources);
    res
}

} // verus!
