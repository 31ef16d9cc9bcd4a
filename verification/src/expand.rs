//! Substitution of placeholders and expansion of scenarios: one concrete
//! scenario per entry of the dataset.

use crate::model::{Feature, FeatureView, Scenario, ScenarioView, Step, StepView, Text};
use crate::table::{dataset, stacked_rows, uniform, Example, RowView};
use crate::text::{placeholder, placeholder_of, replace_all, replaced};
use vstd::prelude::*;
use vstd::string::StringExecFns;

verus! {

/// The text after substitution by one row: for each binding of the row, in
/// the order of the row, every occurrence of the title's placeholder is
/// replaced by the value. A later binding works on what the earlier ones
/// left, values they brought in included.
pub open spec fn substituted(text: Text, row: RowView) -> Text
    decreases row.len(),
{
    if row.len() == 0 {
        text
    } else {
        replaced(substituted(text, row.drop_last()), placeholder(row.last().0), row.last().1)
    }
}

/// The step with its text substituted by the row. Nothing else changes.
pub open spec fn resolved_step(step: StepView, row: RowView) -> StepView {
    StepView { value: substituted(step.value, row), ..step }
}

/// The scenario with every step substituted by the row, in place. Name, tags
/// and example sections stay.
pub open spec fn resolved(scenario: ScenarioView, row: RowView) -> ScenarioView {
    ScenarioView {
        steps: scenario.steps.map_values(|step: StepView| resolved_step(step, row)),
        ..scenario
    }
}

/// The concrete scenarios that a dataset gives: the scenario itself where the
/// dataset is empty, else one resolved scenario per entry, in order.
pub open spec fn expanded(scenario: ScenarioView, data: Seq<RowView>) -> Seq<ScenarioView> {
    if data.len() == 0 {
        seq![scenario]
    } else {
        data.map_values(|row: RowView| resolved(scenario, row))
    }
}

/// The tables of the scenario can be stacked: all their rows have one length.
pub open spec fn expandable(scenario: ScenarioView) -> bool {
    uniform(stacked_rows(scenario.examples))
}

/// Every scenario of the sequence is [`expandable`].
pub open spec fn all_expandable(scenarios: Seq<ScenarioView>) -> bool {
    forall|i: int| 0 <= i < scenarios.len() ==> expandable(#[trigger] scenarios[i])
}

/// The concrete scenarios of a scenario under its own example tables.
pub open spec fn concrete(scenario: ScenarioView) -> Seq<ScenarioView> {
    expanded(scenario, dataset(stacked_rows(scenario.examples)))
}

/// [`concrete`] as a function value.
pub open spec fn concrete_fn() -> spec_fn(ScenarioView) -> Seq<ScenarioView> {
    |scenario: ScenarioView| concrete(scenario)
}

/// The feature with each scenario replaced by its concrete scenarios, in the
/// order of the scenarios.
pub open spec fn expanded_feature(feature: FeatureView) -> FeatureView {
    FeatureView { scenarios: feature.scenarios.flat_map(concrete_fn()), ..feature }
}

/// Substitutes the placeholders of one row in a step's text.
pub fn substitute(text: &str, row: &Vec<(String, String)>) -> (out: String)
    ensures
        out@ == substituted(text@, row.deep_view()),
{
    let ghost bindings = row.deep_view();
    let mut out = String::from_str(text);
    let mut i: usize = 0;
    assert(bindings.take(0) =~= Seq::empty());
    while i < row.len()
        invariant
            i <= row.len(),
            bindings == row.deep_view(),
            out@ == substituted(text@, bindings.take(i as int)),
        decreases row.len() - i,
    {
        let token = placeholder_of(row[i].0.as_str());
        let next = replace_all(out.as_str(), token.as_str(), row[i].1.as_str());
        proof {
            assert(bindings.take(i + 1).drop_last() =~= bindings.take(i as int));
            assert(bindings.take(i + 1).last() == bindings[i as int]);
        }
        out = next;
        i += 1;
    }
    assert(bindings.take(i as int) =~= bindings);
    out
}

/// The scenario with every step substituted by the row.
fn resolve(scenario: &Scenario, row: &Vec<(String, String)>) -> (res: Scenario)
    ensures
        res@ == resolved(scenario@, row.deep_view()),
{
    let mut steps: Vec<Step> = Vec::new();
    let mut i: usize = 0;
    while i < scenario.steps.len()
        invariant
            i <= scenario.steps.len(),
            steps.len() == i,
            forall|j: int|
                0 <= j < i ==> (#[trigger] steps[j])@ == resolved_step(
                    scenario.steps[j]@,
                    row.deep_view(),
                ),
        decreases scenario.steps.len() - i,
    {
        let step = &scenario.steps[i];
        let value = substitute(step.value.as_str(), row);
        steps.push(Step { keyword: step.keyword.clone(), ty: step.ty, value });
        i += 1;
    }
    let res = Scenario {
        name: scenario.name.clone(),
        tags: scenario.tags.clone(),
        steps,
        examples: scenario.examples.clone(),
    };
    assert(res@.tags =~= scenario@.tags);
    assert(res@.examples =~= scenario@.examples);
    assert(res@.steps =~= resolved(scenario@, row.deep_view()).steps);
    res
}

impl Example {
    /// Expands one scenario by this dataset: a copy of the scenario where the
    /// dataset is empty, else one scenario per entry, each with the steps of
    /// the scenario in their order and substituted by that entry.
    pub fn expand_scenario(&self, scenario: &Scenario) -> (res: Vec<Scenario>)
        ensures
            res.deep_view() == expanded(scenario@, self@),
    {
        let mut scenarios: Vec<Scenario> = Vec::new();
        if self.data.len() == 0 {
            scenarios.push(scenario.clone());
            assert(scenarios.deep_view() =~= seq![scenario@]);
        } else {
            let mut k: usize = 0;
            while k < self.data.len()
                invariant
                    k <= self.data.len(),
                    scenarios.len() == k,
                    forall|j: int|
                        0 <= j < k ==> (#[trigger] scenarios[j])@ == resolved(
                            scenario@,
                            self@[j],
                        ),
                decreases self.data.len() - k,
            {
                scenarios.push(resolve(scenario, &self.data[k]));
                k += 1;
            }
            assert(scenarios.deep_view() =~= expanded(scenario@, self@));
        }
        scenarios
    }
}

/// Whether every scenario of the feature is [`expandable`].
pub fn can_expand(feature: &Feature) -> (ok: bool)
    ensures
        ok == all_expandable(feature@.scenarios),
{
    let mut i: usize = 0;
    while i < feature.scenarios.len()
        invariant
            i <= feature.scenarios.len(),
            forall|j: int| 0 <= j < i ==> expandable(#[trigger] feature@.scenarios[j]),
        decreases feature.scenarios.len() - i,
    {
        if !Example::same_width(&feature.scenarios[i].examples) {
            assert(!expandable(feature@.scenarios[i as int]));
            return false;
        }
        i += 1;
    }
    true
}

/// Replaces each scenario of the feature by its concrete scenarios. Keyword,
/// name and background stay.
///
/// The tables of every scenario must be stackable; [`can_expand`] tests that.
pub fn expand_feature(feature: &Feature) -> (res: Feature)
    requires
        all_expandable(feature@.scenarios),
    ensures
        res@ == expanded_feature(feature@),
{
    let ghost sources = feature@.scenarios;
    let mut scenarios: Vec<Scenario> = Vec::new();
    let mut i: usize = 0;
    assert(sources.take(0) =~= Seq::empty());
    assert(scenarios.deep_view() =~= sources.take(0).flat_map(concrete_fn()));
    while i < feature.scenarios.len()
        invariant
            i <= feature.scenarios.len(),
            sources == feature@.scenarios,
            all_expandable(sources),
            scenarios.deep_view() == sources.take(i as int).flat_map(concrete_fn()),
        decreases feature.scenarios.len() - i,
    {
        let scenario = &feature.scenarios[i];
        let ghost before = scenarios.deep_view();
        assert(expandable(sources[i as int]));
        assert(sources[i as int] == scenario@);
        let example = Example::from(&scenario.examples);
        let mut part = example.expand_scenario(scenario);
        let ghost added = part.deep_view();
        scenarios.append(&mut part);
        proof {
            sources.lemma_flat_map_take_append(concrete_fn(), i as int);
            assert(scenarios.deep_view() =~= before + added);
        }
        i += 1;
    }
    assert(sources.take(i as int) =~= sources);
    let background = match &feature.background {
        Some(background) => Some(background.clone()),
        None => None,
    };
    Feature { keyword: feature.keyword.clone(), name: feature.name.clone(), background, scenarios }
}

} // verus!
