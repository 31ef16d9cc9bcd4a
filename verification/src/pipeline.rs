//! The two modes that sit on the engine: listing the concrete scenarios of a
//! set of features, and materializing them as single-scenario features.

use crate::expand::{all_expandable, can_expand, expand_feature, expanded_feature};
use crate::model::{Feature, FeatureView, Scenario, ScenarioView, Text};
use crate::render::{split, split_feature};
use crate::select::{filter_and_prepend_background, filtered_and_merged};
use vstd::prelude::*;

verus! {

/// The feature reduced to its scenarios that carry the tag, each under the
/// background.
pub open spec fn prepared(feature: FeatureView, tag: Text) -> FeatureView {
    FeatureView { scenarios: filtered_and_merged(feature, tag), ..feature }
}

/// The tables of every selected scenario of the feature can be stacked.
pub open spec fn processable(feature: FeatureView, tag: Text) -> bool {
    all_expandable(prepared(feature, tag).scenarios)
}

/// Every feature is [`processable`].
pub open spec fn all_processable(features: Seq<FeatureView>, tag: Text) -> bool {
    forall|i: int| 0 <= i < features.len() ==> processable(#[trigger] features[i], tag)
}

/// The concrete scenarios of one feature: its selected scenarios, merged with
/// the background and then expanded.
pub open spec fn concrete_of(feature: FeatureView, tag: Text) -> Seq<ScenarioView> {
    expanded_feature(prepared(feature, tag)).scenarios
}

/// [`concrete_of`] for a fixed tag, as a function value.
pub open spec fn concrete_of_fn(tag: Text) -> spec_fn(FeatureView) -> Seq<ScenarioView> {
    |feature: FeatureView| concrete_of(feature, tag)
}

/// The concrete scenarios of all features, feature after feature.
pub open spec fn concrete_scenarios(features: Seq<FeatureView>, tag: Text) -> Seq<ScenarioView> {
    features.flat_map(concrete_of_fn(tag))
}

/// The single-scenario features that one feature gives: none where no
/// scenario carries the tag, else one per concrete scenario.
pub open spec fn materialized_of(feature: FeatureView, tag: Text) -> Seq<FeatureView> {
    if prepared(feature, tag).scenarios.len() == 0 {
        Seq::empty()
    } else {
        split(expanded_feature(prepared(feature, tag)))
    }
}

/// [`materialized_of`] for a fixed tag, as a function value.
pub open spec fn materialized_of_fn(tag: Text) -> spec_fn(FeatureView) -> Seq<FeatureView> {
    |feature: FeatureView| materialized_of(feature, tag)
}

/// The single-scenario features of all features, feature after feature.
pub open spec fn materialized(features: Seq<FeatureView>, tag: Text) -> Seq<FeatureView> {
    features.flat_map(materialized_of_fn(tag))
}

/// A selected scenario whose example tables have rows of different lengths.
#[derive(Clone, Copy, Debug, PartialEq, Eq)]
pub struct RaggedTables {
    /// The position of the first feature that holds such a scenario.
    pub feature: usize,
}

/// The error names the first feature that is not [`processable`].
pub open spec fn first_ragged(features: Seq<FeatureView>, tag: Text, error: RaggedTables) -> bool {
    &&& error.feature < features.len()
    &&& !processable(features[error.feature as int], tag)
    &&& all_processable(features.take(error.feature as int), tag)
}

/// Reduces the feature to its scenarios that carry the tag, each with the
/// background steps in front.
pub fn prepare(feature: &Feature, tag: &String) -> (res: Feature)
    ensures
        res@ == prepared(feature@, tag@),
{
    let scenarios = filter_and_prepend_background(feature, tag);
    let background = match &feature.background {
        Some(background) => Some(background.clone()),
        None => None,
    };
    Feature { keyword: feature.keyword.clone(), name: feature.name.clone(), background, scenarios }
}

/// Lists the concrete scenarios of the features under the tag: select, merge
/// the background, expand. Fails on the first feature with a selected
/// scenario whose tables cannot be stacked, and only then.
pub fn list_scenarios(features: &Vec<Feature>, tag: &String) -> (res: Result<
    Vec<Scenario>,
    RaggedTables,
>)
    ensures
        match res {
            Ok(scenarios) => all_processable(features.deep_view(), tag@) && scenarios.deep_view()
                == concrete_scenarios(features.deep_view(), tag@),
            Err(error) => first_ragged(features.deep_view(), tag@, error),
        },
{
    let ghost sources = features.deep_view();
    let mut scenarios: Vec<Scenario> = Vec::new();
    let mut i: usize = 0;
    assert(sources.take(0) =~= Seq::empty());
    assert(scenarios.deep_view() =~= concrete_scenarios(sources.take(0), tag@));
    while i < features.len()
        invariant
            i <= features.len(),
            sources == features.deep_view(),
            all_processable(sources.take(i as int), tag@),
            scenarios.deep_view() == concrete_scenarios(sources.take(i as int), tag@),
        decreases features.len() - i,
    {
        let kept = prepare(&features[i], tag);
        if !can_expand(&kept) {
            return Err(RaggedTables { feature: i });
        }
        let ghost before = scenarios.deep_view();
        let mut expanded = expand_feature(&kept);
        let ghost added = expanded.scenarios.deep_view();
        scenarios.append(&mut expanded.scenarios);
        proof {
            sources.lemma_flat_map_take_append(concrete_of_fn(tag@), i as int);
            assert(scenarios.deep_view() =~= before + added);
            assert forall|j: int| 0 <= j < i + 1 implies processable(
                #[trigger] sources.take(i + 1)[j],
                tag@,
            ) by {
                if j < i {
                    assert(sources.take(i + 1)[j] == sources.take(i as int)[j]);
                }
            }
        }
        i += 1;
    }
    assert(sources.take(i as int) =~= sources);
    Ok(scenarios)
}

/// Materializes the features under the tag: select, merge the background,
/// drop a feature that keeps no scenario, expand, and split into one feature
/// per concrete scenario. Fails on the first feature with a selected scenario
/// whose tables cannot be stacked, and only then.
pub fn materialize(features: &Vec<Feature>, tag: &String) -> (res: Result<
    Vec<Feature>,
    RaggedTables,
>)
    ensures
        match res {
            Ok(singles) => all_processable(features.deep_view(), tag@) && singles.deep_view()
                == materialized(features.deep_view(), tag@),
            Err(error) => first_ragged(features.deep_view(), tag@, error),
        },
{
    let ghost sources = features.deep_view();
    let mut singles: Vec<Feature> = Vec::new();
    let mut i: usize = 0;
    assert(sources.take(0) =~= Seq::empty());
    assert(singles.deep_view() =~= materialized(sources.take(0), tag@));
    while i < features.len()
        invariant
            i <= features.len(),
            sources == features.deep_view(),
            all_processable(sources.take(i as int), tag@),
            singles.deep_view() == materialized(sources.take(i as int), tag@),
        decreases features.len() - i,
    {
        let kept = prepare(&features[i], tag);
        if !can_expand(&kept) {
            return Err(RaggedTables { feature: i });
        }
        let ghost before = singles.deep_view();
        proof {
            sources.lemma_flat_map_take_append(materialized_of_fn(tag@), i as int);
            assert forall|j: int| 0 <= j < i + 1 implies processable(
                #[trigger] sources.take(i + 1)[j],
                tag@,
            ) by {
                if j < i {
                    assert(sources.take(i + 1)[j] == sources.take(i as int)[j]);
                }
            }
        }
        if kept.scenarios.len() != 0 {
            let expanded = expand_feature(&kept);
            let mut part = split_feature(&expanded);
            let ghost added = part.deep_view();
            singles.append(&mut part);
            assert(singles.deep_view() =~= before + added);
        } else {
            assert(before + materialized_of(sources[i as int], tag@) =~= before);
        }
        i += 1;
    }
    assert(sources.take(i as int) =~= sources);
    Ok(singles)
}

} // verus!
