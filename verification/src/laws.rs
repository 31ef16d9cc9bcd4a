//! Laws of the engine, stated over the models and proved from the
//! definitions.

use crate::expand::{concrete, concrete_fn, resolved, substituted};
use crate::model::{FeatureView, Grid, ScenarioView, Text};
use crate::pipeline::{
    concrete_of, concrete_of_fn, concrete_scenarios, materialized, materialized_of,
    materialized_of_fn, prepared,
};
use crate::render::split;
use crate::select::{selected, tagged, tagged_fn};
use crate::table::{
    binds, bound, dataset, distinct_titles, lemma_bound_distinct, rows_fn, rows_of, slot,
    stacked_rows, uniform, value_of,
};
use crate::text::{placeholder, replaced};
use vstd::prelude::*;

verus! {

/// Sections without a table stack to no rows. This covers a scenario without
/// any section.
pub proof fn lemma_stacked_without_tables(sections: Seq<Option<Grid>>)
    requires
        forall|i: int| 0 <= i < sections.len() ==> (#[trigger] sections[i]) is None,
    ensures
        stacked_rows(sections) == Seq::<Seq<Text>>::empty(),
    decreases sections.len(),
{
    if sections.len() > 0 {
        let front = sections.drop_last();
        lemma_stacked_without_tables(front);
        assert(sections =~= front.push(sections.last()));
        front.lemma_flat_map_push(rows_fn(), sections.last());
        assert(stacked_rows(sections) =~= stacked_rows(front) + rows_of(sections.last()));
    }
}

/// A scenario without example tables expands to exactly one scenario, which
/// is the scenario itself.
pub proof fn lemma_no_tables_pass_through(scenario: ScenarioView)
    requires
        forall|i: int| 0 <= i < scenario.examples.len() ==> (#[trigger] scenario.examples[i]) is None,
    ensures
        concrete(scenario) == seq![scenario],
{
    lemma_stacked_without_tables(scenario.examples);
}

/// One table gives one concrete scenario per data row: with a title row and
/// `R >= 1` data rows there are exactly `R` scenarios, and the `k`-th has the
/// name, tags and sections of the scenario and its steps in their order, each
/// with its text substituted by the bindings of data row `k` under the title
/// row.
pub proof fn lemma_one_table(scenario: ScenarioView, table: Grid)
    requires
        scenario.examples == seq![Some(table)],
        table.len() >= 2,
    ensures
        concrete(scenario).len() == table.len() - 1,
        forall|k: int|
            0 <= k < table.len() - 1 ==> {
                let row = bound(table[0], table[k + 1]);
                let result = #[trigger] concrete(scenario)[k];
                &&& result == resolved(scenario, row)
                &&& result.name == scenario.name
                &&& result.tags == scenario.tags
                &&& result.examples == scenario.examples
                &&& result.steps.len() == scenario.steps.len()
                &&& forall|i: int|
                    0 <= i < scenario.steps.len() ==> {
                        &&& (#[trigger] result.steps[i]).keyword == scenario.steps[i].keyword
                        &&& result.steps[i].ty == scenario.steps[i].ty
                        &&& result.steps[i].value == substituted(scenario.steps[i].value, row)
                    }
            },
{
    scenario.examples.lemma_flat_map_singleton(rows_fn());
    assert(stacked_rows(scenario.examples) == table);
    assert forall|k: int| 0 <= k < table.len() - 1 implies #[trigger] concrete(scenario)[k]
        == resolved(scenario, bound(table[0], table[k + 1])) by {
        assert(table.drop_first()[k] == table[k + 1]);
    }
}

/// Substitution by a row of one binding is one replacement of the title's
/// placeholder by the value.
pub proof fn lemma_substituted_single(text: Text, title: Text, value: Text)
    ensures
        substituted(text, seq![(title, value)]) == replaced(text, placeholder(title), value),
{
    let row = seq![(title, value)];
    assert(row.drop_last() =~= Seq::empty());
    assert(substituted(text, row.drop_last()) == text);
}

/// The token alone is replaced by the value.
pub proof fn lemma_replaced_token(from: Text, to: Text)
    requires
        from.len() > 0,
    ensures
        replaced(from, from, to) == to,
{
    assert(from.take(from.len() as int) =~= from);
    assert(from.skip(from.len() as int) =~= Seq::empty());
    assert(replaced(Seq::<char>::empty(), from, to) =~= Seq::<char>::empty());
    assert(to + Seq::<char>::empty() =~= to);
}

/// The token occurs in the text at some position.
pub open spec fn occurs(text: Text, from: Text) -> bool {
    exists|i: int|
        0 <= i && i + from.len() <= text.len() && #[trigger] text.subrange(i, i + from.len())
            == from
}

/// A text in which the token does not occur stays as it is.
pub proof fn lemma_replaced_absent(text: Text, from: Text, to: Text)
    requires
        !occurs(text, from),
    ensures
        replaced(text, from, to) == text,
    decreases text.len(),
{
    if from.len() == 0 || text.len() < from.len() {
    } else {
        assert(text.take(from.len() as int) =~= text.subrange(0, 0 + from.len() as int));
        let rest = text.skip(1);
        assert forall|i: int| 0 <= i && i + from.len() <= rest.len() implies #[trigger] rest.subrange(
            i,
            i + from.len(),
        ) != from by {
            assert(rest.subrange(i, i + from.len()) =~= text.subrange(i + 1, i + 1 + from.len()));
        }
        lemma_replaced_absent(rest, from, to);
        assert(text.take(1) + rest =~= text);
    }
}

/// In a row with distinct titles, each binding is what the row gives for its
/// title.
pub proof fn lemma_value_at(row: Seq<(Text, Text)>, i: int)
    requires
        distinct_titles(row),
        0 <= i < row.len(),
    ensures
        binds(row, row[i].0),
        slot(row, row[i].0) == i,
        value_of(row, row[i].0) == Some(row[i].1),
{
    assert(row[i].0 == row[i].0);
    let found = slot(row, row[i].0);
    assert(row[found].0 == row[i].0);
}

/// A bound row binds exactly the titles of the title row.
pub proof fn lemma_bound_titles(titles: Seq<Text>, cells: Seq<Text>, title: Text)
    ensures
        binds(bound(titles, cells), title) <==> titles.contains(title),
    decreases titles.len(),
{
    if titles.len() > 0 {
        let front = titles.drop_last();
        let before = bound(front, cells);
        let row = bound(titles, cells);
        lemma_bound_titles(front, cells, title);
        lemma_bound_titles(front, cells, titles.last());
        if binds(row, title) {
            let at = choose|i: int| 0 <= i < row.len() && (#[trigger] row[i]).0 == title;
            if title != titles.last() {
                assert(before[at].0 == title);
                let source = choose|i: int| 0 <= i < front.len() && front[i] == title;
                assert(titles[source] == title);
            } else {
                assert(titles[titles.len() - 1] == title);
            }
        }
        if titles.contains(title) {
            let source = choose|i: int| 0 <= i < titles.len() && titles[i] == title;
            if title == titles.last() {
                if binds(before, title) {
                    assert(row[slot(before, title)].0 == title);
                } else {
                    assert(row[before.len() as int].0 == title);
                }
            } else {
                assert(front[source] == title);
                let at = choose|i: int| 0 <= i < before.len() && (#[trigger] before[i]).0 == title;
                assert(row[at].0 == title);
            }
        }
    }
}

/// Where a title stands in several columns, the last one wins: the bound row
/// gives for a title the cell of the last column that carries it.
pub proof fn lemma_bound_last_wins(titles: Seq<Text>, cells: Seq<Text>, i: int)
    requires
        0 <= i < titles.len(),
        forall|j: int| i < j < titles.len() ==> titles[j] != titles[i],
    ensures
        value_of(bound(titles, cells), titles[i]) == Some(cells[i]),
    decreases titles.len(),
{
    let front = titles.drop_last();
    let before = bound(front, cells);
    let row = bound(titles, cells);
    let last = titles.len() - 1;
    lemma_bound_distinct(front, cells);
    lemma_bound_distinct(titles, cells);
    if i == last {
        if binds(before, titles[i]) {
            let at = slot(before, titles[i]);
            assert(row[at] == (titles[i], cells[i]));
            lemma_value_at(row, at);
        } else {
            let at = before.len() as int;
            assert(row[at] == (titles[i], cells[i]));
            lemma_value_at(row, at);
        }
    } else {
        assert(front[i] == titles[i]);
        assert forall|j: int| i < j < front.len() implies front[j] != front[i] by {
            assert(front[j] == titles[j]);
        }
        lemma_bound_last_wins(front, cells, i);
        let at = slot(before, titles[i]);
        assert(before[at].0 == titles[i] && before[at].1 == cells[i]);
        assert(titles[last] != titles[i]);
        assert(row[at] == before[at]);
        lemma_value_at(row, at);
    }
}

/// Under a title row without repeated titles, a data row is bound column by
/// column: binding `i` is title `i` with cell `i`.
pub proof fn lemma_bound_columns(titles: Seq<Text>, cells: Seq<Text>)
    requires
        titles.no_duplicates(),
    ensures
        bound(titles, cells) == Seq::new(titles.len(), |i: int| (titles[i], cells[i])),
    decreases titles.len(),
{
    let columns = Seq::new(titles.len(), |i: int| (titles[i], cells[i]));
    if titles.len() == 0 {
        assert(bound(titles, cells) =~= columns);
    } else {
        let front = titles.drop_last();
        let before = bound(front, cells);
        assert forall|i: int, j: int| 0 <= i < front.len() && 0 <= j < front.len() && i != j implies front[i]
            != front[j] by {
            assert(front[i] == titles[i] && front[j] == titles[j]);
        }
        lemma_bound_columns(front, cells);
        lemma_bound_titles(front, cells, titles.last());
        if front.contains(titles.last()) {
            let source = choose|i: int| 0 <= i < front.len() && front[i] == titles.last();
            assert(titles[source] == titles[titles.len() - 1]);
        }
        assert(bound(titles, cells) =~= columns);
    }
}

/// Two tables on one scenario are stacked under one title row: the first row
/// overall names the columns, and every other row of either table gives one
/// entry, so that there are `rows(first) + rows(second) - 1` entries.
pub proof fn lemma_two_tables(first: Grid, second: Grid)
    requires
        first.len() + second.len() >= 1,
        uniform(first + second),
    ensures
        stacked_rows(seq![Some(first), Some(second)]) == first + second,
        dataset(first + second).len() == first.len() + second.len() - 1,
        forall|k: int|
            0 <= k < first.len() + second.len() - 1 ==> #[trigger] dataset(first + second)[k]
                == bound((first + second)[0], (first + second)[k + 1]),
{
    let sections = seq![Some(first), Some(second)];
    let front = seq![Some(first)];
    assert(sections =~= front.push(Some(second)));
    front.lemma_flat_map_push(rows_fn(), Some(second));
    front.lemma_flat_map_singleton(rows_fn());
    assert(stacked_rows(sections) =~= first + second);
    let whole = first + second;
    assert forall|k: int| 0 <= k < whole.len() - 1 implies #[trigger] dataset(whole)[k] == bound(
        whole[0],
        whole[k + 1],
    ) by {
        assert(whole.drop_first()[k] == whole[k + 1]);
    }
}

/// Selection is exact: a scenario is selected if and only if it is one of
/// the scenarios and carries the tag. Nothing is added and nothing tagged is
/// lost.
pub proof fn lemma_selected_exact(scenarios: Seq<ScenarioView>, tag: Text, scenario: ScenarioView)
    ensures
        selected(scenarios, tag).contains(scenario) <==> scenarios.contains(scenario) && tagged(
            scenario,
            tag,
        ),
{
    if selected(scenarios, tag).contains(scenario) {
        let at = choose|i: int|
            0 <= i < selected(scenarios, tag).len() && selected(scenarios, tag)[i] == scenario;
        scenarios.lemma_filter_pred(tagged_fn(tag), at);
        scenarios.lemma_filter_contains_rev(tagged_fn(tag), scenario);
    }
    if scenarios.contains(scenario) && tagged(scenario, tag) {
        let at = choose|i: int| 0 <= i < scenarios.len() && scenarios[i] == scenario;
        scenarios.lemma_filter_contains(tagged_fn(tag), at);
    }
}

/// Selection keeps the order: of two selected scenarios, the earlier one
/// stands earlier among the scenarios.
pub proof fn lemma_selected_in_order(scenarios: Seq<ScenarioView>, tag: Text, i: int, j: int)
    requires
        0 <= i < j < selected(scenarios, tag).len(),
    ensures
        exists|p: int, q: int|
            0 <= p < q < scenarios.len() && #[trigger] scenarios[p] == selected(scenarios, tag)[i]
                && #[trigger] scenarios[q] == selected(scenarios, tag)[j],
    decreases scenarios.len(),
{
    reveal(Seq::filter);
    assert(scenarios.len() > 0);
    let front = scenarios.drop_last();
    let last = scenarios.last();
    assert(scenarios =~= front.push(last));
    front.lemma_filter_push(last, tagged_fn(tag));
    if j < selected(front, tag).len() {
        lemma_selected_in_order(front, tag, i, j);
        let (p, q) = choose|p: int, q: int|
            0 <= p < q < front.len() && #[trigger] front[p] == selected(front, tag)[i]
                && #[trigger] front[q] == selected(front, tag)[j];
        assert(scenarios[p] == front[p] && scenarios[q] == front[q]);
    } else {
        let kept = selected(front, tag)[i];
        assert(selected(front, tag).contains(kept));
        front.lemma_filter_contains_rev(tagged_fn(tag), kept);
        let p = choose|p: int| 0 <= p < front.len() && front[p] == kept;
        let q = scenarios.len() - 1;
        assert(scenarios[p] == front[p] && scenarios[q] == last);
    }
}

/// A feature splits into as many features as it has scenarios; the `k`-th
/// holds the `k`-th scenario alone and keeps keyword, name and background.
pub proof fn lemma_split(feature: FeatureView, k: int)
    requires
        0 <= k < feature.scenarios.len(),
    ensures
        split(feature).len() == feature.scenarios.len(),
        split(feature)[k].scenarios == seq![feature.scenarios[k]],
        split(feature)[k].keyword == feature.keyword,
        split(feature)[k].name == feature.name,
        split(feature)[k].background == feature.background,
{
}

/// Expansion never loses a scenario: each gives at least one concrete
/// scenario.
pub proof fn lemma_concrete_nonempty(scenario: ScenarioView)
    ensures
        concrete(scenario).len() >= 1,
{
}

/// What one feature gives in the two modes agrees: there is one
/// single-scenario feature per concrete scenario, in the same order, and it
/// holds that scenario and keeps keyword, name and background of the feature.
pub proof fn lemma_materialized_of(feature: FeatureView, tag: Text)
    ensures
        materialized_of(feature, tag).len() == concrete_of(feature, tag).len(),
        forall|k: int|
            0 <= k < concrete_of(feature, tag).len() ==> {
                let single = #[trigger] materialized_of(feature, tag)[k];
                &&& single.scenarios == seq![concrete_of(feature, tag)[k]]
                &&& single.keyword == feature.keyword
                &&& single.name == feature.name
                &&& single.background == feature.background
            },
{
    let kept = prepared(feature, tag);
    if kept.scenarios.len() == 0 {
        assert(kept.scenarios.map_values(concrete_fn()) =~= Seq::empty());
        assert(concrete_of(feature, tag) =~= Seq::empty());
    }
}

/// The two modes agree on any set of features: materializing gives exactly
/// one single-scenario feature per listed concrete scenario, in the same
/// order, and it holds that scenario.
pub proof fn lemma_modes_agree(features: Seq<FeatureView>, tag: Text)
    ensures
        materialized(features, tag).len() == concrete_scenarios(features, tag).len(),
        forall|k: int|
            0 <= k < concrete_scenarios(features, tag).len() ==> (#[trigger] materialized(
                features,
                tag,
            )[k]).scenarios == seq![concrete_scenarios(features, tag)[k]],
    decreases features.len(),
{
    if features.len() == 0 {
        assert(features.map_values(materialized_of_fn(tag)) =~= Seq::empty());
        assert(features.map_values(concrete_of_fn(tag)) =~= Seq::empty());
    } else {
        let front = features.drop_last();
        let last = features.last();
        lemma_modes_agree(front, tag);
        lemma_materialized_of(last, tag);
        assert(features =~= front.push(last));
        front.lemma_flat_map_push(materialized_of_fn(tag), last);
        front.lemma_flat_map_push(concrete_of_fn(tag), last);
        assert(materialized(features, tag) =~= materialized(front, tag) + materialized_of(
            last,
            tag,
        ));
        assert(concrete_scenarios(features, tag) =~= concrete_scenarios(front, tag) + concrete_of(
            last,
            tag,
        ));
    }
}

} // verus!
