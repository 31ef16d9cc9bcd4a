//! The document tree and its mathematical model.
//!
//! Every executable type has a view that holds the same data as sequences of
//! characters and sequences of views. All contracts of the crate speak of
//! these views.

use vstd::prelude::*;

verus! {

/// A piece of text, as the sequence of its characters.
pub type Text = Seq<char>;

/// A grid of cells: a sequence of rows, each a sequence of texts.
pub type Grid = Seq<Seq<Text>>;

/// What a step does, once `And` and `But` have been resolved.
#[derive(Clone, Copy, Debug, PartialEq, Eq)]
pub enum StepType {
    Given,
    When,
    Then,
}

/// One instruction line of a scenario or of a background.
#[derive(Debug, PartialEq, Eq)]
pub struct Step {
    /// The keyword as written in the document.
    pub keyword: String,
    /// The kind of the step.
    pub ty: StepType,
    /// The text after the keyword.
    pub value: String,
}

/// The model of a [`Step`].
pub struct StepView {
    pub keyword: Text,
    pub ty: StepType,
    pub value: Text,
}

impl View for Step {
    type V = StepView;

    open spec fn view(&self) -> StepView {
        StepView { keyword: self.keyword@, ty: self.ty, value: self.value@ }
    }
}

impl DeepView for Step {
    type V = StepView;

    open spec fn deep_view(&self) -> StepView {
        self@
    }
}

impl Clone for Step {
    fn clone(&self) -> (res: Self)
        ensures
            res == *self,
    {
        Step { keyword: self.keyword.clone(), ty: self.ty, value: self.value.clone() }
    }
}

/// A data table: rows of cells. In an example table the first row names the
/// columns.
#[derive(Debug, PartialEq, Eq)]
pub struct Table {
    pub rows: Vec<Vec<String>>,
}

impl View for Table {
    type V = Grid;

    open spec fn view(&self) -> Grid {
        self.rows.deep_view()
    }
}

impl DeepView for Table {
    type V = Grid;

    open spec fn deep_view(&self) -> Grid {
        self@
    }
}

impl Clone for Table {
    fn clone(&self) -> (res: Self)
        ensures
            res@ == self@,
    {
        let res = Table { rows: self.rows.clone() };
        assert(res@ =~~= self@);
        res
    }
}

/// An `Examples` section of a scenario. Its table may be missing.
#[derive(Debug, PartialEq, Eq)]
pub struct Examples {
    pub table: Option<Table>,
}

impl View for Examples {
    type V = Option<Grid>;

    open spec fn view(&self) -> Option<Grid> {
        match self.table {
            Some(table) => Some(table@),
            None => None,
        }
    }
}

impl DeepView for Examples {
    type V = Option<Grid>;

    open spec fn deep_view(&self) -> Option<Grid> {
        self@
    }
}

impl Clone for Examples {
    fn clone(&self) -> (res: Self)
        ensures
            res@ == self@,
    {
        match &self.table {
            Some(table) => Examples { table: Some(table.clone()) },
            None => Examples { table: None },
        }
    }
}

/// The steps that all scenarios of a feature share.
#[derive(Debug, PartialEq, Eq)]
pub struct Background {
    pub steps: Vec<Step>,
}

impl View for Background {
    type V = Seq<StepView>;

    open spec fn view(&self) -> Seq<StepView> {
        self.steps.deep_view()
    }
}

impl DeepView for Background {
    type V = Seq<StepView>;

    open spec fn deep_view(&self) -> Seq<StepView> {
        self@
    }
}

impl Clone for Background {
    fn clone(&self) -> (res: Self)
        ensures
            res@ == self@,
    {
        let res = Background { steps: self.steps.clone() };
        assert(res@ =~= self@);
        res
    }
}

/// A single test case.
#[derive(Debug, PartialEq, Eq)]
pub struct Scenario {
    pub name: String,
    /// The tags, without order: only membership is ever asked.
    pub tags: Vec<String>,
    pub steps: Vec<Step>,
    pub examples: Vec<Examples>,
}

/// The model of a [`Scenario`].
pub struct ScenarioView {
    pub name: Text,
    pub tags: Seq<Text>,
    pub steps: Seq<StepView>,
    pub examples: Seq<Option<Grid>>,
}

impl View for Scenario {
    type V = ScenarioView;

    open spec fn view(&self) -> ScenarioView {
        ScenarioView {
            name: self.name@,
            tags: self.tags.deep_view(),
            steps: self.steps.deep_view(),
            examples: self.examples.deep_view(),
        }
    }
}

impl DeepView for Scenario {
    type V = ScenarioView;

    open spec fn deep_view(&self) -> ScenarioView {
        self@
    }
}

impl Clone for Scenario {
    fn clone(&self) -> (res: Self)
        ensures
            res@ == self@,
    {
        let res = Scenario {
            name: self.name.clone(),
            tags: self.tags.clone(),
            steps: self.steps.clone(),
            examples: self.examples.clone(),
        };
        assert(res.tags.deep_view() =~= self.tags.deep_view());
        assert(res.steps.deep_view() =~= self.steps.deep_view());
        assert(res.examples.deep_view() =~= self.examples.deep_view());
        res
    }
}

/// A document: a title line, an optional background and scenarios in order.
#[derive(Debug, PartialEq, Eq)]
pub struct Feature {
    /// The keyword of the title line as written in the document.
    pub keyword: String,
    pub name: String,
    pub background: Option<Background>,
    pub scenarios: Vec<Scenario>,
}

/// The model of a [`Feature`].
pub struct FeatureView {
    pub keyword: Text,
    pub name: Text,
    pub background: Option<Seq<StepView>>,
    pub scenarios: Seq<ScenarioView>,
}

impl View for Feature {
    type V = FeatureView;

    open spec fn view(&self) -> FeatureView {
        FeatureView {
            keyword: self.keyword@,
            name: self.name@,
            background: match self.background {
                Some(background) => Some(background@),
                None => None,
            },
            scenarios: self.scenarios.deep_view(),
        }
    }
}

impl DeepView for Feature {
    type V = FeatureView;

    open spec fn deep_view(&self) -> FeatureView {
        self@
    }
}

impl Clone for Feature {
    fn clone(&self) -> (res: Self)
        ensures
            res@ == self@,
    {
        let background = match &self.background {
            Some(background) => Some(background.clone()),
            None => None,
        };
        let res = Feature {
            keyword: self.keyword.clone(),
            name: self.name.clone(),
            background,
            scenarios: self.scenarios.clone(),
        };
        assert(res.scenarios.deep_view() =~= self.scenarios.deep_view());
        res
    }
}

} // verus!
