//! The row dataset of a scenario: its example tables, stacked under one title
//! row and turned into one binding of titles to cells per data row.

use crate::model::{Examples, Grid, Text};
use vstd::prelude::*;

verus! {

/// One data row as ordered bindings of column title to cell.
pub type RowView = Seq<(Text, Text)>;

/// The rows that an `Examples` section contributes: those of its table, or
/// none where it has no table.
pub open spec fn rows_of(section: Option<Grid>) -> Grid {
    match section {
        Some(rows) => rows,
        None => Seq::empty(),
    }
}

/// [`rows_of`] as a function value.
pub open spec fn rows_fn() -> spec_fn(Option<Grid>) -> Grid {
    |section: Option<Grid>| rows_of(section)
}

/// The rows of all sections, one table after the other.
pub open spec fn stacked_rows(sections: Seq<Option<Grid>>) -> Grid {
    sections.flat_map(rows_fn())
}

/// All rows of the grid have the length of its first row.
pub open spec fn uniform(grid: Grid) -> bool {
    forall|i: int| 0 <= i < grid.len() ==> (#[trigger] grid[i]).len() == grid[0].len()
}

/// The row binds this title.
pub open spec fn binds(row: RowView, title: Text) -> bool {
    exists|i: int| 0 <= i < row.len() && (#[trigger] row[i]).0 == title
}

/// A position at which the row binds the title. Where the titles of the row
/// are distinct there is only one.
pub open spec fn slot(row: RowView, title: Text) -> int {
    choose|i: int| 0 <= i < row.len() && (#[trigger] row[i]).0 == title
}

/// No title is bound twice.
pub open spec fn distinct_titles(row: RowView) -> bool {
    forall|i: int, j: int|
        0 <= i < j < row.len() ==> (#[trigger] row[i]).0 != (#[trigger] row[j]).0
}

/// The cell that the row binds to the title, if any.
pub open spec fn value_of(row: RowView, title: Text) -> Option<Text> {
    if binds(row, title) {
        Some(row[slot(row, title)].1)
    } else {
        None
    }
}

/// The row after binding `title` to `value`: a title that is already bound
/// keeps its position and takes the new value, a new title goes to the end.
pub open spec fn upserted(row: RowView, title: Text, value: Text) -> RowView {
    if binds(row, title) {
        row.update(slot(row, title), (title, value))
    } else {
        row.push((title, value))
    }
}

/// The bindings of a data row under a title row: column by column from the
/// left, `titles[i]` is bound to `cells[i]`. A title that occurs in several
/// columns is bound once, at the position of its first column and to the cell
/// of its last.
pub open spec fn bound(titles: Seq<Text>, cells: Seq<Text>) -> RowView
    decreases titles.len(),
{
    if titles.len() == 0 {
        Seq::empty()
    } else {
        upserted(bound(titles.drop_last(), cells), titles.last(), cells[titles.len() - 1])
    }
}

/// The dataset of a grid: its first row is the title row, and every later
/// row gives one entry.
pub open spec fn dataset(grid: Grid) -> Seq<RowView> {
    if grid.len() == 0 {
        Seq::empty()
    } else {
        grid.drop_first().map_values(|cells: Seq<Text>| bound(grid[0], cells))
    }
}

/// Binding a title keeps the titles of a row distinct.
pub proof fn lemma_upserted_distinct(row: RowView, title: Text, value: Text)
    requires
        distinct_titles(row),
    ensures
        distinct_titles(upserted(row, title, value)),
{
    let next = upserted(row, title, value);
    if binds(row, title) {
        let k = slot(row, title);
        assert forall|i: int, j: int| 0 <= i < j < next.len() implies (#[trigger] next[i]).0 != (
        #[trigger] next[j]).0 by {
            assert(next[i].0 == row[i].0);
            assert(next[j].0 == row[j].0);
        }
    } else {
        assert forall|i: int, j: int| 0 <= i < j < next.len() implies (#[trigger] next[i]).0 != (
        #[trigger] next[j]).0 by {
            if j == row.len() {
                assert(row[i].0 != title);
            } else {
                assert(next[i].0 == row[i].0);
                assert(next[j].0 == row[j].0);
            }
        }
    }
}

/// The titles of a bound row are distinct, whatever the title row holds.
pub proof fn lemma_bound_distinct(titles: Seq<Text>, cells: Seq<Text>)
    ensures
        distinct_titles(bound(titles, cells)),
    decreases titles.len(),
{
    if titles.len() > 0 {
        lemma_bound_distinct(titles.drop_last(), cells);
        lemma_upserted_distinct(
            bound(titles.drop_last(), cells),
            titles.last(),
            cells[titles.len() - 1],
        );
    }
}

/// Stacking one more section appends its rows.
pub proof fn lemma_stacked_take(sections: Seq<Option<Grid>>, e: int)
    requires
        0 <= e < sections.len(),
    ensures
        stacked_rows(sections.take(e + 1)) == stacked_rows(sections.take(e)) + rows_of(
            sections[e],
        ),
{
    sections.lemma_flat_map_take_append(rows_fn(), e);
}

/// The rows of the first `e` sections are the first rows of the whole stack.
pub proof fn lemma_stacked_prefix(sections: Seq<Option<Grid>>, e: int)
    requires
        0 <= e <= sections.len(),
    ensures
        stacked_rows(sections.take(e)).is_prefix_of(stacked_rows(sections)),
    decreases sections.len() - e,
{
    if e < sections.len() {
        lemma_stacked_prefix(sections, e + 1);
        lemma_stacked_take(sections, e);
    } else {
        assert(sections.take(e) =~= sections);
    }
}

/// A grid with one more row has one more entry, bound under the same title
/// row; the first row of a grid gives no entry.
pub proof fn lemma_dataset_push(grid: Grid, cells: Seq<Text>)
    ensures
        dataset(grid.push(cells)) == if grid.len() == 0 {
            Seq::<RowView>::empty()
        } else {
            dataset(grid).push(bound(grid[0], cells))
        },
{
    let longer = grid.push(cells);
    if grid.len() == 0 {
        assert(dataset(longer) =~= Seq::<RowView>::empty());
    } else {
        assert(longer[0] == grid[0]);
        assert forall|k: int| 0 <= k < grid.len() implies #[trigger] dataset(longer)[k] == dataset(
            grid,
        ).push(bound(grid[0], cells))[k] by {
            assert(longer.drop_first()[k] == longer[k + 1]);
            if k < grid.len() - 1 {
                assert(grid.drop_first()[k] == grid[k + 1]);
            }
        }
        assert(dataset(longer) =~= dataset(grid).push(bound(grid[0], cells)));
    }
}

/// A position at which the row binds the title, if it binds it.
fn find_title(row: &Vec<(String, String)>, title: &String) -> (found: Option<usize>)
    ensures
        match found {
            Some(j) => j < row.len() && row.deep_view()[j as int].0 == title@,
            None => !binds(row.deep_view(), title@),
        },
{
    let mut j: usize = 0;
    while j < row.len()
        invariant
            j <= row.len(),
            forall|k: int| 0 <= k < j ==> (#[trigger] row.deep_view()[k]).0 != title@,
        decreases row.len() - j,
    {
        if row[j].0 == *title {
            return Some(j);
        }
        j += 1;
    }
    None
}

/// Binds `title` to `value` in the row.
fn upsert(row: &mut Vec<(String, String)>, title: String, value: String)
    requires
        distinct_titles(old(row).deep_view()),
    ensures
        final(row).deep_view() == upserted(old(row).deep_view(), title@, value@),
{
    let ghost before = row.deep_view();
    match find_title(row, &title) {
        Some(j) => {
            proof {
                let k = slot(before, title@);
                assert(before[j as int].0 == title@);
                assert(k == j);
            }
            row.set(j, (title, value));
            assert(row.deep_view() =~= before.update(j as int, (title@, value@)));
        },
        None => {
            row.push((title, value));
            assert(row.deep_view() =~= before.push((title@, value@)));
        },
    }
}

/// The bindings of one data row under the title row.
fn bind(titles: &Vec<String>, cells: &Vec<String>) -> (row: Vec<(String, String)>)
    requires
        titles.len() == cells.len(),
    ensures
        row.deep_view() == bound(titles.deep_view(), cells.deep_view()),
        distinct_titles(row.deep_view()),
{
    let ghost names = titles.deep_view();
    let ghost values = cells.deep_view();
    let mut row: Vec<(String, String)> = Vec::new();
    let mut i: usize = 0;
    assert(row.deep_view() =~= bound(names.take(0), values));
    while i < titles.len()
        invariant
            i <= titles.len(),
            titles.len() == cells.len(),
            names == titles.deep_view(),
            values == cells.deep_view(),
            row.deep_view() == bound(names.take(i as int), values),
            distinct_titles(row.deep_view()),
        decreases titles.len() - i,
    {
        proof {
            assert(names.take(i + 1).drop_last() =~= names.take(i as int));
            lemma_upserted_distinct(row.deep_view(), names[i as int], values[i as int]);
        }
        upsert(&mut row, titles[i].clone(), cells[i].clone());
        i += 1;
    }
    assert(names.take(i as int) =~= names);
    row
}

/// The row dataset of one scenario.
#[derive(Debug, PartialEq, Eq)]
pub struct Example {
    /// One entry per data row, in the order of the rows. An entry holds the
    /// bindings of title to cell in the order of the columns.
    pub data: Vec<Vec<(String, String)>>,
}

impl View for Example {
    type V = Seq<RowView>;

    open spec fn view(&self) -> Seq<RowView> {
        self.data.deep_view()
    }
}

impl Example {
    /// No entry binds a title twice.
    pub open spec fn well_formed(&self) -> bool {
        forall|k: int| 0 <= k < self@.len() ==> distinct_titles(#[trigger] self@[k])
    }

    /// Whether all rows of all tables of the sections have the same length.
    pub fn same_width(examples: &Vec<Examples>) -> (ok: bool)
        ensures
            ok == uniform(stacked_rows(examples.deep_view())),
    {
        let ghost sections = examples.deep_view();
        let ghost whole = stacked_rows(sections);
        let mut width: Option<usize> = None;
        let mut e: usize = 0;
        assert(sections.take(0) =~= Seq::empty());
        while e < examples.len()
            invariant
                e <= examples.len(),
                sections == examples.deep_view(),
                whole == stacked_rows(sections),
                uniform(stacked_rows(sections.take(e as int))),
                match width {
                    Some(w) => stacked_rows(sections.take(e as int)).len() > 0 && w
                        == stacked_rows(sections.take(e as int))[0].len(),
                    None => stacked_rows(sections.take(e as int)).len() == 0,
                },
            decreases examples.len() - e,
        {
            let ghost above = stacked_rows(sections.take(e as int));
            proof {
                lemma_stacked_take(sections, e as int);
                lemma_stacked_prefix(sections, e + 1);
            }
            match &examples[e].table {
                Some(table) => {
                    let ghost grid = table@;
                    assert(rows_of(sections[e as int]) == grid);
                    let mut r: usize = 0;
                    assert(above + grid.take(0) =~= above);
                    while r < table.rows.len()
                        invariant
                            r <= table.rows.len(),
                            grid == table@,
                            whole == stacked_rows(examples.deep_view()),
                            (above + grid).is_prefix_of(whole),
                            uniform(above + grid.take(r as int)),
                            match width {
                                Some(w) => (above + grid.take(r as int)).len() > 0 && w == (above
                                    + grid.take(r as int))[0].len(),
                                None => (above + grid.take(r as int)).len() == 0,
                            },
                        decreases table.rows.len() - r,
                    {
                        let ghost seen = above + grid.take(r as int);
                        let ghost next = above + grid.take(r + 1);
                        assert(next =~= seen.push(grid[r as int]));
                        assert(grid[r as int].len() == table.rows[r as int].len());
                        let len = table.rows[r].len();
                        match width {
                            Some(w) => {
                                if len != w {
                                    proof {
                                        let at = above.len() + r;
                                        assert(whole[at] == (above + grid)[at]);
                                        assert(whole[0] == (above + grid)[0]);
                                        assert(whole[at].len() != whole[0].len());
                                    }
                                    return false;
                                }
                            },
                            None => {
                                width = Some(len);
                            },
                        }
                        r += 1;
                    }
                    assert(grid.take(r as int) =~= grid);
                },
                None => {
                    assert(above + rows_of(sections[e as int]) =~= above);
                },
            }
            e += 1;
        }
        assert(sections.take(e as int) =~= sections);
        true
    }

    /// Builds the dataset of the sections of one scenario: their tables are
    /// stacked, the first row overall names the columns, and every later row
    /// gives one entry. Sections without a table give nothing.
    ///
    /// All rows must have one length; [`Example::same_width`] tests that.
    pub fn from(examples: &Vec<Examples>) -> (res: Example)
        requires
            uniform(stacked_rows(examples.deep_view())),
        ensures
            res@ == dataset(stacked_rows(examples.deep_view())),
            res.well_formed(),
    {
        let ghost sections = examples.deep_view();
        let ghost whole = stacked_rows(sections);
        let mut data: Vec<Vec<(String, String)>> = Vec::new();
        let mut titles: Option<&Vec<String>> = None;
        let mut e: usize = 0;
        assert(sections.take(0) =~= Seq::empty());
        assert(data.deep_view() =~= dataset(stacked_rows(sections.take(0))));
        while e < examples.len()
            invariant
                e <= examples.len(),
                sections == examples.deep_view(),
                whole == stacked_rows(sections),
                uniform(whole),
                data.deep_view() == dataset(stacked_rows(sections.take(e as int))),
                forall|k: int|
                    0 <= k < data.len() ==> distinct_titles(#[trigger] data.deep_view()[k]),
                match titles {
                    Some(t) => stacked_rows(sections.take(e as int)).len() > 0 && t.deep_view()
                        == stacked_rows(sections.take(e as int))[0],
                    None => stacked_rows(sections.take(e as int)).len() == 0,
                },
            decreases examples.len() - e,
        {
            let ghost above = stacked_rows(sections.take(e as int));
            proof {
                lemma_stacked_take(sections, e as int);
                lemma_stacked_prefix(sections, e + 1);
            }
            match &examples[e].table {
                Some(table) => {
                    let ghost grid = table@;
                    assert(rows_of(sections[e as int]) == grid);
                    let mut r: usize = 0;
                    assert(above + grid.take(0) =~= above);
                    while r < table.rows.len()
                        invariant
                            r <= table.rows.len(),
                            grid == table@,
                            (above + grid).is_prefix_of(whole),
                            uniform(whole),
                            data.deep_view() == dataset(above + grid.take(r as int)),
                            forall|k: int|
                                0 <= k < data.len() ==> distinct_titles(
                                    #[trigger] data.deep_view()[k],
                                ),
                            match titles {
                                Some(t) => (above + grid.take(r as int)).len() > 0 && t.deep_view()
                                    == (above + grid.take(r as int))[0],
                                None => (above + grid.take(r as int)).len() == 0,
                            },
                        decreases table.rows.len() - r,
                    {
                        let ghost seen = above + grid.take(r as int);
                        let ghost next = above + grid.take(r + 1);
                        let ghost before = data.deep_view();
                        let cells = &table.rows[r];
                        proof {
                            assert(next =~= seen.push(grid[r as int]));
                            assert(grid[r as int] == cells.deep_view());
                            lemma_dataset_push(seen, grid[r as int]);
                        }
                        match titles {
                            Some(t) => {
                                proof {
                                    let at = above.len() + r;
                                    assert(whole[at] == (above + grid)[at]);
                                    assert(whole[0] == (above + grid)[0]);
                                    assert(seen[0] == (above + grid)[0]);
                                    assert(whole[at].len() == whole[0].len());
                                }
                                let entry = bind(t, cells);
                                data.push(entry);
                                assert(data.deep_view() =~= before.push(entry.deep_view()));
                            },
                            None => {
                                titles = Some(cells);
                            },
                        }
                        r += 1;
                    }
                    assert(grid.take(r as int) =~= grid);
                },
                None => {
                    assert(above + rows_of(sections[e as int]) =~= above);
                },
            }
            e += 1;
        }
        assert(sections.take(e as int) =~= sections);
        Example { data }
    }
}

} // verus!
