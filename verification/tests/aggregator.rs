use gherkin_expand::{Example, Examples, Table};

fn cells(row: &[&str]) -> Vec<String> {
    row.iter().map(|cell| cell.to_string()).collect()
}

fn table(rows: &[&[&str]]) -> Table {
    Table { rows: rows.iter().map(|row| cells(row)).collect() }
}

fn section(rows: &[&[&str]]) -> Examples {
    Examples { table: Some(table(rows)) }
}

fn entry(bindings: &[(&str, &str)]) -> Vec<(String, String)> {
    bindings.iter().map(|(title, value)| (title.to_string(), value.to_string())).collect()
}

#[test]
fn no_sections_give_an_empty_dataset() {
    let sections: Vec<Examples> = Vec::new();
    assert!(Example::same_width(&sections));
    let example = Example::from(&sections);
    assert_eq!(example.data, Vec::<Vec<(String, String)>>::new());
}

#[test]
fn sections_without_table_give_an_empty_dataset() {
    let sections = vec![Examples { table: None }, Examples { table: None }];
    assert!(Example::same_width(&sections));
    assert_eq!(Example::from(&sections).data.len(), 0);
}

#[test]
fn a_title_row_alone_gives_an_empty_dataset() {
    let sections = vec![section(&[&["user", "role"]])];
    assert!(Example::same_width(&sections));
    assert_eq!(Example::from(&sections).data.len(), 0);
}

#[test]
fn one_table_gives_one_entry_per_data_row() {
    let sections = vec![section(&[&["user", "role"], &["alice", "admin"], &["bob", "guest"]])];
    assert!(Example::same_width(&sections));
    let example = Example::from(&sections);
    assert_eq!(
        example.data,
        vec![
            entry(&[("user", "alice"), ("role", "admin")]),
            entry(&[("user", "bob"), ("role", "guest")]),
        ]
    );
}

#[test]
fn two_tables_stack_under_the_first_title_row() {
    let first: &[&[&str]] = &[&["user", "role"], &["alice", "admin"]];
    let second: &[&[&str]] = &[&["name", "kind"], &["bob", "guest"], &["carol", "owner"]];
    let sections = vec![section(first), section(second)];
    assert!(Example::same_width(&sections));
    let example = Example::from(&sections);
    assert_eq!(example.data.len(), first.len() + second.len() - 1);
    assert_eq!(
        example.data,
        vec![
            entry(&[("user", "alice"), ("role", "admin")]),
            entry(&[("user", "name"), ("role", "kind")]),
            entry(&[("user", "bob"), ("role", "guest")]),
            entry(&[("user", "carol"), ("role", "owner")]),
        ]
    );
}

#[test]
fn a_section_without_table_between_tables_is_skipped() {
    let sections = vec![
        Examples { table: None },
        section(&[&["n"], &["1"]]),
        Examples { table: None },
        section(&[&["2"]]),
    ];
    assert!(Example::same_width(&sections));
    let example = Example::from(&sections);
    assert_eq!(example.data, vec![entry(&[("n", "1")]), entry(&[("n", "2")])]);
}

#[test]
fn an_empty_first_table_leaves_the_titles_to_the_next() {
    let sections = vec![section(&[]), section(&[&["n"], &["1"]])];
    assert!(Example::same_width(&sections));
    assert_eq!(Example::from(&sections).data, vec![entry(&[("n", "1")])]);
}

#[test]
fn a_repeated_title_is_bound_once_and_the_last_cell_wins() {
    let sections = vec![section(&[&["a", "b", "a"], &["1", "2", "3"]])];
    assert!(Example::same_width(&sections));
    let example = Example::from(&sections);
    assert_eq!(example.data, vec![entry(&[("a", "3"), ("b", "2")])]);
}

#[test]
fn rows_without_cells_give_entries_without_bindings() {
    let sections = vec![section(&[&[], &[], &[]])];
    assert!(Example::same_width(&sections));
    let example = Example::from(&sections);
    assert_eq!(example.data, vec![entry(&[]), entry(&[])]);
}

#[test]
fn rows_of_different_width_in_one_table_are_refused() {
    let sections = vec![section(&[&["user", "role"], &["alice"]])];
    assert!(!Example::same_width(&sections));
}

#[test]
fn tables_of_different_width_are_refused() {
    let sections = vec![section(&[&["user"], &["alice"]]), section(&[&["bob", "guest"]])];
    assert!(!Example::same_width(&sections));
}

#[test]
fn a_wider_title_row_is_refused() {
    let sections = vec![section(&[&["user", "role"], &["alice", "admin"], &["bob", "guest", "x"]])];
    assert!(!Example::same_width(&sections));
}

#[test]
fn tables_of_the_same_width_are_accepted() {
    let sections = vec![section(&[&["user"], &["alice"]]), section(&[&["bob"]])];
    assert!(Example::same_width(&sections));
}
