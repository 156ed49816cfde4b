use xlsx_handlebars::column::{to_column_index, to_column_name};

#[test]
fn test_excel_column_name() {
    assert_eq!(to_column_name("A", 0), "A");
    assert_eq!(to_column_name("A", 1), "B");
    assert_eq!(to_column_name("Z", 1), "AA");
    assert_eq!(to_column_name("AA", 1), "AB");
    assert_eq!(to_column_name("AZ", 1), "BA");
    assert_eq!(to_column_name("ZZ", 1), "AAA");
    assert_eq!(to_column_name("AAA", 26), "ABA");
}

#[test]
fn test_excel_column_index() {
    assert_eq!(to_column_index("A"), 1);
    assert_eq!(to_column_index("E"), 5);
    assert_eq!(to_column_index("Z"), 26);
    assert_eq!(to_column_index("AA"), 27);
    assert_eq!(to_column_index("AZ"), 52);
    assert_eq!(to_column_index("BA"), 53);
    assert_eq!(to_column_index("ZZ"), 702);
    assert_eq!(to_column_index("AAA"), 703);
}

#[test]
fn test_excel_column_name_and_index() {
    let test_cases = vec![
        ("A", 1),
        ("Z", 26),
        ("AA", 27),
        ("AZ", 52),
        ("BA", 53),
        ("ZZ", 702),
        ("AAA", 703),
        ("AAB", 704),
        ("ABC", 731),
        ("ZZZ", 18278),
    ];

    for (col_name, expected_index) in test_cases {
        let index = to_column_index(col_name);
        assert_eq!(index, expected_index, "Column name to index failed for {}", col_name);

        let name = to_column_name(col_name, 0);
        assert_eq!(name, col_name, "Column name identity failed for {}", col_name);

        let name_plus_one = to_column_name(col_name, 1);
        let index_plus_one = to_column_index(&name_plus_one);
        assert_eq!(
            index_plus_one,
            expected_index + 1,
            "Column name to index failed for {} + 1",
            col_name
        );
    }
}

#[test]
fn test_column_edge_inputs() {
    // The empty string denotes index zero, and advancing past the last
    // six-letter column yields a seven-letter name.
    assert_eq!(to_column_index(""), 0);
    assert_eq!(to_column_name("", 1), "A");
    assert_eq!(to_column_index("ZZZZZZ"), 321272406);
    assert_eq!(to_column_name("ZZZZZZ", 1), "AAAAAAA");
}
