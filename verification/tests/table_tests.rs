use rho_tui::markdown_table::{
    fit_column_widths, has_markdown_table_delimiter, markdown_table_alignment, markdown_table_cells,
    parse_markdown_table, table_cell_padding, table_parse_is_safe, TableAlignment,
};

#[test]
fn cells_keep_code_spans_and_unescape_pipes() {
    assert_eq!(markdown_table_cells("| a | `x|y` | c\\|d |"), vec!["a", "`x|y`", "c|d"]);
    assert_eq!(markdown_table_cells("a | b"), vec!["a", "b"]);
}

#[test]
fn pipes_inside_code_are_not_separators() {
    assert!(!has_markdown_table_delimiter("`a|b`"));
    assert!(has_markdown_table_delimiter("a | b"));
    assert!(!has_markdown_table_delimiter("a \\| b"));
}

#[test]
fn separator_cells_give_alignments() {
    assert_eq!(markdown_table_alignment(":---:"), Some(TableAlignment::Center));
    assert_eq!(markdown_table_alignment("---:"), Some(TableAlignment::Right));
    assert_eq!(markdown_table_alignment(":---"), Some(TableAlignment::Left));
    assert_eq!(markdown_table_alignment("---"), Some(TableAlignment::Left));
    assert_eq!(markdown_table_alignment("--"), None);
    assert_eq!(markdown_table_alignment("-x-"), None);
}

#[test]
fn centred_cells_put_the_extra_space_on_the_right() {
    assert_eq!(table_cell_padding(TableAlignment::Center, 5), (2, 3));
    assert_eq!(table_cell_padding(TableAlignment::Left, 5), (0, 5));
    assert_eq!(table_cell_padding(TableAlignment::Right, 5), (5, 0));
}

#[test]
fn tables_take_the_rows_that_follow() {
    let lines = ["| a | b |", "|---|:---:|", "| 1 | 2 | 3 |", "| 4 |", "", "| 5 | 6 |"];
    let (table, used) = parse_markdown_table(&lines).unwrap();
    assert_eq!(used, 4);
    assert_eq!(table.alignments, vec![TableAlignment::Left, TableAlignment::Center]);
    assert_eq!(
        table.rows,
        vec![
            vec!["a".to_string(), "b".to_string()],
            vec!["1".to_string(), "2".to_string()],
            vec!["4".to_string(), String::new()],
        ]
    );
    assert!(parse_markdown_table(&["| a |", "|---|"]).is_none());
    assert!(parse_markdown_table(&["a | b", "c | d"]).is_none());
}

#[test]
fn lone_bars_make_reading_unsafe_only_where_cut() {
    assert!(!table_parse_is_safe(&["|", "| a |"]));
    assert!(table_parse_is_safe(&["hello", "|"]));
    assert!(!table_parse_is_safe(&["| a | b |", "|---|---|", "|"]));
    assert!(table_parse_is_safe(&["| a | b |", "|---|---|", "", "|"]));
}

#[test]
fn widths_shrink_widest_first() {
    assert_eq!(fit_column_widths(vec![10, 4, 1], 8), Some(vec![4, 3, 1]));
    assert_eq!(fit_column_widths(vec![3, 2], 10), Some(vec![3, 2]));
    assert_eq!(fit_column_widths(vec![1, 1], 1), None);
}
