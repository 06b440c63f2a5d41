use csv_parser::{format_row, format_rows, pad_cell, pretty_lines};

fn table(rows: Vec<Vec<&str>>) -> Vec<Vec<String>> {
    rows.into_iter().map(|row| row.into_iter().map(String::from).collect()).collect()
}

#[test]
fn pad_cell_fills_up_to_fifteen_and_adds_a_space() {
    assert_eq!(pad_cell("Alex"), "Alex            ");
    assert_eq!(pad_cell(""), "                ");
    assert_eq!(pad_cell("123456789012345"), "123456789012345 ");
    assert_eq!(pad_cell("1234567890123456"), "1234567890123456 ");
    assert_eq!(pad_cell("a much longer cell than that"), "a much longer cell than that ");
}

#[test]
fn pad_cell_agrees_with_the_standard_formatter() {
    for cell in ["", "M", "Weightlbs", "12345678901234", "123456789012345", "1234567890123456",
        "\u{e9}t\u{e9}", "\u{4e2d}\u{6587}"]
    {
        assert_eq!(pad_cell(cell), format!("{:15} ", cell));
    }
}

#[test]
fn format_row_puts_padded_cells_in_a_row() {
    let row: Vec<String> = vec!["Alex".to_string(), "M".to_string(), "41".to_string()];
    assert_eq!(format_row(&row), "Alex            M               41              ");
    assert_eq!(format_row(&Vec::new()), "");
}

#[test]
fn pretty_lines_of_no_rows_says_so() {
    let none: Vec<Vec<String>> = Vec::new();
    assert_eq!(pretty_lines(&none), vec!["The CSV is empty!".to_string()]);
}

#[test]
fn pretty_lines_has_a_title_and_one_line_for_each_row() {
    let t = table(vec![vec!["Alex", "M"], vec!["Bert"], vec![]]);
    assert_eq!(
        pretty_lines(&t),
        vec![
            "Pretty CSV display:".to_string(),
            "Alex            M               ".to_string(),
            "Bert            ".to_string(),
            String::new(),
        ]
    );
}

#[test]
fn format_rows_gives_one_line_for_each_row() {
    let none: Vec<Vec<String>> = Vec::new();
    assert_eq!(format_rows(&none), Vec::<String>::new());
    let t = table(vec![vec!["Name", "Sex"], vec!["Alex", "M"], vec!["Bert", "M"]]);
    assert_eq!(
        format_rows(&t),
        vec![
            "Name            Sex             ".to_string(),
            "Alex            M               ".to_string(),
            "Bert            M               ".to_string(),
        ]
    );
}
