use csv_parser::{
    parse_and_get_col_from_csv, parse_and_get_line_from_csv, parse_and_sum_col_from_csv,
    parse_csv, pretty_lines, IndexKind, ParseError,
};

const BIOSTATS: &str = "\"Name\",     \"Sex\", \"Age\", \"Height (in)\", \"Weight (lbs)\"
\"Alex\",       \"M\",   41,       74,      170
\"Bert\",       \"M\",   42,       68,      166
\"Carl\",       \"M\",   32,       70,      155
\"Dave\",       \"M\",   39,       72,      167
\"Elly\",       \"F\",   30,       66,      124
\"Fran\",       \"F\",   33,       66,      115
\"Gwen\",       \"F\",   26,       64,      121
\"Hank\",       \"M\",   30,       71,      158
\"Ivan\",       \"M\",   53,       72,      175
\"Jake\",       \"M\",   32,       69,      143
\"Kate\",       \"F\",   47,       69,      139
\"Luke\",       \"M\",   34,       72,      163
\"Myra\",       \"F\",   23,       62,       98
\"Neil\",       \"M\",   36,       75,      160
\"Omar\",       \"M\",   38,       70,      145
\"Page\",       \"F\",   31,       67,      135
\"Quin\",       \"M\",   29,       71,      176
\"Ruth\",       \"F\",   28,       65,      131
";

fn table(rows: Vec<Vec<&str>>) -> Vec<Vec<String>> {
    rows.into_iter().map(|row| row.into_iter().map(String::from).collect()).collect()
}

#[test]
fn test_parse_csv() {
    let result = parse_csv(BIOSTATS);
    assert_eq!(
        result,
        Ok(table(vec![
            vec!["Name", "Sex", "Age", "Heightin", "Weightlbs"],
            vec!["Alex", "M", "41", "74", "170"],
            vec!["Bert", "M", "42", "68", "166"],
            vec!["Carl", "M", "32", "70", "155"],
            vec!["Dave", "M", "39", "72", "167"],
            vec!["Elly", "F", "30", "66", "124"],
            vec!["Fran", "F", "33", "66", "115"],
            vec!["Gwen", "F", "26", "64", "121"],
            vec!["Hank", "M", "30", "71", "158"],
            vec!["Ivan", "M", "53", "72", "175"],
            vec!["Jake", "M", "32", "69", "143"],
            vec!["Kate", "F", "47", "69", "139"],
            vec!["Luke", "M", "34", "72", "163"],
            vec!["Myra", "F", "23", "62", "98"],
            vec!["Neil", "M", "36", "75", "160"],
            vec!["Omar", "M", "38", "70", "145"],
            vec!["Page", "F", "31", "67", "135"],
            vec!["Quin", "M", "29", "71", "176"],
            vec!["Ruth", "F", "28", "65", "131"],
        ]))
    );
}

#[test]
fn test_pretty_print_csv() {
    match parse_csv(BIOSTATS) {
        Ok(records) => {
            let lines = pretty_lines(&records);
            assert_eq!(lines.len(), 20);
            assert_eq!(lines[0], "Pretty CSV display:");
            assert_eq!(
                lines[4],
                "Carl            M               32              70              155             "
            );
        }
        Err(err) => panic!("Parsing error: {:?}", err),
    }
}

#[test]
fn test_parse_and_get_valid_line_from_csv() {
    let line_number = 2;
    let result = parse_and_get_line_from_csv(BIOSTATS, line_number);
    assert_eq!(result, Ok("Bert, M, 42, 68, 166".to_string()));
}

#[test]
fn test_parse_and_get_invalid_line_from_csv() {
    let invalid_line_number = 42;
    let result = parse_and_get_line_from_csv(BIOSTATS, invalid_line_number);
    assert_eq!(result, Err(ParseError::IndexOutOfBounds(IndexKind::Line)));
}

#[test]
fn test_parse_and_get_valid_col_from_csv() {
    let col_number = 0;
    let result = parse_and_get_col_from_csv(BIOSTATS, col_number);
    assert_eq!(
        result,
        Ok(vec![
            "Name".to_string(),
            "Alex".to_string(),
            "Bert".to_string(),
            "Carl".to_string(),
            "Dave".to_string(),
            "Elly".to_string(),
            "Fran".to_string(),
            "Gwen".to_string(),
            "Hank".to_string(),
            "Ivan".to_string(),
            "Jake".to_string(),
            "Kate".to_string(),
            "Luke".to_string(),
            "Myra".to_string(),
            "Neil".to_string(),
            "Omar".to_string(),
            "Page".to_string(),
            "Quin".to_string(),
            "Ruth".to_string(),
        ])
    );
}

#[test]
fn test_parse_and_get_invalid_col_from_csv() {
    let invalid_col_number = 6;
    let result = parse_and_get_col_from_csv(BIOSTATS, invalid_col_number);
    assert_eq!(result, Err(ParseError::IndexOutOfBounds(IndexKind::Column)));
}

#[test]
fn test_parse_and_sum_valid_col_from_csv() {
    let col_to_sum = 4;
    let result = parse_and_sum_col_from_csv(BIOSTATS, col_to_sum);
    assert_eq!(result, Ok(2641));
}

#[test]
fn test_parse_and_sum_col_of_string() {
    let err_col_to_sum = 0;
    let result = parse_and_sum_col_from_csv(BIOSTATS, err_col_to_sum);
    assert_eq!(result, Err(ParseError::ParseIntError("Alex".to_string())));
}

#[test]
fn test_parse_and_sum_col_with_outofbound_number() {
    let err_col_to_sum = 6;
    let result = parse_and_sum_col_from_csv(BIOSTATS, err_col_to_sum);
    assert_eq!(result, Err(ParseError::IndexOutOfBounds(IndexKind::Column)));
}
