use messaging_core::csv::{Csv, Row};

#[test]
fn parsing() {
    let input = "Name,Age,Location,Occupation
        John,30,New York,Engineer
        Alice,25,Los Angeles,Teacher
        Bob,35,Chicago,Doctor
        Eva,28,San Francisco,Designer";

    let csv = Csv::from_str(input).unwrap();
    let mut input_iter = input.lines();
    let expected_header_line = input_iter.next().unwrap();

    assert_eq!(csv.header.cells.join(","), expected_header_line.to_string());

    input_iter.zip(csv.rows).for_each(|(line, row)| {
        assert_eq!(row.cells.join(","), line.to_string());
    });
}

#[test]
fn uneven_records_are_rejected() {
    let input = "a,b,c\n1,2";
    let err = Csv::from_str(input).unwrap_err();
    assert!(err.message().contains("header width"));
}

#[test]
fn empty_input_is_rejected() {
    let err = Csv::from_str("").unwrap_err();
    assert!(err.message().contains("no records"));
}

#[test]
fn trailing_newline_and_carriage_returns_are_dropped() {
    let input = "x,y\r\n1,2\r\n";
    let csv = Csv::from_str(input).unwrap();
    assert_eq!(csv.header.cells, vec!["x".to_string(), "y".to_string()]);
    assert_eq!(csv.rows.len(), 1);
    assert_eq!(csv.rows[0].cells, vec!["1".to_string(), "2".to_string()]);
}

#[test]
fn header_only_input_parses() {
    let csv = Csv::from_str("just,a,header").unwrap();
    assert_eq!(csv.header.cells.len(), 3);
    assert!(csv.rows.is_empty());
}

#[test]
fn rows_keep_their_fields() {
    let row = Row::from_record(vec!["one".to_string(), "two".to_string()]);
    assert_eq!(row.cells, vec!["one".to_string(), "two".to_string()]);
}
