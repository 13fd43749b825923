use stremf::intrinsic::{decide, intrinsic, measure, measure_row, Intrinsic, ParseError};

fn value(text: &str) -> serde_json::Value {
    serde_json::from_str(text).unwrap()
}

#[test]
fn an_empty_array_is_no_matrix() {
    assert_eq!(intrinsic(&value("[]")), Ok(Intrinsic::Absent));
}

#[test]
fn three_rows_of_three_numbers_are_a_matrix() {
    let v = value("[[1266.4, 0.0, 816.2], [0.0, 1266.4, 491.5], [0, 0, 1]]");
    assert_eq!(intrinsic(&v), Ok(Intrinsic::Matrix));
}

#[test]
fn a_value_that_is_no_array_is_an_error() {
    assert_eq!(intrinsic(&value("null")), Err(ParseError::NotArray));
    assert_eq!(intrinsic(&value("3.5")), Err(ParseError::NotArray));
    assert_eq!(intrinsic(&value("\"[]\"")), Err(ParseError::NotArray));
    assert_eq!(intrinsic(&value("{}")), Err(ParseError::NotArray));
}

#[test]
fn a_wrong_number_of_rows_is_an_error() {
    assert_eq!(
        intrinsic(&value("[[1, 0, 0]]")),
        Err(ParseError::Rows { found: 1 })
    );
    assert_eq!(
        intrinsic(&value("[[1, 0, 0], [0, 1, 0]]")),
        Err(ParseError::Rows { found: 2 })
    );
    assert_eq!(
        intrinsic(&value("[[1, 0, 0], [0, 1, 0], [0, 0, 1], [0, 0, 0]]")),
        Err(ParseError::Rows { found: 4 })
    );
    assert_eq!(intrinsic(&value("[1]")), Err(ParseError::Rows { found: 1 }));
}

#[test]
fn the_first_bad_row_is_named() {
    assert_eq!(
        intrinsic(&value("[[1, 0], [0, 1, 0], [0, 0, 1]]")),
        Err(ParseError::Row { row: 0 })
    );
    assert_eq!(
        intrinsic(&value("[[1, 0, 0], [0, \"1\", 0], [0, 0]]")),
        Err(ParseError::Row { row: 1 })
    );
    assert_eq!(
        intrinsic(&value("[[1, 0, 0], [0, 1, 0], 7]")),
        Err(ParseError::Row { row: 2 })
    );
    assert_eq!(
        intrinsic(&value("[[1, 0, 0], [0, 1, 0], [0, 0, 1, 2]]")),
        Err(ParseError::Row { row: 2 })
    );
    assert_eq!(
        intrinsic(&value("[[], [], []]")),
        Err(ParseError::Row { row: 0 })
    );
}

#[test]
fn rows_are_measured_by_their_numbers() {
    assert_eq!(measure_row(&value("[1, 2.5, -3]")), Some(3));
    assert_eq!(measure_row(&value("[]")), Some(0));
    assert_eq!(measure_row(&value("[1, null]")), None);
    assert_eq!(measure_row(&value("[[1]]")), None);
    assert_eq!(measure_row(&value("1")), None);
    assert_eq!(
        measure(&value("[[1, 2], 3, [\"a\"], []]")),
        Some(vec![Some(2), None, None, Some(0)])
    );
    assert_eq!(measure(&value("true")), None);
}

#[test]
fn decide_goes_by_the_measures_alone() {
    assert_eq!(decide(&None), Err(ParseError::NotArray));
    assert_eq!(decide(&Some(vec![])), Ok(Intrinsic::Absent));
    assert_eq!(
        decide(&Some(vec![Some(3), Some(3), Some(3)])),
        Ok(Intrinsic::Matrix)
    );
    assert_eq!(
        decide(&Some(vec![Some(3), Some(4), None])),
        Err(ParseError::Row { row: 1 })
    );
    assert_eq!(
        decide(&Some(vec![Some(3), Some(3)])),
        Err(ParseError::Rows { found: 2 })
    );
}
