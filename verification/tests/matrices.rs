use marrow_run::matrix::{
    add_with, check_shape, dimension, get_cell, identity, index, matrix_layout, matrix_shape,
    multiply_with, render_cells, transpose, CellParse, MatrixError, MatrixOp,
};

fn texts(rows: &[&[&str]]) -> Vec<Vec<String>> {
    rows.iter().map(|r| r.iter().map(|c| c.to_string()).collect()).collect()
}

/// A stand-in for the decimal parser: digits with an optional sign, and a
/// cell spelled `big` that leaves the range.
fn parse_cell(text: &str) -> CellParse {
    if text == "big" {
        CellParse::Overflow
    } else if text.trim_start_matches('-').chars().all(|c| c.is_ascii_digit()) && !text.is_empty() {
        CellParse::Decimal
    } else {
        CellParse::Malformed
    }
}

fn shape_of(text: &str) -> Result<(usize, usize), MatrixError> {
    let layout = matrix_layout(text)?;
    let grid: Vec<Vec<CellParse>> =
        layout.iter().map(|row| row.iter().map(|c| parse_cell(c)).collect()).collect();
    matrix_shape(&grid)
}

fn numbers(text: &str) -> Vec<Vec<i64>> {
    matrix_layout(text).unwrap().iter().map(|r| r.iter().map(|c| c.parse().unwrap()).collect()).collect()
}

#[test]
fn matrix_operations_are_named() {
    assert_eq!(MatrixOp::from_name("parse"), Some(MatrixOp::Parse));
    assert_eq!(MatrixOp::from_name("identity"), Some(MatrixOp::Identity));
    assert_eq!(MatrixOp::from_name("rows"), Some(MatrixOp::Rows));
    assert_eq!(MatrixOp::from_name("cols"), Some(MatrixOp::Cols));
    assert_eq!(MatrixOp::from_name("get"), Some(MatrixOp::Get));
    assert_eq!(MatrixOp::from_name("add"), Some(MatrixOp::Add));
    assert_eq!(MatrixOp::from_name("multiply"), Some(MatrixOp::Multiply));
    assert_eq!(MatrixOp::from_name("transpose"), Some(MatrixOp::Transpose));
    assert_eq!(MatrixOp::from_name("inverse"), None);
}

#[test]
fn matrix_text_splits_into_trimmed_cells() {
    assert_eq!(matrix_layout("  [1, 2 ;3,4]\n"), Ok(texts(&[&["1", "2"], &["3", "4"]])));
    assert_eq!(matrix_layout("[7]"), Ok(texts(&[&["7"]])));
    assert_eq!(matrix_layout("[1;;2]"), Ok(vec![vec!["1".to_string()], vec![], vec!["2".to_string()]]));
    assert_eq!(matrix_layout("[1, ]"), Ok(texts(&[&["1", ""]])));
    assert_eq!(matrix_layout("1,2"), Err(MatrixError::NotBracketed));
    assert_eq!(matrix_layout("["), Err(MatrixError::NotBracketed));
    assert_eq!(matrix_layout("[1,2"), Err(MatrixError::NotBracketed));
    assert_eq!(matrix_layout("[ \t]"), Err(MatrixError::NoRows));
    assert_eq!(matrix_layout("[]"), Err(MatrixError::NoRows));
    let huge = format!("[{}]", "1".repeat(1_048_575));
    assert_eq!(matrix_layout(&huge), Err(MatrixError::TextTooLarge));
}

#[test]
fn matrix_shapes_report_the_first_failure_in_reading_order() {
    assert_eq!(shape_of("[1,2;3,4;5,6]"), Ok((3, 2)));
    assert_eq!(shape_of("[1;;2]"), Err(MatrixError::EmptyRow));
    assert_eq!(shape_of("[1,2;3]"), Err(MatrixError::NotRectangular));
    assert_eq!(shape_of("[1,2;x]"), Err(MatrixError::NotADecimal));
    assert_eq!(shape_of("[1,2;big,4]"), Err(MatrixError::DecimalOverflow));
    assert_eq!(shape_of("[1, ]"), Err(MatrixError::NotADecimal));
    let wide = format!("[{}]", vec!["1"; 65].join(","));
    assert_eq!(shape_of(&wide), Err(MatrixError::DimensionsTooLarge));
    let wide_bad_tail = format!("[{},x]", vec!["1"; 64].join(","));
    assert_eq!(shape_of(&wide_bad_tail), Err(MatrixError::DimensionsTooLarge));
    let tall = format!("[{}]", vec!["1"; 65].join(";"));
    assert_eq!(shape_of(&tall), Err(MatrixError::DimensionsTooLarge));
    let full = format!("[{}]", vec![vec!["1"; 64].join(","); 64].join(";"));
    assert_eq!(shape_of(&full), Ok((64, 64)));
}

#[test]
fn matrix_sizes_and_indexes() {
    assert_eq!(check_shape(64, 64), Ok(()));
    assert_eq!(check_shape(65, 1), Err(MatrixError::DimensionsTooLarge));
    assert_eq!(check_shape(1, 65), Err(MatrixError::DimensionsTooLarge));
    assert_eq!(dimension(3), Ok(3));
    assert_eq!(dimension(0), Err(MatrixError::SizeNotPositive));
    assert_eq!(dimension(-4), Err(MatrixError::SizeNotPositive));
    assert_eq!(dimension(65), Err(MatrixError::DimensionsTooLarge));
    assert_eq!(index(0), Ok(0));
    assert_eq!(index(-1), Err(MatrixError::NegativeIndex));
    let m = numbers("[1,2;3,4]");
    assert_eq!(get_cell(&m, 1, 0), Ok(3));
    assert_eq!(get_cell(&m, 2, 0), Err(MatrixError::IndexOutOfBounds));
    assert_eq!(get_cell(&m, 0, 2), Err(MatrixError::IndexOutOfBounds));
    assert_eq!(get_cell(&m, -1, 9), Err(MatrixError::NegativeIndex));
    assert_eq!(get_cell(&m, 9, -1), Err(MatrixError::NegativeIndex));
}

#[test]
fn identity_transpose_and_render() {
    assert_eq!(identity(3, 0i64, 1i64), vec![vec![1, 0, 0], vec![0, 1, 0], vec![0, 0, 1]]);
    assert_eq!(transpose(&numbers("[1,2,3;4,5,6]")), numbers("[1,4;2,5;3,6]"));
    assert_eq!(transpose(&transpose(&numbers("[1,2;3,4;5,6]"))), numbers("[1,2;3,4;5,6]"));
    assert_eq!(render_cells(&texts(&[&["1", "2"], &["3.5", "-4"]])), "[1,2;3.5,-4]");
    assert_eq!(render_cells(&texts(&[&["0"]])), "[0]");
}

#[test]
fn matrix_arithmetic_checks_shapes_and_overflow() {
    let plus = |x: i64, y: i64| x.checked_add(y);
    let times = |x: i64, y: i64| x.checked_mul(y);
    let a = numbers("[1,2;3,4]");
    let b = numbers("[5,6;7,8]");
    assert_eq!(add_with(&a, &b, &plus), Ok(numbers("[6,8;10,12]")));
    assert_eq!(add_with(&a, &numbers("[1,2]"), &plus), Err(MatrixError::AddDimensions));
    let max = vec![vec![i64::MAX]];
    assert_eq!(add_with(&max, &max, &plus), Err(MatrixError::DecimalOverflow));

    assert_eq!(multiply_with(&a, &b, 0, &times, &plus), Ok(numbers("[19,22;43,50]")));
    assert_eq!(multiply_with(&numbers("[1,2,3]"), &numbers("[4;5;6]"), 0, &times, &plus), Ok(vec![vec![32]]));
    assert_eq!(multiply_with(&a, &numbers("[1,2,3]"), 0, &times, &plus), Err(MatrixError::MultiplyDimensions));
    let big = vec![vec![1i64; 64]; 64];
    assert_eq!(multiply_with(&big, &big, 0, &times, &plus), Err(MatrixError::OperationTooLarge));
    assert_eq!(multiply_with(&max, &vec![vec![2]], 0, &times, &plus), Err(MatrixError::DecimalOverflow));
}

#[test]
fn matrix_errors_carry_their_texts() {
    assert_eq!(MatrixError::NotRectangular.message(), Some("matrix rows must be rectangular"));
    assert_eq!(MatrixError::OperationTooLarge.message(), Some("matrix operation is too large"));
    assert_eq!(MatrixError::DecimalOverflow.message(), None);
}
