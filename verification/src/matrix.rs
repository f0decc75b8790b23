//! `std::matrix`: small dense matrices written as text, rows separated by
//! `;` and cells by `,` inside brackets, as in `[1,2;3,4]`.
//!
//! What is fixed here is the matrix's layout and shape, the limits on its
//! size, and the order in which every operation visits cells and reports its
//! first failure. The cells themselves are decimals whose spelling and
//! arithmetic belong to the decimal type: the layout hands out each cell's
//! text, the shape check takes how each cell parsed, and the arithmetic
//! operations take the element operations as arguments.

use vstd::prelude::*;

use vstd::utf8::*;

use crate::strbuf::{chars_of, str_eq};
use crate::text::{join, join_spec, length, split, split_spec, strings_view, text_of, trim, trimmed};

verus! {

/// The largest matrix text, in bytes.
pub const MATRIX_MAX_BYTES: usize = 1_048_576;

/// The most rows, and the most columns, a matrix may have.
pub const MATRIX_MAX_DIMENSION: usize = 64;

/// The most cells a matrix may have.
pub const MATRIX_MAX_CELLS: usize = 4_096;

/// The most cell products one multiplication may take.
pub const MATRIX_MAX_OPS: usize = 100_000;

/// Why a matrix operation failed.
#[derive(Debug, Clone, Copy, PartialEq, Eq, Structural)]
pub enum MatrixError {
    TextTooLarge,
    NotBracketed,
    NoRows,
    DimensionsTooLarge,
    NotRectangular,
    EmptyRow,
    NotADecimal,
    /// A cell's decimal, or a sum or product of cells, leaves the decimal
    /// range.
    DecimalOverflow,
    SizeNotPositive,
    NegativeIndex,
    IndexOutOfBounds,
    AddDimensions,
    MultiplyDimensions,
    OperationTooLarge,
}

/// The type-error text of each failure; a decimal overflow is reported as
/// the decimal range's own fault and has none.
pub open spec fn matrix_error_text(e: MatrixError) -> Option<Seq<char>> {
    match e {
        MatrixError::TextTooLarge => Some("matrix text is too large"@),
        MatrixError::NotBracketed => Some("matrix text must be bracketed"@),
        MatrixError::NoRows => Some("matrix must have at least one row"@),
        MatrixError::DimensionsTooLarge => Some("matrix dimensions are too large"@),
        MatrixError::NotRectangular => Some("matrix rows must be rectangular"@),
        MatrixError::EmptyRow => Some("matrix rows must not be empty"@),
        MatrixError::NotADecimal => Some("matrix cell is not a decimal"@),
        MatrixError::DecimalOverflow => None,
        MatrixError::SizeNotPositive => Some("matrix size must be positive"@),
        MatrixError::NegativeIndex => Some("matrix index must be non-negative"@),
        MatrixError::IndexOutOfBounds => Some("matrix index is out of bounds"@),
        MatrixError::AddDimensions => Some("matrix add requires matching dimensions"@),
        MatrixError::MultiplyDimensions => Some("matrix multiply requires compatible dimensions"@),
        MatrixError::OperationTooLarge => Some("matrix operation is too large"@),
    }
}

impl MatrixError {
    /// The type-error text of this failure, or `None` for a decimal overflow.
    pub fn message(&self) -> (r: Option<&'static str>)
        ensures
            match matrix_error_text(*self) {
                Some(t) => r matches Some(s) && s@ == t,
                None => r is None,
            },
    {
        match self {
            MatrixError::TextTooLarge => Some("matrix text is too large"),
            MatrixError::NotBracketed => Some("matrix text must be bracketed"),
            MatrixError::NoRows => Some("matrix must have at least one row"),
            MatrixError::DimensionsTooLarge => Some("matrix dimensions are too large"),
            MatrixError::NotRectangular => Some("matrix rows must be rectangular"),
            MatrixError::EmptyRow => Some("matrix rows must not be empty"),
            MatrixError::NotADecimal => Some("matrix cell is not a decimal"),
            MatrixError::DecimalOverflow => None,
            MatrixError::SizeNotPositive => Some("matrix size must be positive"),
            MatrixError::NegativeIndex => Some("matrix index must be non-negative"),
            MatrixError::IndexOutOfBounds => Some("matrix index is out of bounds"),
            MatrixError::AddDimensions => Some("matrix add requires matching dimensions"),
            MatrixError::MultiplyDimensions => Some("matrix multiply requires compatible dimensions"),
            MatrixError::OperationTooLarge => Some("matrix operation is too large"),
        }
    }
}

/// The `std::matrix` operations.
#[derive(Debug, Clone, Copy, PartialEq, Eq, Structural)]
pub enum MatrixOp {
    Parse,
    Identity,
    Rows,
    Cols,
    Get,
    Add,
    Multiply,
    Transpose,
}

/// The matrix operation an operation name selects.
pub open spec fn matrix_op_named(name: Seq<char>) -> Option<MatrixOp> {
    if name == "parse"@ {
        Some(MatrixOp::Parse)
    } else if name == "identity"@ {
        Some(MatrixOp::Identity)
    } else if name == "rows"@ {
        Some(MatrixOp::Rows)
    } else if name == "cols"@ {
        Some(MatrixOp::Cols)
    } else if name == "get"@ {
        Some(MatrixOp::Get)
    } else if name == "add"@ {
        Some(MatrixOp::Add)
    } else if name == "multiply"@ {
        Some(MatrixOp::Multiply)
    } else if name == "transpose"@ {
        Some(MatrixOp::Transpose)
    } else {
        None
    }
}

impl MatrixOp {
    /// The matrix operation named `name`, or `None` for an operation
    /// `std::matrix` does not have.
    pub fn from_name(name: &str) -> (r: Option<Self>)
        ensures
            r == matrix_op_named(name@),
    {
        if str_eq(name, "parse") {
            Some(MatrixOp::Parse)
        } else if str_eq(name, "identity") {
            Some(MatrixOp::Identity)
        } else if str_eq(name, "rows") {
            Some(MatrixOp::Rows)
        } else if str_eq(name, "cols") {
            Some(MatrixOp::Cols)
        } else if str_eq(name, "get") {
            Some(MatrixOp::Get)
        } else if str_eq(name, "add") {
            Some(MatrixOp::Add)
        } else if str_eq(name, "multiply") {
            Some(MatrixOp::Multiply)
        } else if str_eq(name, "transpose") {
            Some(MatrixOp::Transpose)
        } else {
            None
        }
    }
}

/// Whether a matrix of `rows` by `cols` is within the size limits.
pub open spec fn shape_fits(rows: int, cols: int) -> bool {
    rows <= MATRIX_MAX_DIMENSION && cols <= MATRIX_MAX_DIMENSION && rows * cols
        <= MATRIX_MAX_CELLS
}

/// Refuses a shape past the size limits.
pub fn check_shape(rows: usize, cols: usize) -> (r: Result<(), MatrixError>)
    ensures
        shape_fits(rows as int, cols as int) ==> r is Ok,
        !shape_fits(rows as int, cols as int) ==> r == Err::<(), MatrixError>(
            MatrixError::DimensionsTooLarge,
        ),
{
    if rows > MATRIX_MAX_DIMENSION || cols > MATRIX_MAX_DIMENSION {
        return Err(MatrixError::DimensionsTooLarge);
    }
    assert(rows * cols <= 64 * 64) by (nonlinear_arith)
        requires
            rows <= 64,
            cols <= 64,
    ;
    if rows * cols > MATRIX_MAX_CELLS {
        return Err(MatrixError::DimensionsTooLarge);
    }
    Ok(())
}

/// The size of a square matrix: positive and within the size limits.
pub fn dimension(value: i64) -> (r: Result<usize, MatrixError>)
    ensures
        value < 1 ==> r == Err::<usize, MatrixError>(MatrixError::SizeNotPositive),
        value >= 1 && shape_fits(value as int, value as int) ==> r == Ok::<usize, MatrixError>(
            value as usize,
        ),
        value >= 1 && !shape_fits(value as int, value as int) ==> r == Err::<usize, MatrixError>(
            MatrixError::DimensionsTooLarge,
        ),
{
    if value < 1 {
        return Err(MatrixError::SizeNotPositive);
    }
    if value > MATRIX_MAX_DIMENSION as i64 {
        assert(!shape_fits(value as int, value as int));
        return Err(MatrixError::DimensionsTooLarge);
    }
    let size = value as usize;
    match check_shape(size, size) {
        Ok(()) => Ok(size),
        Err(e) => Err(e),
    }
}

/// A cell index: a non-negative int that is a machine index.
pub fn index(value: i64) -> (r: Result<usize, MatrixError>)
    ensures
        0 <= value <= usize::MAX ==> r == Ok::<usize, MatrixError>(value as usize),
        !(0 <= value <= usize::MAX) ==> r == Err::<usize, MatrixError>(MatrixError::NegativeIndex),
{
    if value < 0 || value as u64 > usize::MAX as u64 {
        return Err(MatrixError::NegativeIndex);
    }
    Ok(value as usize)
}

// ---------------------------------------------------------------------------
// Layout.
/// The text between a matrix's brackets, once the text is within the size
/// limit, bracketed after trimming, and holds something besides white space.
pub open spec fn matrix_inner(text: Seq<char>) -> Result<Seq<char>, MatrixError> {
    if encode_utf8(text).len() > MATRIX_MAX_BYTES {
        Err(MatrixError::TextTooLarge)
    } else {
        let t = trimmed(text);
        if t.len() < 2 || t[0] != '[' || t.last() != ']' {
            Err(MatrixError::NotBracketed)
        } else {
            let inner = t.subrange(1, t.len() - 1);
            if trimmed(inner).len() == 0 {
                Err(MatrixError::NoRows)
            } else {
                Ok(inner)
            }
        }
    }
}

/// The trimmed cell texts of one row; a blank row has no cells.
pub open spec fn row_cells(row: Seq<char>) -> Seq<Seq<char>> {
    if trimmed(row).len() == 0 {
        Seq::empty()
    } else {
        split_spec(row, ","@).map_values(|c: Seq<char>| trimmed(c))
    }
}

/// The rows of a matrix text, each as its trimmed cell texts.
pub open spec fn matrix_layout_spec(text: Seq<char>) -> Result<Seq<Seq<Seq<char>>>, MatrixError> {
    match matrix_inner(text) {
        Err(e) => Err(e),
        Ok(inner) => Ok(split_spec(inner, ";"@).map_values(|r: Seq<char>| row_cells(r))),
    }
}

/// The cell texts of a layout, by their chars.
pub open spec fn text_grid_view(grid: Seq<Vec<String>>) -> Seq<Seq<Seq<char>>> {
    grid.map_values(|r: Vec<String>| strings_view(r@))
}

/// One row's trimmed cell texts; a blank row has none.
fn layout_row(row: &str) -> (r: Vec<String>)
    ensures
        strings_view(r@) == row_cells(row@),
{
    let blank = trim(row);
    if length(blank.as_str()) == 0 {
        let empty: Vec<String> = Vec::new();
        assert(strings_view(empty@) =~= Seq::<Seq<char>>::empty());
        return empty;
    }
    let pieces = split(row, ",");
    let ghost pv = strings_view(pieces@);
    let mut cells: Vec<String> = Vec::new();
    let mut i: usize = 0;
    while i < pieces.len()
        invariant
            i <= pieces@.len(),
            pv == strings_view(pieces@),
            pv == split_spec(row@, ","@),
            pv.len() == pieces@.len(),
            cells@.len() == i,
            strings_view(cells@) == pv.take(i as int).map_values(|c: Seq<char>| trimmed(c)),
        decreases pieces@.len() - i,
    {
        let cell = trim(pieces[i].as_str());
        let ghost before = cells@;
        let ghost added = cell;
        cells.push(cell);
        proof {
            assert(pv[i as int] == pieces@[i as int]@);
            assert(strings_view(cells@) =~= pv.take(i + 1).map_values(|c: Seq<char>| trimmed(c)))
                by {
                assert forall|k: int| 0 <= k < cells@.len() implies strings_view(cells@)[k] == pv.take(
                    i + 1,
                ).map_values(|c: Seq<char>| trimmed(c))[k] by {
                    assert(pv.take(i + 1)[k] == pv[k]);
                    if k < i {
                        assert(cells@[k] == before[k]);
                        assert(strings_view(before)[k] == pv.take(i as int).map_values(
                            |c: Seq<char>| trimmed(c),
                        )[k]);
                        assert(pv.take(i as int)[k] == pv[k]);
                    } else {
                        assert(cells@[k] == added);
                    }
                }
            }
        }
        i = i + 1;
    }
    assert(pv.take(i as int) =~= pv);
    cells
}

/// The rows of a matrix text, each as its trimmed cell texts: the text must
/// be within the size limit and, once trimmed, bracketed around something
/// besides white space. A blank row is kept, with no cells, for the shape
/// check to refuse.
pub fn matrix_layout(text: &str) -> (r: Result<Vec<Vec<String>>, MatrixError>)
    ensures
        match matrix_layout_spec(text@) {
            Ok(g) => r matches Ok(v) && text_grid_view(v@) == g,
            Err(e) => r == Err::<Vec<Vec<String>>, MatrixError>(e),
        },
{
    let bytes = text.as_bytes();
    if bytes.len() > MATRIX_MAX_BYTES {
        return Err(MatrixError::TextTooLarge);
    }
    let t = trim(text);
    let chars = chars_of(t.as_str());
    let n = chars.len();
    if n < 2 || chars[0] != '[' || chars[n - 1] != ']' {
        return Err(MatrixError::NotBracketed);
    }
    let inner = text_of(chars.as_slice(), 1, n - 1);
    let inner_trimmed = trim(inner.as_str());
    if length(inner_trimmed.as_str()) == 0 {
        return Err(MatrixError::NoRows);
    }
    let rows = split(inner.as_str(), ";");
    let ghost rv = strings_view(rows@);
    let mut grid: Vec<Vec<String>> = Vec::new();
    let mut i: usize = 0;
    while i < rows.len()
        invariant
            i <= rows@.len(),
            rv == strings_view(rows@),
            rv.len() == rows@.len(),
            grid@.len() == i,
            text_grid_view(grid@) == rv.take(i as int).map_values(|r: Seq<char>| row_cells(r)),
        decreases rows@.len() - i,
    {
        let cells = layout_row(rows[i].as_str());
        let ghost before = grid@;
        let ghost added = cells;
        grid.push(cells);
        proof {
            assert(rv[i as int] == rows@[i as int]@);
            assert forall|k: int| 0 <= k < grid@.len() implies text_grid_view(grid@)[k] == rv.take(
                i + 1,
            ).map_values(|r: Seq<char>| row_cells(r))[k] by {
                assert(rv.take(i + 1)[k] == rv[k]);
                if k < i {
                    assert(grid@[k] == before[k]);
                    assert(text_grid_view(before)[k] == rv.take(i as int).map_values(
                        |r: Seq<char>| row_cells(r),
                    )[k]);
                    assert(rv.take(i as int)[k] == rv[k]);
                } else {
                    assert(grid@[k] == added);
                }
            }
            assert(text_grid_view(grid@) =~= rv.take(i + 1).map_values(|r: Seq<char>| row_cells(r)));
        }
        i = i + 1;
    }
    assert(rv.take(i as int) =~= rv);
    Ok(grid)
}

// ---------------------------------------------------------------------------
// Shape.
/// How one cell's text parsed as a decimal.
#[derive(Debug, Clone, Copy, PartialEq, Eq, Structural)]
pub enum CellParse {
    Decimal,
    Malformed,
    Overflow,
}

/// The width of a non-blank row, reading its cells in order from `j`: a
/// cell that is no decimal fails the row, and so does a sixty-fifth cell.
pub open spec fn row_width_from(row: Seq<CellParse>, j: int) -> Result<int, MatrixError>
    decreases row.len() - j,
{
    if j < 0 || j >= row.len() {
        Ok(row.len() as int)
    } else if j == MATRIX_MAX_DIMENSION {
        Err(MatrixError::DimensionsTooLarge)
    } else {
        match row[j] {
            CellParse::Decimal => row_width_from(row, j + 1),
            CellParse::Malformed => Err(MatrixError::NotADecimal),
            CellParse::Overflow => Err(MatrixError::DecimalOverflow),
        }
    }
}

/// The common width of the rows from `i` on, given the width so far: each
/// row is read in turn, a sixty-fifth row, a blank row or a bad row fails
/// the matrix, and every row must be as wide as the first and keep the
/// matrix within the size limits.
pub open spec fn grid_width_from(grid: Seq<Seq<CellParse>>, i: int, width: Option<int>) -> Result<
    int,
    MatrixError,
>
    decreases grid.len() - i,
{
    if i < 0 || i >= grid.len() {
        match width {
            Some(w) => Ok(w),
            None => Err(MatrixError::NoRows),
        }
    } else if i == MATRIX_MAX_DIMENSION {
        Err(MatrixError::DimensionsTooLarge)
    } else if grid[i].len() == 0 {
        Err(MatrixError::EmptyRow)
    } else {
        match row_width_from(grid[i], 0) {
            Err(e) => Err(e),
            Ok(n) => if width matches Some(w) && n != w {
                Err(MatrixError::NotRectangular)
            } else if !shape_fits(i + 1, n) {
                Err(MatrixError::DimensionsTooLarge)
            } else {
                grid_width_from(grid, i + 1, Some(n))
            },
        }
    }
}

/// The rows and columns of a matrix whose cells parsed as `grid` shows, or
/// the first failure in reading order.
pub open spec fn grid_shape(grid: Seq<Seq<CellParse>>) -> Result<(int, int), MatrixError> {
    match grid_width_from(grid, 0, None) {
        Ok(w) => Ok((grid.len() as int, w)),
        Err(e) => Err(e),
    }
}

/// The parse outcomes of a grid, by rows.
pub open spec fn parse_grid_view(grid: Seq<Vec<CellParse>>) -> Seq<Seq<CellParse>> {
    grid.map_values(|r: Vec<CellParse>| r@)
}

fn row_width(row: &Vec<CellParse>) -> (r: Result<usize, MatrixError>)
    ensures
        r matches Ok(n) ==> row_width_from(row@, 0) == Ok::<int, MatrixError>(n as int),
        r matches Err(e) ==> row_width_from(row@, 0) == Err::<int, MatrixError>(e),
{
    let mut j: usize = 0;
    while j < row.len()
        invariant
            j <= row@.len(),
            j <= MATRIX_MAX_DIMENSION,
            row_width_from(row@, 0) == row_width_from(row@, j as int),
        decreases row@.len() - j,
    {
        if j == MATRIX_MAX_DIMENSION {
            return Err(MatrixError::DimensionsTooLarge);
        }
        match row[j] {
            CellParse::Decimal => {},
            CellParse::Malformed => {
                return Err(MatrixError::NotADecimal);
            },
            CellParse::Overflow => {
                return Err(MatrixError::DecimalOverflow);
            },
        }
        j = j + 1;
    }
    Ok(row.len())
}

/// The rows and columns of a matrix whose cells parsed as `grid` shows,
/// read in order: at most sixty-four rows, no blank row, every cell a
/// decimal, every row as wide as the first, and the whole within the size
/// limits; the first failure in reading order is reported.
pub fn matrix_shape(grid: &[Vec<CellParse>]) -> (r: Result<(usize, usize), MatrixError>)
    ensures
        r matches Ok((rows, cols)) ==> grid_shape(parse_grid_view(grid@)) == Ok::<
            (int, int),
            MatrixError,
        >((rows as int, cols as int)),
        r matches Err(e) ==> grid_shape(parse_grid_view(grid@)) == Err::<(int, int), MatrixError>(e),
{
    let ghost g = parse_grid_view(grid@);
    let mut width: Option<usize> = None;
    let mut i: usize = 0;
    while i < grid.len()
        invariant
            i <= grid@.len(),
            i <= MATRIX_MAX_DIMENSION,
            g == parse_grid_view(grid@),
            g.len() == grid@.len(),
            grid_width_from(g, 0, None) == grid_width_from(
                g,
                i as int,
                match width {
                    Some(w) => Some(w as int),
                    None => None,
                },
            ),
            i == 0 <==> width is None,
            width matches Some(w) ==> w <= MATRIX_MAX_DIMENSION,
        decreases grid@.len() - i,
    {
        if i == MATRIX_MAX_DIMENSION {
            return Err(MatrixError::DimensionsTooLarge);
        }
        assert(g[i as int] == grid@[i as int]@);
        if grid[i].len() == 0 {
            return Err(MatrixError::EmptyRow);
        }
        let n = match row_width(&grid[i]) {
            Ok(n) => n,
            Err(e) => {
                return Err(e);
            },
        };
        if let Some(w) = width {
            if n != w {
                return Err(MatrixError::NotRectangular);
            }
        }
        match check_shape(i + 1, n) {
            Ok(()) => {},
            Err(e) => {
                return Err(e);
            },
        }
        width = Some(n);
        i = i + 1;
    }
    match width {
        Some(w) => Ok((grid.len(), w)),
        None => Err(MatrixError::NoRows),
    }
}

// ---------------------------------------------------------------------------
// Operations on parsed matrices.
/// Whether `m` is a `rows` by `cols` grid.
pub open spec fn is_grid<T>(m: Seq<Vec<T>>, rows: int, cols: int) -> bool {
    &&& m.len() == rows
    &&& forall|i: int| 0 <= i < rows ==> #[trigger] m[i]@.len() == cols
}

/// The `size` by `size` identity matrix: `one` on the diagonal, `zero`
/// elsewhere.
pub fn identity<T: Copy>(size: usize, zero: T, one: T) -> (r: Vec<Vec<T>>)
    ensures
        is_grid(r@, size as int, size as int),
        forall|i: int, j: int|
            0 <= i < size && 0 <= j < size ==> #[trigger] r@[i]@[j] == (if i == j {
                one
            } else {
                zero
            }),
{
    let mut rows: Vec<Vec<T>> = Vec::new();
    let mut i: usize = 0;
    while i < size
        invariant
            i <= size,
            is_grid(rows@, i as int, size as int),
            forall|a: int, b: int|
                0 <= a < i && 0 <= b < size ==> #[trigger] rows@[a]@[b] == (if a == b {
                    one
                } else {
                    zero
                }),
        decreases size - i,
    {
        let mut row: Vec<T> = Vec::new();
        let mut j: usize = 0;
        while j < size
            invariant
                j <= size,
                i < size,
                row@.len() == j,
                forall|b: int| 0 <= b < j ==> #[trigger] row@[b] == (if i == b {
                    one
                } else {
                    zero
                }),
            decreases size - j,
        {
            if i == j {
                row.push(one);
            } else {
                row.push(zero);
            }
            j = j + 1;
        }
        rows.push(row);
        i = i + 1;
    }
    rows
}

/// Whether `t` is the transpose of the `rows` by `cols` grid `m`: column `j`
/// of `m` is row `j` of `t`.
pub open spec fn is_transpose<T>(t: Seq<Vec<T>>, m: Seq<Vec<T>>, rows: int, cols: int) -> bool {
    &&& is_grid(m, rows, cols)
    &&& is_grid(t, cols, rows)
    &&& forall|i: int, j: int| 0 <= i < rows && 0 <= j < cols ==> #[trigger] t[j]@[i] == m[i]@[j]
}

/// Transposing twice gives back the matrix, cell for cell.
pub proof fn lemma_transpose_twice<T>(m: Seq<Vec<T>>, t: Seq<Vec<T>>, tt: Seq<Vec<T>>, rows: int, cols: int)
    requires
        is_transpose(t, m, rows, cols),
        is_transpose(tt, t, cols, rows),
    ensures
        tt.len() == m.len(),
        forall|i: int| 0 <= i < rows ==> #[trigger] tt[i]@ == m[i]@,
{
    assert forall|i: int| 0 <= i < rows implies #[trigger] tt[i]@ == m[i]@ by {
        assert(tt[i]@.len() == cols && m[i]@.len() == cols);
        assert forall|j: int| 0 <= j < cols implies tt[i]@[j] == m[i]@[j] by {
            assert(tt[i]@[j] == t[j]@[i]);
        }
        assert(tt[i]@ =~= m[i]@);
    }
}

/// The transpose of a non-empty rectangular matrix: column `j` of `m` is
/// row `j` of the result.
pub fn transpose<T: Copy>(m: &Vec<Vec<T>>) -> (r: Vec<Vec<T>>)
    requires
        m@.len() >= 1,
        is_grid(m@, m@.len() as int, m@[0]@.len() as int),
    ensures
        is_transpose(r@, m@, m@.len() as int, m@[0]@.len() as int),
{
    let rows = m.len();
    let cols = m[0].len();
    let mut out: Vec<Vec<T>> = Vec::new();
    let mut j: usize = 0;
    while j < cols
        invariant
            rows == m@.len(),
            cols == m@[0]@.len(),
            is_grid(m@, rows as int, cols as int),
            j <= cols,
            is_grid(out@, j as int, rows as int),
            forall|a: int, b: int|
                0 <= a < rows && 0 <= b < j ==> #[trigger] out@[b]@[a] == m@[a]@[b],
        decreases cols - j,
    {
        let mut column: Vec<T> = Vec::new();
        let mut i: usize = 0;
        while i < rows
            invariant
                rows == m@.len(),
                cols == m@[0]@.len(),
                is_grid(m@, rows as int, cols as int),
                j < cols,
                i <= rows,
                column@.len() == i,
                forall|a: int| 0 <= a < i ==> #[trigger] column@[a] == m@[a]@[j as int],
            decreases rows - i,
        {
            assert(m@[i as int]@.len() == cols);
            column.push(m[i][j]);
            i = i + 1;
        }
        out.push(column);
        j = j + 1;
    }
    out
}

/// The cell at `row` and `col`, both counted from zero.
pub fn get_cell<T: Copy>(m: &Vec<Vec<T>>, row: i64, col: i64) -> (r: Result<T, MatrixError>)
    ensures
        !(0 <= row <= usize::MAX) || !(0 <= col <= usize::MAX) ==> r == Err::<T, MatrixError>(
            MatrixError::NegativeIndex,
        ),
        (0 <= row <= usize::MAX) && (0 <= col <= usize::MAX) ==> r == (if row < m@.len() && col
            < m@[row as int]@.len() {
            Ok::<T, MatrixError>(m@[row as int]@[col as int])
        } else {
            Err(MatrixError::IndexOutOfBounds)
        }),
{
    let r = match index(row) {
        Ok(v) => v,
        Err(e) => {
            return Err(e);
        },
    };
    let c = match index(col) {
        Ok(v) => v,
        Err(e) => {
            return Err(e);
        },
    };
    if r < m.len() && c < m[r].len() {
        Ok(m[r][c])
    } else {
        Err(MatrixError::IndexOutOfBounds)
    }
}

/// The matrix text of rows of cell texts: cells joined by `,`, rows by `;`,
/// in brackets.
pub open spec fn render_spec(cells: Seq<Seq<Seq<char>>>) -> Seq<char> {
    seq!['['] + join_spec(cells.map_values(|r: Seq<Seq<char>>| join_spec(r, ","@)), ";"@) + seq![']']
}

/// Writes a matrix as text from its cells' texts.
pub fn render_cells(cells: &Vec<Vec<String>>) -> (r: String)
    ensures
        r@ == render_spec(text_grid_view(cells@)),
{
    let mut lines: Vec<String> = Vec::new();
    let ghost g = text_grid_view(cells@);
    let mut i: usize = 0;
    while i < cells.len()
        invariant
            i <= cells@.len(),
            g == text_grid_view(cells@),
            g.len() == cells@.len(),
            lines@.len() == i,
            strings_view(lines@) == g.take(i as int).map_values(|r: Seq<Seq<char>>| join_spec(r, ","@)),
        decreases cells@.len() - i,
    {
        let line = join(cells[i].as_slice(), ",");
        let ghost before = lines@;
        let ghost added = line;
        lines.push(line);
        proof {
            assert(g[i as int] == strings_view(cells@[i as int]@));
            assert forall|k: int| 0 <= k < lines@.len() implies strings_view(lines@)[k] == g.take(
                i + 1,
            ).map_values(|r: Seq<Seq<char>>| join_spec(r, ","@))[k] by {
                assert(g.take(i + 1)[k] == g[k]);
                if k < i {
                    assert(lines@[k] == before[k]);
                    assert(strings_view(before)[k] == g.take(i as int).map_values(
                        |r: Seq<Seq<char>>| join_spec(r, ","@),
                    )[k]);
                    assert(g.take(i as int)[k] == g[k]);
                } else {
                    assert(lines@[k] == added);
                }
            }
            assert(strings_view(lines@) =~= g.take(i + 1).map_values(
                |r: Seq<Seq<char>>| join_spec(r, ","@),
            ));
        }
        i = i + 1;
    }
    assert(g.take(i as int) =~= g);
    let body = join(lines.as_slice(), ";");
    let mut out = String::new();
    crate::strbuf::push_char(&mut out, '[');
    crate::strbuf::push_str(&mut out, body.as_str());
    crate::strbuf::push_char(&mut out, ']');
    proof {
        assert(out@ =~= render_spec(g));
    }
    out
}

/// Adds two matrices cell by cell with `plus`, which gives `None` where a
/// sum leaves the element range: the shapes must match, and the first
/// failing sum, in row-major order, fails the whole.
pub fn add_with<T: Copy, F: Fn(T, T) -> Option<T>>(a: &Vec<Vec<T>>, b: &Vec<Vec<T>>, plus: &F) -> (r:
    Result<Vec<Vec<T>>, MatrixError>)
    requires
        a@.len() >= 1,
        b@.len() >= 1,
        is_grid(a@, a@.len() as int, a@[0]@.len() as int),
        is_grid(b@, b@.len() as int, b@[0]@.len() as int),
        forall|x: T, y: T| #[trigger] plus.requires((x, y)),
    ensures
        a@.len() != b@.len() || a@[0]@.len() != b@[0]@.len() ==> r == Err::<Vec<Vec<T>>, MatrixError>(
            MatrixError::AddDimensions,
        ),
        r matches Ok(c) ==> is_grid(c@, a@.len() as int, a@[0]@.len() as int) && forall|i: int, j: int|
            0 <= i < a@.len() && 0 <= j < a@[0]@.len() ==> plus.ensures(
                (a@[i]@[j], b@[i]@[j]),
                Some(#[trigger] c@[i]@[j]),
            ),
        r matches Err(e) ==> (e == MatrixError::AddDimensions && (a@.len() != b@.len() || a@[0]@.len()
            != b@[0]@.len())) || (e == MatrixError::DecimalOverflow && a@.len() == b@.len()
            && a@[0]@.len() == b@[0]@.len() && exists|i: int, j: int|
            0 <= i < a@.len() && 0 <= j < a@[0]@.len() && #[trigger] plus.ensures(
                (a@[i]@[j], b@[i]@[j]),
                None,
            )),
{
    let rows = a.len();
    let cols = a[0].len();
    if rows != b.len() || cols != b[0].len() {
        return Err(MatrixError::AddDimensions);
    }
    let mut out: Vec<Vec<T>> = Vec::new();
    let mut i: usize = 0;
    while i < rows
        invariant
            rows == a@.len(),
            rows == b@.len(),
            cols == a@[0]@.len(),
            cols == b@[0]@.len(),
            is_grid(a@, rows as int, cols as int),
            is_grid(b@, rows as int, cols as int),
            forall|x: T, y: T| #[trigger] plus.requires((x, y)),
            i <= rows,
            is_grid(out@, i as int, cols as int),
            forall|p: int, q: int|
                0 <= p < i && 0 <= q < cols ==> plus.ensures(
                    (a@[p]@[q], b@[p]@[q]),
                    Some(#[trigger] out@[p]@[q]),
                ),
        decreases rows - i,
    {
        let mut row: Vec<T> = Vec::new();
        let mut j: usize = 0;
        while j < cols
            invariant
                rows == a@.len(),
                rows == b@.len(),
                cols == a@[0]@.len(),
                cols == b@[0]@.len(),
                is_grid(a@, rows as int, cols as int),
                is_grid(b@, rows as int, cols as int),
                forall|x: T, y: T| #[trigger] plus.requires((x, y)),
                i < rows,
                j <= cols,
                row@.len() == j,
                forall|q: int|
                    0 <= q < j ==> plus.ensures((a@[i as int]@[q], b@[i as int]@[q]), Some(#[trigger] row@[q])),
            decreases cols - j,
        {
            assert(a@[i as int]@.len() == cols && b@[i as int]@.len() == cols);
            let x = a[i][j];
            let y = b[i][j];
            match plus(x, y) {
                Some(sum) => {
                    row.push(sum);
                },
                None => {
                    return Err(MatrixError::DecimalOverflow);
                },
            }
            j = j + 1;
        }
        out.push(row);
        i = i + 1;
    }
    Ok(out)
}

/// Column `j` of `m`, top to bottom.
pub open spec fn column<T>(m: Seq<Vec<T>>, j: int) -> Seq<T> {
    Seq::new(m.len(), |i: int| m[i]@[j])
}

/// One step of a dot product: `next` is `acc` plus the product of `x` and
/// `y`, as `times` and `plus` may give them.
pub open spec fn dot_step<T, M: Fn(T, T) -> Option<T>, A: Fn(T, T) -> Option<T>>(
    times: M,
    plus: A,
    acc: T,
    x: T,
    y: T,
    next: T,
) -> bool {
    exists|p: T| #[trigger] times.ensures((x, y), Some(p)) && plus.ensures((acc, p), Some(next))
}

/// `sums` are the running totals of the dot product of `xs` and `ys`,
/// starting from `zero` and taking the terms in order.
pub open spec fn dot_chain<T, M: Fn(T, T) -> Option<T>, A: Fn(T, T) -> Option<T>>(
    times: M,
    plus: A,
    zero: T,
    xs: Seq<T>,
    ys: Seq<T>,
    sums: Seq<T>,
) -> bool {
    &&& sums.len() == xs.len() + 1
    &&& sums[0] == zero
    &&& forall|k: int|
        0 <= k < xs.len() ==> #[trigger] dot_step(times, plus, sums[k], xs[k], ys[k], sums[k + 1])
}

/// Whether adding the term `x` times `y` to `acc` may fail: the product may
/// leave the element range, or the sum of `acc` and a product may.
pub open spec fn dot_step_fails<T, M: Fn(T, T) -> Option<T>, A: Fn(T, T) -> Option<T>>(
    times: M,
    plus: A,
    acc: T,
    x: T,
    y: T,
) -> bool {
    times.ensures((x, y), None) || exists|p: T|
        #[trigger] times.ensures((x, y), Some(p)) && plus.ensures((acc, p), None)
}

/// Whether the dot product of `xs` and `ys` may fail at term `k`: the terms
/// before `k` may sum to a running total whose next step may fail.
pub open spec fn dot_fails_at<T, M: Fn(T, T) -> Option<T>, A: Fn(T, T) -> Option<T>>(
    times: M,
    plus: A,
    zero: T,
    xs: Seq<T>,
    ys: Seq<T>,
    k: int,
) -> bool {
    &&& 0 <= k < xs.len()
    &&& exists|sums: Seq<T>|
        #[trigger] dot_chain(times, plus, zero, xs.take(k), ys.take(k), sums) && dot_step_fails(
            times,
            plus,
            sums.last(),
            xs[k],
            ys[k],
        )
}

/// Whether `value` is a dot product of `xs` and `ys` summed from `zero`
/// with `times` and `plus`, taking the terms in order.
pub open spec fn is_dot_product<T, M: Fn(T, T) -> Option<T>, A: Fn(T, T) -> Option<T>>(
    times: M,
    plus: A,
    zero: T,
    xs: Seq<T>,
    ys: Seq<T>,
    value: T,
) -> bool {
    exists|sums: Seq<T>| #[trigger] dot_chain(times, plus, zero, xs, ys, sums) && sums.last() == value
}

/// Multiplies two matrices with the element operations `times` and `plus`,
/// which give `None` where a result leaves the element range: the first
/// matrix must be as wide as the second is tall, and the product may take
/// at most `MATRIX_MAX_OPS` cell products. Each cell of the result is the
/// dot product of a row and a column, summed from `zero` in order; the
/// first failing step, in row-major order, fails the whole.
pub fn multiply_with<T: Copy, M: Fn(T, T) -> Option<T>, A: Fn(T, T) -> Option<T>>(
    a: &Vec<Vec<T>>,
    b: &Vec<Vec<T>>,
    zero: T,
    times: &M,
    plus: &A,
) -> (r: Result<Vec<Vec<T>>, MatrixError>)
    requires
        a@.len() >= 1,
        b@.len() >= 1,
        is_grid(a@, a@.len() as int, a@[0]@.len() as int),
        is_grid(b@, b@.len() as int, b@[0]@.len() as int),
        forall|x: T, y: T| #[trigger] times.requires((x, y)),
        forall|x: T, y: T| #[trigger] plus.requires((x, y)),
    ensures
        a@[0]@.len() != b@.len() ==> r == Err::<Vec<Vec<T>>, MatrixError>(
            MatrixError::MultiplyDimensions,
        ),
        a@[0]@.len() == b@.len() && a@.len() * b@[0]@.len() * a@[0]@.len() > MATRIX_MAX_OPS ==> r
            == Err::<Vec<Vec<T>>, MatrixError>(MatrixError::OperationTooLarge),
        r matches Ok(c) ==> is_grid(c@, a@.len() as int, b@[0]@.len() as int) && forall|i: int, j: int|
            0 <= i < a@.len() && 0 <= j < b@[0]@.len() ==> is_dot_product(
                *times,
                *plus,
                zero,
                a@[i]@,
                column(b@, j),
                #[trigger] c@[i]@[j],
            ),
        r matches Err(e) ==> (e == MatrixError::MultiplyDimensions && a@[0]@.len() != b@.len()) || (e
            == MatrixError::OperationTooLarge && a@[0]@.len() == b@.len() && a@.len() * b@[0]@.len()
            * a@[0]@.len() > MATRIX_MAX_OPS) || (e == MatrixError::DecimalOverflow && a@[0]@.len()
            == b@.len() && a@.len() * b@[0]@.len() * a@[0]@.len() <= MATRIX_MAX_OPS && exists|
            i: int,
            j: int,
            k: int,
        |
            0 <= i < a@.len() && 0 <= j < b@[0]@.len() && #[trigger] dot_fails_at(
                *times,
                *plus,
                zero,
                a@[i]@,
                column(b@, j),
                k,
            )),
{
    let rows = a.len();
    let inner = a[0].len();
    if inner != b.len() {
        return Err(MatrixError::MultiplyDimensions);
    }
    let cols = b[0].len();
    let cells = match rows.checked_mul(cols) {
        Some(v) => v,
        None => {
            assert(rows * cols * inner > MATRIX_MAX_OPS) by (nonlinear_arith)
                requires
                    rows * cols > usize::MAX,
                    inner >= 1,
                    usize::MAX >= MATRIX_MAX_OPS,
            ;
            return Err(MatrixError::OperationTooLarge);
        },
    };
    let ops = match cells.checked_mul(inner) {
        Some(v) => v,
        None => {
            return Err(MatrixError::OperationTooLarge);
        },
    };
    if ops > MATRIX_MAX_OPS {
        return Err(MatrixError::OperationTooLarge);
    }
    assert(rows * cols * inner <= MATRIX_MAX_OPS);
    let mut out: Vec<Vec<T>> = Vec::new();
    let ghost mut chains: Seq<Seq<Seq<T>>> = Seq::empty();
    let mut i: usize = 0;
    while i < rows
        invariant
            rows == a@.len(),
            inner == a@[0]@.len(),
            inner == b@.len(),
            cols == b@[0]@.len(),
            rows * cols * inner <= MATRIX_MAX_OPS,
            is_grid(a@, rows as int, inner as int),
            is_grid(b@, inner as int, cols as int),
            forall|x: T, y: T| #[trigger] times.requires((x, y)),
            forall|x: T, y: T| #[trigger] plus.requires((x, y)),
            i <= rows,
            is_grid(out@, i as int, cols as int),
            chains.len() == i,
            forall|p: int| 0 <= p < i ==> (#[trigger] chains[p]).len() == cols,
            forall|p: int, q: int|
                #![trigger chains[p][q]]
                0 <= p < i && 0 <= q < cols ==> dot_chain(
                    *times,
                    *plus,
                    zero,
                    a@[p]@,
                    column(b@, q),
                    chains[p][q],
                ) && chains[p][q].last() == out@[p]@[q],
        decreases rows - i,
    {
        let mut row: Vec<T> = Vec::new();
        let ghost mut row_chains: Seq<Seq<T>> = Seq::empty();
        let mut j: usize = 0;
        while j < cols
            invariant
                rows == a@.len(),
                inner == a@[0]@.len(),
                inner == b@.len(),
                cols == b@[0]@.len(),
                rows * cols * inner <= MATRIX_MAX_OPS,
                is_grid(a@, rows as int, inner as int),
                is_grid(b@, inner as int, cols as int),
                forall|x: T, y: T| #[trigger] times.requires((x, y)),
                forall|x: T, y: T| #[trigger] plus.requires((x, y)),
                i < rows,
                j <= cols,
                row@.len() == j,
                row_chains.len() == j,
                forall|q: int|
                    #![trigger row_chains[q]]
                    0 <= q < j ==> dot_chain(
                        *times,
                        *plus,
                        zero,
                        a@[i as int]@,
                        column(b@, q),
                        row_chains[q],
                    ) && row_chains[q].last() == row@[q],
            decreases cols - j,
        {
            let ghost xs = a@[i as int]@;
            let ghost ys = column(b@, j as int);
            let mut total = zero;
            let ghost mut sums: Seq<T> = seq![zero];
            let mut k: usize = 0;
            while k < inner
                invariant
                    rows == a@.len(),
                    inner == a@[0]@.len(),
                    inner == b@.len(),
                    cols == b@[0]@.len(),
                    rows * cols * inner <= MATRIX_MAX_OPS,
                    is_grid(a@, rows as int, inner as int),
                    is_grid(b@, inner as int, cols as int),
                    forall|x: T, y: T| #[trigger] times.requires((x, y)),
                    forall|x: T, y: T| #[trigger] plus.requires((x, y)),
                    i < rows,
                    j < cols,
                    k <= inner,
                    xs == a@[i as int]@,
                    ys == column(b@, j as int),
                    xs.len() == inner,
                    ys.len() == inner,
                    sums.len() == k + 1,
                    sums[0] == zero,
                    sums.last() == total,
                    forall|t: int|
                        0 <= t < k ==> #[trigger] dot_step(
                            *times,
                            *plus,
                            sums[t],
                            xs[t],
                            ys[t],
                            sums[t + 1],
                        ),
                decreases inner - k,
            {
                assert(b@[k as int]@.len() == cols);
                let x = a[i][k];
                let y = b[k][j];
                assert(x == xs[k as int]);
                assert(y == ys[k as int]);
                proof {
                    assert(dot_chain(
                        *times,
                        *plus,
                        zero,
                        xs.take(k as int),
                        ys.take(k as int),
                        sums,
                    )) by {
                        assert forall|t: int| 0 <= t < k implies #[trigger] dot_step(
                            *times,
                            *plus,
                            sums[t],
                            xs.take(k as int)[t],
                            ys.take(k as int)[t],
                            sums[t + 1],
                        ) by {
                            assert(dot_step(*times, *plus, sums[t], xs[t], ys[t], sums[t + 1]));
                        }
                    }
                }
                let product = match times(x, y) {
                    Some(p) => p,
                    None => {
                        proof {
                            assert(dot_fails_at(*times, *plus, zero, xs, ys, k as int));
                            assert(dot_fails_at(
                                *times,
                                *plus,
                                zero,
                                a@[i as int]@,
                                column(b@, j as int),
                                k as int,
                            ));
                        }
                        return Err(MatrixError::DecimalOverflow);
                    },
                };
                let next = match plus(total, product) {
                    Some(v) => v,
                    None => {
                        proof {
                            assert(dot_step_fails(*times, *plus, total, x, y));
                            assert(dot_fails_at(*times, *plus, zero, xs, ys, k as int));
                            assert(dot_fails_at(
                                *times,
                                *plus,
                                zero,
                                a@[i as int]@,
                                column(b@, j as int),
                                k as int,
                            ));
                        }
                        return Err(MatrixError::DecimalOverflow);
                    },
                };
                proof {
                    assert(dot_step(*times, *plus, total, x, y, next));
                    let old_sums = sums;
                    sums = sums.push(next);
                    assert forall|t: int|
                        0 <= t < k + 1 implies #[trigger] dot_step(
                        *times,
                        *plus,
                        sums[t],
                        xs[t],
                        ys[t],
                        sums[t + 1],
                    ) by {
                        if t < k {
                            assert(sums[t] == old_sums[t]);
                            assert(sums[t + 1] == old_sums[t + 1]);
                        }
                    }
                }
                total = next;
                k = k + 1;
            }
            assert(dot_chain(*times, *plus, zero, xs, ys, sums));
            let ghost before = row@;
            let ghost before_chains = row_chains;
            row.push(total);
            proof {
                row_chains = row_chains.push(sums);
                assert forall|q: int|
                    #![trigger row_chains[q]]
                    0 <= q < j + 1 implies dot_chain(
                    *times,
                    *plus,
                    zero,
                    a@[i as int]@,
                    column(b@, q),
                    row_chains[q],
                ) && row_chains[q].last() == row@[q] by {
                    if q < j {
                        assert(row@[q] == before[q]);
                        assert(row_chains[q] == before_chains[q]);
                    }
                }
            }
            j = j + 1;
        }
        let ghost before = out@;
        let ghost before_chains = chains;
        out.push(row);
        proof {
            chains = chains.push(row_chains);
            assert forall|p: int, q: int|
                #![trigger chains[p][q]]
                0 <= p < i + 1 && 0 <= q < cols implies dot_chain(
                *times,
                *plus,
                zero,
                a@[p]@,
                column(b@, q),
                chains[p][q],
            ) && chains[p][q].last() == out@[p]@[q] by {
                if p < i {
                    assert(out@[p] == before[p]);
                    assert(chains[p] == before_chains[p]);
                } else {
                    assert(chains[p] == row_chains);
                    assert(row_chains[q] == chains[p][q]);
                }
            }
        }
        i = i + 1;
    }
    assert forall|p: int, q: int|
        0 <= p < a@.len() && 0 <= q < b@[0]@.len() implies is_dot_product(
        *times,
        *plus,
        zero,
        a@[p]@,
        column(b@, q),
        #[trigger] out@[p]@[q],
    ) by {
        let w = chains[p][q];
        assert(dot_chain(*times, *plus, zero, a@[p]@, column(b@, q), w) && w.last() == out@[p]@[q]);
    }
    Ok(out)
}

} // verus!
