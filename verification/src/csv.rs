//! RFC 4180 CSV for `std::csv`: a reader that turns text into records of
//! fields, a header-checked table over those records, typed cell reads, and
//! the record writer whose output the reader parses back to the same cells.

use vstd::prelude::*;
use vstd::utf8::*;

use crate::numeral::{canonical_int, parse_canonical_int};
use crate::strbuf::{chars_of, push_char, push_str, str_eq};

verus! {

/// Largest CSV text, in bytes.
pub const MAX_BYTES: usize = 1_048_576;

/// Largest number of data rows below the header.
pub const MAX_ROWS: usize = 10_000;

/// Largest number of fields in one record.
pub const MAX_COLUMNS: usize = 256;

/// Largest field, in bytes.
pub const MAX_CELL_BYTES: usize = 65_536;

/// Why a CSV text or a cell read was refused.
#[derive(Clone, Copy, Debug, PartialEq, Eq, Structural)]
pub enum CsvError {
    TextEmptyOrTooLarge,
    MissingHeader,
    InvalidColumnCount,
    EmptyOrDuplicateHeader,
    TooManyRows,
    RowWidthMismatch,
    QuoteOutsideField,
    CrWithoutLf,
    TrailingTextAfterQuote,
    UnterminatedQuote,
    RowOrCellTooLarge,
    NegativeRowIndex,
    CellAbsent,
    CellEmpty,
    NotInt,
    NotBool,
}

/// The diagnostic text of each refusal.
pub open spec fn csv_error_text(e: CsvError) -> Seq<char> {
    match e {
        CsvError::TextEmptyOrTooLarge => "CSV text is empty or too large"@,
        CsvError::MissingHeader => "CSV requires a header row"@,
        CsvError::InvalidColumnCount => "CSV header has an invalid column count"@,
        CsvError::EmptyOrDuplicateHeader => "CSV headers must be non-empty and unique"@,
        CsvError::TooManyRows => "CSV has too many rows"@,
        CsvError::RowWidthMismatch => "CSV rows must match the header width"@,
        CsvError::QuoteOutsideField => "CSV quote appears outside a quoted field"@,
        CsvError::CrWithoutLf => "CSV uses CR without LF"@,
        CsvError::TrailingTextAfterQuote => "CSV quoted field has trailing text"@,
        CsvError::UnterminatedQuote => "CSV quoted field is unterminated"@,
        CsvError::RowOrCellTooLarge => "CSV row or cell is too large"@,
        CsvError::NegativeRowIndex => "CSV row index must be non-negative"@,
        CsvError::CellAbsent => "CSV cell is absent"@,
        CsvError::CellEmpty => "CSV cell is empty"@,
        CsvError::NotInt => "CSV cell is not an int"@,
        CsvError::NotBool => "CSV cell is not a bool"@,
    }
}

impl CsvError {
    /// The diagnostic text of this refusal.
    pub fn message(&self) -> (r: String)
        ensures
            r@ == csv_error_text(*self),
    {
        let text = match self {
            CsvError::TextEmptyOrTooLarge => "CSV text is empty or too large",
            CsvError::MissingHeader => "CSV requires a header row",
            CsvError::InvalidColumnCount => "CSV header has an invalid column count",
            CsvError::EmptyOrDuplicateHeader => "CSV headers must be non-empty and unique",
            CsvError::TooManyRows => "CSV has too many rows",
            CsvError::RowWidthMismatch => "CSV rows must match the header width",
            CsvError::QuoteOutsideField => "CSV quote appears outside a quoted field",
            CsvError::CrWithoutLf => "CSV uses CR without LF",
            CsvError::TrailingTextAfterQuote => "CSV quoted field has trailing text",
            CsvError::UnterminatedQuote => "CSV quoted field is unterminated",
            CsvError::RowOrCellTooLarge => "CSV row or cell is too large",
            CsvError::NegativeRowIndex => "CSV row index must be non-negative",
            CsvError::CellAbsent => "CSV cell is absent",
            CsvError::CellEmpty => "CSV cell is empty",
            CsvError::NotInt => "CSV cell is not an int",
            CsvError::NotBool => "CSV cell is not a bool",
        };
        let mut out = String::new();
        push_str(&mut out, text);
        out
    }
}

/// The typed reads of one cell.
#[derive(Clone, Copy, Debug, PartialEq, Eq, Structural)]
pub enum CsvScalarOp {
    String,
    Int,
    Decimal,
    Bool,
}

/// The typed read that an operation name selects.
pub open spec fn csv_scalar_op_named(name: Seq<char>) -> Option<CsvScalarOp> {
    if name == "string"@ {
        Some(CsvScalarOp::String)
    } else if name == "int"@ {
        Some(CsvScalarOp::Int)
    } else if name == "decimal"@ {
        Some(CsvScalarOp::Decimal)
    } else if name == "bool"@ {
        Some(CsvScalarOp::Bool)
    } else {
        None
    }
}

impl CsvScalarOp {
    /// The typed read named `name`, if any.
    pub fn from_name(name: &str) -> (r: Option<Self>)
        ensures
            r == csv_scalar_op_named(name@),
    {
        if str_eq(name, "string") {
            Some(CsvScalarOp::String)
        } else if str_eq(name, "int") {
            Some(CsvScalarOp::Int)
        } else if str_eq(name, "decimal") {
            Some(CsvScalarOp::Decimal)
        } else if str_eq(name, "bool") {
            Some(CsvScalarOp::Bool)
        } else {
            None
        }
    }
}

// ---------------------------------------------------------------------------
// The reader, as a machine over the characters of the text.
/// Where the reader stands between two characters.
pub struct CsvScan {
    pub records: Seq<Seq<Seq<char>>>,
    pub row: Seq<Seq<char>>,
    pub field: Seq<char>,
    pub in_quotes: bool,
    pub quoted: bool,
    pub field_start: bool,
}

/// Before the first character.
pub open spec fn csv_scan_start() -> CsvScan {
    CsvScan {
        records: Seq::empty(),
        row: Seq::empty(),
        field: Seq::empty(),
        in_quotes: false,
        quoted: false,
        field_start: true,
    }
}

/// Whether one more field fits the record being read.
pub open spec fn field_fits(row: Seq<Seq<char>>, field: Seq<char>) -> bool {
    row.len() < MAX_COLUMNS && encode_utf8(field).len() <= MAX_CELL_BYTES
}

/// Ends the current field: it joins the record and a new field starts.
pub open spec fn csv_finish_field(st: CsvScan) -> Result<CsvScan, CsvError> {
    if !field_fits(st.row, st.field) {
        Err(CsvError::RowOrCellTooLarge)
    } else {
        Ok(
            CsvScan {
                records: st.records,
                row: st.row.push(st.field),
                field: Seq::empty(),
                in_quotes: st.in_quotes,
                quoted: false,
                field_start: true,
            },
        )
    }
}

/// Ends the current record.
pub open spec fn csv_end_record(st: CsvScan) -> CsvScan {
    CsvScan {
        records: st.records.push(st.row),
        row: Seq::empty(),
        field: st.field,
        in_quotes: st.in_quotes,
        quoted: st.quoted,
        field_start: st.field_start,
    }
}

/// Adds one character to the current field.
pub open spec fn csv_push(st: CsvScan, c: char, field_start: bool) -> CsvScan {
    CsvScan {
        records: st.records,
        row: st.row,
        field: st.field.push(c),
        in_quotes: st.in_quotes,
        quoted: st.quoted,
        field_start,
    }
}

/// Sets where the reader stands with respect to quotes.
pub open spec fn csv_quotes(st: CsvScan, in_quotes: bool, quoted: bool, field_start: bool) -> CsvScan {
    CsvScan {
        records: st.records,
        row: st.row,
        field: st.field,
        in_quotes,
        quoted,
        field_start,
    }
}

/// The end of the text: an open quote is refused; a record under way, even
/// one empty field that was quoted, is completed.
pub open spec fn csv_finish(st: CsvScan) -> Result<Seq<Seq<Seq<char>>>, CsvError> {
    if st.in_quotes {
        Err(CsvError::UnterminatedQuote)
    } else if !st.field_start || st.quoted || st.row.len() > 0 {
        match csv_finish_field(st) {
            Ok(s) => Ok(s.records.push(s.row)),
            Err(e) => Err(e),
        }
    } else {
        Ok(st.records)
    }
}

/// The records that the rest of the text completes from state `st`.
///
/// Inside quotes, `""` is one quote and a lone `"` closes the quotes. Outside,
/// a quote may only open a field; `,` ends a field; LF or CR LF ends a record;
/// a CR without LF and text after a closing quote are refused.
pub open spec fn csv_scan(text: Seq<char>, st: CsvScan) -> Result<Seq<Seq<Seq<char>>>, CsvError>
    decreases text.len(),
{
    if text.len() == 0 {
        csv_finish(st)
    } else {
        let ch = text[0];
        if st.in_quotes {
            if ch == '"' && text.len() >= 2 && text[1] == '"' {
                csv_scan(text.skip(2), csv_push(st, '"', st.field_start))
            } else if ch == '"' {
                csv_scan(text.skip(1), csv_quotes(st, false, st.quoted, st.field_start))
            } else {
                csv_scan(text.skip(1), csv_push(st, ch, st.field_start))
            }
        } else if ch == '"' {
            if st.field_start {
                csv_scan(text.skip(1), csv_quotes(st, true, true, false))
            } else {
                Err(CsvError::QuoteOutsideField)
            }
        } else if ch == ',' {
            match csv_finish_field(st) {
                Ok(s) => csv_scan(text.skip(1), s),
                Err(e) => Err(e),
            }
        } else if ch == '\n' {
            match csv_finish_field(st) {
                Ok(s) => csv_scan(text.skip(1), csv_end_record(s)),
                Err(e) => Err(e),
            }
        } else if ch == '\r' {
            if text.len() >= 2 && text[1] == '\n' {
                match csv_finish_field(st) {
                    Ok(s) => csv_scan(text.skip(2), csv_end_record(s)),
                    Err(e) => Err(e),
                }
            } else {
                Err(CsvError::CrWithoutLf)
            }
        } else if st.quoted {
            Err(CsvError::TrailingTextAfterQuote)
        } else {
            csv_scan(text.skip(1), csv_push(st, ch, false))
        }
    }
}

/// The records of a CSV text, each a sequence of fields.
pub open spec fn csv_records(text: Seq<char>) -> Result<Seq<Seq<Seq<char>>>, CsvError> {
    csv_scan(text, csv_scan_start())
}

/// The fields of a record, by their characters.
pub open spec fn row_view(row: Seq<String>) -> Seq<Seq<char>> {
    row.map_values(|f: String| f@)
}

/// Records, by the characters of their fields.
pub open spec fn records_view(records: Seq<Vec<String>>) -> Seq<Seq<Seq<char>>> {
    records.map_values(|r: Vec<String>| row_view(r@))
}

/// A reader's result, by the characters of its fields.
pub open spec fn records_result_view(r: Result<Vec<Vec<String>>, CsvError>) -> Result<
    Seq<Seq<Seq<char>>>,
    CsvError,
> {
    match r {
        Ok(v) => Ok(records_view(v@)),
        Err(e) => Err(e),
    }
}

/// The byte length of a field, capped one past the field limit.
pub open spec fn capped_bytes(field: Seq<char>) -> int {
    if encode_utf8(field).len() > MAX_CELL_BYTES {
        MAX_CELL_BYTES + 1
    } else {
        encode_utf8(field).len() as int
    }
}

/// UTF-8 encoding distributes over concatenation.
pub proof fn lemma_encode_utf8_concat(a: Seq<char>, b: Seq<char>)
    ensures
        encode_utf8(a + b) == encode_utf8(a) + encode_utf8(b),
    decreases a.len(),
{
    if a.len() == 0 {
        assert(a + b =~= b);
        assert(encode_utf8(a) + encode_utf8(b) =~= encode_utf8(b));
    } else {
        assert((a + b).drop_first() =~= a.drop_first() + b);
        lemma_encode_utf8_concat(a.drop_first(), b);
        assert(encode_utf8(a + b) =~= encode_utf8(a) + encode_utf8(b));
    }
}

proof fn lemma_encode_utf8_push(s: Seq<char>, c: char)
    ensures
        encode_utf8(s.push(c)).len() == encode_utf8(s).len() + encode_scalar(c as u32).len(),
{
    lemma_encode_utf8_concat(s, seq![c]);
    assert(s.push(c) =~= s + seq![c]);
    assert(seq![c].drop_first() =~= Seq::<char>::empty());
    assert(encode_utf8(Seq::<char>::empty()) =~= Seq::<u8>::empty());
    assert(encode_utf8(seq![c]) == encode_scalar(c as u32) + encode_utf8(seq![c].drop_first()));
    assert(encode_utf8(seq![c]) =~= encode_scalar(c as u32));
}

/// The number of bytes in the UTF-8 encoding of `c`.
fn utf8_width(c: char) -> (w: usize)
    ensures
        w == encode_scalar(c as u32).len(),
{
    let u = c as u32;
    if u < 0x80 {
        1
    } else if u < 0x800 {
        2
    } else if u < 0x10000 {
        proof {
            vstd::utf8::char_is_scalar(c);
        }
        3
    } else {
        4
    }
}

/// Adds a character to the field under way, keeping its capped byte count.
fn field_push(field: &mut String, field_bytes: &mut usize, c: char)
    requires
        *old(field_bytes) as int == capped_bytes(old(field)@),
    ensures
        final(field)@ == old(field)@.push(c),
        *final(field_bytes) as int == capped_bytes(final(field)@),
{
    proof {
        lemma_encode_utf8_push(field@, c);
    }
    let w = utf8_width(c);
    push_char(field, c);
    if *field_bytes > MAX_CELL_BYTES - w {
        *field_bytes = MAX_CELL_BYTES + 1;
    } else {
        *field_bytes = *field_bytes + w;
    }
}

/// Ends the field under way, as [`csv_finish_field`] says.
fn finish_field(row: &mut Vec<String>, field: &mut String, field_bytes: &mut usize) -> (r: Result<
    (),
    CsvError,
>)
    requires
        *old(field_bytes) as int == capped_bytes(old(field)@),
    ensures
        r is Ok <==> field_fits(row_view(old(row)@), old(field)@),
        r is Err ==> r == Err::<(), CsvError>(CsvError::RowOrCellTooLarge),
        r is Ok ==> row_view(final(row)@) == row_view(old(row)@).push(old(field)@) && final(field)@
            == Seq::<char>::empty() && *final(field_bytes) == 0,
        r is Err ==> *final(row) == *old(row) && *final(field) == *old(field),
{
    if row.len() >= MAX_COLUMNS || *field_bytes > MAX_CELL_BYTES {
        return Err(CsvError::RowOrCellTooLarge);
    }
    let mut done = String::new();
    core::mem::swap(&mut done, field);
    proof {
        assert(row_view(row@.push(done)) =~= row_view(row@).push(done@));
    }
    row.push(done);
    *field_bytes = 0;
    Ok(())
}

/// The reader state of the exec reader's variables.
pub open spec fn scan_of(
    records: Seq<Vec<String>>,
    row: Seq<String>,
    field: Seq<char>,
    in_quotes: bool,
    quoted: bool,
    field_start: bool,
) -> CsvScan {
    CsvScan { records: records_view(records), row: row_view(row), field, in_quotes, quoted, field_start }
}

proof fn lemma_records_push(records: Seq<Vec<String>>, row: Vec<String>)
    ensures
        records_view(records.push(row)) == records_view(records).push(row_view(row@)),
{
    assert(records_view(records.push(row)) =~= records_view(records).push(row_view(row@)));
}

/// Reads a CSV text into records of fields.
pub fn parse_records(text: &str) -> (r: Result<Vec<Vec<String>>, CsvError>)
    ensures
        records_result_view(r) == csv_records(text@),
{
    let chars = chars_of(text);
    let n = chars.len();
    let mut records: Vec<Vec<String>> = Vec::new();
    let mut row: Vec<String> = Vec::new();
    let mut field = String::new();
    let mut field_bytes: usize = 0;
    let mut in_quotes = false;
    let mut quoted = false;
    let mut field_start = true;
    let mut i: usize = 0;
    proof {
        assert(chars@.skip(0) =~= text@);
        assert(records_view(records@) =~= Seq::<Seq<Seq<char>>>::empty());
        assert(row_view(row@) =~= Seq::<Seq<char>>::empty());
        assert(encode_utf8(field@) =~= Seq::<u8>::empty());
    }
    while i < n
        invariant
            n == chars@.len(),
            chars@ == text@,
            i <= n,
            field_bytes as int == capped_bytes(field@),
            csv_scan(
                chars@.skip(i as int),
                scan_of(records@, row@, field@, in_quotes, quoted, field_start),
            ) == csv_records(text@),
        decreases n - i,
    {
        let ghost rest = chars@.skip(i as int);
        let ghost st = scan_of(records@, row@, field@, in_quotes, quoted, field_start);
        let ch = chars[i];
        assert(rest[0] == ch);
        assert(rest.skip(1) =~= chars@.skip(i as int + 1));
        if in_quotes {
            if ch == '"' && i + 1 < n && chars[i + 1] == '"' {
                assert(rest[1] == chars@[i as int + 1]);
                assert(rest.skip(2) =~= chars@.skip(i as int + 2));
                field_push(&mut field, &mut field_bytes, '"');
                i = i + 2;
            } else if ch == '"' {
                in_quotes = false;
                i = i + 1;
            } else {
                field_push(&mut field, &mut field_bytes, ch);
                i = i + 1;
            }
            continue;
        }
        if ch == '"' {
            if field_start {
                in_quotes = true;
                quoted = true;
                field_start = false;
                i = i + 1;
            } else {
                return Err(CsvError::QuoteOutsideField);
            }
        } else if ch == ',' {
            let done = finish_field(&mut row, &mut field, &mut field_bytes);
            if done.is_err() {
                return Err(CsvError::RowOrCellTooLarge);
            }
            quoted = false;
            field_start = true;
            i = i + 1;
        } else if ch == '\n' {
            let done = finish_field(&mut row, &mut field, &mut field_bytes);
            if done.is_err() {
                return Err(CsvError::RowOrCellTooLarge);
            }
            quoted = false;
            field_start = true;
            proof {
                lemma_records_push(records@, row);
            }
            records.push(row);
            row = Vec::new();
            assert(row_view(row@) =~= Seq::<Seq<char>>::empty());
            i = i + 1;
        } else if ch == '\r' {
            if !(i + 1 < n && chars[i + 1] == '\n') {
                return Err(CsvError::CrWithoutLf);
            }
            assert(rest[1] == chars@[i as int + 1]);
            assert(rest.skip(2) =~= chars@.skip(i as int + 2));
            let done = finish_field(&mut row, &mut field, &mut field_bytes);
            if done.is_err() {
                return Err(CsvError::RowOrCellTooLarge);
            }
            quoted = false;
            field_start = true;
            proof {
                lemma_records_push(records@, row);
            }
            records.push(row);
            row = Vec::new();
            assert(row_view(row@) =~= Seq::<Seq<char>>::empty());
            i = i + 2;
        } else {
            if quoted {
                return Err(CsvError::TrailingTextAfterQuote);
            }
            field_push(&mut field, &mut field_bytes, ch);
            field_start = false;
            i = i + 1;
        }
    }
    assert(chars@.skip(i as int) =~= Seq::<char>::empty());
    if in_quotes {
        return Err(CsvError::UnterminatedQuote);
    }
    if !field_start || quoted || row.len() > 0 {
        let done = finish_field(&mut row, &mut field, &mut field_bytes);
        if done.is_err() {
            return Err(CsvError::RowOrCellTooLarge);
        }
        proof {
            lemma_records_push(records@, row);
        }
        records.push(row);
    }
    Ok(records)
}


// ---------------------------------------------------------------------------
// The writer.
/// The characters that force a field into quotes.
pub open spec fn is_csv_special(c: char) -> bool {
    c == ',' || c == '"' || c == '\r' || c == '\n'
}

/// Whether a field must be quoted: it holds a comma, quote, CR or LF.
pub open spec fn needs_quotes(cell: Seq<char>) -> bool {
    exists|i: int| 0 <= i < cell.len() && is_csv_special(#[trigger] cell[i])
}

/// A field with every quote doubled.
pub open spec fn escape_quotes(cell: Seq<char>) -> Seq<char>
    decreases cell.len(),
{
    if cell.len() == 0 {
        Seq::empty()
    } else {
        (if cell[0] == '"' {
            seq!['"', '"']
        } else {
            seq![cell[0]]
        }) + escape_quotes(cell.drop_first())
    }
}

/// A field as the writer spells it: in quotes, with quotes doubled, when it
/// needs them; otherwise as it is.
pub open spec fn quoted_cell(cell: Seq<char>) -> Seq<char> {
    if needs_quotes(cell) {
        seq!['"'] + escape_quotes(cell) + seq!['"']
    } else {
        cell
    }
}

/// A record as the writer spells it: its fields joined by commas, with no
/// line ending.
pub open spec fn joined_row(cells: Seq<Seq<char>>) -> Seq<char>
    decreases cells.len(),
{
    if cells.len() == 0 {
        Seq::empty()
    } else if cells.len() == 1 {
        quoted_cell(cells[0])
    } else {
        quoted_cell(cells[0]) + seq![','] + joined_row(cells.drop_first())
    }
}

proof fn lemma_escape_concat(a: Seq<char>, b: Seq<char>)
    ensures
        escape_quotes(a + b) == escape_quotes(a) + escape_quotes(b),
    decreases a.len(),
{
    if a.len() == 0 {
        assert(a + b =~= b);
        assert(escape_quotes(a) + escape_quotes(b) =~= escape_quotes(b));
    } else {
        assert((a + b).drop_first() =~= a.drop_first() + b);
        assert((a + b)[0] == a[0]);
        lemma_escape_concat(a.drop_first(), b);
        assert(escape_quotes(a + b) =~= escape_quotes(a) + escape_quotes(b));
    }
}

proof fn lemma_escape_one(c: char)
    ensures
        escape_quotes(seq![c]) == (if c == '"' {
            seq!['"', '"']
        } else {
            seq![c]
        }),
{
    assert(seq![c].drop_first() =~= Seq::<char>::empty());
    assert(seq![c][0] == c);
    assert(escape_quotes(Seq::<char>::empty()) =~= Seq::<char>::empty());
    if c == '"' {
        assert(escape_quotes(seq![c]) =~= seq!['"', '"']);
    } else {
        assert(escape_quotes(seq![c]) =~= seq![c]);
    }
}

proof fn lemma_joined_push(cells: Seq<Seq<char>>, c: Seq<char>)
    requires
        cells.len() >= 1,
    ensures
        joined_row(cells.push(c)) == joined_row(cells) + seq![','] + quoted_cell(c),
    decreases cells.len(),
{
    let p = cells.push(c);
    assert(p[0] == cells[0]);
    if cells.len() == 1 {
        assert(p.drop_first() =~= seq![c]);
        assert(joined_row(seq![c]) == quoted_cell(c));
    } else {
        assert(p.drop_first() =~= cells.drop_first().push(c));
        lemma_joined_push(cells.drop_first(), c);
        assert(joined_row(p) =~= joined_row(cells) + seq![','] + quoted_cell(c));
    }
}

/// Whether a field must be quoted, by a scan of its characters.
fn needs_quoting(chars: &[char]) -> (r: bool)
    ensures
        r == needs_quotes(chars@),
{
    let mut i: usize = 0;
    while i < chars.len()
        invariant
            i <= chars@.len(),
            forall|j: int| 0 <= j < i ==> !is_csv_special(#[trigger] chars@[j]),
        decreases chars@.len() - i,
    {
        let c = chars[i];
        if c == ',' || c == '"' || c == '\r' || c == '\n' {
            assert(is_csv_special(chars@[i as int]));
            return true;
        }
        i = i + 1;
    }
    false
}

/// One field as the writer spells it: quoted only when it holds a comma,
/// quote, CR or LF, with inner quotes doubled.
pub fn quote_cell(cell: &str) -> (r: String)
    ensures
        r@ == quoted_cell(cell@),
{
    let chars = chars_of(cell);
    let mut out = String::new();
    if !needs_quoting(chars.as_slice()) {
        push_str(&mut out, cell);
        return out;
    }
    push_char(&mut out, '"');
    let mut i: usize = 0;
    while i < chars.len()
        invariant
            i <= chars@.len(),
            chars@ == cell@,
            out@ == seq!['"'] + escape_quotes(chars@.take(i as int)),
        decreases chars@.len() - i,
    {
        let c = chars[i];
        proof {
            assert(chars@.take(i as int + 1) =~= chars@.take(i as int) + seq![c]);
            lemma_escape_concat(chars@.take(i as int), seq![c]);
            lemma_escape_one(c);
        }
        if c == '"' {
            push_char(&mut out, '"');
            push_char(&mut out, '"');
        } else {
            push_char(&mut out, c);
        }
        i = i + 1;
    }
    push_char(&mut out, '"');
    assert(chars@.take(chars@.len() as int) =~= chars@);
    out
}

/// One record as the writer spells it: the fields, each as [`quote_cell`]
/// spells it, joined by commas, with no line ending.
pub fn format_row(cells: &[String]) -> (r: String)
    ensures
        r@ == joined_row(row_view(cells@)),
{
    let mut out = String::new();
    let mut i: usize = 0;
    assert(row_view(cells@).take(0) =~= Seq::<Seq<char>>::empty());
    while i < cells.len()
        invariant
            i <= cells@.len(),
            out@ == joined_row(row_view(cells@).take(i as int)),
        decreases cells@.len() - i,
    {
        let piece = quote_cell(cells[i].as_str());
        let ghost before = row_view(cells@).take(i as int);
        assert(row_view(cells@).take(i as int + 1) =~= before.push(cells@[i as int]@));
        if i > 0 {
            proof {
                lemma_joined_push(before, cells@[i as int]@);
            }
            push_char(&mut out, ',');
        } else {
            assert(before.push(cells@[i as int]@) =~= seq![cells@[i as int]@]);
        }
        push_str(&mut out, piece.as_str());
        i = i + 1;
    }
    assert(row_view(cells@).take(cells@.len() as int) =~= row_view(cells@));
    out
}

// ---------------------------------------------------------------------------
// What the reader makes of the writer's output.
/// A reader state at the start of a field, with nothing read into it.
pub open spec fn csv_fresh(records: Seq<Seq<Seq<char>>>, row: Seq<Seq<char>>) -> CsvScan {
    CsvScan {
        records,
        row,
        field: Seq::empty(),
        in_quotes: false,
        quoted: false,
        field_start: true,
    }
}

/// The state once a whole field `c`, as the writer spells it, has been read.
pub open spec fn csv_after_cell(records: Seq<Seq<Seq<char>>>, row: Seq<Seq<char>>, c: Seq<char>) -> CsvScan {
    CsvScan {
        records,
        row,
        field: c,
        in_quotes: false,
        quoted: needs_quotes(c),
        field_start: !needs_quotes(c) && c.len() == 0,
    }
}

proof fn lemma_scan_plain(c: Seq<char>, tail: Seq<char>, st: CsvScan)
    requires
        !needs_quotes(c),
        !st.in_quotes,
        !st.quoted,
    ensures
        csv_scan(c + tail, st) == csv_scan(
            tail,
            CsvScan {
                records: st.records,
                row: st.row,
                field: st.field + c,
                in_quotes: false,
                quoted: false,
                field_start: st.field_start && c.len() == 0,
            },
        ),
    decreases c.len(),
{
    if c.len() == 0 {
        assert(c + tail =~= tail);
        assert(st.field + c =~= st.field);
    } else {
        let ch = c[0];
        assert(!is_csv_special(c[0]));
        let text = c + tail;
        assert(text[0] == ch);
        assert(text.skip(1) =~= c.drop_first() + tail);
        let st1 = csv_push(st, ch, false);
        assert forall|j: int| 0 <= j < c.drop_first().len() implies !is_csv_special(
            #[trigger] c.drop_first()[j],
        ) by {
            assert(c.drop_first()[j] == c[j + 1]);
        }
        lemma_scan_plain(c.drop_first(), tail, st1);
        assert(st1.field + c.drop_first() =~= st.field + c);
    }
}

proof fn lemma_scan_escaped(c: Seq<char>, tail: Seq<char>, st: CsvScan)
    requires
        st.in_quotes,
        tail.len() >= 1,
        tail[0] == '"',
        tail.len() == 1 || tail[1] != '"',
    ensures
        csv_scan(escape_quotes(c) + tail, st) == csv_scan(
            tail,
            CsvScan {
                records: st.records,
                row: st.row,
                field: st.field + c,
                in_quotes: true,
                quoted: st.quoted,
                field_start: st.field_start,
            },
        ),
    decreases c.len(),
{
    let text = escape_quotes(c) + tail;
    if c.len() == 0 {
        assert(escape_quotes(c) =~= Seq::<char>::empty());
        assert(text =~= tail);
        assert(st.field + c =~= st.field);
    } else if c[0] == '"' {
        let rest = escape_quotes(c.drop_first()) + tail;
        assert(text =~= seq!['"', '"'] + rest);
        assert(text[0] == '"' && text[1] == '"');
        assert(text.skip(2) =~= rest);
        let st1 = csv_push(st, '"', st.field_start);
        lemma_scan_escaped(c.drop_first(), tail, st1);
        assert(st1.field + c.drop_first() =~= st.field + c);
    } else {
        let rest = escape_quotes(c.drop_first()) + tail;
        assert(text =~= seq![c[0]] + rest);
        assert(text[0] == c[0]);
        assert(text.skip(1) =~= rest);
        let st1 = csv_push(st, c[0], st.field_start);
        lemma_scan_escaped(c.drop_first(), tail, st1);
        assert(st1.field + c.drop_first() =~= st.field + c);
    }
}

proof fn lemma_scan_cell(c: Seq<char>, after: Seq<char>, records: Seq<Seq<Seq<char>>>, row: Seq<Seq<char>>)
    requires
        after.len() == 0 || after[0] != '"',
    ensures
        csv_scan(quoted_cell(c) + after, csv_fresh(records, row)) == csv_scan(
            after,
            csv_after_cell(records, row, c),
        ),
{
    let st = csv_fresh(records, row);
    if !needs_quotes(c) {
        lemma_scan_plain(c, after, st);
        assert(st.field + c =~= c);
    } else {
        let text = quoted_cell(c) + after;
        let tail = seq!['"'] + after;
        assert(text =~= seq!['"'] + (escape_quotes(c) + tail));
        assert(text[0] == '"');
        assert(text.skip(1) =~= escape_quotes(c) + tail);
        let st1 = csv_quotes(st, true, true, false);
        assert(tail[0] == '"');
        assert(tail.len() == 1 || tail[1] == after[0]);
        lemma_scan_escaped(c, tail, st1);
        let st2 = CsvScan {
            records,
            row,
            field: st1.field + c,
            in_quotes: true,
            quoted: true,
            field_start: false,
        };
        assert(st1.field + c =~= c);
        assert(tail.skip(1) =~= after);
        assert(csv_scan(tail, st2) == csv_scan(after, csv_quotes(st2, false, true, false)));
    }
}

proof fn lemma_scan_row_then(
    cells: Seq<Seq<char>>,
    tail: Seq<char>,
    records: Seq<Seq<Seq<char>>>,
    row: Seq<Seq<char>>,
)
    requires
        cells.len() >= 1,
        row.len() + cells.len() <= MAX_COLUMNS,
        forall|i: int| 0 <= i < cells.len() ==> encode_utf8(#[trigger] cells[i]).len() <= MAX_CELL_BYTES,
        tail.len() == 0 || tail[0] != '"',
    ensures
        csv_scan(joined_row(cells) + tail, csv_fresh(records, row)) == csv_scan(
            tail,
            csv_after_cell(records, row + cells.drop_last(), cells.last()),
        ),
    decreases cells.len(),
{
    if cells.len() == 1 {
        lemma_scan_cell(cells[0], tail, records, row);
        assert(joined_row(cells) + tail =~= quoted_cell(cells[0]) + tail);
        assert(row + cells.drop_last() =~= row);
    } else {
        let rest = cells.drop_first();
        let after = seq![','] + joined_row(rest) + tail;
        assert(joined_row(cells) + tail =~= quoted_cell(cells[0]) + after);
        lemma_scan_cell(cells[0], after, records, row);
        let st1 = csv_after_cell(records, row, cells[0]);
        assert(encode_utf8(cells[0]).len() <= MAX_CELL_BYTES);
        assert(after[0] == ',');
        assert(after.skip(1) =~= joined_row(rest) + tail);
        assert(csv_finish_field(st1) == Ok::<CsvScan, CsvError>(csv_fresh(records, row.push(cells[0]))));
        assert forall|i: int| 0 <= i < rest.len() implies encode_utf8(#[trigger] rest[i]).len()
            <= MAX_CELL_BYTES by {
            assert(rest[i] == cells[i + 1]);
        }
        lemma_scan_row_then(rest, tail, records, row.push(cells[0]));
        assert(row.push(cells[0]) + rest.drop_last() =~= row + cells.drop_last());
        assert(rest.last() == cells.last());
    }
}

/// What the reader reads back from one record as the writer spells it,
/// ended by a line feed: that record, for every record of one to
/// `MAX_COLUMNS` fields of at most `MAX_CELL_BYTES` bytes each.
pub proof fn lemma_row_line_round_trip(cells: Seq<Seq<char>>)
    requires
        1 <= cells.len() <= MAX_COLUMNS,
        forall|i: int| 0 <= i < cells.len() ==> encode_utf8(#[trigger] cells[i]).len() <= MAX_CELL_BYTES,
    ensures
        csv_records(joined_row(cells) + seq!['\n']) == Ok::<Seq<Seq<Seq<char>>>, CsvError>(
            seq![cells],
        ),
{
    let e: Seq<Seq<Seq<char>>> = Seq::empty();
    let r: Seq<Seq<char>> = Seq::empty();
    let nl: Seq<char> = seq!['\n'];
    assert(csv_scan_start() == csv_fresh(e, r));
    lemma_scan_row_then(cells, nl, e, r);
    let st = csv_after_cell(e, r + cells.drop_last(), cells.last());
    assert(encode_utf8(cells[cells.len() - 1]).len() <= MAX_CELL_BYTES);
    assert((r + cells.drop_last()).push(cells.last()) =~= cells);
    let done = csv_end_record(csv_fresh(e, cells));
    assert(csv_finish_field(st) == Ok::<CsvScan, CsvError>(csv_fresh(e, cells)));
    assert(nl.skip(1) =~= Seq::<char>::empty());
    assert(csv_scan(nl, st) == csv_scan(nl.skip(1), done));
    assert(e.push(cells) =~= seq![cells]);
}

/// What the reader reads back from one record as the writer spells it: that
/// record, for every record of one to `MAX_COLUMNS` fields of at most
/// `MAX_CELL_BYTES` bytes each, except the record of one empty field (whose
/// spelling is the empty text).
pub proof fn lemma_row_round_trip(cells: Seq<Seq<char>>)
    requires
        1 <= cells.len() <= MAX_COLUMNS,
        forall|i: int| 0 <= i < cells.len() ==> encode_utf8(#[trigger] cells[i]).len() <= MAX_CELL_BYTES,
        !(cells.len() == 1 && cells[0].len() == 0),
    ensures
        csv_records(joined_row(cells)) == Ok::<Seq<Seq<Seq<char>>>, CsvError>(seq![cells]),
{
    let e: Seq<Seq<Seq<char>>> = Seq::empty();
    let r: Seq<Seq<char>> = Seq::empty();
    assert(csv_scan_start() == csv_fresh(e, r));
    lemma_scan_row_then(cells, Seq::empty(), e, r);
    assert(joined_row(cells) + Seq::<char>::empty() =~= joined_row(cells));
    let row = r + cells.drop_last();
    let last = cells.last();
    assert(encode_utf8(cells[cells.len() - 1]).len() <= MAX_CELL_BYTES);
    assert(row.push(last) =~= cells);
    assert(e.push(cells) =~= seq![cells]);
}


// ---------------------------------------------------------------------------
// The table: a header record naming the columns, then the data rows.
/// Whether every header is non-empty and no two are equal.
pub open spec fn headers_ok(header: Seq<Seq<char>>) -> bool {
    &&& forall|i: int| 0 <= i < header.len() ==> (#[trigger] header[i]).len() > 0
    &&& forall|i: int, j: int| 0 <= i < j < header.len() ==> header[i] != header[j]
}

/// The header and the data rows of a CSV text, or why it is refused: the text
/// must be non-empty and at most `MAX_BYTES` bytes, read as records, start
/// with a header of one to `MAX_COLUMNS` non-empty, distinct names, have at
/// most `MAX_ROWS` data rows, each as wide as the header.
pub open spec fn csv_table(text: Seq<char>) -> Result<(Seq<Seq<char>>, Seq<Seq<Seq<char>>>), CsvError> {
    if text.len() == 0 || encode_utf8(text).len() > MAX_BYTES {
        Err(CsvError::TextEmptyOrTooLarge)
    } else {
        match csv_records(text) {
            Err(e) => Err(e),
            Ok(records) => if records.len() == 0 {
                Err(CsvError::MissingHeader)
            } else {
                let header = records[0];
                let rows = records.drop_first();
                if header.len() == 0 || header.len() > MAX_COLUMNS {
                    Err(CsvError::InvalidColumnCount)
                } else if !headers_ok(header) {
                    Err(CsvError::EmptyOrDuplicateHeader)
                } else if rows.len() > MAX_ROWS {
                    Err(CsvError::TooManyRows)
                } else if exists|i: int| 0 <= i < rows.len() && (#[trigger] rows[i]).len() != header.len() {
                    Err(CsvError::RowWidthMismatch)
                } else {
                    Ok((header, rows))
                }
            },
        }
    }
}

/// The first position of `name` among the headers.
pub open spec fn column_index(header: Seq<Seq<char>>, name: Seq<char>) -> Option<int>
    decreases header.len(),
{
    if header.len() == 0 {
        None
    } else if header[0] == name {
        Some(0)
    } else {
        match column_index(header.drop_first(), name) {
            Some(i) => Some(i + 1),
            None => None,
        }
    }
}

/// The field of data row `row` under the column named `name`, if there is one.
pub open spec fn table_cell(header: Seq<Seq<char>>, rows: Seq<Seq<Seq<char>>>, row: int, name: Seq<char>) -> Option<Seq<char>> {
    match column_index(header, name) {
        Some(j) => if 0 <= row < rows.len() && j < rows[row].len() {
            Some(rows[row][j])
        } else {
            None
        },
        None => None,
    }
}

proof fn lemma_column_index(header: Seq<Seq<char>>, name: Seq<char>, i: int)
    requires
        0 <= i <= header.len(),
        forall|k: int| 0 <= k < i ==> header[k] != name,
    ensures
        i < header.len() && header[i] == name ==> column_index(header, name) == Some(i),
        i == header.len() ==> column_index(header, name) is None,
        column_index(header, name) is Some ==> header.contains(name),
        column_index(header, name) is None ==> !header.contains(name),
    decreases header.len(),
{
    if header.len() > 0 {
        let t = header.drop_first();
        if header[0] != name {
            assert forall|k: int| 0 <= k < i - 1 implies t[k] != name by {
                assert(t[k] == header[k + 1]);
            }
            if i > 0 {
                lemma_column_index(t, name, i - 1);
            } else {
                lemma_column_index(t, name, 0);
            }
            if t.contains(name) {
                let k = choose|k: int| 0 <= k < t.len() && t[k] == name;
                assert(header[k + 1] == name);
            }
            if header.contains(name) {
                let k = choose|k: int| 0 <= k < header.len() && header[k] == name;
                assert(t[k - 1] == name);
            }
        }
    }
}

/// A CSV text read as a header and data rows.
pub struct CsvTable {
    header: Vec<String>,
    rows: Vec<Vec<String>>,
}

impl CsvTable {
    /// The column names.
    pub closed spec fn header_view(&self) -> Seq<Seq<char>> {
        row_view(self.header@)
    }

    /// The data rows.
    pub closed spec fn rows_view(&self) -> Seq<Seq<Seq<char>>> {
        records_view(self.rows@)
    }

    /// Reads a CSV text as a table, as [`csv_table`] says.
    pub fn parse(text: &str) -> (r: Result<CsvTable, CsvError>)
        ensures
            match r {
                Ok(t) => csv_table(text@) == Ok::<(Seq<Seq<char>>, Seq<Seq<Seq<char>>>), CsvError>(
                    (t.header_view(), t.rows_view()),
                ),
                Err(e) => csv_table(text@) == Err::<(Seq<Seq<char>>, Seq<Seq<Seq<char>>>), CsvError>(e),
            },
    {
        if text.is_empty() || text.as_bytes().len() > MAX_BYTES {
            return Err(CsvError::TextEmptyOrTooLarge);
        }
        let mut records = match parse_records(text) {
            Ok(v) => v,
            Err(e) => return Err(e),
        };
        if records.len() == 0 {
            return Err(CsvError::MissingHeader);
        }
        let ghost all = records_view(records@);
        let header = records.remove(0);
        let rows = records;
        assert(records_view(rows@) =~= all.drop_first());
        let ghost hv = row_view(header@);
        assert(hv == all[0]);
        let width = header.len();
        if width == 0 || width > MAX_COLUMNS {
            return Err(CsvError::InvalidColumnCount);
        }
        let mut i: usize = 0;
        while i < width
            invariant
                width == header@.len(),
                hv == row_view(header@),
                0 < width <= MAX_COLUMNS,
                text@.len() > 0 && encode_utf8(text@).len() <= MAX_BYTES,
                csv_records(text@) == Ok::<Seq<Seq<Seq<char>>>, CsvError>(all),
                all.len() > 0 && hv == all[0],
                i <= width,
                forall|k: int| 0 <= k < i ==> (#[trigger] hv[k]).len() > 0,
                forall|a: int, b: int| 0 <= a < b < i ==> hv[a] != hv[b],
            decreases width - i,
        {
            assert(hv[i as int] == header@[i as int]@);
            if header[i].as_str().is_empty() {
                return Err(CsvError::EmptyOrDuplicateHeader);
            }
            let mut j: usize = 0;
            while j < i
                invariant
                    width == header@.len(),
                    hv == row_view(header@),
                    0 < width <= MAX_COLUMNS,
                    text@.len() > 0 && encode_utf8(text@).len() <= MAX_BYTES,
                    csv_records(text@) == Ok::<Seq<Seq<Seq<char>>>, CsvError>(all),
                    all.len() > 0 && hv == all[0],
                    j <= i < width,
                    forall|a: int| 0 <= a < j ==> hv[a] != hv[i as int],
                decreases i - j,
            {
                assert(hv[j as int] == header@[j as int]@);
                assert(hv[i as int] == header@[i as int]@);
                if str_eq(header[j].as_str(), header[i].as_str()) {
                    assert(hv[j as int] == hv[i as int]);
                    return Err(CsvError::EmptyOrDuplicateHeader);
                }
                j = j + 1;
            }
            i = i + 1;
        }
        if rows.len() > MAX_ROWS {
            return Err(CsvError::TooManyRows);
        }
        let ghost rv = records_view(rows@);
        assert(headers_ok(hv));
        let mut k: usize = 0;
        while k < rows.len()
            invariant
                rv == records_view(rows@),
                rv == all.drop_first(),
                rv.len() <= MAX_ROWS,
                0 < width <= MAX_COLUMNS,
                headers_ok(hv),
                text@.len() > 0 && encode_utf8(text@).len() <= MAX_BYTES,
                csv_records(text@) == Ok::<Seq<Seq<Seq<char>>>, CsvError>(all),
                all.len() > 0 && hv == all[0],
                width == hv.len(),
                k <= rows@.len(),
                forall|a: int| 0 <= a < k ==> (#[trigger] rv[a]).len() == width,
            decreases rows@.len() - k,
        {
            assert(rv[k as int] == row_view(rows@[k as int]@));
            if rows[k].len() != width {
                assert(rv[k as int].len() != hv.len());
                return Err(CsvError::RowWidthMismatch);
            }
            k = k + 1;
        }
        Ok(CsvTable { header, rows })
    }

    /// The number of data rows.
    pub fn row_count(&self) -> (r: usize)
        ensures
            r == self.rows_view().len(),
    {
        self.rows.len()
    }

    /// Whether a column has the name `column`.
    pub fn has_column(&self, column: &str) -> (r: bool)
        ensures
            r == self.header_view().contains(column@),
    {
        let found = self.column_position(column);
        found.is_some()
    }

    fn column_position(&self, column: &str) -> (r: Option<usize>)
        ensures
            match r {
                Some(p) => column_index(self.header_view(), column@) == Some(p as int),
                None => column_index(self.header_view(), column@) is None,
            },
            column_index(self.header_view(), column@) is Some <==> self.header_view().contains(
                column@,
            ),
    {
        let ghost hv = self.header_view();
        let mut j: usize = 0;
        while j < self.header.len()
            invariant
                hv == row_view(self.header@),
                j <= self.header@.len(),
                forall|a: int| 0 <= a < j ==> hv[a] != column@,
            decreases self.header@.len() - j,
        {
            if str_eq(self.header[j].as_str(), column) {
                proof {
                    lemma_column_index(hv, column@, j as int);
                }
                return Some(j);
            }
            j = j + 1;
        }
        proof {
            lemma_column_index(hv, column@, j as int);
        }
        None
    }

    /// The field of data row `row` under the column named `column`.
    pub fn cell(&self, row: usize, column: &str) -> (r: Option<&str>)
        ensures
            match table_cell(self.header_view(), self.rows_view(), row as int, column@) {
                Some(c) => r matches Some(s) && s@ == c,
                None => r is None,
            },
    {
        let j = match self.column_position(column) {
            Some(j) => j,
            None => return None,
        };
        if row < self.rows.len() {
            assert(self.rows_view()[row as int] == row_view(self.rows@[row as int]@));
            if j < self.rows[row].len() {
                assert(row_view(self.rows@[row as int]@)[j as int] == self.rows@[row as int]@[j as int]@);
                return Some(self.rows[row][j].as_str());
            }
        }
        None
    }
}

/// A typed cell value.
#[derive(Clone, Debug, PartialEq, Eq)]
pub enum CsvCell {
    Str(String),
    Int(i64),
    /// The text of a cell read as a decimal, handed on unchanged to the
    /// decimal reader of the value layer.
    Decimal(String),
    Bool(bool),
}

/// A typed cell value, by the characters of its text.
pub enum CsvCellView {
    Str(Seq<char>),
    Int(int),
    Decimal(Seq<char>),
    Bool(bool),
}

/// The view of a typed cell value.
pub open spec fn cell_view(c: CsvCell) -> CsvCellView {
    match c {
        CsvCell::Str(s) => CsvCellView::Str(s@),
        CsvCell::Int(v) => CsvCellView::Int(v as int),
        CsvCell::Decimal(s) => CsvCellView::Decimal(s@),
        CsvCell::Bool(b) => CsvCellView::Bool(b),
    }
}

/// The view of a typed read's result.
pub open spec fn cell_result_view(r: Result<CsvCell, CsvError>) -> Result<CsvCellView, CsvError> {
    match r {
        Ok(c) => Ok(cell_view(c)),
        Err(e) => Err(e),
    }
}

/// What a typed read makes of a non-empty cell: text as it is, an `int` only
/// in its canonical spelling, `true` or `false` for a bool.
pub open spec fn csv_cell_value(op: CsvScalarOp, cell: Seq<char>) -> Result<CsvCellView, CsvError> {
    match op {
        CsvScalarOp::String => Ok(CsvCellView::Str(cell)),
        CsvScalarOp::Int => match canonical_int(cell) {
            Some(v) => Ok(CsvCellView::Int(v)),
            None => Err(CsvError::NotInt),
        },
        CsvScalarOp::Decimal => Ok(CsvCellView::Decimal(cell)),
        CsvScalarOp::Bool => if cell == "true"@ {
            Ok(CsvCellView::Bool(true))
        } else if cell == "false"@ {
            Ok(CsvCellView::Bool(false))
        } else {
            Err(CsvError::NotBool)
        },
    }
}

/// The spelling of a bool in a cell.
pub open spec fn bool_spelling(b: bool) -> Seq<char> {
    if b {
        seq!['t', 'r', 'u', 'e']
    } else {
        seq!['f', 'a', 'l', 's', 'e']
    }
}

/// A bool read is total on the two bool spellings and refuses every other
/// cell: the cell spelling `b` reads as `b`, for either bool, and a cell that
/// reads as a bool is that bool's spelling.
pub proof fn lemma_bool_cell_spellings(cell: Seq<char>)
    ensures
        forall|b: bool| csv_cell_value(CsvScalarOp::Bool, #[trigger] bool_spelling(b)) == Ok::<
            CsvCellView,
            CsvError,
        >(CsvCellView::Bool(b)),
        csv_cell_value(CsvScalarOp::Bool, cell) is Ok || csv_cell_value(CsvScalarOp::Bool, cell)
            == Err::<CsvCellView, CsvError>(CsvError::NotBool),
        csv_cell_value(CsvScalarOp::Bool, cell) matches Ok(v) ==> (v matches CsvCellView::Bool(b)
            && cell == bool_spelling(b)),
{
    reveal_strlit("true");
    reveal_strlit("false");
    assert("true"@ =~= bool_spelling(true));
    assert("false"@ =~= bool_spelling(false));
}

/// A typed bool read of a table cell agrees with the text read of the same
/// cell: it gives `b` exactly when the cell's text is the spelling of `b`.
pub proof fn lemma_bool_read_is_text_read(text: Seq<char>, row: int, column: Seq<char>, b: bool)
    ensures
        csv_read(text, CsvScalarOp::Bool, row, column) == Ok::<CsvCellView, CsvError>(
            CsvCellView::Bool(b),
        ) <==> csv_read(text, CsvScalarOp::String, row, column) == Ok::<CsvCellView, CsvError>(
            CsvCellView::Str(bool_spelling(b)),
        ),
{
    reveal_strlit("true");
    reveal_strlit("false");
    assert("true"@ =~= bool_spelling(true));
    assert("false"@ =~= bool_spelling(false));
    assert(bool_spelling(true) != bool_spelling(false)) by {
        assert(bool_spelling(true).len() != bool_spelling(false).len());
    }
}

fn owned_text(s: &str) -> (r: String)
    ensures
        r@ == s@,
{
    let mut out = String::new();
    push_str(&mut out, s);
    out
}

/// Reads one cell as `op` says.
pub fn parse_cell(op: CsvScalarOp, cell: &str) -> (r: Result<CsvCell, CsvError>)
    ensures
        cell_result_view(r) == csv_cell_value(op, cell@),
{
    match op {
        CsvScalarOp::String => Ok(CsvCell::Str(owned_text(cell))),
        CsvScalarOp::Int => match parse_canonical_int(cell) {
            Some(v) => Ok(CsvCell::Int(v)),
            None => Err(CsvError::NotInt),
        },
        CsvScalarOp::Decimal => Ok(CsvCell::Decimal(owned_text(cell))),
        CsvScalarOp::Bool => {
            if str_eq(cell, "true") {
                Ok(CsvCell::Bool(true))
            } else if str_eq(cell, "false") {
                Ok(CsvCell::Bool(false))
            } else {
                Err(CsvError::NotBool)
            }
        },
    }
}

/// The number of data rows of a CSV text.
pub fn row_count(text: &str) -> (r: Result<usize, CsvError>)
    ensures
        match csv_table(text@) {
            Ok((h, rows)) => r == Ok::<usize, CsvError>(rows.len() as usize),
            Err(e) => r == Err::<usize, CsvError>(e),
        },
{
    match CsvTable::parse(text) {
        Ok(t) => Ok(t.row_count()),
        Err(e) => Err(e),
    }
}

/// Whether a CSV text has a column named `column`.
pub fn has_column(text: &str, column: &str) -> (r: Result<bool, CsvError>)
    ensures
        match csv_table(text@) {
            Ok((h, rows)) => r == Ok::<bool, CsvError>(h.contains(column@)),
            Err(e) => r == Err::<bool, CsvError>(e),
        },
{
    match CsvTable::parse(text) {
        Ok(t) => Ok(t.has_column(column)),
        Err(e) => Err(e),
    }
}

/// What a typed read of data row `row` under column `column` gives: the
/// table's refusal; a refused row index; an absent or empty cell; else the
/// cell read as `op` says.
pub open spec fn csv_read(text: Seq<char>, op: CsvScalarOp, row: int, column: Seq<char>) -> Result<CsvCellView, CsvError> {
    match csv_table(text) {
        Err(e) => Err(e),
        Ok((header, rows)) => if row < 0 || row > usize::MAX {
            Err(CsvError::NegativeRowIndex)
        } else {
            match table_cell(header, rows, row, column) {
                None => Err(CsvError::CellAbsent),
                Some(cell) => if cell.len() == 0 {
                    Err(CsvError::CellEmpty)
                } else {
                    csv_cell_value(op, cell)
                },
            }
        },
    }
}

/// Reads the cell of data row `row` under column `column` as `op` says.
pub fn read_cell(text: &str, op: CsvScalarOp, row: i64, column: &str) -> (r: Result<CsvCell, CsvError>)
    ensures
        cell_result_view(r) == csv_read(text@, op, row as int, column@),
{
    let table = match CsvTable::parse(text) {
        Ok(t) => t,
        Err(e) => return Err(e),
    };
    if row < 0 || row as u64 > usize::MAX as u64 {
        return Err(CsvError::NegativeRowIndex);
    }
    let index = row as usize;
    let cell = match table.cell(index, column) {
        Some(c) => c,
        None => return Err(CsvError::CellAbsent),
    };
    if cell.is_empty() {
        return Err(CsvError::CellEmpty);
    }
    parse_cell(op, cell)
}

} // verus!
