//! Talking to a spreadsheet service: ranges in A1 notation, the requests to
//! make, and what the answers mean.

use crate::text::{decimal, push_decimal, signed_decimal};
use vstd::prelude::*;
use vstd::string::*;

verus! {

/// The letters of the columns, in order.
pub const ASCII_UPPER: [char; 26] = [
    'A', 'B', 'C', 'D', 'E', 'F', 'G', 'H', 'I', 'J', 'K', 'L', 'M', 'N', 'O', 'P', 'Q', 'R', 'S',
    'T', 'U', 'V', 'W', 'X', 'Y', 'Z',
];

/// The `index`-th letter of the alphabet, counted from zero.
pub open spec fn letter(index: int) -> char {
    ASCII_UPPER[index]
}

/// Which letter a column of three letters begins with.
pub open spec fn leading_letter(column: int) -> int {
    if column / 26 / 26 >= 26 {
        26 - (column / 26 / 26) % 26
    } else {
        column / 26 / 26 - 1
    }
}

/// Whether the column, counted from zero, can be written: it is at most
/// `ZZZ`, and its leading letter is one of the alphabet.
pub open spec fn is_column(column: int) -> bool {
    0 <= column <= 18277 && (column >= 702 ==> 0 <= leading_letter(column) < 26)
}

/// The letters of a column, counted from zero: `A` to `Z`, then `AA` to `ZZ`,
/// then three letters.
pub open spec fn column_notation(column: int) -> Seq<char> {
    if column < 26 {
        seq![letter(column)]
    } else if column < 702 {
        seq![letter(column / 26 - 1), letter(column % 26)]
    } else {
        seq![letter(leading_letter(column)), letter((column / 26 - 1) % 26), letter(column % 26)]
    }
}

/// A column can be written if it is below 17576, or one of the last 26.
pub proof fn lemma_is_column(column: int)
    ensures
        is_column(column) <==> (0 <= column < 17576 || 18252 <= column <= 18277),
{
}

/// The name that a spreadsheet gives the column, counted from zero: the
/// letters stand for the digits one to twenty-six of a number to the base
/// twenty-six.
pub open spec fn spreadsheet_column(column: int) -> Seq<char>
    decreases column,
{
    if column < 26 {
        seq![letter(column)]
    } else {
        spreadsheet_column(column / 26 - 1).push(letter(column % 26))
    }
}

/// Whether the notation of the column is the name that a spreadsheet gives
/// it: always up to `ZZ`; beyond, unless the letter in the middle is a `Z`
/// and the leading one is not.
pub open spec fn is_named_column(column: int) -> bool {
    is_column(column) && (column < 702 || column / 26 % 26 != 0 || column >= 18252)
}

/// The notation of a named column is its name.
pub proof fn lemma_named_column(column: int)
    requires
        is_named_column(column),
    ensures
        column_notation(column) == spreadsheet_column(column),
{
    reveal_with_fuel(spreadsheet_column, 3);
    if column >= 702 {
        let rest = column / 26 - 1;
        assert(26 <= rest < 702);
        assert(spreadsheet_column(rest) =~= seq![letter(rest / 26 - 1), letter(rest % 26)]);
        assert(rest / 26 - 1 == leading_letter(column));
    }
    assert(column_notation(column) =~= spreadsheet_column(column));
}

/// Whether the column, counted from zero, can be written.
pub fn is_supported_column(column: usize) -> (supported: bool)
    ensures
        supported == is_column(column as int),
{
    column < 17576 || (18252 <= column && column <= 18277)
}

/// Writes the letters of `column`, counted from zero.
pub fn get_column_notation(column: usize) -> (notation: String)
    requires
        is_column(column as int),
    ensures
        notation@ == column_notation(column as int),
{
    let mut notation = String::new();
    if column < 26 {
        notation.push(ASCII_UPPER[column]);
    } else if column < 702 {
        notation.push(ASCII_UPPER[column / 26 - 1]);
        notation.push(ASCII_UPPER[column % 26]);
    } else {
        let first = if column / 26 / 26 >= 26 {
            26 - (column / 26 / 26) % 26
        } else {
            column / 26 / 26 - 1
        };
        notation.push(ASCII_UPPER[first]);
        notation.push(ASCII_UPPER[(column / 26 - 1) % 26]);
        notation.push(ASCII_UPPER[column % 26]);
    }
    assert(notation@ =~= column_notation(column as int));
    notation
}

/// Whether the four bounds describe a range: both columns, with any rows; or
/// both rows, with at most the end column.
pub open spec fn is_range(
    start_column: Option<usize>,
    start_row: Option<usize>,
    end_column: Option<usize>,
    end_row: Option<usize>,
) -> bool {
    if start_column is Some {
        end_column is Some
    } else {
        start_row is Some && end_row is Some
    }
}

/// How a row, counted from zero, is written: counted from one.
pub open spec fn row_notation(row: usize) -> Seq<char> {
    decimal((row + 1) as nat)
}

/// The A1 notation of the range with the given bounds, all counted from
/// zero.
///
/// With both columns: `A2:B5` for two rows, `A5:A` for one (whichever it is),
/// `A:B` for none.  Without a start column: `10:18`, or `10:B18` with an end
/// column.
pub open spec fn a1_notation(
    start_column: Option<usize>,
    start_row: Option<usize>,
    end_column: Option<usize>,
    end_row: Option<usize>,
) -> Seq<char> {
    match (start_column, start_row, end_column, end_row) {
        (Some(sc), Some(r), Some(ec), None) | (Some(sc), None, Some(ec), Some(r)) => {
            column_notation(sc as int) + row_notation(r) + seq![':'] + column_notation(ec as int)
        },
        (Some(sc), Some(sr), Some(ec), Some(er)) => {
            column_notation(sc as int) + row_notation(sr) + seq![':'] + column_notation(ec as int)
                + row_notation(er)
        },
        (Some(sc), _, Some(ec), _) => {
            column_notation(sc as int) + seq![':'] + column_notation(ec as int)
        },
        (None, Some(sr), Some(ec), Some(er)) => {
            row_notation(sr) + seq![':'] + column_notation(ec as int) + row_notation(er)
        },
        (None, Some(sr), None, Some(er)) => { row_notation(sr) + seq![':'] + row_notation(er) },
        _ => Seq::empty(),
    }
}

/// Whether the bound, where there is one, is a column that can be written.
pub open spec fn is_column_bound(bound: Option<usize>) -> bool {
    bound matches Some(column) ==> is_column(column as int)
}

/// Whether the bound, where there is one, is a row whose number counted from
/// one still fits.
pub open spec fn is_row_bound(bound: Option<usize>) -> bool {
    bound matches Some(row) ==> row < usize::MAX
}

fn push_column(out: &mut String, column: usize)
    requires
        is_column(column as int),
    ensures
        final(out)@ == old(out)@ + column_notation(column as int),
{
    let letters = get_column_notation(column);
    out.append(letters.as_str());
}

fn push_row(out: &mut String, row: usize)
    requires
        row < usize::MAX,
    ensures
        final(out)@ == old(out)@ + row_notation(row),
{
    push_decimal(out, (row + 1) as u64);
}

/// Writes a range in A1 notation from its bounds, all counted from zero.
pub fn get_a1_notation(
    start_column: Option<usize>,
    start_row: Option<usize>,
    end_column: Option<usize>,
    end_row: Option<usize>,
) -> (notation: String)
    requires
        is_range(start_column, start_row, end_column, end_row),
        is_column_bound(start_column),
        is_column_bound(end_column),
        is_row_bound(start_row),
        is_row_bound(end_row),
    ensures
        notation@ == a1_notation(start_column, start_row, end_column, end_row),
{
    let mut out = String::new();
    match (start_column, start_row, end_column, end_row) {
        (Some(sc), Some(r), Some(ec), None) | (Some(sc), None, Some(ec), Some(r)) => {
            push_column(&mut out, sc);
            push_row(&mut out, r);
            out.push(':');
            push_column(&mut out, ec);
        },
        (Some(sc), Some(sr), Some(ec), Some(er)) => {
            push_column(&mut out, sc);
            push_row(&mut out, sr);
            out.push(':');
            push_column(&mut out, ec);
            push_row(&mut out, er);
        },
        (Some(sc), _, Some(ec), _) => {
            push_column(&mut out, sc);
            out.push(':');
            push_column(&mut out, ec);
        },
        (None, Some(sr), possible_column, Some(er)) => {
            push_row(&mut out, sr);
            out.push(':');
            if let Some(column) = possible_column {
                push_column(&mut out, column);
            }
            push_row(&mut out, er);
        },
        _ => {
            assert(false);
        },
    }
    assert(out@ =~= a1_notation(start_column, start_row, end_column, end_row));
    out
}


/// The body of a request that has nothing to say.
#[derive(Clone, Copy, Debug, Default)]
pub struct EmptyBody {}

/// Whether the values of a range are given row by row or column by column.
#[derive(Clone, Copy, Debug, PartialEq, Eq, Structural)]
pub enum Dimension {
    /// Operates on the rows of a sheet.
    ROWS,
    /// Operates on the columns of a sheet.
    COLUMNS,
}

/// The data within a range of the spreadsheet.
#[derive(Debug)]
pub struct ValueRange {
    /// The range that the values cover, in A1 notation.
    pub range: Option<String>,
    /// The values.
    pub values: Option<Vec<Vec<String>>>,
    /// The major dimension of the values; rows where it is not set.
    pub major_dimension: Option<Dimension>,
}

/// The answer to an update of values.
#[derive(Debug)]
pub struct UpdateValuesResponse {
    pub spreadsheet_id: Option<String>,
    pub updated_columns: Option<i32>,
    pub updated_range: Option<String>,
    pub updated_rows: Option<i32>,
    pub updated_data: Option<ValueRange>,
    pub updated_cells: Option<i32>,
}

/// The answer to an update of several ranges at once.
#[derive(Debug)]
pub struct BatchUpdateValuesResponse {
    /// The spreadsheet that the updates were applied to.
    pub spreadsheet_id: Option<String>,
    /// The number of rows in which at least one cell was updated.
    pub total_updated_rows: Option<i32>,
    /// The number of columns in which at least one cell was updated.
    pub total_updated_columns: Option<i32>,
    /// The number of cells updated.
    pub total_updated_cells: Option<i32>,
    /// The number of sheets in which at least one cell was updated.
    pub total_updated_sheets: Option<i32>,
    /// One answer for each range, in the order of the request.
    pub responses: Vec<UpdateValuesResponse>,
}

/// The number in `count`, or zero where there is none.
pub open spec fn count_or_zero(count: Option<i32>) -> int {
    match count {
        Some(n) => n as int,
        None => 0,
    }
}

/// How an update is summed up in words.
pub open spec fn update_summary(
    columns: Option<i32>,
    rows: Option<i32>,
    cells: Option<i32>,
) -> Seq<char> {
    signed_decimal(count_or_zero(columns)) + " columns; "@ + signed_decimal(count_or_zero(rows))
        + " rows; and "@ + signed_decimal(count_or_zero(cells)) + " total cells updated"@
}

fn push_count(out: &mut String, count: Option<i32>)
    ensures
        final(out)@ == old(out)@ + signed_decimal(count_or_zero(count)),
{
    let n: i64 = match count {
        Some(n) => n as i64,
        None => 0,
    };
    if n < 0 {
        out.push('-');
        push_decimal(out, (-n) as u64);
        assert(out@ =~= old(out)@ + signed_decimal(n as int));
    } else {
        push_decimal(out, n as u64);
    }
}

impl UpdateValuesResponse {
    /// Sums the update up in words: how many columns, rows and cells.
    pub fn summary(&self) -> (text: String)
        ensures
            text@ == update_summary(self.updated_columns, self.updated_rows, self.updated_cells),
    {
        let mut text = String::new();
        push_count(&mut text, self.updated_columns);
        text.append(" columns; ");
        push_count(&mut text, self.updated_rows);
        text.append(" rows; and ");
        push_count(&mut text, self.updated_cells);
        text.append(" total cells updated");
        assert(text@ =~= update_summary(
            self.updated_columns,
            self.updated_rows,
            self.updated_cells,
        ));
        text
    }
}

/// What can go wrong with the spreadsheet service.
#[derive(Debug)]
pub enum ApiError {
    /// The credentials could not be read or used.
    AuthenticateError { source: String, meta: String },
    /// The client could not be set up.
    ClientBuildFail { source: String },
    /// No token was granted for the scope.
    TokenError { source: String, scope: String },
    /// The service answered with a status other than success.
    GoogleSheetsApi { status_code: u16, body: String },
}

/// The method of a request.
#[derive(Clone, Copy, Debug, PartialEq, Eq, Structural)]
pub enum Method {
    Get,
    Post,
    Put,
    Delete,
}

/// What a request carries.
#[derive(Debug)]
pub enum Body {
    /// Nothing to say.
    Empty,
    /// The values of one range.
    Values(ValueRange),
    /// Rows of values.
    Rows(Vec<Vec<String>>),
}

/// A request to the spreadsheet service, before it is sent.
#[derive(Debug)]
pub struct SheetsRequest {
    pub method: Method,
    /// The path below the service's base address.
    pub path: String,
    /// The query parameters, name and value.
    pub query: Vec<(String, String)>,
    pub body: Body,
}

/// Whether a request with this method carries its body: all but `GET` and
/// `DELETE` do.
pub open spec fn carries_body(method: Method) -> bool {
    method != Method::Get && method != Method::Delete
}

impl SheetsRequest {
    /// Whether the body is sent along.
    pub fn sends_body(&self) -> (sends: bool)
        ensures
            sends == carries_body(self.method),
    {
        match self.method {
            Method::Get => false,
            Method::Delete => false,
            _ => true,
        }
    }
}

/// The query parameters as pairs of texts.
pub open spec fn query_view(query: Seq<(String, String)>) -> Seq<(Seq<char>, Seq<char>)> {
    Seq::new(query.len(), |i: int| (query[i].0@, query[i].1@))
}

/// The address of a spreadsheet for those who want to look at it.
pub open spec fn sheet_link(sheet_id: Seq<char>) -> Seq<char> {
    "https://docs.google.com/spreadsheets/d/"@ + sheet_id + "/"@
}

/// Where the values of a spreadsheet are reached.
pub open spec fn values_path(sheet_id: Seq<char>) -> Seq<char> {
    "spreadsheets/"@ + sheet_id + "/values"@
}

/// The address of the spreadsheet `sheet_id`.
pub fn get_link_to_sheet(sheet_id: &str) -> (link: String)
    ensures
        link@ == sheet_link(sheet_id@),
{
    let mut link = "https://docs.google.com/spreadsheets/d/".to_owned();
    link.append(sheet_id);
    link.append("/");
    link
}

fn values_root(sheet_id: &str) -> (path: String)
    ensures
        path@ == values_path(sheet_id@),
{
    let mut path = "spreadsheets/".to_owned();
    path.append(sheet_id);
    path.append("/values");
    path
}

fn parameter(name: &str, value: &str) -> (pair: (String, String))
    ensures
        pair.0@ == name@,
        pair.1@ == value@,
{
    (name.to_owned(), value.to_owned())
}

/// Whether `request` appends `data` as a new row below what the sheet holds:
/// a `POST` to the columns that the row takes, with the row as the only
/// value, entered as a user would.
pub open spec fn is_append_request(
    request: SheetsRequest,
    sheet_id: Seq<char>,
    data: Vec<String>,
) -> bool {
    &&& request.method == Method::Post
    &&& request.path@ == values_path(sheet_id) + "/"@ + a1_notation(
        Some(0),
        None,
        Some(data.len()),
        None,
    ) + ":append"@
    &&& query_view(request.query@) == seq![
        ("valueInputOption"@, "USER_ENTERED"@),
        ("insertDataOption"@, "INSERT_ROWS"@),
    ]
    &&& request.body matches Body::Values(range) && range.range is None
        && range.major_dimension is None && (range.values matches Some(rows) && rows@
        == seq![data])
}

/// Whether `request` clears the first sheet: a `POST` without parameters and
/// with nothing to say.
pub open spec fn is_clear_request(request: SheetsRequest, sheet_id: Seq<char>) -> bool {
    &&& request.method == Method::Post
    &&& request.path@ == values_path(sheet_id) + "/Sheet1:clear"@
    &&& request.query@.len() == 0
    &&& request.body is Empty
}

/// The request that appends `data` as a new row below what the sheet holds.
pub fn append_request(sheet_id: &str, data: Vec<String>) -> (request: SheetsRequest)
    requires
        is_column(data.len() as int),
    ensures
        is_append_request(request, sheet_id@, data),
{
    let mut path = values_root(sheet_id);
    path.append("/");
    let range = get_a1_notation(Some(0), None, Some(data.len()), None);
    path.append(range.as_str());
    path.append(":append");
    let mut query: Vec<(String, String)> = Vec::new();
    query.push(parameter("valueInputOption", "USER_ENTERED"));
    query.push(parameter("insertDataOption", "INSERT_ROWS"));
    assert(query_view(query@) =~= seq![
        ("valueInputOption"@, "USER_ENTERED"@),
        ("insertDataOption"@, "INSERT_ROWS"@),
    ]);
    let mut rows: Vec<Vec<String>> = Vec::new();
    rows.push(data);
    SheetsRequest {
        method: Method::Post,
        path,
        query,
        body: Body::Values(ValueRange { major_dimension: None, values: Some(rows), range: None }),
    }
}

/// The request that writes several rows at once.
pub fn batch_update_request(sheet_id: &str, data: Vec<Vec<String>>) -> (request: SheetsRequest)
    ensures
        request.method == Method::Post,
        request.path@ == values_path(sheet_id@) + ":batchUpdate"@,
        query_view(request.query@) == seq![
            ("valueInputOption"@, "USER_ENTERED"@),
            ("insertDataOption"@, "INSERT_ROWS"@),
        ],
        request.body == Body::Rows(data),
{
    let mut path = values_root(sheet_id);
    path.append(":batchUpdate");
    let mut query: Vec<(String, String)> = Vec::new();
    query.push(parameter("valueInputOption", "USER_ENTERED"));
    query.push(parameter("insertDataOption", "INSERT_ROWS"));
    assert(query_view(query@) =~= seq![
        ("valueInputOption"@, "USER_ENTERED"@),
        ("insertDataOption"@, "INSERT_ROWS"@),
    ]);
    SheetsRequest { method: Method::Post, path, query, body: Body::Rows(data) }
}

/// The request that clears the first sheet.
pub fn clear_request(sheet_id: &str) -> (request: SheetsRequest)
    ensures
        is_clear_request(request, sheet_id@),
{
    let mut path = values_root(sheet_id);
    path.append("/Sheet1:clear");
    SheetsRequest { method: Method::Post, path, query: Vec::new(), body: Body::Empty }
}

/// The request that sets the values of `range`, row by row.
pub fn update_values_request(sheet_id: &str, range: &str, value: Vec<Vec<String>>) -> (request:
    SheetsRequest)
    ensures
        request.method == Method::Put,
        request.path@ == values_path(sheet_id@) + "/"@ + range@,
        query_view(request.query@) == seq![
            ("valueInputOption"@, "USER_ENTERED"@),
            ("responseValueRenderOption"@, "FORMATTED_VALUE"@),
            ("responseDateTimeRenderOption"@, "FORMATTED_STRING"@),
        ],
        request.body matches Body::Values(values) && values.major_dimension == Some(
            Dimension::ROWS,
        ) && (values.range matches Some(text) && text@ == range@) && values.values == Some(value),
{
    let mut path = values_root(sheet_id);
    path.append("/");
    path.append(range);
    let mut query: Vec<(String, String)> = Vec::new();
    query.push(parameter("valueInputOption", "USER_ENTERED"));
    query.push(parameter("responseValueRenderOption", "FORMATTED_VALUE"));
    query.push(parameter("responseDateTimeRenderOption", "FORMATTED_STRING"));
    assert(query_view(query@) =~= seq![
        ("valueInputOption"@, "USER_ENTERED"@),
        ("responseValueRenderOption"@, "FORMATTED_VALUE"@),
        ("responseDateTimeRenderOption"@, "FORMATTED_STRING"@),
    ]);
    SheetsRequest {
        method: Method::Put,
        path,
        query,
        body: Body::Values(
            ValueRange {
                major_dimension: Some(Dimension::ROWS),
                range: Some(range.to_owned()),
                values: Some(value),
            },
        ),
    }
}

/// Reads the status of an answer: success hands the body on, anything else
/// is an error that keeps the status and the body.
pub fn check_status(status_code: u16, body: String) -> (answer: Result<String, ApiError>)
    ensures
        status_code == 200 ==> answer == Ok::<String, ApiError>(body),
        status_code != 200 ==> answer == Err::<String, ApiError>(
            ApiError::GoogleSheetsApi { status_code, body },
        ),
{
    if status_code == 200 {
        Ok(body)
    } else {
        Err(ApiError::GoogleSheetsApi { status_code, body })
    }
}

} // verus!
