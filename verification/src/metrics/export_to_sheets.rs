//! The consumer that writes the rows into a spreadsheet.

use crate::google_sheets::{append_request, clear_request, get_link_to_sheet};
use crate::google_sheets::{is_append_request, is_clear_request, is_column, sheet_link};
use crate::google_sheets::SheetsRequest;
use vstd::prelude::*;
use vstd::string::*;

verus! {

/// Writes rows into the spreadsheet `sheet_id`, in the place of what it held.
pub struct ExportToSheets {
    pub sheet_id: String,
}

/// What is said once the rows are in the spreadsheet.
pub open spec fn upload_notice(sheet_id: Seq<char>) -> Seq<char> {
    "Successfully uploaded data to Google Sheets: "@ + sheet_link(sheet_id)
}

impl ExportToSheets {
    pub fn new(sheet_id: &str) -> (consumer: Self)
        ensures
            consumer.sheet_id@ == sheet_id@,
    {
        ExportToSheets { sheet_id: sheet_id.to_owned() }
    }

    /// The requests to make before any row: clear the sheet, then write the
    /// column names as its first row.
    pub fn opening(&self, column_names: Vec<String>) -> (requests: (SheetsRequest, SheetsRequest))
        requires
            is_column(column_names.len() as int),
        ensures
            is_clear_request(requests.0, self.sheet_id@),
            is_append_request(requests.1, self.sheet_id@, column_names),
    {
        let clear = clear_request(self.sheet_id.as_str());
        let header = append_request(self.sheet_id.as_str(), column_names);
        (clear, header)
    }

    /// The request to make for a row: append it below what is there.
    pub fn entry(&self, entry: Vec<String>) -> (request: SheetsRequest)
        requires
            is_column(entry.len() as int),
        ensures
            is_append_request(request, self.sheet_id@, entry),
    {
        append_request(self.sheet_id.as_str(), entry)
    }

    /// What to say once the channel is closed and every request was granted:
    /// where the data can be looked at.
    pub fn closing(&self) -> (notice: String)
        ensures
            notice@ == upload_notice(self.sheet_id@),
    {
        let mut notice = "Successfully uploaded data to Google Sheets: ".to_owned();
        let link = get_link_to_sheet(self.sheet_id.as_str());
        notice.append(link.as_str());
        notice
    }
}

} // verus!
