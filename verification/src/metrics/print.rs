//! The consumer that writes the rows as comma-separated values.

use crate::metrics::{all_of_width, rows_view};
use crate::text::{decimal, decimal_string, texts};
use vstd::prelude::*;

verus! {

/// `csv::Error`, what `csv` reports when it cannot write: it is carried
/// through as it is, and nothing is said of what it holds.
#[verifier::external_type_specification]
#[verifier::external_body]
pub struct ExCsvError(csv::Error);

/// The bytes that `csv` writes for one record with its default settings: the
/// fields separated by commas, quoted where they have to be, and a line feed
/// at the end.
pub uninterp spec fn csv_record(fields: Seq<Seq<char>>) -> Seq<u8>;

/// `csv::Writer::write_record` on a writer of its own over an empty buffer,
/// followed by `into_inner`.  No error comes back: the first record of a
/// writer is the one that sets the number of fields, and a buffer in memory
/// takes every byte.  The bytes are those that `csv` writes for the record.
#[verifier::external_body]
fn write_csv_record(fields: &Vec<String>) -> (written: Result<Vec<u8>, csv::Error>)
    ensures
        written is Ok,
        written matches Ok(bytes) ==> bytes@ == csv_record(texts(fields@)),
{
    let mut writer = csv::Writer::from_writer(Vec::new());
    writer.write_record(fields)?;
    match writer.into_inner() {
        Ok(bytes) => Ok(bytes),
        Err(error) => Err(csv::Error::from(error.into_error())),
    }
}

/// Why a row could not be written.
#[derive(Debug)]
pub enum ConsumeError {
    /// A row came before the header.
    NoHeader,
    /// A second header came.
    HeaderTwice,
    /// A record has `len` fields where those before it have `expected_len`.
    UnequalLengths { expected_len: usize, len: usize },
    /// The record could not be encoded.
    Encode { source: csv::Error },
}

/// Hands the encoded record on, or the error in its place.
pub fn written_or_error(written: Result<Vec<u8>, csv::Error>) -> (bytes: Result<
    Vec<u8>,
    ConsumeError,
>)
    ensures
        match written {
            Ok(encoded) => bytes == Ok::<Vec<u8>, ConsumeError>(encoded),
            Err(source) => bytes == Err::<Vec<u8>, ConsumeError>(ConsumeError::Encode { source }),
        },
{
    match written {
        Ok(encoded) => Ok(encoded),
        Err(source) => Err(ConsumeError::Encode { source }),
    }
}

/// The header record: the column of the row numbers, then the column names.
pub open spec fn header_record(column_names: Seq<Seq<char>>) -> Seq<Seq<char>> {
    seq!["#"@] + column_names
}

/// The record of the `index`-th row: its number, then its fields.
pub open spec fn entry_record(index: nat, entry: Seq<Seq<char>>) -> Seq<Seq<char>> {
    seq![decimal(index)] + entry
}

/// Everything that is written for `rows` under `column_names`: the header,
/// then the rows as they came, numbered from one.
pub open spec fn written_records(column_names: Seq<Seq<char>>, rows: Seq<Seq<Seq<char>>>) -> Seq<
    Seq<Seq<char>>,
> {
    seq![header_record(column_names)] + Seq::new(
        rows.len(),
        |i: int| entry_record((i + 1) as nat, rows[i]),
    )
}

/// The bytes of the records, one record after another.
pub open spec fn encoded(records: Seq<Seq<Seq<char>>>) -> Seq<u8>
    decreases records.len(),
{
    if records.len() == 0 {
        Seq::empty()
    } else {
        encoded(records.drop_last()) + csv_record(records.last())
    }
}

/// A consumer that receives `K` rows and then sees the channel closed has
/// written one header and after it the `K` rows, in the order in which they
/// came.
pub proof fn lemma_written_records(column_names: Seq<Seq<char>>, rows: Seq<Seq<Seq<char>>>)
    ensures
        written_records(column_names, rows).len() == rows.len() + 1,
        written_records(column_names, rows)[0] == header_record(column_names),
        forall|i: int|
            0 <= i < rows.len() ==> #[trigger] written_records(column_names, rows)[i + 1]
                == entry_record((i + 1) as nat, rows[i]),
        forall|i: int|
            0 <= i < rows.len() ==> (#[trigger] written_records(column_names, rows)[i + 1]).skip(1)
                == rows[i],
{
    assert forall|i: int| 0 <= i < rows.len() implies (#[trigger] written_records(
        column_names,
        rows,
    )[i + 1]).skip(1) == rows[i] by {
        assert(entry_record((i + 1) as nat, rows[i]).skip(1) =~= rows[i]);
    }
}

/// What a consumer has done so far, as a mathematical value.
pub struct PrintState {
    /// How many fields each record has, once the header is written.
    pub width: Option<nat>,
    /// How many rows have been written.
    pub rows: nat,
    /// The records written so far, in order.
    pub written: Seq<Seq<Seq<char>>>,
}

/// Writes rows as comma-separated values: first a header that names the
/// columns, then each row with its number in front.  Every row has to have
/// one field for each column.
pub struct Print {
    width: Option<usize>,
    rows: usize,
    written: Ghost<Seq<Seq<Seq<char>>>>,
}

impl View for Print {
    type V = PrintState;

    closed spec fn view(&self) -> PrintState {
        PrintState {
            width: match self.width {
                Some(width) => Some(width as nat),
                None => None,
            },
            rows: self.rows as nat,
            written: self.written@,
        }
    }
}

fn with_front(front: String, fields: &Vec<String>) -> (record: Vec<String>)
    ensures
        texts(record@) == seq![front@] + texts(fields@),
        record.len() == fields.len() + 1,
{
    let mut record: Vec<String> = Vec::new();
    record.push(front);
    let mut i: usize = 0;
    while i < fields.len()
        invariant
            i <= fields.len(),
            record.len() == i + 1,
            texts(record@) == seq![front@] + texts(fields@).take(i as int),
        decreases fields.len() - i,
    {
        let ghost before = texts(record@);
        record.push(fields[i].clone());
        assert(texts(record@) =~= before.push(fields@[i as int]@));
        assert(texts(fields@).take(i + 1) =~= texts(fields@).take(i as int).push(fields@[i as int]@));
        i += 1;
    }
    assert(texts(fields@).take(fields.len() as int) =~= texts(fields@));
    record
}

impl Print {
    /// A consumer that has written nothing yet.
    pub fn new() -> (consumer: Self)
        ensures
            consumer@ == (PrintState { width: None, rows: 0, written: Seq::empty() }),
    {
        Print { width: None, rows: 0, written: Ghost(Seq::empty()) }
    }

    /// How many rows have been written.
    pub fn rows_written(&self) -> (rows: usize)
        ensures
            rows == self@.rows,
    {
        self.rows
    }

    /// Encodes the header for the columns `column_names`.
    ///
    /// The header is the first thing written, and written once: a second one
    /// is refused, and nothing changes.
    pub fn header(&mut self, column_names: &Vec<String>) -> (bytes: Result<Vec<u8>, ConsumeError>)
        ensures
            bytes is Ok <==> old(self)@.width is None,
            match bytes {
                Ok(encoded) => {
                    &&& old(self)@.width is None
                    &&& encoded@ == csv_record(header_record(texts(column_names@)))
                    &&& final(self)@ == (PrintState {
                        width: Some((column_names.len() + 1) as nat),
                        rows: old(self)@.rows,
                        written: old(self)@.written.push(header_record(texts(column_names@))),
                    })
                },
                Err(error) => final(self)@ == old(self)@ && error is HeaderTwice,
            },
    {
        if self.width.is_some() {
            return Err(ConsumeError::HeaderTwice);
        }
        let record = with_front("#".to_owned(), column_names);
        match written_or_error(write_csv_record(&record)) {
            Ok(encoded) => {
                self.width = Some(record.len());
                self.written = Ghost(self.written@.push(texts(record@)));
                Ok(encoded)
            },
            Err(error) => Err(error),
        }
    }

    /// Encodes the next row, with its number in front.
    ///
    /// A row before the header is refused, and so is one that has more or
    /// fewer fields than there are columns; then nothing changes.
    pub fn entry(&mut self, entry: &Vec<String>) -> (bytes: Result<Vec<u8>, ConsumeError>)
        requires
            old(self)@.rows < usize::MAX,
        ensures
            bytes is Ok <==> old(self)@.width == Some((entry.len() + 1) as nat),
            match bytes {
                Ok(encoded) => {
                    let record = entry_record(old(self)@.rows + 1, texts(entry@));
                    &&& old(self)@.width == Some((entry.len() + 1) as nat)
                    &&& encoded@ == csv_record(record)
                    &&& final(self)@ == (PrintState {
                        width: old(self)@.width,
                        rows: old(self)@.rows + 1,
                        written: old(self)@.written.push(record),
                    })
                },
                Err(error) => {
                    &&& final(self)@ == old(self)@
                    &&& error is NoHeader <==> old(self)@.width is None
                    &&& error is UnequalLengths <==> old(self)@.width is Some && old(self)@.width
                        != Some((entry.len() + 1) as nat)
                    &&& error matches ConsumeError::UnequalLengths { expected_len, len }
                        ==> old(self)@.width == Some(expected_len as nat) && len == entry.len() + 1
                    &&& error is NoHeader || error is UnequalLengths
                },
            },
    {
        let width = match self.width {
            Some(width) => width,
            None => {
                return Err(ConsumeError::NoHeader);
            },
        };
        let record = with_front(decimal_string((self.rows + 1) as u64), entry);
        if record.len() != width {
            return Err(ConsumeError::UnequalLengths { expected_len: width, len: record.len() });
        }
        match written_or_error(write_csv_record(&record)) {
            Ok(encoded) => {
                self.rows = self.rows + 1;
                self.written = Ghost(self.written@.push(texts(record@)));
                Ok(encoded)
            },
            Err(error) => Err(error),
        }
    }
}

/// Writes a whole stream at once: the header for `column_names` and then
/// `rows`, numbered from one, as comma-separated values.
///
/// The stream is written where every row has as many fields as there are
/// columns, and refused where one has more or fewer.
pub fn print_all(column_names: &Vec<String>, rows: &Vec<Vec<String>>) -> (bytes: Result<
    Vec<u8>,
    ConsumeError,
>)
    ensures
        bytes is Ok <==> all_of_width(rows_view(rows@), column_names.len() as nat),
        match bytes {
            Ok(out) => out@ == encoded(written_records(texts(column_names@), rows_view(rows@))),
            Err(error) => error is UnequalLengths,
        },
{
    let ghost names = texts(column_names@);
    let ghost all = rows_view(rows@);
    let mut consumer = Print::new();
    let mut out = match consumer.header(column_names) {
        Ok(encoded) => encoded,
        Err(error) => {
            return Err(error);
        },
    };
    proof {
        let first = seq![header_record(names)];
        assert(written_records(names, all.take(0)) =~= first);
        assert(first.drop_last() =~= Seq::<Seq<Seq<char>>>::empty());
        assert(encoded(first.drop_last()) =~= Seq::<u8>::empty());
        assert(encoded(first) =~= csv_record(header_record(names)));
    }
    let mut i: usize = 0;
    while i < rows.len()
        invariant
            i <= rows.len(),
            names == texts(column_names@),
            all == rows_view(rows@),
            consumer@.width == Some((column_names.len() + 1) as nat),
            consumer@.rows == i,
            all_of_width(all.take(i as int), column_names.len() as nat),
            out@ == encoded(written_records(names, all.take(i as int))),
        decreases rows.len() - i,
    {
        let mut encoded_row = match consumer.entry(&rows[i]) {
            Ok(encoded) => encoded,
            Err(error) => {
                assert(all[i as int].len() != column_names.len());
                return Err(error);
            },
        };
        out.append(&mut encoded_row);
        proof {
            let shorter = written_records(names, all.take(i as int));
            let longer = written_records(names, all.take(i + 1));
            assert(longer.drop_last() =~= shorter);
            assert(longer.last() == entry_record((i + 1) as nat, all[i as int]));
            assert forall|j: int| 0 <= j < all.take(i + 1).len() implies (
            #[trigger] all.take(i + 1)[j]).len() == column_names.len() by {
                if j < i {
                    assert(all.take(i as int)[j] == all[j]);
                }
            }
        }
        i += 1;
    }
    assert(all.take(i as int) == all);
    Ok(out)
}

} // verus!
