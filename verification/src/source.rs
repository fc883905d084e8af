//! The source reader: from the bytes of one source to its header list and
//! its records. The bytes are taken apart by the `csv` crate.

use vstd::prelude::*;
use crate::text::{copy_names, texts};

verus! {

/// The reader of the `csv` crate.
#[verifier::external_type_specification]
#[verifier::external_body]
#[verifier::reject_recursive_types(R)]
pub struct ExCsvReader<R>(csv::Reader<R>);

/// The error of the `csv` crate.
#[verifier::external_type_specification]
#[verifier::external_body]
pub struct ExCsvError(csv::Error);

/// The header row that `csv::Reader::headers` finds in `data`, on a reader
/// as `open_reader` builds it: the fields of the first record, or `None`
/// where it reports an error. Data without any record has the empty
/// header row.
pub uninterp spec fn csv_header_row(data: Seq<u8>) -> Option<Seq<Seq<char>>>;

/// What the iterator `csv::Reader::records` yields on `data`, on a reader
/// as `open_reader` builds it, item by item until it ends: the fields of a
/// record, as many as the record has, or `None` for an error. The reader
/// is flexible, so a record with more or fewer fields than the header row
/// is no error. The first record, which is the header row, is not among
/// the items.
pub uninterp spec fn csv_data_rows(data: Seq<u8>) -> Seq<Option<Seq<Seq<char>>>>;

/// The bytes that a reader was opened on.
pub uninterp spec fn reader_input(reader: csv::Reader<&[u8]>) -> Seq<u8>;

/// How many items of `csv_data_rows` a reader has yielded so far.
pub uninterp spec fn reader_rows_read(reader: csv::Reader<&[u8]>) -> nat;

/// Why a source gives no data.
#[derive(Debug, Clone, PartialEq, Eq)]
pub enum IngestionError {
    /// The source could not be opened or read. The text says why.
    Unreadable(String),
    /// The bytes are not well-formed CSV. The text is the parser's report.
    Malformed(String),
    /// The source has no header: it is empty, or its first record is.
    MissingHeaders,
}

/// The kind of an ingestion error, without its text.
#[derive(Debug, Clone, Copy, PartialEq, Eq, Structural)]
pub enum IngestionDefect {
    Unreadable,
    Malformed,
    MissingHeaders,
}

impl IngestionError {
    /// The kind of the error.
    pub open spec fn defect(self) -> IngestionDefect {
        match self {
            IngestionError::Unreadable(_) => IngestionDefect::Unreadable,
            IngestionError::Malformed(_) => IngestionDefect::Malformed,
            IngestionError::MissingHeaders => IngestionDefect::MissingHeaders,
        }
    }

    /// The text that describes the error.
    pub open spec fn message_text(self) -> Seq<char> {
        match self {
            IngestionError::Unreadable(text) => text@,
            IngestionError::Malformed(text) => text@,
            IngestionError::MissingHeaders => "CSV data is missing headers or is empty."@,
        }
    }

    /// The text that describes the error.
    pub fn message(&self) -> (s: String)
        ensures
            s@ == self.message_text(),
    {
        match self {
            IngestionError::Unreadable(text) => text.clone(),
            IngestionError::Malformed(text) => text.clone(),
            IngestionError::MissingHeaders => "CSV data is missing headers or is empty.".to_string(),
        }
    }
}

/// The texts of the records, record by record.
pub open spec fn record_texts(records: Seq<Vec<String>>) -> Seq<Seq<Seq<char>>> {
    records.map_values(|r: Vec<String>| texts(r@))
}

/// Some row could not be read.
pub open spec fn has_bad_row(rows: Seq<Option<Seq<Seq<char>>>>) -> bool {
    exists|i: int| 0 <= i < rows.len() && #[trigger] rows[i] is None
}

/// The table that a header row and data rows make up. There is none where
/// the header row could not be read or is empty. The records are wanted
/// only where `load_records` says so, and then every one of them has to be
/// readable.
pub open spec fn table_of(
    header: Option<Seq<Seq<char>>>,
    rows: Seq<Option<Seq<Seq<char>>>>,
    load_records: bool,
) -> Result<(Seq<Seq<char>>, Seq<Seq<Seq<char>>>), IngestionDefect> {
    match header {
        None => Err(IngestionDefect::Malformed),
        Some(names) => if names.len() == 0 {
            Err(IngestionDefect::MissingHeaders)
        } else if !load_records {
            Ok((names, Seq::empty()))
        } else if has_bad_row(rows) {
            Err(IngestionDefect::Malformed)
        } else {
            Ok((names, rows.map_values(|r: Option<Seq<Seq<char>>>| r.unwrap())))
        },
    }
}

/// Whether the records are wanted plays no part in the headers: data that
/// gives a table with its records gives the same headers without them.
pub proof fn lemma_headers_do_not_depend_on_records(
    header: Option<Seq<Seq<char>>>,
    rows: Seq<Option<Seq<Seq<char>>>>,
)
    ensures
        table_of(header, rows, true) matches Ok((names, _)) ==> table_of(header, rows, false)
            == Ok::<(Seq<Seq<char>>, Seq<Seq<Seq<char>>>), IngestionDefect>((names, Seq::empty())),
        table_of(header, rows, false) is Err ==> table_of(header, rows, true) == table_of(
            header,
            rows,
            false,
        ),
{
}

/// What was found where a source was looked for.
#[derive(Debug, Clone, PartialEq, Eq)]
pub enum FileContent {
    /// The bytes of the source.
    Bytes(Vec<u8>),
    /// The source could not be opened or read. The text says why.
    Unreadable(String),
}

/// What a source gives: its table, or the kind of error.
pub open spec fn loaded(content: FileContent, load_records: bool) -> Result<
    (Seq<Seq<char>>, Seq<Seq<Seq<char>>>),
    IngestionDefect,
> {
    match content {
        FileContent::Unreadable(_) => Err(IngestionDefect::Unreadable),
        FileContent::Bytes(bytes) => table_of(
            csv_header_row(bytes@),
            csv_data_rows(bytes@),
            load_records,
        ),
    }
}

/// The item that follows the first `read` of `rows`, or nothing where
/// there is none left.
pub open spec fn item_after(rows: Seq<Option<Seq<Seq<char>>>>, read: nat) -> Option<
    Option<Seq<Seq<char>>>,
> {
    if read < rows.len() {
        Some(rows[read as int])
    } else {
        None
    }
}

/// An item that was yielded, over texts.
pub open spec fn item_view(item: Option<Result<Vec<String>, csv::Error>>) -> Option<
    Option<Seq<Seq<char>>>,
> {
    match item {
        Some(Ok(fields)) => Some(Some(texts(fields@))),
        Some(Err(_)) => Some(None),
        None => None,
    }
}

/// Builds a reader on the bytes with `csv::ReaderBuilder`: `new`, then
/// `flexible(true)`, then `from_reader`. The reader has the crate's
/// default settings but for this one, under which a record may have more
/// or fewer fields than the header row. It has read nothing yet.
#[verifier::external_body]
fn open_reader<'a>(data: &'a [u8]) -> (reader: csv::Reader<&'a [u8]>)
    ensures
        reader_input(reader) == data@,
        reader_rows_read(reader) == 0,
{
    csv::ReaderBuilder::new().flexible(true).from_reader(data)
}

/// Calls `csv::Reader::headers` and hands out the fields of the header
/// row as strings. The call reads the first record if nothing was read
/// yet, and leaves untouched which data rows are still to come.
#[verifier::external_body]
fn read_headers(reader: &mut csv::Reader<&[u8]>) -> (r: Result<Vec<String>, csv::Error>)
    ensures
        reader_input(*final(reader)) == reader_input(*old(reader)),
        reader_rows_read(*final(reader)) == reader_rows_read(*old(reader)),
        match r {
            Ok(names) => csv_header_row(reader_input(*old(reader))) == Some(texts(names@)),
            Err(_) => csv_header_row(reader_input(*old(reader))) is None,
        },
{
    match reader.headers() {
        Ok(record) => Ok(record.iter().map(String::from).collect()),
        Err(error) => Err(error),
    }
}

/// Takes the next item of the iterator `csv::Reader::records` and hands
/// out the fields of a record as strings. Each call yields the item that
/// follows those yielded before; after the last one it yields `None`.
#[verifier::external_body]
fn read_row(reader: &mut csv::Reader<&[u8]>) -> (r: Option<Result<Vec<String>, csv::Error>>)
    ensures
        reader_input(*final(reader)) == reader_input(*old(reader)),
        item_view(r) == item_after(
            csv_data_rows(reader_input(*old(reader))),
            reader_rows_read(*old(reader)),
        ),
        reader_rows_read(*final(reader)) == reader_rows_read(*old(reader)) + if r is Some {
            1nat
        } else {
            0nat
        },
{
    match reader.records().next() {
        Some(Ok(record)) => Some(Ok(record.iter().map(String::from).collect())),
        Some(Err(error)) => Some(Err(error)),
        None => None,
    }
}

/// The report of a `csv::Error`, as its `Display` writes it.
#[verifier::external_body]
fn error_text(error: &csv::Error) -> String {
    format!("{}", error)
}

/// What reading one record gave, over texts: its fields, or nothing where
/// it failed.
pub open spec fn outcome_view(outcome: Result<Vec<String>, String>) -> Option<Seq<Seq<char>>> {
    match outcome {
        Ok(fields) => Some(texts(fields@)),
        Err(_) => None,
    }
}

/// What reading the records gave, over texts.
pub open spec fn outcome_views(outcomes: Seq<Result<Vec<String>, String>>) -> Seq<
    Option<Seq<Seq<char>>>,
> {
    outcomes.map_values(|o: Result<Vec<String>, String>| outcome_view(o))
}

/// The report of the first record that failed, if one did.
pub open spec fn first_report(rows: Seq<Result<Vec<String>, String>>) -> Option<Seq<char>>
    decreases rows.len(),
{
    if rows.len() == 0 {
        None
    } else {
        match rows[0] {
            Err(report) => Some(report@),
            Ok(_) => first_report(rows.drop_first()),
        }
    }
}

/// The report of what made the data malformed: that of the header row if
/// it failed, else that of the first record that failed.
pub open spec fn malformed_report(
    headers: Result<Vec<String>, String>,
    rows: Seq<Result<Vec<String>, String>>,
) -> Option<Seq<char>> {
    match headers {
        Err(report) => Some(report@),
        Ok(_) => first_report(rows),
    }
}

/// Accepts a header row that has at least one field.
pub fn accept_headers(names: Vec<String>) -> (r: Result<Vec<String>, IngestionError>)
    ensures
        names@.len() > 0 ==> r == Ok::<Vec<String>, IngestionError>(names),
        names@.len() == 0 ==> r == Err::<Vec<String>, IngestionError>(
            IngestionError::MissingHeaders,
        ),
{
    if names.len() == 0 {
        Err(IngestionError::MissingHeaders)
    } else {
        Ok(names)
    }
}

/// Makes a table of what a reader gave: the header row, or the report of
/// its failure, and for each record its fields, or the report of its
/// failure. A header row that failed or is empty gives an error. Where the
/// records are wanted, the first record that failed gives an error with
/// its report; else the records are those given, in their order.
pub fn assemble_table(
    headers: Result<Vec<String>, String>,
    rows: Vec<Result<Vec<String>, String>>,
    load_records: bool,
) -> (r: Result<(Vec<String>, Vec<Vec<String>>), IngestionError>)
    ensures
        match table_of(outcome_view(headers), outcome_views(rows@), load_records) {
            Ok((names, records)) => r matches Ok((found, kept)) && texts(found@) == names
                && record_texts(kept@) == records,
            Err(defect) => r matches Err(error) && error.defect() == defect,
        },
        r matches Err(IngestionError::Malformed(text)) ==> Some(text@) == malformed_report(
            headers,
            rows@,
        ),
        r matches Ok((found, _)) ==> found@.len() > 0,
{
    let ghost views = outcome_views(rows@);
    let names = match headers {
        Ok(names) => match accept_headers(names) {
            Ok(names) => names,
            Err(error) => {
                return Err(error);
            },
        },
        Err(report) => {
            return Err(IngestionError::Malformed(report));
        },
    };
    let mut kept: Vec<Vec<String>> = Vec::new();
    if !load_records {
        assert(record_texts(kept@) =~= Seq::empty());
        return Ok((names, kept));
    }
    let mut i: usize = 0;
    assert(rows@.skip(0) == rows@);
    while i < rows.len()
        invariant
            i <= rows.len(),
            load_records,
            outcome_view(headers) == Some(texts(names@)),
            names@.len() > 0,
            views == outcome_views(rows@),
            kept@.len() == i,
            forall|j: int| 0 <= j < i ==> #[trigger] views[j] == Some(texts(kept@[j]@)),
            first_report(rows@) == first_report(rows@.skip(i as int)),
        decreases rows.len() - i,
    {
        assert(rows@.skip(i as int).drop_first() == rows@.skip(i + 1));
        assert(rows@.skip(i as int)[0] == rows@[i as int]);
        match &rows[i] {
            Ok(fields) => {
                kept.push(copy_names(fields));
            },
            Err(report) => {
                assert(views[i as int] is None);
                return Err(IngestionError::Malformed(report.clone()));
            },
        }
        i += 1;
    }
    assert(record_texts(kept@) =~= views.map_values(|r: Option<Seq<Seq<char>>>| r.unwrap()));
    Ok((names, kept))
}

/// Rows that were read up to the first failure have a failure among them
/// where all the rows have one, and are all the rows where they have none.
proof fn lemma_read_up_to_first_failure(
    all: Seq<Option<Seq<Seq<char>>>>,
    read: Seq<Option<Seq<Seq<char>>>>,
)
    requires
        read.len() <= all.len(),
        read == all.take(read.len() as int),
        read.len() < all.len() ==> read.len() > 0 && read.last() is None,
    ensures
        has_bad_row(read) == has_bad_row(all),
        !has_bad_row(read) ==> read == all,
{
    if has_bad_row(read) {
        let k = choose|k: int| 0 <= k < read.len() && #[trigger] read[k] is None;
        assert(all[k] is None);
    } else {
        if read.len() < all.len() {
            assert(read[read.len() - 1] is None);
        }
        assert(read == all);
    }
}

/// Reads the records that a reader has to give, up to the first that
/// fails, which is the last one read.
fn read_rows(reader: &mut csv::Reader<&[u8]>) -> (rows: Vec<Result<Vec<String>, String>>)
    requires
        reader_rows_read(*old(reader)) == 0,
    ensures
        reader_input(*final(reader)) == reader_input(*old(reader)),
        rows@.len() <= csv_data_rows(reader_input(*old(reader))).len(),
        outcome_views(rows@) == csv_data_rows(reader_input(*old(reader))).take(rows@.len() as int),
        rows@.len() < csv_data_rows(reader_input(*old(reader))).len() ==> rows@.len() > 0
            && outcome_views(rows@).last() is None,
{
    let ghost all = csv_data_rows(reader_input(*reader));
    let mut rows: Vec<Result<Vec<String>, String>> = Vec::new();
    loop
        invariant
            reader_input(*reader) == reader_input(*old(reader)),
            all == csv_data_rows(reader_input(*old(reader))),
            reader_rows_read(*reader) == rows@.len(),
            rows@.len() <= all.len(),
            outcome_views(rows@) =~= all.take(rows@.len() as int),
        decreases all.len() - rows@.len(),
    {
        let ghost before = outcome_views(rows@);
        match read_row(reader) {
            Some(Ok(fields)) => {
                rows.push(Ok(fields));
                assert(outcome_views(rows@) =~= before.push(all[rows@.len() - 1]));
            },
            Some(Err(error)) => {
                rows.push(Err(error_text(&error)));
                assert(outcome_views(rows@) =~= before.push(all[rows@.len() - 1]));
                return rows;
            },
            None => {
                return rows;
            },
        }
    }
}

/// Reads CSV data: the first record is the header row, the others are the
/// records. Without `load_records` only the header row is read. A record
/// keeps the fields it has, be they more or fewer than the headers. Data
/// whose header row cannot be read or is empty gives an error, and so does
/// data with a record that cannot be read.
pub fn parse_csv_from_reader(data: &[u8], load_records: bool) -> (r: Result<
    (Vec<String>, Vec<Vec<String>>),
    IngestionError,
>)
    ensures
        match table_of(csv_header_row(data@), csv_data_rows(data@), load_records) {
            Ok((names, rows)) => r matches Ok((headers, records)) && texts(headers@) == names
                && record_texts(records@) == rows,
            Err(defect) => r matches Err(error) && error.defect() == defect,
        },
        r matches Ok((headers, _)) ==> headers@.len() > 0,
{
    let mut reader = open_reader(data);
    let headers = match read_headers(&mut reader) {
        Ok(names) => Ok(names),
        Err(error) => Err(error_text(&error)),
    };
    let wanted = load_records && match &headers {
        Ok(names) => names.len() > 0,
        Err(_) => false,
    };
    let rows = if wanted {
        read_rows(&mut reader)
    } else {
        Vec::new()
    };
    proof {
        if wanted {
            lemma_read_up_to_first_failure(csv_data_rows(data@), outcome_views(rows@));
        }
    }
    assemble_table(headers, rows, load_records)
}

/// Loads the data of one source, as `parse_csv_from_reader` does with its
/// bytes. A source that could not be read gives an error with the reason
/// that came with it.
pub fn load_data_from_csv(content: &FileContent, load_records: bool) -> (r: Result<
    (Vec<String>, Vec<Vec<String>>),
    IngestionError,
>)
    ensures
        match loaded(*content, load_records) {
            Ok((names, rows)) => r matches Ok((headers, records)) && texts(headers@) == names
                && record_texts(records@) == rows,
            Err(defect) => r matches Err(error) && error.defect() == defect,
        },
        content matches FileContent::Unreadable(reason) ==> r matches Err(error)
            && error.message_text() == reason@,
        r matches Ok((headers, _)) ==> headers@.len() > 0,
{
    match content {
        FileContent::Bytes(bytes) => parse_csv_from_reader(bytes.as_slice(), load_records),
        FileContent::Unreadable(reason) => Err(IngestionError::Unreadable(reason.clone())),
    }
}

} // verus!
