//! Persistence of the result matrix: a whole table travels as one flat-text
//! byte image, one row per line and one delimited field per cell, which an
//! outside text codec reads and writes.  Each update parses the stored image
//! (or starts empty where none is stored), applies one in-memory table
//! update, and renders the whole table back to bytes.

use vstd::prelude::*;
use crate::matrix::Table;
use crate::matrix::update_spec;

verus! {

#[verifier::external_type_specification]
#[verifier::external_body]
pub struct ExCsvError(csv::Error);

/// The records that the text codec reads out of a byte image, in order, each
/// a sequence of cells.
pub uninterp spec fn csv_rows_of(bytes: Seq<u8>) -> Seq<Seq<Seq<char>>>;

/// Whether the text codec parses a byte image at all; like the records
/// themselves, this is a pure function of the bytes under the configuration
/// fixed below.
pub uninterp spec fn csv_parse_ok(bytes: Seq<u8>) -> bool;

/// The byte image that the text codec writes for the records.
pub uninterp spec fn csv_bytes_of(rows: Seq<Seq<Seq<char>>>) -> Seq<u8>;

/// Relies on csv::ReaderBuilder and Reader::records, headers off and flexible
/// field counts on, so rows of differing lengths are tolerated: parsing a
/// byte image is a pure function of the bytes, and so is whether it parses.
#[verifier::external_body]
fn parse_records(bytes: &[u8]) -> (r: Result<Vec<Vec<String>>, csv::Error>)
    ensures
        r is Ok <==> csv_parse_ok(bytes@),
        (r matches Ok(v) ==> v.deep_view() == csv_rows_of(bytes@)),
{
    let mut reader = csv::ReaderBuilder::new().has_headers(false).flexible(true).from_reader(
        bytes,
    );
    let mut records: Vec<Vec<String>> = Vec::new();
    for result in reader.records() {
        let record = result?;
        records.push(record.iter().map(|s| s.to_string()).collect());
    }
    Ok(records)
}

/// Relies on csv::WriterBuilder and Writer::write_record, headers off and
/// flexible field counts on, writing into memory: rendering records is a pure
/// function of the records, and it cannot fail — with flexible field counts
/// the writer's length check is off, and the in-memory sink never errs.  The
/// image it writes parses again: the writer emits valid UTF-8 text, and the
/// flexible in-memory reader's only failure is invalid UTF-8.
#[verifier::external_body]
fn render_records(records: &Vec<Vec<String>>) -> (r: Result<Vec<u8>, csv::Error>)
    ensures
        r is Ok,
        (r matches Ok(b) ==> b@ == csv_bytes_of(records.deep_view()) && csv_parse_ok(b@)),
{
    let mut writer = csv::WriterBuilder::new().has_headers(false).flexible(true).from_writer(
        Vec::new(),
    );
    for record in records {
        writer.write_record(record)?;
    }
    writer.into_inner().map_err(|e| csv::Error::from(e.into_error()))
}

/// Why a persisted table could not be read back or written out.
#[derive(Debug)]
pub enum StoreError {
    /// The stored bytes could not be parsed as a table.
    Parse(csv::Error),
    /// The updated table could not be rendered back to bytes.  Rendering into
    /// memory has no failure path in the codec relied on, so nothing in this
    /// crate produces this variant; it names the seam all the same.
    Render(csv::Error),
}

/// The rows that a stored byte image stands for; no image at all stands for
/// the table with no rows.
pub open spec fn stored_rows(bytes: Option<Vec<u8>>) -> Seq<Seq<Seq<char>>> {
    match bytes {
        None => Seq::<Seq<Seq<char>>>::empty(),
        Some(b) => csv_rows_of(b@),
    }
}

/// Whether a stored byte image parses; no image at all stands for the empty
/// table and always "parses".
pub open spec fn stored_parse_ok(bytes: Option<Vec<u8>>) -> bool {
    match bytes {
        None => true,
        Some(b) => csv_parse_ok(b@),
    }
}

/// Reads a table back from a stored byte image: it succeeds exactly when the
/// image parses, and then holds exactly the parsed rows.
pub fn load_table(bytes: &Vec<u8>) -> (r: Result<Table, StoreError>)
    ensures
        r is Ok <==> csv_parse_ok(bytes@),
        (r matches Ok(t) ==> t@ == csv_rows_of(bytes@)),
{
    match parse_records(bytes.as_slice()) {
        Ok(records) => Ok(Table::from_records(records)),
        Err(e) => Err(StoreError::Parse(e)),
    }
}

/// One whole read-modify-write persistence update: parses the stored image
/// (an absent image is the empty table), writes `value` at (`key`, `col`),
/// and renders the whole updated table as the bytes to store back.  It
/// succeeds exactly when there is no stored image or the stored image parses;
/// the only error is a parse error on a stored image; and the image it
/// returns parses in turn, so a later update on it succeeds too.
pub fn apply_update(existing: &Option<Vec<u8>>, key: &str, col: &str, value: &str) -> (r: Result<
    Vec<u8>,
    StoreError,
>)
    ensures
        r is Ok <==> stored_parse_ok(*existing),
        (r matches Ok(out) ==> out@ == csv_bytes_of(
            update_spec(stored_rows(*existing), key@, col@, value@),
        ) && csv_parse_ok(out@)),
        (r matches Err(e) ==> e is Parse && existing is Some),
{
    let records: Vec<Vec<String>> = match existing {
        None => Vec::new(),
        Some(bytes) => match parse_records(bytes.as_slice()) {
            Ok(v) => v,
            Err(e) => {
                return Err(StoreError::Parse(e));
            },
        },
    };
    proof {
        assert(records.deep_view() =~~= stored_rows(*existing));
    }
    let mut table = Table::from_records(records);
    table.update(key, col, value);
    match render_records(table.as_records()) {
        Ok(bytes) => Ok(bytes),
        Err(e) => Err(StoreError::Render(e)),
    }
}

} // verus!
