//! CSV text through the `csv` crate: reading a file's bytes into a header
//! row and records, and writing a header row and records as CSV.

use vstd::prelude::*;
use crate::rerun::records_view;
use crate::text::views;

verus! {

/// The records of a CSV text, each by its cells or its error text.
pub open spec fn records_of(recs: Seq<Result<Vec<String>, String>>) -> Seq<Result<Seq<Seq<char>>, Seq<char>>> {
    recs.map_values(|r: Result<Vec<String>, String>| match r {
        Ok(c) => Ok(views(c@)),
        Err(e) => Err(e@),
    })
}

/// What the `csv` crate reads from a text with a header row (the default
/// reader: comma-separated, `"` quoting, records of equal length): the
/// header row and then each record, as its cells or the text of the error
/// that record gave; or the text of the error that the header row gave.
pub uninterp spec fn csv_table(bytes: Seq<u8>) -> Result<(Seq<Seq<char>>, Seq<Result<Seq<Seq<char>>, Seq<char>>>), Seq<char>>;

/// Reads `bytes` with `csv::ReaderBuilder::new().has_headers(true)`: its
/// header row (`headers`), then every record (`records`), each as its cells
/// or its error's `Display` text; a header error's text instead when the
/// header row cannot be read. All of it is what `csv_table` names; how the
/// crate splits and unquotes a text is not stated here.
#[verifier::external_body]
pub(crate) fn read_csv(bytes: &[u8]) -> (r: Result<(Vec<String>, Vec<Result<Vec<String>, String>>), String>)
    ensures
        match r {
            Ok((h, recs)) => csv_table(bytes@) matches Ok((h2, recs2)) && h2 == views(h@) && recs2 == records_of(recs@),
            Err(e) => csv_table(bytes@) matches Err(m) && m == e@,
        },
{
    let mut rdr = csv::ReaderBuilder::new().has_headers(true).from_reader(bytes);
    let headers: Vec<String> = match rdr.headers() {
        Ok(h) => h.iter().map(String::from).collect(),
        Err(e) => return Err(e.to_string()),
    };
    let mut records = Vec::new();
    for rec in rdr.records() {
        records.push(match rec {
            Ok(r) => Ok(r.iter().map(String::from).collect()),
            Err(e) => Err(e.to_string()),
        });
    }
    Ok((headers, records))
}

/// What the `csv` crate's default writer produces for a header row and then
/// these records, all of the header's length.
pub uninterp spec fn csv_text(header: Seq<Seq<char>>, rows: Seq<Seq<Seq<char>>>) -> Seq<u8>;

/// Writes the header row and then each record with `csv::Writer` into
/// memory and hands back the bytes, which are what `csv_text` names. The
/// default writer refuses a record whose length differs from the first
/// one's, and writing to memory cannot fail otherwise, so with records of
/// the header's length every write succeeds. How the crate quotes a cell
/// is not stated here.
#[verifier::external_body]
pub(crate) fn write_csv(header: &Vec<String>, rows: &Vec<Vec<String>>) -> (b: Vec<u8>)
    requires
        forall|i: int| 0 <= i < rows@.len() ==> (#[trigger] rows@[i])@.len() == header@.len(),
    ensures
        b@ == csv_text(views(header@), records_view(rows@)),
{
    let mut w = csv::Writer::from_writer(Vec::new());
    w.write_record(header).expect("the header is the first record");
    for row in rows {
        w.write_record(row).expect("records have the header's length");
    }
    w.into_inner().expect("writing to memory does not fail")
}

} // verus!
