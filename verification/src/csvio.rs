//! Reading delimited config text: the parsing itself is the csv crate's,
//! behind a trusted contract; everything around it is verified.
use vstd::prelude::*;

verus! {

/// The rows the csv crate reads out of this text: no header handling,
/// rows that fail to parse left out.
pub uninterp spec fn csv_rows_of(s: Seq<char>) -> Seq<Seq<Seq<char>>>;

/// Relies on `csv::ReaderBuilder` and `Reader::records`: the records of
/// the text, each a row of fields; rows the reader refuses are skipped.
#[verifier::external_body]
fn csv_parse(contents: &String) -> (rows: Vec<Vec<String>>)
    ensures
        rows.deep_view() == csv_rows_of(contents@),
{
    let mut rdr = csv::ReaderBuilder::new().has_headers(false).from_reader(
        contents.as_bytes(),
    );
    let mut ret: Vec<Vec<String>> = Vec::new();
    for rec in rdr.records() {
        if let Ok(line) = rec {
            ret.push(line.iter().map(|s| s.to_string()).collect());
        }
    }
    ret
}

/// Parse delimited config text into rows; an unreadable file (no
/// contents) is reported, never fatal.
pub fn read_csv(filename: &String, contents: &Option<String>) -> (r: Result<
    Vec<Vec<String>>,
    String,
>)
    ensures
        match r {
            Result::Ok(rows) => contents is Some && rows.deep_view() == csv_rows_of(
                contents->0@,
            ),
            Result::Err(e) => contents is None && e@ == "Cannot open file. [file:"@ + filename@
                + "]"@,
        },
{
    match contents {
        Option::Some(c) => Result::Ok(csv_parse(c)),
        Option::None => {
            let msg = String::new();
            let msg = msg.concat("Cannot open file. [file:");
            let msg = msg.concat(filename.as_str());
            let msg = msg.concat("]");
            Result::Err(msg)
        },
    }
}

} // verus!
