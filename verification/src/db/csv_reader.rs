//! Records of CSV text, read by the `csv` crate.
use vstd::prelude::*;
use crate::text::strings_view;

verus! {

/// What the `csv` crate's reader yields for `bytes`, read with its default
/// settings (',' delimiter, '"' quoting, every record of the same length as
/// the first) and without a header row: each record as its fields, or the
/// text of the reader's error for that record; and, for each record read,
/// its position (record index, line and byte where it starts). The reader's
/// grammar and error texts are not restated here.
pub uninterp spec fn csv_read(bytes: Seq<u8>) -> (
    Seq<Result<Seq<Seq<char>>, Seq<char>>>,
    Seq<Option<(u64, u64, u64)>>,
);

/// The records of `bytes`: each as its fields, or the reader's error text.
pub open spec fn csv_records(bytes: Seq<u8>) -> Seq<Result<Seq<Seq<char>>, Seq<char>>> {
    csv_read(bytes).0
}

/// The position of each record of `bytes` (record index, line, byte), when
/// the reader gives one.
pub open spec fn csv_positions(bytes: Seq<u8>) -> Seq<Option<(u64, u64, u64)>> {
    csv_read(bytes).1
}

/// The fields of each record as values.
pub open spec fn records_view(rows: Seq<Result<Vec<String>, String>>) -> Seq<
    Result<Seq<Seq<char>>, Seq<char>>,
> {
    rows.map_values(
        |row: Result<Vec<String>, String>|
            match row {
                Ok(fields) => Ok(strings_view(fields@)),
                Err(e) => Err(e@),
            },
    )
}

/// Reads every record of `bytes` with `csv::ReaderBuilder::new()
/// .has_headers(false).from_reader(bytes).records()`, keeping each record's
/// fields as strings and each error as its text, and beside them each
/// record's position (`StringRecord::position`: record, line, byte). The
/// result is `csv_read(bytes)`.
#[verifier::external_body]
pub(crate) fn read_csv_records(bytes: &[u8]) -> (r: (
    Vec<Result<Vec<String>, String>>,
    Vec<Option<(u64, u64, u64)>>,
))
    ensures
        (records_view(r.0@), r.1@) == csv_read(bytes@),
{
    let mut rows = Vec::new();
    let mut positions = Vec::new();
    for record in csv::ReaderBuilder::new().has_headers(false).from_reader(bytes).records() {
        match record {
            Ok(rec) => {
                positions.push(rec.position().map(|p| (p.record(), p.line(), p.byte())));
                rows.push(Ok(rec.iter().map(String::from).collect()));
            },
            Err(e) => {
                positions.push(None);
                rows.push(Err(e.to_string()));
            },
        }
    }
    (rows, positions)
}

} // verus!
