//! The table of paths and averages, as the bytes of a CSV file.
//!
//! The table has two columns under the header `path,average`. Opening,
//! reading and writing the file is the caller's work: this module turns the
//! bytes of a file into the table and the table into bytes. How fields are
//! quoted and records are cut is the work of the `csv` crate, reached
//! through two private functions whose contracts are believed, not proved.

use crate::decimal::{decimal_text, format_i32, lemma_parse_decimal_text, parse_decimal, parse_i32};
use crate::errors::SemantiXelError;
use crate::text::texts;
use vstd::prelude::*;

verus! {

/// The records after the header that the bytes of a CSV file hold, each as
/// its fields and with as many fields as it has, if the bytes can be read as
/// CSV.
pub uninterp spec fn csv_rows(data: Seq<u8>) -> Option<Seq<Seq<Seq<char>>>>;

/// The bytes of the CSV record with the two fields `first` and `second`.
pub uninterp spec fn csv_record(first: Seq<char>, second: Seq<char>) -> Seq<u8>;

/// The fields of each row as text.
pub open spec fn rows_text(rows: Seq<Vec<String>>) -> Seq<Seq<Seq<char>>> {
    Seq::new(rows.len(), |i: int| texts(rows[i]@))
}

/// `csv::ReaderBuilder::from_reader` with `records`, on a reader that takes
/// records of any number of fields, each record handed out as its fields.
/// The records depend on the bytes alone; the contract names them and says
/// that the call fails exactly where the bytes cannot be read.
#[verifier::external_body]
fn read_records(data: &[u8]) -> (outcome: Result<Vec<Vec<String>>, csv::Error>)
    ensures
        match outcome {
            Ok(rows) => csv_rows(data@) == Some(rows_text(rows@)),
            Err(_) => csv_rows(data@) is None,
        },
{
    csv::ReaderBuilder::new()
        .flexible(true)
        .from_reader(data)
        .records()
        .map(|record| record.map(|fields| fields.iter().map(|field| field.to_string()).collect()))
        .collect()
}

/// `csv::Writer::write_record` on a writer of its own into memory, for one
/// record of two fields. The bytes depend on the fields alone; the contract
/// names them and says that the call succeeds: a first record has no other
/// to differ from in length, and writing into memory does not fail.
#[verifier::external_body]
fn write_record(first: &str, second: &str) -> (outcome: Result<Vec<u8>, csv::Error>)
    ensures
        outcome is Ok,
        outcome->Ok_0@ == csv_record(first@, second@),
{
    let mut writer = csv::Writer::from_writer(Vec::new());
    writer.write_record([first, second])?;
    writer.into_inner().map_err(|stuck| csv::Error::from(stuck.into_error()))
}

/// What a write or an append answers where it is not given as many paths
/// as averages.
pub open spec fn length_mismatch() -> Seq<char> {
    "Paths and averages length mismatch"@
}

/// The number in a cell; zero where the cell holds no number.
pub open spec fn cell_value(cell: Seq<char>) -> i32 {
    match parse_decimal(cell) {
        Some(value) => value as i32,
        None => 0,
    }
}

/// The paths of the table in `rows`: the first field of each row that has at
/// least two fields.
pub open spec fn table_paths(rows: Seq<Seq<Seq<char>>>) -> Seq<Seq<char>>
    decreases rows.len(),
{
    if rows.len() == 0 {
        Seq::<Seq<char>>::empty()
    } else if rows.last().len() >= 2 {
        table_paths(rows.drop_last()).push(rows.last()[0])
    } else {
        table_paths(rows.drop_last())
    }
}

/// The averages of the table in `rows`: the number in the second field of
/// each row that has at least two fields.
pub open spec fn table_averages(rows: Seq<Seq<Seq<char>>>) -> Seq<i32>
    decreases rows.len(),
{
    if rows.len() == 0 {
        Seq::<i32>::empty()
    } else if rows.last().len() >= 2 {
        table_averages(rows.drop_last()).push(cell_value(rows.last()[1]))
    } else {
        table_averages(rows.drop_last())
    }
}

/// The rows that stand for the table: a path and the decimal text of its
/// average in each.
pub open spec fn rows_of(paths: Seq<Seq<char>>, averages: Seq<i32>) -> Seq<Seq<Seq<char>>> {
    Seq::new(paths.len(), |i: int| seq![paths[i], decimal_text(averages[i] as int)])
}

/// The bytes of the rows of the table, record after record.
pub open spec fn rows_bytes(paths: Seq<Seq<char>>, averages: Seq<i32>) -> Seq<u8>
    decreases paths.len(),
{
    if paths.len() == 0 {
        Seq::<u8>::empty()
    } else {
        rows_bytes(paths.drop_last(), averages.drop_last()) + csv_record(
            paths.last(),
            decimal_text(averages.last() as int),
        )
    }
}

/// The bytes of the whole table: the header, then the rows.
pub open spec fn table_bytes(paths: Seq<Seq<char>>, averages: Seq<i32>) -> Seq<u8> {
    csv_record("path"@, "average"@) + rows_bytes(paths, averages)
}

/// The rows that stand for a table hold that table: read back, they give the
/// same paths and the same averages.
pub proof fn lemma_rows_read_back(paths: Seq<Seq<char>>, averages: Seq<i32>)
    requires
        paths.len() == averages.len(),
    ensures
        table_paths(rows_of(paths, averages)) == paths,
        table_averages(rows_of(paths, averages)) == averages,
    decreases paths.len(),
{
    let rows = rows_of(paths, averages);
    if paths.len() == 0 {
        assert(table_paths(rows) =~= paths);
        assert(table_averages(rows) =~= averages);
    } else {
        lemma_rows_read_back(paths.drop_last(), averages.drop_last());
        assert(rows.drop_last() =~= rows_of(paths.drop_last(), averages.drop_last()));
        lemma_parse_decimal_text(averages.last() as int);
        assert(rows.last()[0] == paths.last());
        assert(rows.last()[1] == decimal_text(averages.last() as int));
        assert(table_paths(rows) =~= paths);
        assert(table_averages(rows) =~= averages);
    }
}

/// The table in `rows`: a row with fewer than two fields is passed over, and
/// a second field that holds no number counts as zero.
pub fn table_of_rows(rows: &Vec<Vec<String>>) -> (table: (Vec<String>, Vec<i32>))
    ensures
        texts(table.0@) == table_paths(rows_text(rows@)),
        table.1@ == table_averages(rows_text(rows@)),
        table.0@.len() == table.1@.len(),
{
    let mut paths: Vec<String> = Vec::new();
    let mut averages: Vec<i32> = Vec::new();
    let ghost all = rows_text(rows@);
    let mut i: usize = 0;
    assert(all.take(0) =~= Seq::<Seq<Seq<char>>>::empty());
    assert(texts(paths@) =~= Seq::<Seq<char>>::empty());
    while i < rows.len()
        invariant
            i <= rows.len(),
            all == rows_text(rows@),
            texts(paths@) == table_paths(all.take(i as int)),
            averages@ == table_averages(all.take(i as int)),
            paths@.len() == averages@.len(),
        decreases rows.len() - i,
    {
        let ghost kept = texts(paths@);
        assert(all.take(i + 1).drop_last() =~= all.take(i as int));
        assert(all.take(i + 1).last() == texts(rows@[i as int]@));
        let row = &rows[i];
        if row.len() >= 2 {
            let path = row[0].clone();
            let average = match parse_i32(row[1].as_str()) {
                Some(value) => value,
                None => 0,
            };
            paths.push(path);
            averages.push(average);
            assert(texts(paths@) =~= kept.push(row@[0]@));
        }
        i += 1;
    }
    assert(all.take(rows.len() as int) =~= all);
    (paths, averages)
}

/// The bytes of the rows of the table, record after record.
fn encode_rows(paths: &[String], averages: &[i32]) -> (outcome: Result<Vec<u8>, SemantiXelError>)
    requires
        paths@.len() == averages@.len(),
    ensures
        outcome matches Ok(written) && written@ == rows_bytes(texts(paths@), averages@),
{
    let ghost names = texts(paths@);
    let mut written: Vec<u8> = Vec::new();
    let mut i: usize = 0;
    assert(names.take(0) =~= Seq::<Seq<char>>::empty());
    while i < paths.len()
        invariant
            i <= paths.len(),
            paths@.len() == averages@.len(),
            names == texts(paths@),
            written@ == rows_bytes(names.take(i as int), averages@.take(i as int)),
        decreases paths.len() - i,
    {
        assert(names.take(i + 1).drop_last() =~= names.take(i as int));
        assert(averages@.take(i + 1).drop_last() =~= averages@.take(i as int));
        assert(names.take(i + 1).last() == paths@[i as int]@);
        assert(averages@.take(i + 1).last() == averages@[i as int]);
        let cell = format_i32(averages[i]);
        match write_record(paths[i].as_str(), cell.as_str()) {
            Ok(mut record) => {
                written.append(&mut record);
            },
            Err(cause) => {
                return Err(SemantiXelError::SerializationError(cause));
            },
        }
        i += 1;
    }
    assert(names.take(paths.len() as int) =~= names);
    assert(averages@.take(paths.len() as int) =~= averages@);
    Ok(written)
}

/// Reads and writes the table of one file.
pub struct CsvHandler {
    file_path: String,
}

impl View for CsvHandler {
    type V = Seq<char>;

    closed spec fn view(&self) -> Seq<char> {
        self.file_path@
    }
}

impl CsvHandler {
    /// A handler for the table in the file at `file_path`.
    pub fn new(file_path: String) -> (handler: Self)
        ensures
            handler@ == file_path@,
    {
        CsvHandler { file_path }
    }

    /// Where the file of the table lies.
    pub fn file_path(&self) -> (path: &String)
        ensures
            path@ == self@,
    {
        &self.file_path
    }

    /// The table that the bytes of the file hold: its paths and its averages,
    /// row by row.
    ///
    /// Fails where the bytes cannot be read as CSV. A row with fewer than two
    /// fields is passed over, whatever the rows around it hold, and an
    /// average that is no number counts as zero.
    pub fn read(&self, data: &[u8]) -> (outcome: Result<(Vec<String>, Vec<i32>), SemantiXelError>)
        ensures
            match csv_rows(data@) {
                Some(rows) => outcome matches Ok(table) && {
                    &&& texts(table.0@) == table_paths(rows)
                    &&& table.1@ == table_averages(rows)
                },
                None => outcome matches Err(SemantiXelError::SerializationError(_)),
            },
    {
        match read_records(data) {
            Ok(rows) => Ok(table_of_rows(&rows)),
            Err(cause) => Err(SemantiXelError::SerializationError(cause)),
        }
    }

    /// The bytes of a file that holds the table: the header, then one record
    /// for each path with its average.
    ///
    /// Fails with `ProcessingError` where there are not as many paths as
    /// averages, and gives no byte then.
    pub fn write(&self, paths: &[String], averages: &[i32]) -> (outcome: Result<
        Vec<u8>,
        SemantiXelError,
    >)
        ensures
            paths@.len() != averages@.len() ==> (outcome matches Err(
                SemantiXelError::ProcessingError(message),
            ) && message@ == length_mismatch()),
            paths@.len() == averages@.len() ==> (outcome matches Ok(written) && written@
                == table_bytes(texts(paths@), averages@)),
    {
        if paths.len() != averages.len() {
            return Err(
                SemantiXelError::ProcessingError("Paths and averages length mismatch".to_owned()),
            );
        }
        match write_record("path", "average") {
            Err(cause) => Err(SemantiXelError::SerializationError(cause)),
            Ok(mut written) => match encode_rows(paths, averages) {
                Err(error) => Err(error),
                Ok(mut rows) => {
                    written.append(&mut rows);
                    Ok(written)
                },
            },
        }
    }

    /// The bytes to put at the end of the file to add the rows of the table
    /// to it: one record for each path with its average, and no header.
    ///
    /// Fails with `ProcessingError` where there are not as many paths as
    /// averages, and gives no byte then.
    pub fn append(&self, paths: &[String], averages: &[i32]) -> (outcome: Result<
        Vec<u8>,
        SemantiXelError,
    >)
        ensures
            paths@.len() != averages@.len() ==> (outcome matches Err(
                SemantiXelError::ProcessingError(message),
            ) && message@ == length_mismatch()),
            paths@.len() == averages@.len() ==> (outcome matches Ok(written) && written@
                == rows_bytes(texts(paths@), averages@)),
    {
        if paths.len() != averages.len() {
            return Err(
                SemantiXelError::ProcessingError("Paths and averages length mismatch".to_owned()),
            );
        }
        encode_rows(paths, averages)
    }
}

} // verus!
