//! Comma-separated tables, written by the `csv` crate.

use vstd::prelude::*;
use vstd::string::*;
use vstd::utf8::*;

use crate::text;

verus! {

/// A writer of the `csv` crate with its default settings, which collects the table in memory.
#[verifier::external_body]
pub struct TableWriter {
    inner: csv::Writer<Vec<u8>>,
}

/// The records that a writer has taken, or `None` once it has refused one.
pub uninterp spec fn records_of(writer: TableWriter) -> Option<Seq<Seq<Seq<char>>>>;

/// Whether a character forces quotes around its field.
pub open spec fn is_special(c: char) -> bool {
    c == ',' || c == '"' || c == '\n' || c == '\r'
}

/// A text with every double quote written twice.
pub open spec fn quotes_doubled(field: Seq<char>) -> Seq<char>
    decreases field.len(),
{
    if field.len() == 0 {
        Seq::empty()
    } else if field.last() == '"' {
        quotes_doubled(field.drop_last()) + seq!['"', '"']
    } else {
        quotes_doubled(field.drop_last()).push(field.last())
    }
}

/// A field as it stands in a table: in quotes where it needs them.
pub open spec fn field_text(field: Seq<char>) -> Seq<char> {
    if exists|i: int| 0 <= i < field.len() && is_special(#[trigger] field[i]) {
        seq!['"'] + quotes_doubled(field) + seq!['"']
    } else {
        field
    }
}

/// The fields of a record as they stand in a table, with commas between them.
pub open spec fn fields_text(fields: Seq<Seq<char>>) -> Seq<char>
    decreases fields.len(),
{
    if fields.len() == 0 {
        Seq::empty()
    } else if fields.len() == 1 {
        field_text(fields[0])
    } else {
        fields_text(fields.drop_last()) + seq![','] + field_text(fields.last())
    }
}

/// A table: every record on a line of its own.
pub open spec fn table_text(records: Seq<Seq<Seq<char>>>) -> Seq<char>
    decreases records.len(),
{
    if records.len() == 0 {
        Seq::empty()
    } else {
        table_text(records.drop_last()) + fields_text(records.last()).push('\n')
    }
}

/// `csv::Writer::from_writer` on an empty `Vec`: a writer that has taken no record.
#[verifier::external_body]
pub(crate) fn new_table() -> (res: TableWriter)
    ensures
        records_of(res) == Some(Seq::<Seq<Seq<char>>>::empty()),
{
    TableWriter { inner: csv::Writer::from_writer(Vec::new()) }
}

/// `csv::Writer::write_record`: takes a record whose number of fields is that of the first one,
/// and refuses any other. Nothing else makes it fail, since memory takes every write. The error is
/// given by its message, of which nothing is said. A record of fewer than two fields, which the
/// crate may write in quotes, is left out.
#[verifier::external_body]
pub(crate) fn write_record(table: &mut TableWriter, fields: &Vec<String>) -> (res: Result<
    (),
    String,
>)
    requires
        records_of(*old(table)) is Some,
        fields@.len() >= 2,
    ensures
        ({
            let records = records_of(*old(table))->0;
            if records.len() == 0 || records[0].len() == fields@.len() {
                &&& res is Ok
                &&& records_of(*final(table)) == Some(records.push(text::texts(fields@)))
            } else {
                &&& res is Err
                &&& records_of(*final(table)) is None
            }
        }),
{
    table.inner.write_record(fields).map_err(|e| e.to_string())
}

/// `csv::Writer::into_inner`: the bytes of the table. It fails only where a write fails, and
/// memory takes every write. The error would be given by its message.
#[verifier::external_body]
pub(crate) fn table_bytes(table: TableWriter) -> (res: Result<Vec<u8>, String>)
    requires
        records_of(table) is Some,
    ensures
        res is Ok,
        res->Ok_0@ == encode_utf8(table_text(records_of(table)->0)),
{
    table.inner.into_inner().map_err(|e| e.to_string())
}

} // verus!
