//! The CSV file of a batch: a UTF-8 byte order mark, then a header record and
//! one record per result row, written by the `csv` crate.
use vstd::prelude::*;
use vstd::utf8::encode_utf8;
use crate::batch::{ResultRow, RowView, row_view, rows_view};
use crate::sorting::texts;
use crate::text::{decimal, decimal_text};

verus! {

/// A `csv::Writer` that writes into a `Vec<u8>`, held opaque: what the
/// library knows of it is `csv_output`, `csv_first_count` and
/// `csv_between_records`.
#[verifier::external_body]
pub struct CsvSink {
    writer: csv::Writer<Vec<u8>>,
}

#[verifier::external_type_specification]
#[verifier::external_body]
pub struct ExCsvError(csv::Error);

#[verifier::external_type_specification]
#[verifier::external_body]
pub struct ExIoError(std::io::Error);

/// The bytes that a `csv::Writer` over a `Vec<u8>` hands back from
/// `into_inner`: those in the `Vec`, followed by those in its buffer.
pub uninterp spec fn csv_output(w: CsvSink) -> Seq<u8>;

/// The number of fields of the first record that the writer wrote (`None`
/// before the first record). A record of a different length makes
/// `write_record` fail.
pub uninterp spec fn csv_first_count(w: CsvSink) -> Option<nat>;

/// Whether no record is half written in the writer: every record it was
/// given went down whole, terminator included. A failed `write_record`
/// leaves the fields it wrote, and the next record would follow them.
pub uninterp spec fn csv_between_records(w: CsvSink) -> bool;

/// Whether the default configuration of the `csv` writer quotes a field:
/// where it holds a comma, a double quote, a carriage return or a line feed.
pub open spec fn csv_needs_quotes(f: Seq<char>) -> bool {
    f.contains(',') || f.contains('"') || f.contains('\r') || f.contains('\n')
}

/// `f` with each double quote doubled.
pub open spec fn csv_doubled_quotes(f: Seq<char>) -> Seq<char>
    decreases f.len(),
{
    if f.len() == 0 {
        Seq::empty()
    } else if f.last() == '"' {
        csv_doubled_quotes(f.drop_last()) + seq!['"', '"']
    } else {
        csv_doubled_quotes(f.drop_last()).push(f.last())
    }
}

/// A field as the writer puts it down: quoted, with its quotes doubled, where
/// it needs quotes; as it is otherwise.
pub open spec fn csv_field(f: Seq<char>) -> Seq<char> {
    if csv_needs_quotes(f) {
        seq!['"'] + csv_doubled_quotes(f) + seq!['"']
    } else {
        f
    }
}

/// The fields put down one after another, separated by commas.
pub open spec fn csv_joined(fields: Seq<Seq<char>>) -> Seq<char>
    decreases fields.len(),
{
    if fields.len() == 0 {
        Seq::empty()
    } else if fields.len() == 1 {
        csv_field(fields[0])
    } else {
        csv_joined(fields.drop_last()) + seq![','] + csv_field(fields.last())
    }
}

/// The text of one record: its fields joined by commas, then `\n`. A record
/// that would leave nothing before the `\n` (no field, or one empty field)
/// is written as `""`.
pub open spec fn csv_record_text(fields: Seq<Seq<char>>) -> Seq<char> {
    if fields.len() == 0 || (fields.len() == 1 && fields[0].len() == 0) {
        seq!['"', '"', '\n']
    } else {
        csv_joined(fields).push('\n')
    }
}

/// The bytes that `csv::Writer::write_record` writes for a record with these
/// fields, under the writer's default configuration (comma delimiter,
/// quoting where needed, quotes doubled, `\n` terminator).
pub open spec fn csv_record(fields: Seq<Seq<char>>) -> Seq<u8> {
    encode_utf8(csv_record_text(fields))
}

/// `csv::Writer::from_writer(Vec::new())`: a writer with the default
/// configuration. Stated of it: the new writer has written nothing, no
/// record yet, and none half.
#[verifier::external_body]
fn new_csv_writer() -> (w: CsvSink)
    ensures
        csv_output(w) == Seq::<u8>::empty(),
        csv_first_count(w) is None,
        csv_between_records(w),
{
    CsvSink { writer: csv::Writer::from_writer(Vec::new()) }
}

/// `csv::Writer::write_record`, on a writer with no record half written,
/// given the first record or one with as many fields as the first. Stated of
/// it: it succeeds, the writer's output grows by the record's bytes, the
/// first record's field count is kept (or set), and no record is left half
/// written.
#[verifier::external_body]
fn write_csv_record(w: &mut CsvSink, record: &Vec<String>) -> (r: Result<(), csv::Error>)
    requires
        csv_between_records(*old(w)),
        csv_first_count(*old(w)) is None || csv_first_count(*old(w)) == Some(record@.len() as nat),
    ensures
        r is Ok,
        csv_output(*final(w)) == csv_output(*old(w)) + csv_record(texts(record@)),
        csv_first_count(*final(w)) == Some(record@.len() as nat),
        csv_between_records(*final(w)),
{
    w.writer.write_record(record)
}

/// `csv::Writer::flush`. Stated of it: into a `Vec` it succeeds, and it does
/// not change what the writer hands back.
#[verifier::external_body]
fn flush_csv(w: &mut CsvSink) -> (r: Result<(), std::io::Error>)
    ensures
        r is Ok,
        csv_output(*final(w)) == csv_output(*old(w)),
        csv_first_count(*final(w)) == csv_first_count(*old(w)),
        csv_between_records(*final(w)) == csv_between_records(*old(w)),
{
    w.writer.flush()
}

/// `csv::Writer::into_inner`, with the error taken out of its
/// `IntoInnerError`. Stated of it: into a `Vec` it succeeds, and hands back
/// the writer's output.
#[verifier::external_body]
fn csv_into_inner(w: CsvSink) -> (r: Result<Vec<u8>, std::io::Error>)
    ensures
        r is Ok,
        r is Ok ==> r.unwrap()@ == csv_output(w),
{
    w.writer.into_inner().map_err(|e| e.into_error())
}

/// The UTF-8 byte order mark, which lets spreadsheet programs read the file
/// as UTF-8.
pub open spec fn utf8_bom() -> Seq<u8> {
    seq![0xEFu8, 0xBBu8, 0xBFu8]
}

/// The header record's fields.
pub open spec fn header_fields() -> Seq<Seq<char>> {
    seq!["序号"@, "文件名"@, "二维码内容"@, "状态"@]
}

/// The fields of the record for a row.
pub open spec fn row_fields(r: RowView) -> Seq<Seq<char>> {
    seq![decimal(r.0), r.1, r.2, r.3]
}

/// The bytes of the records for `rows`, in order.
pub open spec fn rows_bytes(rows: Seq<RowView>) -> Seq<u8>
    decreases rows.len(),
{
    if rows.len() == 0 {
        Seq::empty()
    } else {
        rows_bytes(rows.drop_last()) + csv_record(row_fields(rows.last()))
    }
}

/// The content of the CSV file for `rows`.
pub open spec fn csv_file_bytes(rows: Seq<RowView>) -> Seq<u8> {
    utf8_bom() + csv_record(header_fields()) + rows_bytes(rows)
}

fn header_record() -> (v: Vec<String>)
    ensures
        texts(v@) == header_fields(),
        v@.len() == 4,
{
    let mut v: Vec<String> = Vec::new();
    v.push(String::from_str("序号"));
    v.push(String::from_str("文件名"));
    v.push(String::from_str("二维码内容"));
    v.push(String::from_str("状态"));
    assert(texts(v@) =~= header_fields());
    v
}

fn row_record(r: &ResultRow) -> (v: Vec<String>)
    ensures
        texts(v@) == row_fields(row_view(*r)),
        v@.len() == 4,
{
    let mut v: Vec<String> = Vec::new();
    v.push(decimal_text(r.0 as u64));
    v.push(r.1.clone());
    v.push(r.2.clone());
    v.push(r.3.clone());
    assert(texts(v@) =~= row_fields(row_view(*r)));
    v
}

/// The content of the CSV file for `rows`: the byte order mark, the header
/// record, then one record per row in order.
pub fn csv_with_bom(rows: &Vec<ResultRow>) -> (bytes: Vec<u8>)
    ensures
        bytes@ == csv_file_bytes(rows_view(rows@)),
{
    let mut wtr = new_csv_writer();
    let header = header_record();
    write_csv_record(&mut wtr, &header).unwrap();
    let n = rows.len();
    let mut i: usize = 0;
    while i < n
        invariant
            n == rows@.len(),
            i <= n,
            csv_output(wtr) == csv_record(header_fields()) + rows_bytes(
                rows_view(rows@).take(i as int),
            ),
            csv_first_count(wtr) == Some(4nat),
            csv_between_records(wtr),
        decreases n - i,
    {
        let record = row_record(&rows[i]);
        write_csv_record(&mut wtr, &record).unwrap();
        proof {
            let rv = rows_view(rows@);
            assert(rv.take(i + 1).drop_last() =~= rv.take(i as int));
            assert(rv.take(i + 1).last() == row_view(rows@[i as int]));
        }
        i = i + 1;
    }
    flush_csv(&mut wtr).unwrap();
    let content = csv_into_inner(wtr).unwrap();
    let mut out: Vec<u8> = Vec::new();
    out.push(0xEFu8);
    out.push(0xBBu8);
    out.push(0xBFu8);
    let m = content.len();
    let mut j: usize = 0;
    while j < m
        invariant
            m == content@.len(),
            j <= m,
            out@ == utf8_bom() + content@.take(j as int),
        decreases m - j,
    {
        out.push(content[j]);
        j = j + 1;
        assert(out@ =~= utf8_bom() + content@.take(j as int));
    }
    assert(rows_view(rows@).take(n as int) =~= rows_view(rows@));
    assert(content@.take(m as int) =~= content@);
    out
}

/// The CSV file always starts with the UTF-8 byte order mark, followed by the
/// header record.
pub proof fn law_csv_file_starts_with_bom(rows: Seq<RowView>)
    ensures
        csv_file_bytes(rows).subrange(0, 3) == utf8_bom(),
        csv_file_bytes(rows).subrange(3, 3 + csv_record(header_fields()).len() as int) == csv_record(
            header_fields(),
        ),
{
    assert(csv_file_bytes(rows).subrange(0, 3) =~= utf8_bom());
    assert(csv_file_bytes(rows).subrange(3, 3 + csv_record(header_fields()).len() as int) =~= csv_record(
        header_fields(),
    ));
}

/// The CSV file of no rows is the byte order mark and the header record.
pub proof fn law_csv_file_of_no_rows()
    ensures
        csv_file_bytes(Seq::empty()) == seq![0xEFu8, 0xBBu8, 0xBFu8] + csv_record(
            seq!["序号"@, "文件名"@, "二维码内容"@, "状态"@],
        ),
{
    assert(csv_file_bytes(Seq::empty()) =~= seq![0xEFu8, 0xBBu8, 0xBFu8] + csv_record(
        seq!["序号"@, "文件名"@, "二维码内容"@, "状态"@],
    ));
}

/// One more row adds exactly one record at the end of the file: the row's
/// number, file name, QR content and status, in that order. So the file holds
/// one record per row, in the rows' order, and nothing else after the header.
pub proof fn law_csv_file_grows_by_one_record(rows: Seq<RowView>, r: RowView)
    ensures
        csv_file_bytes(rows.push(r)) == csv_file_bytes(rows) + csv_record(
            seq![decimal(r.0), r.1, r.2, r.3],
        ),
{
    assert(rows.push(r).drop_last() =~= rows);
    assert(csv_file_bytes(rows.push(r)) =~= csv_file_bytes(rows) + csv_record(
        seq![decimal(r.0), r.1, r.2, r.3],
    ));
}

} // verus!
