//! The batch over the file list: one result row per PDF, in list order, and
//! the log lines that report on it.
use vstd::prelude::*;
use crate::extract::{QrRecord, QrResult};
use crate::paths::{
    ends_component, is_drive_letter, is_final_component_at, is_final_component_of, is_separator,
    path_file_name,
    plainly_named, starts_with_two_separators,
};
use crate::sorting::texts;
use crate::text::{decimal, decimal_text};

verus! {

/// One row of the result: sequence number (from 1), file name, QR content,
/// status.
pub type ResultRow = (usize, String, String, String);

/// The value of a `ResultRow`.
pub type RowView = (nat, Seq<char>, Seq<char>, Seq<char>);

/// The value of a row.
pub open spec fn row_view(r: ResultRow) -> RowView {
    (r.0 as nat, r.1@, r.2@, r.3@)
}

/// The values of rows.
pub open spec fn rows_view(rows: Seq<ResultRow>) -> Seq<RowView> {
    rows.map_values(|r: ResultRow| row_view(r))
}

/// The values of rows are the rows' values one for one, in order: number,
/// file name, QR content, status.
pub proof fn law_rows_view_is_each_row(rows: Seq<ResultRow>)
    ensures
        rows_view(rows).len() == rows.len(),
        forall|i: int|
            0 <= i < rows.len() ==> #[trigger] rows_view(rows)[i] == (
                rows[i].0 as nat,
                rows[i].1@,
                rows[i].2@,
                rows[i].3@,
            ),
{
}

/// The status of a row whose file gave a QR code.
pub open spec fn status_success() -> Seq<char> {
    "成功"@
}

/// The name under which a file stands in the result: the final normal
/// component of its path, or the whole path where it has none. A plainly
/// named path always has one.
pub open spec fn is_display_name_of(path: Seq<char>, name: Seq<char>) -> bool {
    &&& (is_final_component_of(path, name) || name == path)
    &&& (plainly_named(path) ==> is_final_component_of(path, name))
}

/// A path that ends in `/` and a file name (a name without separators that
/// does not end in `.`), whatever comes before (a drive prefix, folders), is
/// shown under exactly that file name.
pub proof fn law_display_name_is_file_name(dir: Seq<char>, file: Seq<char>, name: Seq<char>)
    requires
        file.len() > 0,
        !file.contains('/'),
        !file.contains('\\'),
        !ends_component(file.last()),
        !starts_with_two_separators(dir + seq!['/'] + file),
        is_display_name_of(dir + seq!['/'] + file, name),
    ensures
        name == file,
{
    let path = dir + seq!['/'] + file;
    let d = dir.len() as int;
    assert(path[d] == '/');
    assert(path.last() == file.last());
    assert(plainly_named(path));
    let i = choose|i: int| #[trigger] is_final_component_at(path, name, i);
    let e = i + name.len();
    if e < path.len() {
        assert(ends_component(path[path.len() - 1]));
    }
    assert(e == path.len());
    if i <= d {
        assert(name[d - i] == path[d]);
        assert(name.contains('/'));
    }
    if i > d + 1 {
        assert(path[i - 1] == file[i - 1 - d - 1]);
        if is_separator(path[i - 1]) {
            assert(file.contains(path[i - 1]));
        }
        assert(i == 2 && is_drive_letter(path[0]));
        if d == 0 {
            assert(path[0] == '/');
        }
        assert(false);
    }
    assert(i == d + 1);
    assert(name =~= file);
}

/// The name under which a file stands, given the final component that
/// `Path::file_name` found in its path: that component, or the whole path
/// where there is none.
pub fn display_name_from(pdf_path: &String, file_name: Option<String>) -> (name: String)
    ensures
        name@ == match file_name {
            Some(n) => n@,
            None => pdf_path@,
        },
{
    match file_name {
        Some(n) => n,
        None => pdf_path.clone(),
    }
}

/// The name under which the file at `pdf_path` stands in the log and the
/// result.
pub fn file_display_name(pdf_path: &String) -> (name: String)
    ensures
        is_display_name_of(pdf_path@, name@),
{
    display_name_from(pdf_path, path_file_name(pdf_path.as_str()))
}

/// Index of the first record, from `from` on, whose QR content is not empty.
pub open spec fn first_with_data(results: Seq<QrRecord>, from: int) -> Option<int>
    decreases results.len() - from,
{
    if from < 0 || from >= results.len() {
        None
    } else if results[from].data.len() > 0 {
        Some(from)
    } else {
        first_with_data(results, from + 1)
    }
}

/// The row for the file at position `idx` of the list, named `name`, whose
/// PDF yielded `results`: the first non-empty QR content, marked a success;
/// else the first record's error (or a generic failure where that is empty);
/// else, where the PDF yielded nothing, a note that there was no result.
pub open spec fn row_for(idx: nat, name: Seq<char>, results: Seq<QrRecord>) -> RowView {
    if results.len() == 0 {
        (idx + 1, name, Seq::empty(), "无返回结果"@)
    } else {
        match first_with_data(results, 0) {
            Some(k) => (idx + 1, name, results[k].data, status_success()),
            None => (idx + 1, name, Seq::empty(), if results[0].error.len() == 0 {
                "识别失败"@
            } else {
                results[0].error
            }),
        }
    }
}

/// Whether the row for such a file counts as a success.
pub open spec fn row_succeeds(results: Seq<QrRecord>) -> bool {
    first_with_data(results, 0) is Some
}

proof fn lemma_first_with_data_bounds(results: Seq<QrRecord>, from: int)
    ensures
        first_with_data(results, from) matches Some(k) ==> from <= k < results.len()
            && results[k].data.len() > 0,
    decreases results.len() - from,
{
    if 0 <= from < results.len() && results[from].data.len() == 0 {
        lemma_first_with_data_bounds(results, from + 1);
    }
}

/// The row for the file at position `idx`, named `name`, whose PDF yielded
/// `qr_results`, and whether it is a success.
pub fn result_row(idx: usize, name: &String, qr_results: &Vec<QrResult>) -> (r: (ResultRow, bool))
    requires
        idx < usize::MAX,
    ensures
        row_view(r.0) == row_for(idx as nat, name@, qr_results@.map_values(|q: QrResult| q@)),
        r.1 == row_succeeds(qr_results@.map_values(|q: QrResult| q@)),
{
    let ghost recs = qr_results@.map_values(|q: QrResult| q@);
    let n = qr_results.len();
    if n == 0 {
        return ((idx + 1, name.clone(), String::new(), String::from_str("无返回结果")), false);
    }
    let mut k: usize = 0;
    while k < n
        invariant
            n == qr_results@.len(),
            idx < usize::MAX,
            recs == qr_results@.map_values(|q: QrResult| q@),
            k <= n,
            first_with_data(recs, 0) == first_with_data(recs, k as int),
        decreases n - k,
    {
        if !qr_results[k].data.as_str().is_empty() {
            assert(recs[k as int].data == qr_results@[k as int].data@);
            return (
                (idx + 1, name.clone(), qr_results[k].data.clone(), String::from_str("成功")),
                true,
            );
        }
        assert(recs[k as int].data.len() == 0);
        k = k + 1;
    }
    assert(first_with_data(recs, 0) is None);
    let status = if qr_results[0].error.as_str().is_empty() {
        String::from_str("识别失败")
    } else {
        qr_results[0].error.clone()
    };
    ((idx + 1, name.clone(), String::new(), status), false)
}


/// The records of each file's PDF.
pub open spec fn records_of(qr_results: Seq<Vec<QrResult>>) -> Seq<Seq<QrRecord>> {
    qr_results.map_values(|v: Vec<QrResult>| v@.map_values(|q: QrResult| q@))
}

/// How many of the files' record lists make a successful row.
pub open spec fn success_count(results: Seq<Seq<QrRecord>>) -> nat
    decreases results.len(),
{
    if results.len() == 0 {
        0
    } else {
        success_count(results.drop_last()) + if row_succeeds(results.last()) {
            1nat
        } else {
            0nat
        }
    }
}

proof fn lemma_success_count_bound(results: Seq<Seq<QrRecord>>)
    ensures
        success_count(results) <= results.len(),
    decreases results.len(),
{
    if results.len() > 0 {
        lemma_success_count_bound(results.drop_last());
    }
}

/// The rows of a batch over `pdf_paths`, whose PDFs yielded `qr_results` (the
/// i-th list for the i-th path), and how many rows are successes. Row i is
/// for path i, numbered i + 1, under the path's display name.
pub fn process_pdfs(pdf_paths: &Vec<String>, qr_results: &Vec<Vec<QrResult>>) -> (r: (
    usize,
    Vec<ResultRow>,
))
    requires
        pdf_paths@.len() == qr_results@.len(),
    ensures
        r.1@.len() == pdf_paths@.len(),
        forall|i: int|
            0 <= i < r.1@.len() ==> {
                &&& is_display_name_of(pdf_paths@[i]@, (#[trigger] r.1@[i]).1@)
                &&& row_view(r.1@[i]) == row_for(
                    i as nat,
                    r.1@[i].1@,
                    records_of(qr_results@)[i],
                )
            },
        r.0 == success_count(records_of(qr_results@)),
{
    let n = pdf_paths.len();
    let mut rows: Vec<ResultRow> = Vec::new();
    let mut success: usize = 0;
    let mut i: usize = 0;
    while i < n
        invariant
            n == pdf_paths@.len(),
            n == qr_results@.len(),
            i <= n,
            rows@.len() == i,
            forall|k: int|
                0 <= k < i ==> {
                    &&& is_display_name_of(pdf_paths@[k]@, (#[trigger] rows@[k]).1@)
                    &&& row_view(rows@[k]) == row_for(
                        k as nat,
                        rows@[k].1@,
                        records_of(qr_results@)[k],
                    )
                },
            success == success_count(records_of(qr_results@).take(i as int)),
            success <= i,
        decreases n - i,
    {
        let name = file_display_name(&pdf_paths[i]);
        let (row, ok) = result_row(i, &name, &qr_results[i]);
        proof {
            let recs = records_of(qr_results@);
            assert(recs.take(i + 1).drop_last() =~= recs.take(i as int));
            assert(recs.take(i + 1).last() == recs[i as int]);
        }
        rows.push(row);
        if ok {
            success = success + 1;
        }
        i = i + 1;
    }
    assert(records_of(qr_results@).take(n as int) =~= records_of(qr_results@));
    (success, rows)
}

/// The log line announcing the file at position `idx` of `total`.
pub open spec fn processing_line(idx: nat, total: nat, name: Seq<char>) -> Seq<char> {
    "["@ + decimal(idx + 1) + "/"@ + decimal(total) + "] 处理: "@ + name
}

/// The log line announcing the file at position `idx` of `total`, named
/// `name`.
pub fn processing_log_line(idx: usize, total: usize, name: &String) -> (line: String)
    requires
        idx < usize::MAX,
    ensures
        line@ == processing_line(idx as nat, total as nat, name@),
{
    let mut line = String::from_str("[");
    line.append(decimal_text((idx + 1) as u64).as_str());
    line.append("/");
    line.append(decimal_text(total as u64).as_str());
    line.append("] 处理: ");
    line.append(name.as_str());
    line
}

/// The two log lines that close a batch whose CSV file was written.
pub open spec fn completion_lines(total: nat, success: nat, csv_path: Seq<char>) -> (
    Seq<char>,
    Seq<char>,
) {
    (
        "\n✅ 完成！共处理 "@ + decimal(total) + " 个文件，成功识别 "@ + decimal(success) + " 个"@,
        "📄 结果已保存: "@ + csv_path,
    )
}

/// The two log lines that close a batch of `total` files, `success` of them
/// read, whose CSV file was written to `csv_path`.
pub fn completion_log_lines(total: usize, success: usize, csv_path: &str) -> (lines: (
    String,
    String,
))
    ensures
        (lines.0@, lines.1@) == completion_lines(total as nat, success as nat, csv_path@),
{
    let mut first = String::from_str("\n✅ 完成！共处理 ");
    first.append(decimal_text(total as u64).as_str());
    first.append(" 个文件，成功识别 ");
    first.append(decimal_text(success as u64).as_str());
    first.append(" 个");
    let mut second = String::from_str("📄 结果已保存: ");
    second.append(csv_path);
    (first, second)
}

/// The log line that closes a batch whose CSV file could not be written.
pub fn csv_failure_log_line(reason: &str) -> (line: String)
    ensures
        line@ == "❌ CSV写入失败: "@ + reason@,
{
    let mut line = String::from_str("❌ CSV写入失败: ");
    line.append(reason);
    line
}

/// The reason the log gives where the CSV file could not be written.
pub open spec fn csv_write_failure() -> Seq<char> {
    "写入CSV文件失败"@
}

/// The log lines that close a batch of `total` files, `success` of them
/// read: where the CSV file was written to `csv_path`, the two completion
/// lines; where it was not, one line that says so.
pub open spec fn closing_lines(total: nat, success: nat, csv_path: Seq<char>, written: bool) -> Seq<
    Seq<char>,
> {
    if written {
        seq![
            completion_lines(total, success, csv_path).0,
            completion_lines(total, success, csv_path).1,
        ]
    } else {
        seq!["❌ CSV写入失败: "@ + csv_write_failure()]
    }
}

/// The log lines that close a batch of `total` files, `success` of them read,
/// given whether its CSV file was `written` to `csv_path`.
pub fn batch_closing_lines(total: usize, success: usize, csv_path: &str, written: bool) -> (lines:
    Vec<String>)
    ensures
        texts(lines@) == closing_lines(total as nat, success as nat, csv_path@, written),
{
    let mut lines: Vec<String> = Vec::new();
    if written {
        let (first, second) = completion_log_lines(total, success, csv_path);
        lines.push(first);
        lines.push(second);
    } else {
        lines.push(csv_failure_log_line("写入CSV文件失败"));
    }
    assert(texts(lines@) =~= closing_lines(total as nat, success as nat, csv_path@, written));
    lines
}

/// A batch whose CSV file could not be written closes with exactly one log
/// line, which starts with `❌ CSV写入失败: `; one whose file was written
/// closes with the two completion lines, the second naming the file.
pub proof fn law_closing_lines(total: nat, success: nat, csv_path: Seq<char>)
    ensures
        closing_lines(total, success, csv_path, false).len() == 1,
        closing_lines(total, success, csv_path, false)[0].subrange(0, "❌ CSV写入失败: "@.len() as int)
            == "❌ CSV写入失败: "@,
        closing_lines(total, success, csv_path, true).len() == 2,
        closing_lines(total, success, csv_path, true)[1] == "📄 结果已保存: "@ + csv_path,
{
    let prefix = "❌ CSV写入失败: "@;
    assert((prefix + csv_write_failure()).subrange(0, prefix.len() as int) =~= prefix);
}

} // verus!
