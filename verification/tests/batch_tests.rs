use invoice_qr::batch::{
    batch_closing_lines, completion_log_lines, display_name_from, csv_failure_log_line,
    file_display_name, process_pdfs, processing_log_line, result_row,
};
use invoice_qr::csv_out::csv_with_bom;
use invoice_qr::extract::{extract_qr_from_pdf, page_result, PageOutcome, PdfOutcome, QrResult};

fn qr(page: u32, data: &str, error: &str) -> QrResult {
    QrResult { page, data: data.to_string(), error: error.to_string() }
}

fn triple(r: &QrResult) -> (u32, &str, &str) {
    (r.page, r.data.as_str(), r.error.as_str())
}

#[test]
fn unopened_pdf_gives_one_record() {
    let rs = extract_qr_from_pdf(&PdfOutcome::OpenFailed("找不到文件".to_string()));
    assert_eq!(rs.len(), 1);
    assert_eq!(triple(&rs[0]), (1, "", "无法打开PDF: 找不到文件"));
    let rs = extract_qr_from_pdf(&PdfOutcome::PageCountFailed("bad".to_string()));
    assert_eq!(rs.len(), 1);
    assert_eq!(triple(&rs[0]), (1, "", "获取PDF页数失败: bad"));
}

#[test]
fn pages_are_numbered_from_one() {
    let outcome = PdfOutcome::Pages(vec![
        PageOutcome::Decoded("01,10,3100".to_string()),
        PageOutcome::NoQrCode,
        PageOutcome::RenderFailed("E1".to_string()),
        PageOutcome::PageUnavailable("E2".to_string()),
    ]);
    let rs = extract_qr_from_pdf(&outcome);
    assert_eq!(rs.len(), 4);
    assert_eq!(triple(&rs[0]), (1, "01,10,3100", ""));
    assert_eq!(triple(&rs[1]), (2, "", "未识别到二维码"));
    assert_eq!(triple(&rs[2]), (3, "", "渲染第3页失败: E1"));
    assert_eq!(triple(&rs[3]), (4, "", "获取第4页失败: E2"));
    assert!(extract_qr_from_pdf(&PdfOutcome::Pages(Vec::new())).is_empty());
}

#[test]
fn page_result_of_a_late_page() {
    let r = page_result(12, &PageOutcome::RenderFailed("x".to_string()));
    assert_eq!(triple(&r), (12, "", "渲染第12页失败: x"));
}

#[test]
fn display_name_is_the_final_component() {
    assert_eq!(file_display_name(&"invoices/a.pdf".to_string()), "a.pdf");
    assert_eq!(file_display_name(&"a.pdf".to_string()), "a.pdf");
    assert_eq!(file_display_name(&"/tmp/发票/b.pdf".to_string()), "b.pdf");
    assert_eq!(file_display_name(&"".to_string()), "");
    assert_eq!(file_display_name(&"dir/..".to_string()), "dir/..");
}

#[test]
fn first_content_wins() {
    let name = "a.pdf".to_string();
    let (row, ok) = result_row(0, &name, &vec![qr(1, "", "未识别到二维码"), qr(2, "QR2", ""), qr(3, "QR3", "")]);
    assert!(ok);
    assert_eq!(row, (1, "a.pdf".to_string(), "QR2".to_string(), "成功".to_string()));
}

#[test]
fn failures_take_the_first_error() {
    let name = "b.pdf".to_string();
    let (row, ok) = result_row(4, &name, &vec![qr(1, "", "渲染第1页失败: x"), qr(2, "", "未识别到二维码")]);
    assert!(!ok);
    assert_eq!(row, (5, "b.pdf".to_string(), String::new(), "渲染第1页失败: x".to_string()));
    let (row, ok) = result_row(1, &name, &vec![qr(1, "", "")]);
    assert!(!ok);
    assert_eq!(row.3, "识别失败");
    let (row, ok) = result_row(1, &name, &Vec::new());
    assert!(!ok);
    assert_eq!(row.3, "无返回结果");
}

#[test]
fn batch_rows_follow_the_list() {
    let paths = vec!["x/1.pdf".to_string(), "x/2.pdf".to_string(), "x/3.pdf".to_string()];
    let results = vec![
        vec![qr(1, "A", "")],
        vec![qr(1, "", "未识别到二维码")],
        vec![qr(1, "", ""), qr(2, "C", "")],
    ];
    let (count, rows) = process_pdfs(&paths, &results);
    assert_eq!(count, 2);
    assert_eq!(rows.len(), 3);
    assert_eq!(rows[0], (1, "1.pdf".to_string(), "A".to_string(), "成功".to_string()));
    assert_eq!(rows[1], (2, "2.pdf".to_string(), String::new(), "未识别到二维码".to_string()));
    assert_eq!(rows[2], (3, "3.pdf".to_string(), "C".to_string(), "成功".to_string()));
    let (count, rows) = process_pdfs(&Vec::new(), &Vec::new());
    assert_eq!((count, rows.len()), (0, 0));
}

#[test]
fn log_lines_of_a_batch() {
    assert_eq!(processing_log_line(0, 3, &"a.pdf".to_string()), "[1/3] 处理: a.pdf");
    let (a, b) = completion_log_lines(3, 2, "C:\\out.csv");
    assert_eq!(a, "\n✅ 完成！共处理 3 个文件，成功识别 2 个");
    assert_eq!(b, "📄 结果已保存: C:\\out.csv");
    assert_eq!(csv_failure_log_line("写入CSV文件失败"), "❌ CSV写入失败: 写入CSV文件失败");
}

#[test]
fn csv_starts_with_bom_and_header() {
    let rows = vec![
        (1usize, "a.pdf".to_string(), "01,10,A".to_string(), "成功".to_string()),
        (2usize, "b \"x\".pdf".to_string(), String::new(), "无返回结果".to_string()),
    ];
    let bytes = csv_with_bom(&rows);
    assert_eq!(&bytes[..3], &[0xEF, 0xBB, 0xBF]);
    let text = String::from_utf8(bytes[3..].to_vec()).unwrap();
    assert_eq!(
        text,
        "序号,文件名,二维码内容,状态\n1,a.pdf,\"01,10,A\",成功\n2,\"b \"\"x\"\".pdf\",,无返回结果\n"
    );
}

#[test]
fn csv_of_no_rows_is_the_header() {
    let bytes = csv_with_bom(&Vec::new());
    assert_eq!(bytes, "\u{feff}序号,文件名,二维码内容,状态\n".as_bytes());
}

#[test]
fn csv_quotes_fields_that_need_it() {
    let rows = vec![
        (1usize, "a.pdf".to_string(), "x,y".to_string(), "成功".to_string()),
        (2usize, "b.pdf".to_string(), String::new(), "识别失败".to_string()),
    ];
    let bytes = csv_with_bom(&rows);
    let mut expected = vec![0xEFu8, 0xBB, 0xBF];
    expected.extend_from_slice(
        "序号,文件名,二维码内容,状态\n1,a.pdf,\"x,y\",成功\n2,b.pdf,,识别失败\n".as_bytes(),
    );
    assert_eq!(bytes, expected);
    let rows = vec![(3usize, "c\r\n.pdf".to_string(), "\"".to_string(), "".to_string())];
    let text = String::from_utf8(csv_with_bom(&rows)[3..].to_vec()).unwrap();
    assert_eq!(text, "序号,文件名,二维码内容,状态\n3,\"c\r\n.pdf\",\"\"\"\",\n");
}

#[test]
fn closing_lines_of_a_batch() {
    assert_eq!(
        batch_closing_lines(0, 0, "out.csv", true),
        vec!["\n✅ 完成！共处理 0 个文件，成功识别 0 个".to_string(), "📄 结果已保存: out.csv".to_string()]
    );
    assert_eq!(
        batch_closing_lines(5, 3, "out.csv", false),
        vec!["❌ CSV写入失败: 写入CSV文件失败".to_string()]
    );
}

#[test]
fn empty_batch_gives_no_rows_and_a_header_only_file() {
    let (count, rows) = process_pdfs(&Vec::new(), &Vec::new());
    assert_eq!((count, rows.len()), (0, 0));
    let mut expected = vec![0xEFu8, 0xBB, 0xBF];
    expected.extend_from_slice("序号,文件名,二维码内容,状态\n".as_bytes());
    assert_eq!(csv_with_bom(&rows), expected);
    assert_eq!(batch_closing_lines(0, count, "out.csv", true).len(), 2);
}

#[test]
fn rows_are_named_by_the_file_name() {
    let paths = vec!["发票/发票001.pdf".to_string(), "发票002.pdf".to_string()];
    let results = vec![vec![qr(1, "01,10,c", "")], vec![qr(1, "", "")]];
    let (count, rows) = process_pdfs(&paths, &results);
    assert_eq!(count, 1);
    assert_eq!(
        rows,
        vec![
            (1, "发票001.pdf".to_string(), "01,10,c".to_string(), "成功".to_string()),
            (2, "发票002.pdf".to_string(), String::new(), "识别失败".to_string()),
        ]
    );
}

#[test]
fn reported_count_matches_success_rows() {
    let paths = vec!["1.pdf".to_string(), "2.pdf".to_string(), "3.pdf".to_string(), "4.pdf".to_string()];
    let results = vec![
        vec![qr(1, "A", "")],
        vec![],
        vec![qr(1, "", "")],
        vec![qr(1, "", "x"), qr(2, "B", "")],
    ];
    let (count, rows) = process_pdfs(&paths, &results);
    assert_eq!(count, rows.iter().filter(|r| r.3 == "成功").count());
    assert_eq!(count, 2);
}

#[test]
fn display_name_falls_back_to_the_path() {
    assert_eq!(display_name_from(&"d/a.pdf".to_string(), Some("a.pdf".to_string())), "a.pdf");
    assert_eq!(display_name_from(&"d/..".to_string(), None), "d/..");
}
