use invoice_qr::state::{DroppedPath, InvoiceQrApp, PathEntry, UiEvent};

fn strings(v: &[&str]) -> Vec<String> {
    v.iter().map(|s| s.to_string()).collect()
}

fn entry(path: &str, ext: Option<&str>) -> PathEntry {
    PathEntry { path: path.to_string(), extension: ext.map(|e| e.to_string()) }
}

fn app() -> InvoiceQrApp {
    InvoiceQrApp::new(Some("C:\\work".to_string()))
}

const HINTS: &str = "提示：点击\"添加文件\"或\"添加文件夹\"选择PDF发票文件\n提示：也可直接将PDF文件/文件夹拖入窗口\n提示：列表中的文件将按顺序处理\n";

#[test]
fn new_state_is_ready() {
    let a = app();
    assert!(a.file_list.is_empty());
    assert_eq!(a.csv_path, "C:\\work\\二维码提取结果.csv");
    assert_eq!(a.status_text, "就绪");
    assert_eq!(a.logs, HINTS);
    assert!(!a.is_processing && !a.show_results && !a.logs_scroll);
    assert!(a.show_error_dialog.is_none());
    let b = InvoiceQrApp::new(None);
    assert_eq!(b.csv_path, ".\\二维码提取结果.csv");
}

#[test]
fn add_files_skips_listed_ones() {
    let mut a = app();
    a.add_files(strings(&["a.pdf", "b.pdf", "a.pdf"]));
    assert_eq!(a.file_list, strings(&["a.pdf", "b.pdf"]));
    assert_eq!(a.status_text, "共 2 个文件");
    a.add_files(strings(&["c.pdf", "b.pdf"]));
    assert_eq!(a.file_list, strings(&["a.pdf", "b.pdf", "c.pdf"]));
    assert_eq!(a.status_text, "共 3 个文件");
    assert_eq!(a.logs, HINTS);
}

#[test]
fn folder_adds_its_pdfs_sorted() {
    let mut a = app();
    a.add_files(strings(&["d/b.pdf"]));
    let entries = vec![
        entry("d/c.PDF", Some("PDF")),
        entry("d/notes.txt", Some("txt")),
        entry("d/b.pdf", Some("pdf")),
        entry("d/a.Pdf", Some("Pdf")),
        entry("d/README", None),
    ];
    a.add_folder_inner(&entries);
    assert_eq!(a.file_list, strings(&["d/b.pdf", "d/a.Pdf", "d/c.PDF"]));
    assert_eq!(a.logs, format!("{}从文件夹添加了 2 个PDF文件\n", HINTS));
    assert_eq!(a.status_text, "共 3 个文件");
    assert!(a.logs_scroll);
}

#[test]
fn folder_without_new_pdfs_changes_nothing() {
    let mut a = app();
    a.add_folder_inner(&vec![entry("d/x.doc", Some("doc"))]);
    a.add_folder_inner(&Vec::new());
    assert!(a.file_list.is_empty());
    assert_eq!(a.status_text, "就绪");
    assert_eq!(a.logs, HINTS);
    assert!(!a.logs_scroll);
}

#[test]
fn drop_adds_folders_and_pdf_files() {
    let mut a = app();
    a.add_files(strings(&["z.pdf"]));
    let drop = vec![
        DroppedPath::File(entry("y.PDF", Some("PDF"))),
        DroppedPath::Folder(vec![entry("f/2.pdf", Some("pdf")), entry("f/1.pdf", Some("pdf"))]),
        DroppedPath::File(entry("z.pdf", Some("pdf"))),
        DroppedPath::File(entry("w.png", Some("png"))),
        DroppedPath::Other,
    ];
    a.handle_drop(&drop);
    assert_eq!(a.file_list, strings(&["z.pdf", "y.PDF", "f/1.pdf", "f/2.pdf"]));
    assert_eq!(
        a.logs,
        format!("{}从文件夹添加了 2 个PDF文件\n拖入添加了 3 个文件\n", HINTS)
    );
    assert_eq!(a.status_text, "共 4 个文件");
}

#[test]
fn empty_drop_changes_nothing() {
    let mut a = app();
    a.handle_drop(&Vec::new());
    a.handle_drop(&vec![DroppedPath::Other, DroppedPath::File(entry("x", None))]);
    assert!(a.file_list.is_empty());
    assert_eq!(a.logs, HINTS);
    assert_eq!(a.status_text, "就绪");
}

#[test]
fn remove_selected_ignores_repeats_and_strays() {
    let mut a = app();
    a.add_files(strings(&["a", "b", "c", "d"]));
    a.remove_selected(&vec![0, 2, 2, 9]);
    assert_eq!(a.file_list, strings(&["b", "d"]));
    assert_eq!(a.status_text, "共 2 个文件");
    a.remove_selected(&vec![]);
    assert_eq!(a.file_list, strings(&["b", "d"]));
}

#[test]
fn moves_swap_neighbours() {
    let mut a = app();
    a.add_files(strings(&["a", "b", "c"]));
    a.move_up(2);
    assert_eq!(a.file_list, strings(&["a", "c", "b"]));
    a.move_down(1);
    assert_eq!(a.file_list, strings(&["a", "b", "c"]));
    a.move_up(0);
    a.move_down(2);
    a.move_up(3);
    a.move_down(usize::MAX);
    assert_eq!(a.file_list, strings(&["a", "b", "c"]));
    assert_eq!(a.status_text, "共 3 个文件");
}

#[test]
fn clear_list_logs_it() {
    let mut a = app();
    a.add_files(strings(&["a", "b"]));
    a.clear_list();
    assert!(a.file_list.is_empty());
    assert_eq!(a.status_text, "共 0 个文件");
    assert_eq!(a.logs, format!("{}已清空文件列表\n", HINTS));
}

#[test]
fn start_needs_files() {
    let mut a = app();
    assert!(a.start_extract().is_none());
    assert_eq!(a.show_error_dialog.as_deref(), Some("请先添加PDF文件"));
    assert!(!a.is_processing);
    assert_eq!(a.logs, HINTS);
}

#[test]
fn start_needs_a_csv_path() {
    let mut a = app();
    a.add_files(strings(&["a.pdf"]));
    a.csv_path = " \t ".to_string();
    assert!(a.start_extract().is_none());
    assert_eq!(a.show_error_dialog.as_deref(), Some("请选择CSV输出路径"));
    assert!(!a.is_processing);
}

#[test]
fn start_logs_and_hands_out_the_job() {
    let mut a = app();
    a.add_files(strings(&["a.pdf", "b.pdf"]));
    let job = a.start_extract().unwrap();
    assert_eq!(job.files, strings(&["a.pdf", "b.pdf"]));
    assert_eq!(job.csv_out, "C:\\work\\二维码提取结果.csv");
    assert!(a.is_processing);
    assert_eq!((a.progress_current, a.progress_total), (0, 2));
    assert_eq!(a.status_text, "正在处理...");
    assert_eq!(
        a.logs,
        format!(
            "{}\n\n{}\n开始处理 2 个文件...\n输出路径: C:\\work\\二维码提取结果.csv\n",
            HINTS,
            "=".repeat(50)
        )
    );
}

#[test]
fn events_update_progress_and_log() {
    let mut a = app();
    a.add_files(strings(&["a.pdf", "b.pdf"]));
    a.start_extract().unwrap();
    let before = a.logs.clone();
    let done = a.process_events(vec![
        UiEvent::Progress(1, 2),
        UiEvent::Log("[1/2] 处理: a.pdf".to_string()),
        UiEvent::Log("[2/2] 处理: b.pdf".to_string()),
        UiEvent::Progress(2, 2),
    ]);
    assert!(!done);
    assert!(a.is_processing);
    assert_eq!((a.progress_current, a.progress_total), (2, 2));
    assert_eq!(a.status_text, "正在处理 2/2");
    assert_eq!(a.logs, format!("{}[1/2] 处理: a.pdf\n[2/2] 处理: b.pdf\n", before));
    assert!(!a.process_events(Vec::new()));
    assert_eq!(a.status_text, "正在处理 2/2");
}

#[test]
fn finished_batch_shows_results() {
    let mut a = app();
    a.add_files(strings(&["a.pdf", "b.pdf"]));
    a.start_extract().unwrap();
    let rows = vec![
        (1usize, "a.pdf".to_string(), "QR".to_string(), "成功".to_string()),
        (2usize, "b.pdf".to_string(), String::new(), "未识别到二维码".to_string()),
    ];
    let before = a.logs.clone();
    let done = a.process_events(vec![
        UiEvent::Progress(1, 2),
        UiEvent::Finished(1, "out.csv".to_string(), rows.clone()),
    ]);
    assert!(done);
    assert!(!a.is_processing);
    assert_eq!((a.progress_current, a.progress_total), (2, 2));
    assert_eq!(a.status_text, "完成");
    assert!(a.show_results);
    assert_eq!(a.result_rows, rows);
    assert_eq!(
        a.logs,
        format!("{}\n✅ 处理完成！成功识别 1 个文件\n📄 结果已保存: out.csv\n", before)
    );
    assert_eq!(a.result_counts(), (1, 1));
    assert_eq!(a.results_summary(), "共 2 条 | ✅ 成功 1 | ❌ 失败 1");
}

#[test]
fn failed_batch_shows_the_reason() {
    let mut a = app();
    a.add_files(strings(&["a.pdf"]));
    a.start_extract().unwrap();
    let before = a.logs.clone();
    let done = a.process_events(vec![UiEvent::Error("磁盘已满".to_string())]);
    assert!(done);
    assert!(!a.is_processing);
    assert_eq!(a.status_text, "出错");
    assert_eq!(a.show_error_dialog.as_deref(), Some("磁盘已满"));
    assert_eq!(a.logs, before);
    assert!(!a.show_results);
}

#[test]
fn error_without_reason_closes_like_success() {
    let mut a = app();
    a.add_files(strings(&["a.pdf"]));
    a.start_extract().unwrap();
    let before = a.logs.clone();
    assert!(a.process_events(vec![UiEvent::Error(String::new())]));
    assert_eq!(a.status_text, "完成");
    assert!(a.show_error_dialog.is_none());
    assert_eq!(
        a.logs,
        format!("{}\n✅ 处理完成！成功识别 0 个文件\n📄 结果已保存: \n", before)
    );
}

#[test]
fn summary_of_no_results() {
    let a = app();
    assert_eq!(a.result_counts(), (0, 0));
    assert_eq!(a.results_summary(), "共 0 条 | ✅ 成功 0 | ❌ 失败 0");
}

#[test]
fn removing_only_stray_positions_keeps_the_list() {
    let mut a = app();
    a.add_files(strings(&["a", "b"]));
    a.remove_selected(&vec![2, 7, usize::MAX]);
    assert_eq!(a.file_list, strings(&["a", "b"]));
}

#[test]
fn drops_and_folders_never_duplicate() {
    let mut a = app();
    a.add_files(strings(&["f/1.pdf"]));
    a.handle_drop(&vec![
        DroppedPath::Folder(vec![entry("f/1.pdf", Some("pdf")), entry("f/2.pdf", Some("pdf"))]),
        DroppedPath::File(entry("f/2.pdf", Some("pdf"))),
        DroppedPath::Folder(vec![entry("f/2.pdf", Some("PDF"))]),
    ]);
    assert_eq!(a.file_list, strings(&["f/1.pdf", "f/2.pdf"]));
    assert_eq!(a.logs, format!("{}从文件夹添加了 1 个PDF文件\n拖入添加了 1 个文件\n", HINTS));
}

#[test]
fn entries_carry_the_extension_of_their_path() {
    let ext = |p: &str| PathEntry::from_path(p.to_string()).extension;
    assert_eq!(ext("dir/a.PDF"), Some("PDF".to_string()));
    assert_eq!(ext("a.tar.gz"), Some("gz".to_string()));
    assert_eq!(ext("dir/.hidden"), None);
    assert_eq!(ext("noext"), None);
    assert_eq!(ext("a."), Some(String::new()));
    assert_eq!(PathEntry::from_path("x/b.pdf".to_string()).path, "x/b.pdf");
    assert_eq!(ext("C:\\发票\\x.pdf"), Some("pdf".to_string()));
    assert_eq!(ext("C:/d.v2/file"), None);
    assert_eq!(ext("ab:c.Pdf"), Some("Pdf".to_string()));
}
