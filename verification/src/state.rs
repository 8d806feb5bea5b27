//! The state of the extractor's window: the file list and the operations on
//! it, the log, the progress of a batch, and the events a batch sends back.
use vstd::prelude::*;
use crate::batch::{ResultRow, row_for, row_view, success_count};
use crate::extract::QrRecord;
use crate::sorting::{sort_spec, sort_texts, texts};
use crate::text::{decimal, decimal_text, is_blank, is_blank_chars, repeat_char};
use crate::paths::{
    eq_ignore_ascii_case, extension_fits, is_pdf_extension, lowercases_to_pdf, path_extension,
    text_option, unicode_lowercase,
};

verus! {

/// A path as the file system reported it, with the extension that
/// `Path::extension` found in it.
pub struct PathEntry {
    pub path: String,
    pub extension: Option<String>,
}

impl PathEntry {
    /// The entry for `path`, with the extension that `Path::extension` finds
    /// in it.
    pub fn from_path(path: String) -> (e: PathEntry)
        ensures
            e.path@ == path@,
            extension_fits(path@, text_option(e.extension)),
    {
        let extension = path_extension(path.as_str());
        PathEntry { path, extension }
    }
}

/// A path dropped onto the window, as the file system classifies it.
pub enum DroppedPath {
    /// A directory, with the entries that reading it gave (none where it could
    /// not be read).
    Folder(Vec<PathEntry>),
    /// A regular file.
    File(PathEntry),
    /// Anything else: a path that does not exist, or is neither.
    Other,
}

/// What the batch worker reports to the window.
pub enum UiEvent {
    /// Files done so far, and files in all.
    Progress(usize, usize),
    /// A line for the log.
    Log(String),
    /// The batch is over: files read, the CSV path, the result rows.
    Finished(usize, String, Vec<ResultRow>),
    /// The batch failed; why.
    Error(String),
}

/// The window's state.
pub struct InvoiceQrApp {
    /// The PDF files to process, in processing order.
    pub file_list: Vec<String>,
    /// Where the CSV file goes.
    pub csv_path: String,
    pub is_processing: bool,
    pub progress_current: usize,
    pub progress_total: usize,
    pub status_text: String,
    /// The log, one line after another, each ended by `\n`.
    pub logs: String,
    /// Whether the log view should scroll to its end.
    pub logs_scroll: bool,
    pub show_confirm_clear: bool,
    pub show_confirm_exit: bool,
    pub show_error_dialog: Option<String>,
    pub drag_hover: bool,
    /// The rows of the last finished batch.
    pub result_rows: Vec<ResultRow>,
    pub show_results: bool,
}

/// The status line that reports the length of the file list.
pub open spec fn count_status(n: nat) -> Seq<char> {
    "共 "@ + decimal(n) + " 个文件"@
}

/// The log after `msg` is added as a line.
pub open spec fn with_line(logs: Seq<char>, msg: Seq<char>) -> Seq<char> {
    logs + msg + "\n"@
}

/// The file list's paths.
pub open spec fn paths_of(a: InvoiceQrApp) -> Seq<Seq<char>> {
    texts(a.file_list@)
}

/// Whether `b` agrees with `a` on all but the file list, the status line and
/// the log.
pub open spec fn same_but_list_and_log(a: InvoiceQrApp, b: InvoiceQrApp) -> bool {
    &&& b.csv_path == a.csv_path
    &&& b.is_processing == a.is_processing
    &&& b.progress_current == a.progress_current
    &&& b.progress_total == a.progress_total
    &&& b.show_confirm_clear == a.show_confirm_clear
    &&& b.show_confirm_exit == a.show_confirm_exit
    &&& b.show_error_dialog == a.show_error_dialog
    &&& b.drag_hover == a.drag_hover
    &&& b.result_rows == a.result_rows
    &&& b.show_results == a.show_results
}

/// The hint lines that the log starts with.
pub open spec fn initial_log() -> Seq<char> {
    "提示：点击\"添加文件\"或\"添加文件夹\"选择PDF发票文件\n提示：也可直接将PDF文件/文件夹拖入窗口\n提示：列表中的文件将按顺序处理\n"@
}

/// The CSV path offered at start: the result file's name in the working
/// directory, or in `.` where that is unknown.
pub open spec fn default_csv_path(current_dir: Option<String>) -> Seq<char> {
    let dir = match current_dir {
        Some(d) => d@,
        None => "."@,
    };
    dir + "\\二维码提取结果.csv"@
}

/// `list` with each of `files` appended that is not in it yet, in order.
pub open spec fn add_missing(list: Seq<Seq<char>>, files: Seq<Seq<char>>) -> Seq<Seq<char>>
    decreases files.len(),
{
    if files.len() == 0 {
        list
    } else {
        let l = add_missing(list, files.drop_last());
        if l.contains(files.last()) {
            l
        } else {
            l.push(files.last())
        }
    }
}

/// `list` without the elements at the positions in `selected`.
pub open spec fn without_positions<A>(list: Seq<A>, selected: Seq<usize>) -> Seq<A>
    decreases list.len(),
{
    if list.len() == 0 {
        list
    } else {
        let rest = without_positions(list.drop_last(), selected);
        if selected.contains((list.len() - 1) as usize) {
            rest
        } else {
            rest.push(list.last())
        }
    }
}

/// `list` with the elements at `i` and `j` exchanged.
pub open spec fn swapped<A>(list: Seq<A>, i: int, j: int) -> Seq<A> {
    list.update(i, list[j]).update(j, list[i])
}

/// Whether an entry is a PDF by the folder rule: its extension is `pdf` in
/// any ASCII case.
pub open spec fn is_pdf_entry(e: PathEntry) -> bool {
    e.extension matches Some(x) && eq_ignore_ascii_case(x@, "pdf"@)
}

/// The paths of the PDF entries, in order.
pub open spec fn pdf_paths(entries: Seq<PathEntry>) -> Seq<Seq<char>>
    decreases entries.len(),
{
    if entries.len() == 0 {
        Seq::empty()
    } else {
        let p = pdf_paths(entries.drop_last());
        if is_pdf_entry(entries.last()) {
            p.push(entries.last().path@)
        } else {
            p
        }
    }
}

/// The paths of a folder's PDF entries, sorted.
pub open spec fn folder_pdfs(entries: Seq<PathEntry>) -> Seq<Seq<char>> {
    sort_spec(pdf_paths(entries))
}

/// The candidates that `list` does not hold, in order.
pub open spec fn new_paths(list: Seq<Seq<char>>, cands: Seq<Seq<char>>) -> Seq<Seq<char>>
    decreases cands.len(),
{
    if cands.len() == 0 {
        Seq::empty()
    } else {
        let p = new_paths(list, cands.drop_last());
        if list.contains(cands.last()) {
            p
        } else {
            p.push(cands.last())
        }
    }
}

/// The log line for PDFs added from a folder.
pub open spec fn folder_line(n: nat) -> Seq<char> {
    "从文件夹添加了 "@ + decimal(n) + " 个PDF文件"@
}

/// The log line for files added by a drop.
pub open spec fn drop_line(n: nat) -> Seq<char> {
    "拖入添加了 "@ + decimal(n) + " 个文件"@
}

/// The part of the state that adding paths touches, and how many paths were
/// added.
pub struct ListView {
    pub list: Seq<Seq<char>>,
    pub logs: Seq<char>,
    pub status: Seq<char>,
    pub scroll: bool,
    pub added: nat,
}

/// That part of `a`, with nothing added yet.
pub open spec fn list_view_of(a: InvoiceQrApp) -> ListView {
    ListView { list: paths_of(a), logs: a.logs@, status: a.status_text@, scroll: a.logs_scroll, added: 0 }
}

/// Adding a folder's entries: its PDFs that the list does not hold yet join
/// it in sorted order; where any did, the log says how many and the status
/// line is updated.
pub open spec fn folder_step(s: ListView, entries: Seq<PathEntry>) -> ListView {
    let a = new_paths(s.list, folder_pdfs(entries));
    if a.len() > 0 {
        ListView {
            list: s.list + a,
            logs: with_line(s.logs, folder_line(a.len())),
            status: count_status((s.list + a).len()),
            scroll: true,
            added: s.added + a.len(),
        }
    } else {
        s
    }
}

/// One dropped path: a folder's PDFs are added as by `folder_step`; a file
/// whose extension lower-cases to `pdf` joins the list where it is not in it
/// yet; anything else is ignored.
pub open spec fn drop_step(s: ListView, p: DroppedPath) -> ListView {
    match p {
        DroppedPath::Folder(entries) => folder_step(s, entries@),
        DroppedPath::File(e) => {
            if e.extension matches Some(x) && unicode_lowercase(x@) == "pdf"@ && !s.list.contains(
                e.path@,
            ) {
                ListView { list: s.list.push(e.path@), added: s.added + 1, ..s }
            } else {
                s
            }
        },
        DroppedPath::Other => s,
    }
}

/// The dropped paths, one after another.
pub open spec fn drop_steps(s: ListView, ps: Seq<DroppedPath>) -> ListView
    decreases ps.len(),
{
    if ps.len() == 0 {
        s
    } else {
        drop_step(drop_steps(s, ps.drop_last()), ps.last())
    }
}

/// A whole drop: the paths one after another; then, where any was added, a
/// log line with their number and an updated status line.
pub open spec fn drop_outcome(s: ListView, ps: Seq<DroppedPath>) -> ListView {
    let r = drop_steps(s, ps);
    if r.added > 0 {
        ListView {
            logs: with_line(r.logs, drop_line(r.added)),
            status: count_status(r.list.len()),
            scroll: true,
            ..r
        }
    } else {
        r
    }
}

/// What adding a folder's `entries` does, from `a` to `b`: the list, log,
/// status line and scrolling become those of `folder_step`.
pub open spec fn folder_added(a: InvoiceQrApp, b: InvoiceQrApp, entries: Seq<PathEntry>) -> bool {
    let r = folder_step(list_view_of(a), entries);
    &&& paths_of(b) == r.list
    &&& b.logs@ == r.logs
    &&& b.status_text@ == r.status
    &&& b.logs_scroll == r.scroll
}

/// What a drop of `ps` does, from `a` to `b`: the list, log, status line and
/// scrolling become those of `drop_outcome`.
pub open spec fn drop_added(a: InvoiceQrApp, b: InvoiceQrApp, ps: Seq<DroppedPath>) -> bool {
    let r = drop_outcome(list_view_of(a), ps);
    &&& paths_of(b) == r.list
    &&& b.logs@ == r.logs
    &&& b.status_text@ == r.status
    &&& b.logs_scroll == r.scroll
}

/// The paths and CSV path that a started batch works on.
pub struct ExtractJob {
    pub files: Vec<String>,
    pub csv_out: String,
}

/// The log lines that open a batch of `n` files written to `csv_path`.
pub open spec fn start_lines(n: nat, csv_path: Seq<char>) -> Seq<char> {
    with_line(
        with_line(
            with_line(with_line(Seq::empty(), "\n"@), Seq::new(50, |_i: int| '=')),
            "开始处理 "@ + decimal(n) + " 个文件..."@,
        ),
        "输出路径: "@ + csv_path,
    )
}

/// The last progress report among `es`.
pub open spec fn last_progress(es: Seq<UiEvent>) -> Option<(usize, usize)>
    decreases es.len(),
{
    if es.len() == 0 {
        None
    } else {
        match es.last() {
            UiEvent::Progress(c, t) => Some((c, t)),
            _ => last_progress(es.drop_last()),
        }
    }
}

/// The last report of a finished batch among `es`: files read, CSV path,
/// rows.
pub open spec fn last_finished(es: Seq<UiEvent>) -> Option<(usize, Seq<char>, Seq<ResultRow>)>
    decreases es.len(),
{
    if es.len() == 0 {
        None
    } else {
        match es.last() {
            UiEvent::Finished(n, p, rows) => Some((n, p@, rows@)),
            _ => last_finished(es.drop_last()),
        }
    }
}

/// The last failure report among `es`.
pub open spec fn last_error(es: Seq<UiEvent>) -> Option<Seq<char>>
    decreases es.len(),
{
    if es.len() == 0 {
        None
    } else {
        match es.last() {
            UiEvent::Error(m) => Some(m@),
            _ => last_error(es.drop_last()),
        }
    }
}

/// The log lines among `es`, each ended by `\n`.
pub open spec fn event_log(es: Seq<UiEvent>) -> Seq<char>
    decreases es.len(),
{
    if es.len() == 0 {
        Seq::empty()
    } else {
        match es.last() {
            UiEvent::Log(m) => with_line(event_log(es.drop_last()), m@),
            _ => event_log(es.drop_last()),
        }
    }
}

/// Whether `es` holds a log line.
pub open spec fn has_log(es: Seq<UiEvent>) -> bool {
    exists|i: int| 0 <= i < es.len() && es[i] is Log
}

/// Whether `es` ends the batch: it reports it finished or failed.
pub open spec fn ends_batch(es: Seq<UiEvent>) -> bool {
    last_finished(es) is Some || last_error(es) is Some
}

/// Whether `es` ends the batch in failure: the last failure report carries a
/// non-empty reason.
pub open spec fn fails_batch(es: Seq<UiEvent>) -> bool {
    last_error(es) matches Some(m) && m.len() > 0
}

/// What taking in `es` does to the progress and the status line, from `a`
/// to `b`, where `finished` says whether `es` ended the batch.
pub open spec fn progress_after_events(
    a: InvoiceQrApp,
    b: InvoiceQrApp,
    es: Seq<UiEvent>,
    finished: bool,
) -> bool {
    let p = match last_progress(es) {
        Some(pt) => pt,
        None => (a.progress_current, a.progress_total),
    };
    &&& finished == ends_batch(es)
    &&& b.progress_total == p.1
    &&& b.progress_current == if finished && !fails_batch(es) {
        p.1
    } else {
        p.0
    }
    &&& b.status_text@ == if finished {
        if fails_batch(es) {
            "出错"@
        } else {
            "完成"@
        }
    } else {
        match last_progress(es) {
            Some(pt) => progress_line(pt.0 as nat, pt.1 as nat),
            None => a.status_text@,
        }
    }
}

proof fn lemma_last_progress_is(es: Seq<UiEvent>, k: int)
    requires
        0 <= k < es.len(),
        es[k] is Progress,
        forall|j: int| k < j < es.len() ==> !(#[trigger] es[j] is Progress),
    ensures
        last_progress(es) == Some((es[k]->Progress_0, es[k]->Progress_1)),
    decreases es.len(),
{
    if k < es.len() - 1 {
        assert(!(es[es.len() - 1] is Progress));
        let prev = es.drop_last();
        assert forall|j: int| k < j < prev.len() implies !(#[trigger] prev[j] is Progress) by {
            assert(prev[j] == es[j]);
        }
        lemma_last_progress_is(prev, k);
    }
}

proof fn lemma_no_end_reported(es: Seq<UiEvent>)
    requires
        forall|j: int| 0 <= j < es.len() ==> !(#[trigger] es[j] is Finished) && !(es[j] is Error),
    ensures
        last_finished(es) is None,
        last_error(es) is None,
    decreases es.len(),
{
    if es.len() > 0 {
        let prev = es.drop_last();
        assert(!(es[es.len() - 1] is Finished) && !(es[es.len() - 1] is Error));
        assert forall|j: int| 0 <= j < prev.len() implies !(#[trigger] prev[j] is Finished) && !(
        prev[j] is Error) by {
            assert(prev[j] == es[j]);
        }
        lemma_no_end_reported(prev);
    }
}

/// Events that report progress and do not end the batch leave the progress
/// at the last report `Progress(c, t)`: `c` of `t` files done, and the status
/// line `正在处理 c/t`.
pub proof fn law_progress_shows_last_report(
    a: InvoiceQrApp,
    b: InvoiceQrApp,
    es: Seq<UiEvent>,
    finished: bool,
    k: int,
)
    requires
        progress_after_events(a, b, es, finished),
        0 <= k < es.len(),
        es[k] is Progress,
        forall|j: int| k < j < es.len() ==> !(#[trigger] es[j] is Progress),
        forall|j: int| 0 <= j < es.len() ==> !(#[trigger] es[j] is Finished) && !(es[j] is Error),
    ensures
        !finished,
        b.progress_current == es[k]->Progress_0,
        b.progress_total == es[k]->Progress_1,
        b.status_text@ == "正在处理 "@ + decimal(es[k]->Progress_0 as nat) + "/"@ + decimal(
            es[k]->Progress_1 as nat,
        ),
{
    lemma_last_progress_is(es, k);
    lemma_no_end_reported(es);
}

/// The status line while the batch has done `c` of `t` files.
pub open spec fn progress_line(c: nat, t: nat) -> Seq<char> {
    "正在处理 "@ + decimal(c) + "/"@ + decimal(t)
}

/// The log lines that close a batch that read `n` files and wrote
/// `csv_path`.
pub open spec fn finish_lines(n: nat, csv_path: Seq<char>) -> Seq<char> {
    with_line(
        with_line(Seq::empty(), "\n✅ 处理完成！成功识别 "@ + decimal(n) + " 个文件"@),
        "📄 结果已保存: "@ + csv_path,
    )
}

/// How many rows have the success status.
pub open spec fn success_rows(rows: Seq<ResultRow>) -> nat
    decreases rows.len(),
{
    if rows.len() == 0 {
        0
    } else {
        success_rows(rows.drop_last()) + if rows.last().3@ == "成功"@ {
            1nat
        } else {
            0nat
        }
    }
}


/// The texts of `v` as log lines, one after another.
pub open spec fn log_lines(v: Seq<String>) -> Seq<char>
    decreases v.len(),
{
    if v.len() == 0 {
        Seq::empty()
    } else {
        with_line(log_lines(v.drop_last()), v.last()@)
    }
}

proof fn lemma_log_lines_push(v: Seq<String>, s: String)
    ensures
        log_lines(v.push(s)) == with_line(log_lines(v), s@),
{
    assert(v.push(s).drop_last() =~= v);
}

/// Whether `v` contains a text equal to `s`.
pub fn contains_text(v: &Vec<String>, s: &String) -> (b: bool)
    ensures
        b == texts(v@).contains(s@),
{
    assert(texts(v@).take(v@.len() as int) =~= texts(v@));
    contains_text_before(v, v.len(), s)
}

/// Whether the first `end` texts of `v` contain one equal to `s`.
fn contains_text_before(v: &Vec<String>, end: usize, s: &String) -> (b: bool)
    requires
        end <= v@.len(),
    ensures
        b == texts(v@).take(end as int).contains(s@),
{
    let mut i: usize = 0;
    while i < end
        invariant
            end <= v@.len(),
            i <= end,
            forall|k: int| 0 <= k < i ==> v@[k]@ != s@,
        decreases end - i,
    {
        if v[i] == *s {
            assert(texts(v@).take(end as int)[i as int] == s@);
            return true;
        }
        i = i + 1;
    }
    assert forall|k: int| 0 <= k < end implies texts(v@).take(end as int)[k] != s@ by {
        assert(texts(v@).take(end as int)[k] == v@[k]@);
    }
    false
}

/// Moving a file up and then back down (`move_up(i)`, then `move_down(i - 1)`)
/// restores the list.
pub proof fn law_move_up_then_down_restores<A>(list: Seq<A>, i: int)
    requires
        0 < i < list.len(),
    ensures
        swapped(swapped(list, i - 1, i), i - 1, i) == list,
{
    assert(swapped(swapped(list, i - 1, i), i - 1, i) =~= list);
}

/// Moving a file changes only the order: the list keeps its files, each as
/// often as before.
pub proof fn law_move_keeps_files<A>(list: Seq<A>, i: int, j: int)
    requires
        0 <= i < list.len(),
        0 <= j < list.len(),
    ensures
        swapped(list, i, j).len() == list.len(),
        swapped(list, i, j).to_multiset() == list.to_multiset(),
{
    broadcast use vstd::multiset::group_multiset_axioms;

    let l1 = list.update(i, list[j]);
    vstd::seq_lib::to_multiset_update(list, i, list[j]);
    vstd::seq_lib::to_multiset_update(l1, j, list[i]);
    vstd::seq_lib::to_multiset_contains(list, list[i]);
    vstd::seq_lib::to_multiset_contains(list, list[j]);
    assert(swapped(list, i, j).to_multiset() =~= list.to_multiset());
}

proof fn lemma_add_missing_facts(list: Seq<Seq<char>>, files: Seq<Seq<char>>)
    ensures
        add_missing(list, files).len() >= list.len(),
        add_missing(list, files).take(list.len() as int) == list,
        forall|k: int| 0 <= k < files.len() ==> add_missing(list, files).contains(#[trigger] files[k]),
        list.no_duplicates() ==> add_missing(list, files).no_duplicates(),
    decreases files.len(),
{
    if files.len() > 0 {
        let prev = files.drop_last();
        lemma_add_missing_facts(list, prev);
        let l = add_missing(list, prev);
        let x = files.last();
        if !l.contains(x) {
            assert(l.push(x).take(list.len() as int) =~= l.take(list.len() as int));
        }
        assert forall|k: int| 0 <= k < files.len() implies add_missing(list, files).contains(
            #[trigger] files[k],
        ) by {
            if k < files.len() - 1 {
                assert(prev[k] == files[k]);
                if !l.contains(x) {
                    let w = choose|w: int| 0 <= w < l.len() && l[w] == files[k];
                    assert(l.push(x)[w] == files[k]);
                }
            } else if !l.contains(x) {
                assert(l.push(x)[l.len() as int] == x);
            }
        }
    } else {
        assert(list.take(list.len() as int) =~= list);
    }
}

/// Adding files keeps the files already listed, in front and in order;
/// afterwards every chosen file is listed; and where the list held no
/// duplicate, it holds none afterwards.
pub proof fn law_add_files_keeps_list_unique(list: Seq<Seq<char>>, files: Seq<Seq<char>>)
    ensures
        add_missing(list, files).take(list.len() as int) == list,
        forall|k: int| 0 <= k < files.len() ==> add_missing(list, files).contains(#[trigger] files[k]),
        list.no_duplicates() ==> add_missing(list, files).no_duplicates(),
{
    lemma_add_missing_facts(list, files);
}

proof fn lemma_new_paths_facts(list: Seq<Seq<char>>, cands: Seq<Seq<char>>)
    ensures
        forall|k: int|
            0 <= k < new_paths(list, cands).len() ==> !list.contains(
                #[trigger] new_paths(list, cands)[k],
            ) && cands.contains(new_paths(list, cands)[k]),
        cands.no_duplicates() ==> new_paths(list, cands).no_duplicates(),
    decreases cands.len(),
{
    if cands.len() > 0 {
        let prev = cands.drop_last();
        lemma_new_paths_facts(list, prev);
        let p = new_paths(list, prev);
        let x = cands.last();
        assert forall|k: int| 0 <= k < new_paths(list, cands).len() implies !list.contains(
            #[trigger] new_paths(list, cands)[k],
        ) && cands.contains(new_paths(list, cands)[k]) by {
            if k < p.len() {
                assert(new_paths(list, cands)[k] == p[k]);
                let w = choose|w: int| 0 <= w < prev.len() && prev[w] == p[k];
                assert(cands[w] == p[k]);
            } else {
                assert(cands[cands.len() - 1] == x);
            }
        }
        if cands.no_duplicates() {
            assert(prev.no_duplicates()) by {
                assert forall|i: int, j: int|
                    0 <= i < prev.len() && 0 <= j < prev.len() && i != j implies prev[i] != prev[j] by {
                    assert(prev[i] == cands[i] && prev[j] == cands[j]);
                }
            }
            if !list.contains(x) {
                assert forall|k: int| 0 <= k < p.len() implies p[k] != x by {
                    let w = choose|w: int| 0 <= w < prev.len() && prev[w] == p[k];
                    assert(cands[w] == p[k]);
                    assert(cands[cands.len() - 1] == x);
                }
            }
        }
    }
}

/// Adding a folder's PDFs: where the list held no duplicate and the folder
/// lists each PDF once, the list holds no duplicate afterwards, and what joins
/// it was not in it before.
pub proof fn law_folder_keeps_list_unique(list: Seq<Seq<char>>, entries: Seq<PathEntry>)
    requires
        list.no_duplicates(),
        pdf_paths(entries).no_duplicates(),
    ensures
        (list + new_paths(list, folder_pdfs(entries))).no_duplicates(),
        forall|k: int|
            0 <= k < new_paths(list, folder_pdfs(entries)).len() ==> !list.contains(
                #[trigger] new_paths(list, folder_pdfs(entries))[k],
            ),
{
    let c = pdf_paths(entries);
    crate::sorting::lemma_sort_spec_permutes(c);
    c.lemma_multiset_has_no_duplicates();
    sort_spec(c).lemma_multiset_has_no_duplicates_conv();
    lemma_new_paths_facts(list, sort_spec(c));
    let a = new_paths(list, sort_spec(c));
    let r = list + a;
    assert forall|i: int, j: int| 0 <= i < r.len() && 0 <= j < r.len() && i != j implies r[i]
        != r[j] by {
        if i >= list.len() && j < list.len() {
            assert(r[i] == a[i - list.len()]);
            assert(list[j] == r[j]);
        } else if i < list.len() && j >= list.len() {
            assert(r[j] == a[j - list.len()]);
            assert(list[i] == r[i]);
        } else if i >= list.len() && j >= list.len() {
            assert(r[i] == a[i - list.len()] && r[j] == a[j - list.len()]);
        }
    }
}

proof fn lemma_without_positions_from(list: Seq<Seq<char>>, selected: Seq<usize>)
    ensures
        forall|k: int|
            0 <= k < without_positions(list, selected).len() ==> list.contains(
                #[trigger] without_positions(list, selected)[k],
            ),
        list.no_duplicates() ==> without_positions(list, selected).no_duplicates(),
        without_positions(list, selected).len() <= list.len(),
    decreases list.len(),
{
    if list.len() > 0 {
        let prev = list.drop_last();
        lemma_without_positions_from(prev, selected);
        let rest = without_positions(prev, selected);
        assert forall|k: int| 0 <= k < without_positions(list, selected).len() implies list.contains(
            #[trigger] without_positions(list, selected)[k],
        ) by {
            if k < rest.len() {
                assert(without_positions(list, selected)[k] == rest[k]);
                let w = choose|w: int| 0 <= w < prev.len() && prev[w] == rest[k];
                assert(list[w] == rest[k]);
            } else {
                assert(list[list.len() - 1] == list.last());
            }
        }
        if list.no_duplicates() {
            assert(prev.no_duplicates()) by {
                assert forall|i: int, j: int|
                    0 <= i < prev.len() && 0 <= j < prev.len() && i != j implies prev[i] != prev[j] by {
                    assert(prev[i] == list[i] && prev[j] == list[j]);
                }
            }
            assert forall|k: int| 0 <= k < rest.len() implies rest[k] != list.last() by {
                let w = choose|w: int| 0 <= w < prev.len() && prev[w] == rest[k];
                assert(list[w] == rest[k]);
            }
        }
    }
}

/// Removing files keeps only files that were listed, and where the list held
/// no duplicate it holds none afterwards.
pub proof fn law_remove_keeps_list_unique(list: Seq<Seq<char>>, selected: Seq<usize>)
    ensures
        without_positions(list, selected).len() <= list.len(),
        forall|k: int|
            0 <= k < without_positions(list, selected).len() ==> list.contains(
                #[trigger] without_positions(list, selected)[k],
            ),
        list.no_duplicates() ==> without_positions(list, selected).no_duplicates(),
{
    lemma_without_positions_from(list, selected);
}

/// Removing with no position inside the list leaves the list as it is.
pub proof fn law_remove_nothing_in_range<A>(list: Seq<A>, selected: Seq<usize>)
    requires
        forall|k: int| 0 <= k < selected.len() ==> selected[k] >= list.len(),
    ensures
        without_positions(list, selected) == list,
    decreases list.len(),
{
    if list.len() > 0 {
        law_remove_nothing_in_range(list.drop_last(), selected);
        assert(!selected.contains((list.len() - 1) as usize));
        assert(list.drop_last().push(list.last()) =~= list);
    }
}

/// A drop keeps the list free of duplicates, where it was so before and each
/// dropped folder lists each PDF once.
pub proof fn law_drop_keeps_list_unique(s: ListView, ps: Seq<DroppedPath>)
    requires
        s.list.no_duplicates(),
        forall|i: int|
            0 <= i < ps.len() ==> (#[trigger] ps[i] matches DroppedPath::Folder(entries)
                ==> pdf_paths(entries@).no_duplicates()),
    ensures
        drop_outcome(s, ps).list.no_duplicates(),
    decreases ps.len(),
{
    lemma_drop_steps_unique(s, ps);
}

proof fn lemma_drop_steps_unique(s: ListView, ps: Seq<DroppedPath>)
    requires
        s.list.no_duplicates(),
        forall|i: int|
            0 <= i < ps.len() ==> (#[trigger] ps[i] matches DroppedPath::Folder(entries)
                ==> pdf_paths(entries@).no_duplicates()),
    ensures
        drop_steps(s, ps).list.no_duplicates(),
    decreases ps.len(),
{
    if ps.len() > 0 {
        let prev = ps.drop_last();
        assert forall|i: int| 0 <= i < prev.len() implies (#[trigger] prev[i] matches DroppedPath::Folder(
            entries,
        ) ==> pdf_paths(entries@).no_duplicates()) by {
            assert(prev[i] == ps[i]);
        }
        lemma_drop_steps_unique(s, prev);
        let r = drop_steps(s, prev);
        assert(ps[ps.len() - 1] == ps.last());
        match ps.last() {
            DroppedPath::Folder(entries) => {
                law_folder_keeps_list_unique(r.list, entries@);
            },
            DroppedPath::File(e) => {
                if !r.list.contains(e.path@) {
                    let l = r.list.push(e.path@);
                    assert forall|i: int, j: int|
                        0 <= i < l.len() && 0 <= j < l.len() && i != j implies l[i] != l[j] by {
                        if i < r.list.len() && j < r.list.len() {
                            assert(l[i] == r.list[i] && l[j] == r.list[j]);
                        } else if i < r.list.len() {
                            assert(l[i] == r.list[i]);
                        } else if j < r.list.len() {
                            assert(l[j] == r.list[j]);
                        }
                    }
                }
            },
            DroppedPath::Other => {},
        }
    }
}


/// The number of files that the log reports as read equals the number of rows
/// that the result table counts as successes (for rows made by `row_for`,
/// where no PDF's first error text is the success status itself).
pub proof fn law_reported_successes_match_table(rows: Seq<ResultRow>, recs: Seq<Seq<QrRecord>>)
    requires
        rows.len() == recs.len(),
        forall|i: int|
            0 <= i < rows.len() ==> row_view(#[trigger] rows[i]) == row_for(
                i as nat,
                rows[i].1@,
                recs[i],
            ),
        forall|i: int| 0 <= i < recs.len() && (#[trigger] recs[i]).len() > 0 ==> recs[i][0].error != "成功"@,
    ensures
        success_rows(rows) == success_count(recs),
    decreases rows.len(),
{
    if rows.len() > 0 {
        let rp = rows.drop_last();
        let cp = recs.drop_last();
        assert forall|i: int| 0 <= i < rp.len() implies row_view(#[trigger] rp[i]) == row_for(
            i as nat,
            rp[i].1@,
            cp[i],
        ) by {
            assert(rp[i] == rows[i] && cp[i] == recs[i]);
        }
        assert forall|i: int| 0 <= i < cp.len() && (#[trigger] cp[i]).len() > 0 implies cp[i][0].error
            != "成功"@ by {
            assert(cp[i] == recs[i]);
        }
        law_reported_successes_match_table(rp, cp);
        let k = rows.len() - 1;
        assert(rows[k] == rows.last() && recs[k] == recs.last());
        reveal_strlit("成功");
        reveal_strlit("无返回结果");
        reveal_strlit("识别失败");
        assert(row_view(rows.last()).3 == rows.last().3@);
    }
}


proof fn lemma_drop_steps_grow(s: ListView, ps: Seq<DroppedPath>)
    ensures
        drop_steps(s, ps).list.len() >= s.list.len(),
        drop_steps(s, ps).list.take(s.list.len() as int) == s.list,
        drop_steps(s, ps).added == s.added + drop_steps(s, ps).list.len() - s.list.len(),
    decreases ps.len(),
{
    if ps.len() == 0 {
        assert(s.list.take(s.list.len() as int) =~= s.list);
    } else {
        lemma_drop_steps_grow(s, ps.drop_last());
        let r = drop_steps(s, ps.drop_last());
        let n = s.list.len() as int;
        match ps.last() {
            DroppedPath::Folder(entries) => {
                let a = new_paths(r.list, folder_pdfs(entries@));
                assert((r.list + a).take(n) =~= r.list.take(n));
            },
            DroppedPath::File(e) => {
                assert(r.list.push(e.path@).take(n) =~= r.list.take(n));
            },
            DroppedPath::Other => {},
        }
    }
}

/// A drop never takes a file off the list or moves one: the files listed
/// before stay in front, in their order, and the number it reports is the
/// number of files that joined.
pub proof fn law_drop_keeps_listed_files(s: ListView, ps: Seq<DroppedPath>)
    requires
        s.added == 0,
    ensures
        drop_outcome(s, ps).list.take(s.list.len() as int) == s.list,
        drop_outcome(s, ps).added == drop_outcome(s, ps).list.len() - s.list.len(),
{
    lemma_drop_steps_grow(s, ps);
}

impl InvoiceQrApp {
    /// The state at start, given the working directory (none where it could
    /// not be read): an empty list, the hint lines in the log, the result file
    /// in the working directory.
    pub fn new(current_dir: Option<String>) -> (app: Self)
        ensures
            app.file_list@.len() == 0,
            app.csv_path@ == default_csv_path(current_dir),
            !app.is_processing,
            app.progress_current == 0,
            app.progress_total == 0,
            app.status_text@ == "就绪"@,
            app.logs@ == initial_log(),
            !app.logs_scroll,
            !app.show_confirm_clear,
            !app.show_confirm_exit,
            app.show_error_dialog is None,
            !app.drag_hover,
            app.result_rows@.len() == 0,
            !app.show_results,
    {
        let mut csv_path = match &current_dir {
            Some(d) => d.clone(),
            None => String::from_str("."),
        };
        csv_path.append("\\二维码提取结果.csv");
        InvoiceQrApp {
            file_list: Vec::new(),
            csv_path,
            is_processing: false,
            progress_current: 0,
            progress_total: 0,
            status_text: String::from_str("就绪"),
            logs: String::from_str(
                "提示：点击\"添加文件\"或\"添加文件夹\"选择PDF发票文件\n提示：也可直接将PDF文件/文件夹拖入窗口\n提示：列表中的文件将按顺序处理\n",
            ),
            logs_scroll: false,
            show_confirm_clear: false,
            show_confirm_exit: false,
            show_error_dialog: None,
            drag_hover: false,
            result_rows: Vec::new(),
            show_results: false,
        }
    }

    /// Sets the status line to the length of the file list.
    pub fn update_status(&mut self)
        ensures
            final(self).status_text@ == count_status(old(self).file_list@.len()),
            final(self).file_list == old(self).file_list,
            final(self).logs == old(self).logs,
            final(self).logs_scroll == old(self).logs_scroll,
            same_but_list_and_log(*old(self), *final(self)),
    {
        let mut s = String::from_str("共 ");
        s.append(decimal_text(self.file_list.len() as u64).as_str());
        s.append(" 个文件");
        self.status_text = s;
    }

    /// Adds `msg` to the log as a line, and asks the log view to scroll.
    pub fn add_log(&mut self, msg: &str)
        ensures
            final(self).logs@ == with_line(old(self).logs@, msg@),
            final(self).logs_scroll,
            final(self).file_list == old(self).file_list,
            final(self).status_text == old(self).status_text,
            same_but_list_and_log(*old(self), *final(self)),
    {
        self.logs.append(msg);
        self.logs.append("\n");
        self.logs_scroll = true;
    }

    /// Adds the chosen files that are not in the list yet, in order, and
    /// updates the status line.
    pub fn add_files(&mut self, files: Vec<String>)
        ensures
            paths_of(*final(self)) == add_missing(paths_of(*old(self)), texts(files@)),
            final(self).status_text@ == count_status(final(self).file_list@.len()),
            final(self).logs == old(self).logs,
            final(self).logs_scroll == old(self).logs_scroll,
            same_but_list_and_log(*old(self), *final(self)),
    {
        let n = files.len();
        let mut i: usize = 0;
        let ghost start = *self;
        while i < n
            invariant
                n == files@.len(),
                i <= n,
                paths_of(*self) == add_missing(paths_of(start), texts(files@).take(i as int)),
                self.logs == start.logs,
                self.logs_scroll == start.logs_scroll,
                same_but_list_and_log(start, *self),
            decreases n - i,
        {
            let f = files[i].clone();
            proof {
                assert(texts(files@).take(i + 1).drop_last() =~= texts(files@).take(i as int));
                assert(texts(files@).take(i + 1).last() == f@);
            }
            if !contains_text(&self.file_list, &f) {
                let ghost before = self.file_list@;
                self.file_list.push(f);
                assert(texts(self.file_list@) =~= texts(before).push(files@[i as int]@));
            }
            i = i + 1;
        }
        assert(texts(files@).take(n as int) =~= texts(files@));
        self.update_status();
    }

    /// Removes the files at the positions in `selected` (positions past the
    /// end are ignored, repeated ones count once), and updates the status
    /// line.
    pub fn remove_selected(&mut self, selected: &Vec<usize>)
        ensures
            final(self).file_list@ == without_positions(old(self).file_list@, selected@),
            final(self).status_text@ == count_status(final(self).file_list@.len()),
            final(self).logs == old(self).logs,
            final(self).logs_scroll == old(self).logs_scroll,
            same_but_list_and_log(*old(self), *final(self)),
    {
        let ghost start = *self;
        let n = self.file_list.len();
        let mut kept: Vec<String> = Vec::new();
        let mut i: usize = 0;
        while i < n
            invariant
                n == self.file_list@.len(),
                *self == start,
                i <= n,
                kept@ == without_positions(self.file_list@.take(i as int), selected@),
            decreases n - i,
        {
            let mut chosen = false;
            let mut k: usize = 0;
            while k < selected.len()
                invariant
                    i < n,
                    k <= selected@.len(),
                    chosen == selected@.take(k as int).contains(i),
                decreases selected@.len() - k,
            {
                if selected[k] == i {
                    chosen = true;
                }
                proof {
                    assert(selected@.take(k + 1) =~= selected@.take(k as int).push(selected@[k as int]));
                    vstd::seq_lib::lemma_seq_contains_after_push(selected@.take(k as int), selected@[k as int], i);
                }
                k = k + 1;
            }
            assert(selected@.take(selected@.len() as int) =~= selected@);
            proof {
                assert(self.file_list@.take(i + 1).drop_last() =~= self.file_list@.take(i as int));
            }
            if !chosen {
                kept.push(self.file_list[i].clone());
            }
            i = i + 1;
        }
        assert(self.file_list@.take(n as int) =~= self.file_list@);
        self.file_list = kept;
        self.update_status();
    }

    /// Moves the file at `index` one place up, where there is a place above
    /// it; leaves the list as it is otherwise.
    pub fn move_up(&mut self, index: usize)
        ensures
            0 < index < old(self).file_list@.len() ==> final(self).file_list@ == swapped(
                old(self).file_list@,
                index - 1,
                index as int,
            ),
            !(0 < index < old(self).file_list@.len()) ==> final(self).file_list
                == old(self).file_list,
            final(self).status_text == old(self).status_text,
            final(self).logs == old(self).logs,
            final(self).logs_scroll == old(self).logs_scroll,
            same_but_list_and_log(*old(self), *final(self)),
    {
        if index > 0 && index < self.file_list.len() {
            let ghost before = self.file_list@;
            let moved = self.file_list.remove(index);
            self.file_list.insert(index - 1, moved);
            assert(self.file_list@ =~= swapped(before, index - 1, index as int));
        }
    }

    /// Moves the file at `index` one place down, where there is a place
    /// below it; leaves the list as it is otherwise.
    pub fn move_down(&mut self, index: usize)
        ensures
            index + 1 < old(self).file_list@.len() ==> final(self).file_list@ == swapped(
                old(self).file_list@,
                index as int,
                index + 1,
            ),
            !(index + 1 < old(self).file_list@.len()) ==> final(self).file_list
                == old(self).file_list,
            final(self).status_text == old(self).status_text,
            final(self).logs == old(self).logs,
            final(self).logs_scroll == old(self).logs_scroll,
            same_but_list_and_log(*old(self), *final(self)),
    {
        if index < self.file_list.len() && index + 1 < self.file_list.len() {
            let ghost before = self.file_list@;
            let moved = self.file_list.remove(index);
            self.file_list.insert(index + 1, moved);
            assert(self.file_list@ =~= swapped(before, index as int, index + 1));
        }
    }

    /// Empties the file list, updates the status line, and logs it.
    pub fn clear_list(&mut self)
        ensures
            final(self).file_list@.len() == 0,
            final(self).status_text@ == count_status(0),
            final(self).logs@ == with_line(old(self).logs@, "已清空文件列表"@),
            final(self).logs_scroll,
            same_but_list_and_log(*old(self), *final(self)),
    {
        self.file_list.clear();
        self.update_status();
        self.add_log("已清空文件列表");
    }

    /// Adds the PDF entries of a folder (`entries`, as reading the folder
    /// gave them): sorted, and only those the list does not hold yet. Where
    /// any were added, logs their number and updates the status line.
    pub fn add_folder_inner(&mut self, entries: &Vec<PathEntry>)
        ensures
            folder_added(*old(self), *final(self), entries@),
            ({
                let r = folder_step(list_view_of(*old(self)), entries@);
                &&& paths_of(*final(self)) == r.list
                &&& final(self).logs@ == r.logs
                &&& final(self).status_text@ == r.status
                &&& final(self).logs_scroll == r.scroll
            }),
            same_but_list_and_log(*old(self), *final(self)),
    {
        let ghost start = *self;
        let mut found: Vec<String> = Vec::new();
        let n = entries.len();
        let mut i: usize = 0;
        while i < n
            invariant
                n == entries@.len(),
                i <= n,
                texts(found@) == pdf_paths(entries@.take(i as int)),
            decreases n - i,
        {
            proof {
                assert(entries@.take(i + 1).drop_last() =~= entries@.take(i as int));
            }
            let is_pdf = match &entries[i].extension {
                Some(ext) => is_pdf_extension(ext.as_str()),
                None => false,
            };
            if is_pdf {
                let ghost before = found@;
                found.push(entries[i].path.clone());
                assert(texts(found@) =~= texts(before).push(entries@[i as int].path@));
            }
            i = i + 1;
        }
        assert(entries@.take(n as int) =~= entries@);
        let pdfs = sort_texts(found);
        let old_len = self.file_list.len();
        let m = pdfs.len();
        let mut added: usize = 0;
        let mut j: usize = 0;
        while j < m
            invariant
                m == pdfs@.len(),
                j <= m,
                old_len == paths_of(start).len(),
                paths_of(*self) == paths_of(start) + new_paths(
                    paths_of(start),
                    texts(pdfs@).take(j as int),
                ),
                added == self.file_list@.len() - old_len,
                self.file_list@.len() >= old_len,
                self.logs == start.logs,
                self.status_text == start.status_text,
                self.logs_scroll == start.logs_scroll,
                same_but_list_and_log(start, *self),
            decreases m - j,
        {
            proof {
                assert(texts(pdfs@).take(j + 1).drop_last() =~= texts(pdfs@).take(j as int));
                assert(texts(self.file_list@).take(old_len as int) =~= paths_of(start));
            }
            if !contains_text_before(&self.file_list, old_len, &pdfs[j]) {
                let ghost before = self.file_list@;
                self.file_list.push(pdfs[j].clone());
                assert(texts(self.file_list@) =~= texts(before).push(pdfs@[j as int]@));
                added = self.file_list.len() - old_len;
            }
            j = j + 1;
        }
        assert(texts(pdfs@).take(m as int) =~= texts(pdfs@));
        if added > 0 {
            let mut line = String::from_str("从文件夹添加了 ");
            line.append(decimal_text(added as u64).as_str());
            line.append(" 个PDF文件");
            self.add_log(line.as_str());
            self.update_status();
        }
    }

    /// Adds what was dropped onto the window: the PDFs of dropped folders as
    /// `add_folder_inner` does, and dropped files whose extension lower-cases
    /// to `pdf` where the list does not hold them yet. Where anything was
    /// added, logs the number and updates the status line.
    pub fn handle_drop(&mut self, paths: &Vec<DroppedPath>)
        ensures
            drop_added(*old(self), *final(self), paths@),
            ({
                let r = drop_outcome(list_view_of(*old(self)), paths@);
                &&& paths_of(*final(self)) == r.list
                &&& final(self).logs@ == r.logs
                &&& final(self).status_text@ == r.status
                &&& final(self).logs_scroll == r.scroll
            }),
            same_but_list_and_log(*old(self), *final(self)),
    {
        let ghost start = *self;
        let start_len = self.file_list.len();
        let mut added: usize = 0;
        let n = paths.len();
        let mut i: usize = 0;
        while i < n
            invariant
                n == paths@.len(),
                i <= n,
                start_len == start.file_list@.len(),
                ({
                    let r = drop_steps(list_view_of(start), paths@.take(i as int));
                    &&& paths_of(*self) == r.list
                    &&& self.logs@ == r.logs
                    &&& self.status_text@ == r.status
                    &&& self.logs_scroll == r.scroll
                    &&& added == r.added
                }),
                self.file_list@.len() >= start_len,
                added == self.file_list@.len() - start_len,
                same_but_list_and_log(start, *self),
            decreases n - i,
        {
            proof {
                assert(paths@.take(i + 1).drop_last() =~= paths@.take(i as int));
            }
            match &paths[i] {
                DroppedPath::Folder(entries) => {
                    let old_len = self.file_list.len();
                    self.add_folder_inner(entries);
                    if self.file_list.len() > old_len {
                        added = added + (self.file_list.len() - old_len);
                    }
                },
                DroppedPath::File(e) => {
                    let is_pdf = match &e.extension {
                        Some(ext) => lowercases_to_pdf(ext.as_str()),
                        None => false,
                    };
                    if is_pdf && !contains_text(&self.file_list, &e.path) {
                        let ghost before = self.file_list@;
                        self.file_list.push(e.path.clone());
                        assert(texts(self.file_list@) =~= texts(before).push(e.path@));
                        added = self.file_list.len() - start_len;
                    }
                },
                DroppedPath::Other => {},
            }
            i = i + 1;
        }
        assert(paths@.take(n as int) =~= paths@);
        if added > 0 {
            let mut line = String::from_str("拖入添加了 ");
            line.append(decimal_text(added as u64).as_str());
            line.append(" 个文件");
            self.add_log(line.as_str());
            self.update_status();
        }
    }

    /// Starts a batch over the file list, where the list is not empty and a
    /// CSV path is set: marks the state as processing, resets the progress,
    /// logs the start, and hands back what the batch works on. Otherwise shows
    /// the reason in the error dialog and changes nothing else.
    pub fn start_extract(&mut self) -> (job: Option<ExtractJob>)
        ensures
            old(self).file_list@.len() == 0 ==> {
                &&& job is None
                &&& final(self).show_error_dialog matches Some(m) && m@ == "请先添加PDF文件"@
                &&& *final(self) == InvoiceQrApp { show_error_dialog: final(self).show_error_dialog, ..*old(self) }
            },
            old(self).file_list@.len() > 0 && is_blank_chars(old(self).csv_path@) ==> {
                &&& job is None
                &&& final(self).show_error_dialog matches Some(m) && m@ == "请选择CSV输出路径"@
                &&& *final(self) == InvoiceQrApp { show_error_dialog: final(self).show_error_dialog, ..*old(self) }
            },
            old(self).file_list@.len() > 0 && !is_blank_chars(old(self).csv_path@) ==> {
                &&& job matches Some(j) && texts(j.files@) == paths_of(*old(self)) && j.csv_out@
                    == old(self).csv_path@
                &&& final(self).is_processing
                &&& final(self).progress_current == 0
                &&& final(self).progress_total == old(self).file_list@.len()
                &&& final(self).status_text@ == "正在处理..."@
                &&& final(self).logs@ == old(self).logs@ + start_lines(
                    old(self).file_list@.len() as nat,
                    old(self).csv_path@,
                )
                &&& final(self).logs_scroll
                &&& final(self).file_list == old(self).file_list
                &&& final(self).csv_path == old(self).csv_path
                &&& final(self).show_error_dialog == old(self).show_error_dialog
                &&& final(self).result_rows == old(self).result_rows
                &&& final(self).show_results == old(self).show_results
                &&& final(self).show_confirm_clear == old(self).show_confirm_clear
                &&& final(self).show_confirm_exit == old(self).show_confirm_exit
                &&& final(self).drag_hover == old(self).drag_hover
            },
    {
        if self.file_list.len() == 0 {
            self.show_error_dialog = Some(String::from_str("请先添加PDF文件"));
            return None;
        }
        if is_blank(self.csv_path.as_str()) {
            self.show_error_dialog = Some(String::from_str("请选择CSV输出路径"));
            return None;
        }
        let ghost start = *self;
        self.is_processing = true;
        self.progress_current = 0;
        self.progress_total = self.file_list.len();
        self.status_text = String::from_str("正在处理...");
        proof {
            reveal_strlit("=");
        }
        self.add_log("\n");
        let rule = repeat_char("=", 50);
        self.add_log(rule.as_str());
        let mut count_line = String::from_str("开始处理 ");
        count_line.append(decimal_text(self.file_list.len() as u64).as_str());
        count_line.append(" 个文件...");
        self.add_log(count_line.as_str());
        let mut path_line = String::from_str("输出路径: ");
        path_line.append(self.csv_path.as_str());
        self.add_log(path_line.as_str());
        proof {
            assert(rule@ =~= Seq::new(50, |_i: int| '='));
            assert(self.logs@ =~= start.logs@ + start_lines(
                start.file_list@.len() as nat,
                start.csv_path@,
            ));
        }
        Some(ExtractJob { files: self.file_list.clone(), csv_out: self.csv_path.clone() })
    }

    /// Takes in the events the batch sent since the last call, in order:
    /// progress reports update the progress and the status line, log lines
    /// join the log, a finished batch's rows become the result shown. Where
    /// the events end the batch, it is closed: with the completion lines, or
    /// with the failure's reason in the error dialog. Returns whether they
    /// end it.
    pub fn process_events(&mut self, events: Vec<UiEvent>) -> (finished: bool)
        ensures
            finished == ends_batch(events@),
            progress_after_events(*old(self), *final(self), events@, finished),
            ({
                let p = match last_progress(events@) {
                    Some(pt) => pt,
                    None => (old(self).progress_current, old(self).progress_total),
                };
                &&& final(self).progress_total == p.1
                &&& final(self).progress_current == if finished && !fails_batch(events@) {
                    p.1
                } else {
                    p.0
                }
            }),
            final(self).status_text@ == if finished {
                if fails_batch(events@) { "出错"@ } else { "完成"@ }
            } else {
                match last_progress(events@) {
                    Some(pt) => progress_line(pt.0 as nat, pt.1 as nat),
                    None => old(self).status_text@,
                }
            },
            final(self).logs@ == old(self).logs@ + event_log(events@) + if finished && !fails_batch(
                events@,
            ) {
                match last_finished(events@) {
                    Some(f) => finish_lines(f.0 as nat, f.1),
                    None => finish_lines(0, Seq::empty()),
                }
            } else {
                Seq::empty()
            },
            final(self).logs_scroll == (old(self).logs_scroll || has_log(events@) || (finished
                && !fails_batch(events@))),
            final(self).is_processing == (old(self).is_processing && !finished),
            match last_finished(events@) {
                Some(f) => final(self).result_rows@ == f.2 && final(self).show_results,
                None => final(self).result_rows == old(self).result_rows
                    && final(self).show_results == old(self).show_results,
            },
            finished && fails_batch(events@) ==> (final(self).show_error_dialog matches Some(m)
                && last_error(events@) == Some(m@)),
            !(finished && fails_batch(events@)) ==> final(self).show_error_dialog
                == old(self).show_error_dialog,
            final(self).file_list == old(self).file_list,
            final(self).csv_path == old(self).csv_path,
            final(self).show_confirm_clear == old(self).show_confirm_clear,
            final(self).show_confirm_exit == old(self).show_confirm_exit,
            final(self).drag_hover == old(self).drag_hover,
    {
        let ghost all = events@;
        let ghost start = *self;
        let mut events = events;
        let mut is_finished = false;
        let mut finished_success: usize = 0;
        let mut finished_csv = String::new();
        let mut error_msg = String::new();
        let mut log_entries: Vec<String> = Vec::new();
        let n = events.len();
        let mut i: usize = 0;
        while i < n
            invariant
                n == all.len(),
                i <= n,
                events@ == all.subrange(i as int, n as int),
                is_finished == ends_batch(all.take(i as int)),
                error_msg@ == match last_error(all.take(i as int)) {
                    Some(m) => m,
                    None => Seq::empty(),
                },
                (finished_success, finished_csv@) == match last_finished(all.take(i as int)) {
                    Some(f) => (f.0, f.1),
                    None => (0usize, Seq::empty()),
                },
                ({
                    let p = match last_progress(all.take(i as int)) {
                        Some(pt) => pt,
                        None => (start.progress_current, start.progress_total),
                    };
                    self.progress_current == p.0 && self.progress_total == p.1
                }),
                self.status_text@ == match last_progress(all.take(i as int)) {
                    Some(pt) => progress_line(pt.0 as nat, pt.1 as nat),
                    None => start.status_text@,
                },
                log_lines(log_entries@) == event_log(all.take(i as int)),
                (log_entries@.len() > 0) == has_log(all.take(i as int)),
                match last_finished(all.take(i as int)) {
                    Some(f) => self.result_rows@ == f.2 && self.show_results,
                    None => self.result_rows == start.result_rows && self.show_results
                        == start.show_results,
                },
                self.logs == start.logs,
                self.logs_scroll == start.logs_scroll,
                self.is_processing == start.is_processing,
                self.show_error_dialog == start.show_error_dialog,
                self.file_list == start.file_list,
                self.csv_path == start.csv_path,
                self.show_confirm_clear == start.show_confirm_clear,
                self.show_confirm_exit == start.show_confirm_exit,
                self.drag_hover == start.drag_hover,
            decreases n - i,
        {
            let event = events.remove(0);
            proof {
                assert(all.take(i + 1).drop_last() =~= all.take(i as int));
                assert(all.take(i + 1).last() == event);
                assert(events@ =~= all.subrange(i + 1, n as int));
                if has_log(all.take(i as int)) {
                    let w = choose|w: int| 0 <= w < i && (#[trigger] all.take(i as int)[w]) is Log;
                    assert(all.take(i + 1)[w] == all.take(i as int)[w]);
                }
                if has_log(all.take(i + 1)) && !(event is Log) {
                    let w = choose|w: int| 0 <= w < i + 1 && (#[trigger] all.take(i + 1)[w]) is Log;
                    assert(all.take(i as int)[w] == all.take(i + 1)[w]);
                }
                if event is Log {
                    assert(all.take(i + 1)[i as int] is Log);
                }
            }
            match event {
                UiEvent::Progress(current, total) => {
                    self.progress_current = current;
                    self.progress_total = total;
                    let mut line = String::from_str("正在处理 ");
                    line.append(decimal_text(current as u64).as_str());
                    line.append("/");
                    line.append(decimal_text(total as u64).as_str());
                    self.status_text = line;
                },
                UiEvent::Log(msg) => {
                    let ghost before = log_entries@;
                    log_entries.push(msg);
                    proof {
                        lemma_log_lines_push(before, log_entries@[before.len() as int]);
                    }
                },
                UiEvent::Finished(success, csv_path, rows) => {
                    is_finished = true;
                    finished_success = success;
                    finished_csv = csv_path;
                    self.result_rows = rows;
                    self.show_results = true;
                },
                UiEvent::Error(err) => {
                    is_finished = true;
                    error_msg = err;
                },
            }
            i = i + 1;
        }
        assert(all.take(n as int) =~= all);
        let ghost mid = *self;
        let m = log_entries.len();
        let mut k: usize = 0;
        while k < m
            invariant
                m == log_entries@.len(),
                k <= m,
                self.logs@ == start.logs@ + log_lines(log_entries@.take(k as int)),
                k > 0 ==> self.logs_scroll,
                k == 0 ==> self.logs_scroll == start.logs_scroll,
                self.status_text == mid.status_text,
                self.file_list == mid.file_list,
                same_but_list_and_log(mid, *self),
            decreases m - k,
        {
            self.add_log(log_entries[k].as_str());
            proof {
                assert(log_entries@.take(k + 1).drop_last() =~= log_entries@.take(k as int));
            }
            k = k + 1;
        }
        assert(log_entries@.take(m as int) =~= log_entries@);
        if is_finished {
            if error_msg.as_str().is_empty() {
                self.is_processing = false;
                self.progress_current = self.progress_total;
                self.status_text = String::from_str("完成");
                let mut first = String::from_str("\n✅ 处理完成！成功识别 ");
                first.append(decimal_text(finished_success as u64).as_str());
                first.append(" 个文件");
                self.add_log(first.as_str());
                let mut second = String::from_str("📄 结果已保存: ");
                second.append(finished_csv.as_str());
                self.add_log(second.as_str());
            } else {
                self.is_processing = false;
                self.status_text = String::from_str("出错");
                self.show_error_dialog = Some(error_msg);
            }
        }
        is_finished
    }

    /// How many rows of the last result have the success status, and how many
    /// do not.
    pub fn result_counts(&self) -> (counts: (usize, usize))
        ensures
            counts.0 == success_rows(self.result_rows@),
            counts.0 + counts.1 == self.result_rows@.len(),
    {
        let n = self.result_rows.len();
        let mut success: usize = 0;
        let mut i: usize = 0;
        while i < n
            invariant
                n == self.result_rows@.len(),
                i <= n,
                success == success_rows(self.result_rows@.take(i as int)),
                success <= i,
            decreases n - i,
        {
            proof {
                assert(self.result_rows@.take(i + 1).drop_last() =~= self.result_rows@.take(i as int));
            }
            let ok = String::from_str("成功");
            if self.result_rows[i].3 == ok {
                success = success + 1;
            }
            i = i + 1;
        }
        assert(self.result_rows@.take(n as int) =~= self.result_rows@);
        (success, n - success)
    }

    /// The line above the result table: rows in all, successes, failures.
    pub fn results_summary(&self) -> (line: String)
        ensures
            line@ == "共 "@ + decimal(self.result_rows@.len() as nat) + " 条 | ✅ 成功 "@ + decimal(
                success_rows(self.result_rows@),
            ) + " | ❌ 失败 "@ + decimal(
                (self.result_rows@.len() - success_rows(self.result_rows@)) as nat,
            ),
    {
        let (success, failed) = self.result_counts();
        let mut line = String::from_str("共 ");
        line.append(decimal_text(self.result_rows.len() as u64).as_str());
        line.append(" 条 | ✅ 成功 ");
        line.append(decimal_text(success as u64).as_str());
        line.append(" | ❌ 失败 ");
        line.append(decimal_text(failed as u64).as_str());
        line
    }
}

} // verus!
