//! What one PDF yields (one record per page) and the rows of the batch
//! result that the CSV file and the result table show.
use vstd::prelude::*;
use crate::text::{decimal, decimal_text};

verus! {

/// What the extraction gives for one page of a PDF.
#[derive(Debug, Clone)]
pub struct QrResult {
    /// Page number, starting at 1.
    pub page: u32,
    /// Content of the QR code; empty where none was read.
    pub data: String,
    /// Why no content was read; empty where it was.
    pub error: String,
}

/// The value of a `QrResult`.
pub struct QrRecord {
    pub page: nat,
    pub data: Seq<char>,
    pub error: Seq<char>,
}

impl View for QrResult {
    type V = QrRecord;

    open spec fn view(&self) -> QrRecord {
        QrRecord { page: self.page as nat, data: self.data@, error: self.error@ }
    }
}

/// What rendering and decoding one page came to.
pub enum PageOutcome {
    /// The document could not hand out the page; the text says why.
    PageUnavailable(String),
    /// The page could not be rendered to an image; the text says why.
    RenderFailed(String),
    /// The image was decoded, and no QR code was found in it.
    NoQrCode,
    /// A QR code was found; its content.
    Decoded(String),
}

/// What opening one PDF and walking its pages came to.
pub enum PdfOutcome {
    /// The document could not be opened; the text says why.
    OpenFailed(String),
    /// The document opened, and its page count could not be read.
    PageCountFailed(String),
    /// The outcome of each page, in page order.
    Pages(Vec<PageOutcome>),
}

/// `"<a><decimal n><b><c>"`.
pub open spec fn numbered(a: Seq<char>, n: nat, b: Seq<char>, c: Seq<char>) -> Seq<char> {
    a + decimal(n) + b + c
}

/// The record for page number `page` with outcome `o`.
pub open spec fn page_record(page: nat, o: PageOutcome) -> QrRecord {
    match o {
        PageOutcome::PageUnavailable(e) => QrRecord {
            page,
            data: Seq::empty(),
            error: numbered("获取第"@, page, "页失败: "@, e@),
        },
        PageOutcome::RenderFailed(e) => QrRecord {
            page,
            data: Seq::empty(),
            error: numbered("渲染第"@, page, "页失败: "@, e@),
        },
        PageOutcome::NoQrCode => QrRecord { page, data: Seq::empty(), error: "未识别到二维码"@ },
        PageOutcome::Decoded(d) => QrRecord { page, data: d@, error: Seq::empty() },
    }
}

/// The records that one PDF yields: one for a document that could not be
/// opened or counted, else one per page, numbered from 1.
pub open spec fn pdf_records(o: PdfOutcome) -> Seq<QrRecord> {
    match o {
        PdfOutcome::OpenFailed(e) => seq![
            QrRecord { page: 1, data: Seq::empty(), error: "无法打开PDF: "@ + e@ },
        ],
        PdfOutcome::PageCountFailed(e) => seq![
            QrRecord { page: 1, data: Seq::empty(), error: "获取PDF页数失败: "@ + e@ },
        ],
        PdfOutcome::Pages(ps) => Seq::new(ps@.len(), |i: int| page_record((i + 1) as nat, ps@[i])),
    }
}

/// Whether a PDF outcome is one that a document can give: its pages are
/// numbered by `u32`.
pub open spec fn outcome_fits(o: PdfOutcome) -> bool {
    o matches PdfOutcome::Pages(ps) ==> ps@.len() <= u32::MAX
}

fn text_of(s: &str) -> (r: String)
    ensures
        r@ == s@,
{
    String::from_str(s)
}

/// The record for page number `page` with outcome `o`.
pub fn page_result(page: u32, o: &PageOutcome) -> (r: QrResult)
    ensures
        r@ == page_record(page as nat, *o),
{
    match o {
        PageOutcome::PageUnavailable(e) => {
            let mut m = text_of("获取第");
            m.append(decimal_text(page as u64).as_str());
            m.append("页失败: ");
            m.append(e.as_str());
            QrResult { page, data: String::new(), error: m }
        },
        PageOutcome::RenderFailed(e) => {
            let mut m = text_of("渲染第");
            m.append(decimal_text(page as u64).as_str());
            m.append("页失败: ");
            m.append(e.as_str());
            QrResult { page, data: String::new(), error: m }
        },
        PageOutcome::NoQrCode => QrResult {
            page,
            data: String::new(),
            error: text_of("未识别到二维码"),
        },
        PageOutcome::Decoded(d) => QrResult { page, data: d.clone(), error: String::new() },
    }
}

/// The records that one PDF yields, given what opening it and walking its
/// pages came to.
pub fn extract_qr_from_pdf(outcome: &PdfOutcome) -> (results: Vec<QrResult>)
    requires
        outcome_fits(*outcome),
    ensures
        results@.map_values(|q: QrResult| q@) == pdf_records(*outcome),
{
    let mut results: Vec<QrResult> = Vec::new();
    match outcome {
        PdfOutcome::OpenFailed(e) => {
            let mut m = text_of("无法打开PDF: ");
            m.append(e.as_str());
            results.push(QrResult { page: 1, data: String::new(), error: m });
        },
        PdfOutcome::PageCountFailed(e) => {
            let mut m = text_of("获取PDF页数失败: ");
            m.append(e.as_str());
            results.push(QrResult { page: 1, data: String::new(), error: m });
        },
        PdfOutcome::Pages(ps) => {
            let n = ps.len();
            let mut i: usize = 0;
            while i < n
                invariant
                    n == ps@.len(),
                    n <= u32::MAX,
                    i <= n,
                    results@.len() == i,
                    forall|k: int|
                        0 <= k < i ==> #[trigger] results@[k]@ == page_record(
                            (k + 1) as nat,
                            ps@[k],
                        ),
                decreases n - i,
            {
                let r = page_result((i + 1) as u32, &ps[i]);
                results.push(r);
                i = i + 1;
            }
        },
    }
    assert(results@.map_values(|q: QrResult| q@) =~= pdf_records(*outcome));
    results
}

} // verus!
