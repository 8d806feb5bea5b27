# invoice_qr

Reads the QR codes printed on PDF invoices and writes them, in the order of
the file list, to a CSV file (UTF-8 with a byte order mark, so that Excel
opens it directly). The window is an egui application; the PDF pages are
rendered by the Windows PDF engine and decoded with `rqrr`.

## Layout

- `src/` — the library, verified with Verus:
  - `state.rs`: the window's state (`InvoiceQrApp`): the file list and its
    operations (add files, add a folder's PDFs, handle a drop, remove, move,
    clear), the log and status line, starting a batch, and taking in the
    batch worker's events; with the laws that tie these operations together.
  - `extract.rs`: the per-page results of one PDF (`QrResult`,
    `extract_qr_from_pdf`).
  - `batch.rs`: the result rows of a batch (`process_pdfs`) and its log lines.
  - `csv_out.rs`: the CSV file's bytes, written with the `csv` crate.
  - `sorting.rs`: the order of texts and a stable sort by it.
  - `paths.rs`, `text.rs`: file names, PDF extensions, decimal numbers,
    blank strings, shortened paths.
- `app/` — the program: egui window, file dialogs, the file system, the
  Windows PDF renderer, QR decoding, the worker thread.
- `tests/` — tests of the library.
