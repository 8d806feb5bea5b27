use invoice_qr::paths::{is_pdf_extension, lowercases_to_pdf};
use invoice_qr::sorting::{sort_texts, text_le_exec};
use invoice_qr::text::{char_is_white_space, decimal_text, display_path, is_blank, repeat_char};

#[test]
fn decimal_text_writes_numbers_like_format() {
    assert_eq!(decimal_text(0), "0");
    assert_eq!(decimal_text(7), "7");
    assert_eq!(decimal_text(42), "42");
    assert_eq!(decimal_text(100), "100");
    assert_eq!(decimal_text(1234567890), format!("{}", 1234567890u64));
    assert_eq!(decimal_text(u64::MAX), u64::MAX.to_string());
}

#[test]
fn blank_means_trim_is_empty() {
    for s in ["", "   ", " \t\r\n", "\u{3000}\u{a0}", "\u{2028}\u{85}"] {
        assert!(is_blank(s), "{:?}", s);
        assert_eq!(is_blank(s), s.trim().is_empty());
    }
    for s in ["a", "  C:\\out.csv  ", "\u{200b}", "二维码"] {
        assert!(!is_blank(s), "{:?}", s);
        assert_eq!(is_blank(s), s.trim().is_empty());
    }
}

#[test]
fn white_space_agrees_with_std() {
    for u in 0u32..0x3100 {
        if let Some(c) = char::from_u32(u) {
            assert_eq!(char_is_white_space(c), c.is_whitespace(), "{:x}", u);
        }
    }
}

#[test]
fn repeat_char_repeats() {
    assert_eq!(repeat_char("=", 50), "=".repeat(50));
    assert_eq!(repeat_char("=", 0), "");
}

#[test]
fn short_paths_are_shown_whole() {
    assert_eq!(display_path("C:\\发票\\a.pdf"), "C:\\发票\\a.pdf");
    let eighty = "a".repeat(80);
    assert_eq!(display_path(&eighty), eighty);
}

#[test]
fn long_paths_keep_their_ends() {
    let p: String = (0..100).map(|i| char::from(b'a' + (i % 26) as u8)).collect();
    let shown = display_path(&p);
    assert_eq!(shown, format!("{}...{}", &p[..40], &p[p.len() - 37..]));
    assert_eq!(shown.len(), 80);
}

#[test]
fn pdf_extension_ignores_ascii_case() {
    assert!(is_pdf_extension("pdf"));
    assert!(is_pdf_extension("PDF"));
    assert!(is_pdf_extension("pDf"));
    assert!(!is_pdf_extension("pdfx"));
    assert!(!is_pdf_extension("df"));
    assert!(!is_pdf_extension(""));
    assert!(!is_pdf_extension("txt"));
}

#[test]
fn dropped_file_extension_lowercases_to_pdf() {
    assert!(lowercases_to_pdf("PDF"));
    assert!(lowercases_to_pdf("Pdf"));
    assert!(lowercases_to_pdf("pdf"));
    assert!(!lowercases_to_pdf("pdf "));
    assert!(!lowercases_to_pdf("png"));
}

#[test]
fn texts_sort_as_strings_do() {
    let v: Vec<String> = ["b.pdf", "a.pdf", "B.pdf", "发票2.pdf", "发票10.pdf", "a.pdf", ""]
        .iter()
        .map(|s| s.to_string())
        .collect();
    let mut expected = v.clone();
    expected.sort();
    assert_eq!(sort_texts(v), expected);
    assert_eq!(sort_texts(Vec::new()), Vec::<String>::new());
}

#[test]
fn text_order_is_string_order() {
    let words = ["", "a", "ab", "b", "B", "é", "发票", "发", "\u{10000}", "\u{ffff}"];
    for a in words {
        for b in words {
            assert_eq!(text_le_exec(a, b), a <= b, "{:?} {:?}", a, b);
        }
    }
}

#[test]
fn decimal_reads_back() {
    for n in [0u64, 1, 9, 10, 99, 100, 65535, 4294967296, u64::MAX] {
        let t = decimal_text(n);
        assert!(!t.is_empty() && t.chars().all(|c| c.is_ascii_digit()));
        assert_eq!(t.parse::<u64>().unwrap(), n);
    }
}

#[test]
fn sorting_keeps_every_text() {
    let v: Vec<String> = ["c", "a", "b", "a"].iter().map(|s| s.to_string()).collect();
    let sorted = sort_texts(v.clone());
    assert!(sorted.windows(2).all(|w| w[0] <= w[1]));
    let mut a = v.clone();
    let mut b = sorted.clone();
    a.sort();
    b.sort();
    assert_eq!(a, b);
}
