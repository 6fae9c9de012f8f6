use hwpers::body_text::{TAG_PARA_HEADER, TAG_PARA_TEXT};
use hwpers::header::{FileHeader, FLAG_COMPRESSED};
use hwpers::record::{encode_records, Record};
use hwpers::{document_kind, extract_text_for_rag, finish_retrieval_text, normalize_text, DocumentKind, HwpError};
use std::io::Write;

fn hwp_file(text: &str) -> Vec<u8> {
    let payload: Vec<u8> = text.encode_utf16().flat_map(|u| u.to_le_bytes()).collect();
    let section = encode_records(&vec![
        Record { tag_id: TAG_PARA_HEADER, level: 0, payload: vec![0u8; 22] },
        Record { tag_id: TAG_PARA_TEXT, level: 1, payload },
    ]);
    let header = FileHeader { version: 0x0500_0300, flags: FLAG_COMPRESSED, reserved: vec![0u8; 216] }.emit();
    let deflate = |d: &[u8]| {
        let mut e = flate2::write::DeflateEncoder::new(Vec::new(), flate2::Compression::default());
        e.write_all(d).unwrap();
        e.finish().unwrap()
    };
    let mut cf = cfb::CompoundFile::create(std::io::Cursor::new(Vec::new())).unwrap();
    cf.create_stream("FileHeader").unwrap().write_all(&header).unwrap();
    cf.create_stream("DocInfo").unwrap().write_all(&deflate(&[])).unwrap();
    cf.create_storage("BodyText").unwrap();
    cf.create_stream("BodyText/Section0").unwrap().write_all(&deflate(&section)).unwrap();
    cf.flush().unwrap();
    cf.into_inner().into_inner()
}

#[test]
fn normalize_trims_and_drops_blank_lines() {
    assert_eq!(normalize_text("  first line  \n\n \t \nsecond\r\n   third\t"), "first line\nsecond\nthird");
    assert_eq!(normalize_text(""), "");
    assert_eq!(normalize_text(" \n\u{3000}\n"), "");
    assert_eq!(normalize_text("\u{3000}한글\u{a0}"), "한글");
}

#[test]
fn normalized_lines_are_never_blank() {
    let out = normalize_text("a\n   \n\n  b  \n\t\n c\n");
    for line in out.split('\n') {
        assert!(!line.trim().is_empty());
    }
    assert_eq!(out, "a\nb\nc");
}

#[test]
fn extension_dispatch_ignores_case() {
    assert_eq!(document_kind("dir/report.HWP"), Ok(DocumentKind::Hwp));
    assert_eq!(document_kind("report.hwpx"), Ok(DocumentKind::Hwpx));
    assert_eq!(document_kind("a.b/report.HwPx"), Ok(DocumentKind::Hwpx));
    assert_eq!(document_kind("report.txt"), Err(HwpError::InvalidFormat));
    assert_eq!(document_kind("report"), Err(HwpError::InvalidFormat));
    assert_eq!(document_kind(".hwp"), Err(HwpError::InvalidFormat));
    assert_eq!(document_kind("dir.hwp/file"), Err(HwpError::InvalidFormat));
}

#[test]
fn retrieval_text_needs_fifty_characters() {
    assert_eq!(finish_retrieval_text("short text"), Err(HwpError::InvalidFormat));
    let long = "가".repeat(50);
    assert_eq!(finish_retrieval_text(&format!("  {}  \n\n", long)), Ok(long.clone()));
    assert_eq!(finish_retrieval_text(&"가".repeat(49)), Err(HwpError::InvalidFormat));
}

#[test]
fn retrieval_from_hwp_contents() {
    let text = "한글 문서에서 추출한 텍스트입니다. This paragraph is long enough for retrieval use.";
    let out = extract_text_for_rag("doc.hwp", &hwp_file(text)).unwrap();
    assert_eq!(out, text);
    assert_eq!(extract_text_for_rag("doc.hwp", &hwp_file("too short")), Err(HwpError::InvalidFormat));
}

#[test]
fn retrieval_rejects_other_extensions() {
    assert_eq!(extract_text_for_rag("doc.pdf", b""), Err(HwpError::InvalidFormat));
    assert_eq!(extract_text_for_rag("doc.hwpx", b""), Err(HwpError::Io));
    assert_eq!(extract_text_for_rag("doc.hwp", b"not a compound file"), Err(HwpError::Io));
}

#[test]
fn trailing_separator_keeps_extension() {
    assert_eq!(document_kind("dir/a.hwp/"), Ok(DocumentKind::Hwp));
    assert_eq!(document_kind("a.HWPX//"), Ok(DocumentKind::Hwpx));
    assert_eq!(document_kind("/"), Err(HwpError::InvalidFormat));
}
