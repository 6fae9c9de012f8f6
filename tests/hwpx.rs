use hwpers::{extract_text_for_rag, HwpError, HwpxReader, HwpxTextStyle, HwpxWriter};

#[test]
fn test_hwpx_roundtrip_text_extraction() {
    let mut writer = HwpxWriter::new();
    writer.add_paragraph("안녕하세요").unwrap();
    writer.add_paragraph("Hello World").unwrap();
    let bytes = writer.to_bytes().unwrap();
    let doc = HwpxReader::from_bytes(&bytes).unwrap();
    let text = doc.extract_text();
    assert!(text.contains("안녕하세요"));
    assert!(text.contains("Hello World"));
}

#[test]
fn test_hwpx_korean_english_mixed() {
    let mut writer = HwpxWriter::new();
    let content = "한글 English 혼합 테스트 123";
    writer.add_paragraph(content).unwrap();
    let bytes = writer.to_bytes().unwrap();
    let doc = HwpxReader::from_bytes(&bytes).unwrap();
    let text = doc.extract_text();
    assert!(text.contains(content));
}

#[test]
fn test_hwpx_multiple_sections_text() {
    let mut writer = HwpxWriter::new();
    let paragraphs = vec!["First paragraph", "Second paragraph with Korean 한글", "Third paragraph 123", "Fourth paragraph"];
    for para in &paragraphs {
        writer.add_paragraph(para).unwrap();
    }
    let bytes = writer.to_bytes().unwrap();
    let doc = HwpxReader::from_bytes(&bytes).unwrap();
    let text = doc.extract_text();
    for para in &paragraphs {
        assert!(text.contains(para), "Missing paragraph: {}", para);
    }
}

#[test]
fn test_hwpx_empty_document() {
    let writer = HwpxWriter::new();
    let bytes = writer.to_bytes().unwrap();
    let doc = HwpxReader::from_bytes(&bytes).unwrap();
    let text = doc.extract_text();
    assert!(text.trim().is_empty());
}

#[test]
fn test_hwpx_styled_text_roundtrip() {
    let mut writer = HwpxWriter::new();
    let style_bold = HwpxTextStyle { bold: true, ..Default::default() };
    let style_large = HwpxTextStyle { font_size: Some(24), ..Default::default() };
    writer.add_styled_paragraph("Bold text 굵은 글씨", style_bold).unwrap();
    writer.add_styled_paragraph("Large text 큰 글씨", style_large).unwrap();
    writer.add_paragraph("Normal text 일반 글씨").unwrap();
    let bytes = writer.to_bytes().unwrap();
    let doc = HwpxReader::from_bytes(&bytes).unwrap();
    let text = doc.extract_text();
    assert!(text.contains("Bold text 굵은 글씨"));
    assert!(text.contains("Large text 큰 글씨"));
    assert!(text.contains("Normal text 일반 글씨"));
    let bold = text.find("Bold text").unwrap();
    let large = text.find("Large text").unwrap();
    let normal = text.find("Normal text").unwrap();
    assert!(bold < large && large < normal);
}

#[test]
fn hwpx_markup_characters_survive() {
    let mut writer = HwpxWriter::new();
    writer.add_paragraph("a < b && c > d").unwrap();
    let doc = HwpxReader::from_bytes(&writer.to_bytes().unwrap()).unwrap();
    assert_eq!(doc.extract_text(), "a < b && c > d\n");
}

#[test]
fn hwpx_output_is_deterministic() {
    let build = || {
        let mut w = HwpxWriter::new();
        w.add_paragraph("같은 내용").unwrap();
        w.add_styled_paragraph("styled", HwpxTextStyle { italic: true, underline: true, ..Default::default() }).unwrap();
        w.to_bytes().unwrap()
    };
    let a = build();
    assert_eq!(a, build());
    assert_eq!(&a[30..38], b"mimetype");
}

#[test]
fn hwpx_section_scanner_reads_paragraphs() {
    let xml = "<hs:sec><hp:p id=\"1\"><hp:run><hp:t>one &amp; two</hp:t><hp:tab/><hp:t>three</hp:t></hp:run></hp:p><hp:p/><hp:p><hp:run><hp:t>&lt;x&gt; &unknown;</hp:t></hp:run></hp:p></hs:sec>";
    let paras = hwpers::hwpx_reader::parse_section_xml(xml);
    let texts: Vec<String> = paras.iter().map(|p| p.iter().collect()).collect();
    assert_eq!(texts, vec!["one & twothree".to_string(), String::new(), "<x> &unknown;".to_string()]);
}

#[test]
fn hwpx_reader_errors() {
    assert_eq!(HwpxReader::from_bytes(b"not a zip").unwrap_err(), HwpError::Io);
}

#[test]
fn retrieval_from_hwpx_contents() {
    let mut w = HwpxWriter::new();
    w.add_paragraph("  HWPX 문서의 첫 문단입니다. The first paragraph of the package.  ").unwrap();
    w.add_paragraph("   ").unwrap();
    w.add_paragraph("둘째 문단").unwrap();
    let out = extract_text_for_rag("doc.HWPX", &w.to_bytes().unwrap()).unwrap();
    assert_eq!(out, "HWPX 문서의 첫 문단입니다. The first paragraph of the package.\n둘째 문단");
}
