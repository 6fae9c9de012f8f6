use hwpers::{HwpError, HwpReader, HwpWriter, TextStyle};

#[test]
fn test_hwp_writer_then_reader_text_extraction() {
    let mut writer = HwpWriter::new();
    let test_text = "안녕하세요 한글 문서입니다";
    writer.add_paragraph(test_text).unwrap();
    let bytes = writer.to_bytes().unwrap();
    let doc = HwpReader::from_bytes(&bytes).unwrap();
    let extracted = doc.extract_text();
    assert!(extracted.contains(test_text), "Expected text '{}' not found in extracted text: {}", test_text, extracted);
}

#[test]
fn test_hwp_multiple_paragraphs_extraction() {
    let mut writer = HwpWriter::new();
    let para1 = "첫 번째 문단입니다";
    let para2 = "Second paragraph with English";
    let para3 = "세 번째 혼합 paragraph mixed";
    writer.add_paragraph(para1).unwrap();
    writer.add_paragraph(para2).unwrap();
    writer.add_paragraph(para3).unwrap();
    let bytes = writer.to_bytes().unwrap();
    let doc = HwpReader::from_bytes(&bytes).unwrap();
    let extracted = doc.extract_text();
    assert!(extracted.contains(para1), "Paragraph 1 not found");
    assert!(extracted.contains(para2), "Paragraph 2 not found");
    assert!(extracted.contains(para3), "Paragraph 3 not found");
}

#[test]
fn test_hwp_metadata_basic() {
    let mut writer = HwpWriter::new();
    writer.add_paragraph("Test document").unwrap();
    let bytes = writer.to_bytes().unwrap();
    let doc = HwpReader::from_bytes(&bytes).unwrap();
    assert!(!doc.is_encrypted(), "Document should not be encrypted");
    assert!(!doc.is_distribution_document(), "Document should not be distribution document");
}

#[test]
fn test_hwp_korean_encoding_verification() {
    let mut writer = HwpWriter::new();
    let test_content = "한글ㄱㄴㄷ가나다ABC123!@#";
    writer.add_paragraph(test_content).unwrap();
    let bytes = writer.to_bytes().unwrap();
    let doc = HwpReader::from_bytes(&bytes).unwrap();
    let extracted = doc.extract_text();
    assert!(extracted.contains(test_content), "Korean encoding not preserved. Expected: {}, Got: {}", test_content, extracted);
}

#[test]
fn test_hwp_empty_document_extraction() {
    let writer = HwpWriter::new();
    let bytes = writer.to_bytes().unwrap();
    let doc = HwpReader::from_bytes(&bytes).unwrap();
    let extracted = doc.extract_text();
    assert!(extracted.trim().is_empty(), "Empty document should have empty or whitespace-only text, got: '{}'", extracted);
}

#[test]
fn test_hwp_from_bytes_roundtrip() {
    let mut writer = HwpWriter::new();
    let original_text = "왕복 테스트 Roundtrip test";
    writer.add_paragraph(original_text).unwrap();
    let bytes = writer.to_bytes().unwrap();
    let doc1 = HwpReader::from_bytes(&bytes).unwrap();
    let text1 = doc1.extract_text();
    let doc2 = HwpReader::from_bytes(&bytes).unwrap();
    let text2 = doc2.extract_text();
    assert_eq!(text1, text2, "Multiple reads should produce identical text");
    assert!(text1.contains(original_text), "Original text not preserved in roundtrip");
}

#[test]
fn test_hwp_styled_text_extraction() {
    let mut writer = HwpWriter::new();
    let style = TextStyle::new().bold().italic();
    let styled_text = "굵고 기울인 텍스트 Bold and italic";
    writer.add_paragraph_with_style(styled_text, &style).unwrap();
    let bytes = writer.to_bytes().unwrap();
    let doc = HwpReader::from_bytes(&bytes).unwrap();
    let extracted = doc.extract_text();
    assert!(extracted.contains(styled_text), "Styled text content not preserved");
}

#[test]
fn writer_output_is_deterministic() {
    let build = || {
        let mut w = HwpWriter::new();
        w.add_paragraph("같은 문서 Same document").unwrap();
        w.add_paragraph_with_style("두 번째 Second", &TextStyle::new().underline().size(24)).unwrap();
        w.to_bytes().unwrap()
    };
    assert_eq!(build(), build());
}

#[test]
fn written_paragraphs_come_back_in_order() {
    let mut w = HwpWriter::new();
    w.add_paragraph("one").unwrap();
    w.add_paragraph("two 둘").unwrap();
    w.add_paragraph("줄\n바꿈").unwrap();
    w.add_paragraph("😀 outside the basic plane").unwrap();
    let doc = HwpReader::from_bytes(&w.to_bytes().unwrap()).unwrap();
    assert_eq!(doc.extract_text(), "one\ntwo 둘\n줄\n바꿈\n😀 outside the basic plane\n");
    assert_eq!(doc.body_texts.len(), 1);
    assert_eq!(doc.doc_info.len(), 4);
}

#[test]
fn control_characters_are_refused() {
    let mut w = HwpWriter::new();
    assert_eq!(w.add_paragraph("tab\there"), Err(HwpError::InvalidFormat));
    assert_eq!(w.paragraphs.len(), 0);
    assert_eq!(w.add_paragraph_with_style("bell\u{7}", &TextStyle::new().bold()), Err(HwpError::InvalidFormat));
    assert_eq!(w.styles.len(), 1);
}

#[test]
fn styles_get_their_own_shapes() {
    let style = TextStyle::new().bold().italic().underline().size(12);
    assert!(style.bold && style.italic && style.underline);
    assert_eq!(style.font_size, 24);
    assert_eq!(TextStyle::new().font_size, 20);
    let mut w = HwpWriter::new();
    w.add_paragraph_with_style("styled", &style).unwrap();
    w.add_paragraph("plain").unwrap();
    assert_eq!(w.shape_ids, vec![1, 0]);
    let doc = HwpReader::from_bytes(&w.to_bytes().unwrap()).unwrap();
    let shapes: Vec<_> = doc.doc_info.iter().filter(|r| r.tag_id == 21).collect();
    assert_eq!(shapes.len(), 2);
    let size = u32::from_le_bytes([shapes[1].payload[42], shapes[1].payload[43], shapes[1].payload[44], shapes[1].payload[45]]);
    assert_eq!(size, 1200);
    assert_eq!(shapes[1].payload[46], 7);
}
