use hwpers::body_text::{paragraph_text, TAG_PARA_HEADER, TAG_PARA_TEXT};
use hwpers::header::{FileHeader, FLAG_COMPRESSED, FLAG_DISTRIBUTION, FLAG_PASSWORD};
use hwpers::record::{decode_records, encode_records, Record};
use hwpers::{HwpError, HwpReader};
use aes::cipher::{BlockEncrypt, KeyInit};
use sha1::Digest;
use std::io::Write;
use std::path::PathBuf;

fn signature() -> Vec<u8> {
    b"HWP Document File".to_vec()
}

fn header_bytes(flags: u32) -> Vec<u8> {
    let h = FileHeader { version: 0x0500_0300, flags, reserved: vec![0u8; 216] };
    h.emit()
}

fn utf16le(s: &str) -> Vec<u8> {
    s.encode_utf16().flat_map(|u| u.to_le_bytes()).collect()
}

fn section_stream(paragraphs: &[&str]) -> Vec<u8> {
    let mut rs = Vec::new();
    for p in paragraphs {
        rs.push(Record { tag_id: TAG_PARA_HEADER, level: 0, payload: vec![0u8; 22] });
        rs.push(Record { tag_id: TAG_PARA_TEXT, level: 1, payload: utf16le(p) });
    }
    encode_records(&rs)
}

fn doc_info_stream() -> Vec<u8> {
    encode_records(&vec![Record { tag_id: 16, level: 0, payload: vec![1, 0, 0, 0] }])
}

fn deflate(data: &[u8]) -> Vec<u8> {
    let mut e = flate2::write::DeflateEncoder::new(Vec::new(), flate2::Compression::default());
    e.write_all(data).unwrap();
    e.finish().unwrap()
}

fn build_file(flags: u32, doc_info: &[u8], sections: &[Vec<u8>]) -> Vec<u8> {
    let compressed = flags & FLAG_COMPRESSED != 0;
    let pack = |d: &[u8]| if compressed { deflate(d) } else { d.to_vec() };
    let mut cf = cfb::CompoundFile::create(std::io::Cursor::new(Vec::new())).unwrap();
    cf.create_stream("FileHeader").unwrap().write_all(&header_bytes(flags)).unwrap();
    cf.create_stream("DocInfo").unwrap().write_all(&pack(doc_info)).unwrap();
    cf.create_storage("BodyText").unwrap();
    for (i, s) in sections.iter().enumerate() {
        let name = format!("BodyText/Section{}", i);
        cf.create_stream(&name).unwrap().write_all(&pack(s)).unwrap();
    }
    cf.flush().unwrap();
    cf.into_inner().into_inner()
}

#[test]
fn test_reader_creation() {
    let path = PathBuf::from("test-files").join("test_document.hwp");
    if path.exists() {
        let result = hwpers::document_kind(path.to_str().unwrap());
        assert!(result.is_ok() || result.is_err());
    }
}

#[test]
fn test_file_header_signature() {
    let signature = b"HWP Document File";
    assert_eq!(signature.len(), 17);
}

#[test]
fn plain_document_text_in_order() {
    let file = build_file(0, &doc_info_stream(), &[section_stream(&["첫 번째 문단입니다", "Second paragraph with English"])]);
    let doc = HwpReader::from_bytes(&file).unwrap();
    assert_eq!(doc.extract_text(), "첫 번째 문단입니다\nSecond paragraph with English\n");
    assert!(!doc.is_encrypted());
    assert!(!doc.is_distribution_document());
    assert_eq!(doc.doc_info.len(), 1);
}

#[test]
fn compressed_document_is_inflated() {
    let file = build_file(FLAG_COMPRESSED, &doc_info_stream(), &[section_stream(&["안녕하세요 한글 문서입니다"])]);
    let doc = HwpReader::from_bytes(&file).unwrap();
    assert!(doc.extract_text().contains("안녕하세요 한글 문서입니다"));
}

#[test]
fn sections_are_read_in_order() {
    let file = build_file(
        FLAG_COMPRESSED,
        &doc_info_stream(),
        &[section_stream(&["한글ㄱㄴㄷ가나다ABC123!@#"]), section_stream(&["세 번째 혼합 paragraph mixed"])],
    );
    let doc = HwpReader::from_bytes(&file).unwrap();
    assert_eq!(doc.body_texts.len(), 2);
    assert_eq!(doc.extract_text(), "한글ㄱㄴㄷ가나다ABC123!@#\n세 번째 혼합 paragraph mixed\n");
}

#[test]
fn empty_section_gives_empty_text() {
    let file = build_file(FLAG_COMPRESSED, &doc_info_stream(), &[section_stream(&[])]);
    let doc = HwpReader::from_bytes(&file).unwrap();
    assert!(doc.extract_text().trim().is_empty());
}

#[test]
fn two_decodes_agree() {
    let file = build_file(FLAG_COMPRESSED, &doc_info_stream(), &[section_stream(&["왕복 테스트 Roundtrip test"])]);
    let a = HwpReader::from_bytes(&file).unwrap().extract_text();
    let b = HwpReader::from_bytes(&file).unwrap().extract_text();
    assert_eq!(a, b);
    assert!(a.contains("왕복 테스트 Roundtrip test"));
}

#[test]
fn no_sections_is_invalid() {
    let file = build_file(0, &doc_info_stream(), &[]);
    assert_eq!(HwpReader::from_bytes(&file).unwrap_err(), HwpError::InvalidFormat);
}

#[test]
fn corrupted_signature_is_not_hwp() {
    let file = build_file(0, &doc_info_stream(), &[section_stream(&["x"])]);
    let mut cf = cfb::CompoundFile::open(std::io::Cursor::new(file)).unwrap();
    let mut h = header_bytes(0);
    for b in h.iter_mut().take(17) {
        *b = 0;
    }
    cf.create_stream("FileHeader").unwrap().write_all(&h).unwrap();
    cf.flush().unwrap();
    let bytes = cf.into_inner().into_inner();
    assert_eq!(HwpReader::from_bytes(&bytes).unwrap_err(), HwpError::NotHwpFile);
}

#[test]
fn password_document_is_refused() {
    let file = build_file(FLAG_PASSWORD, &doc_info_stream(), &[section_stream(&["x"])]);
    assert_eq!(HwpReader::from_bytes(&file).unwrap_err(), HwpError::UnsupportedVersion);
}

#[test]
fn short_distribution_record_is_parse_error() {
    let file = build_file(FLAG_DISTRIBUTION, &doc_info_stream(), &[section_stream(&["x"])]);
    assert_eq!(HwpReader::from_bytes(&file).unwrap_err(), HwpError::ParseError);
}

#[test]
fn distribution_body_is_crypto_error() {
    let file = build_file(FLAG_DISTRIBUTION, &vec![0u8; 300], &[section_stream(&["x"])]);
    assert_eq!(HwpReader::from_bytes(&file).unwrap_err(), HwpError::CryptoError);
}

#[test]
fn bad_compressed_stream_is_io_error() {
    let mut cf = cfb::CompoundFile::create(std::io::Cursor::new(Vec::new())).unwrap();
    cf.create_stream("FileHeader").unwrap().write_all(&header_bytes(FLAG_COMPRESSED)).unwrap();
    cf.create_stream("DocInfo").unwrap().write_all(&[0xFF, 0xFF, 0xFF, 0xFF]).unwrap();
    cf.flush().unwrap();
    let bytes = cf.into_inner().into_inner();
    assert_eq!(HwpReader::from_bytes(&bytes).unwrap_err(), HwpError::Io);
}

#[test]
fn not_a_compound_file_is_io_error() {
    assert_eq!(HwpReader::from_bytes(b"plain bytes").unwrap_err(), HwpError::Io);
}

#[test]
fn missing_doc_info_is_stream_not_found() {
    let mut cf = cfb::CompoundFile::create(std::io::Cursor::new(Vec::new())).unwrap();
    cf.create_stream("FileHeader").unwrap().write_all(&header_bytes(0)).unwrap();
    cf.flush().unwrap();
    let bytes = cf.into_inner().into_inner();
    assert_eq!(HwpReader::from_bytes(&bytes).unwrap_err(), HwpError::StreamNotFound);
}

#[test]
fn header_round_trip_keeps_flags() {
    let h = FileHeader { version: 0x0501_0000, flags: FLAG_COMPRESSED | FLAG_DISTRIBUTION | 0x100, reserved: vec![7, 8, 9] };
    let bytes = h.emit();
    assert_eq!(&bytes[..17], &signature()[..]);
    assert_eq!(bytes.len(), 43);
    let back = FileHeader::parse(&bytes).unwrap();
    assert_eq!(back.version, h.version);
    assert_eq!(back.flags, h.flags);
    assert_eq!(back.reserved, h.reserved);
    assert!(back.is_compressed() && back.is_distribute() && !back.is_encrypted());
}

#[test]
fn short_header_is_invalid() {
    let mut b = signature();
    b.extend_from_slice(&[0u8; 10]);
    assert_eq!(FileHeader::parse(&b).unwrap_err(), HwpError::InvalidFormat);
    assert_eq!(FileHeader::parse(b"HWP Document Fil").unwrap_err(), HwpError::NotHwpFile);
}

#[test]
fn record_round_trip_with_extended_size() {
    let rs = vec![
        Record { tag_id: 66, level: 0, payload: vec![1, 2, 3] },
        Record { tag_id: 1023, level: 1023, payload: vec![5u8; 5000] },
        Record { tag_id: 67, level: 1, payload: vec![] },
        Record { tag_id: 68, level: 2, payload: vec![9u8; 4094] },
    ];
    let bytes = encode_records(&rs);
    assert_eq!(bytes.len(), 4 + 3 + 8 + 5000 + 4 + 4 + 4094);
    let back = decode_records(&bytes).unwrap();
    assert_eq!(back.len(), rs.len());
    for (a, b) in back.iter().zip(rs.iter()) {
        assert_eq!((a.tag_id, a.level, &a.payload), (b.tag_id, b.level, &b.payload));
    }
}

#[test]
fn record_header_word_layout() {
    let bytes = encode_records(&vec![Record { tag_id: 66, level: 1, payload: vec![0xAA, 0xBB] }]);
    let w = 66u32 | (1 << 10) | (2 << 20);
    assert_eq!(&bytes[..4], &w.to_le_bytes());
    assert_eq!(&bytes[4..], &[0xAA, 0xBB]);
    let big = encode_records(&vec![Record { tag_id: 1, level: 0, payload: vec![0; 4096] }]);
    assert_eq!(u32::from_le_bytes([big[0], big[1], big[2], big[3]]) >> 20, 0xFFF);
    assert_eq!(u32::from_le_bytes([big[4], big[5], big[6], big[7]]), 4096);
}

#[test]
fn truncated_records_are_invalid() {
    assert_eq!(decode_records(&[1, 2, 3]).unwrap_err(), HwpError::InvalidFormat);
    let w = 66u32 | (10 << 20);
    let mut b = w.to_le_bytes().to_vec();
    b.extend_from_slice(&[0; 5]);
    assert_eq!(decode_records(&b).unwrap_err(), HwpError::InvalidFormat);
    assert_eq!(decode_records(&[]).unwrap().len(), 0);
}

#[test]
fn paragraph_text_skips_inline_objects() {
    let mut b = utf16le("ab");
    b.extend_from_slice(&[9, 0]);
    b.extend_from_slice(&[0u8; 14]);
    b.extend_from_slice(&utf16le("c"));
    b.extend_from_slice(&[10, 0]);
    b.extend_from_slice(&[13, 0]);
    b.extend_from_slice(&utf16le("d"));
    let units = paragraph_text(&b);
    assert_eq!(String::from_utf16(&units).unwrap(), "abc\nd");
}

#[test]
fn extended_sizes_above_the_ceiling_are_refused() {
    let bytes = encode_records(&vec![Record { tag_id: 2, level: 0, payload: vec![1u8; 5000] }]);
    assert_eq!(hwpers::record::decode_records_within(&bytes, 4999).unwrap_err(), HwpError::InvalidFormat);
    assert_eq!(hwpers::record::decode_records_within(&bytes, 5000).unwrap()[0].payload.len(), 5000);
    let mut huge = (1u32 | (0xFFF << 20)).to_le_bytes().to_vec();
    huge.extend_from_slice(&(hwpers::record::MAX_RECORD_SIZE + 1).to_le_bytes());
    assert_eq!(decode_records(&huge).unwrap_err(), HwpError::InvalidFormat);
}

#[test]
fn preview_text_is_read_up_to_nul() {
    let file = build_file(0, &doc_info_stream(), &[section_stream(&["본문"])]);
    let mut cf = cfb::CompoundFile::open(std::io::Cursor::new(file)).unwrap();
    let mut prv = utf16le("미리보기 preview");
    prv.extend_from_slice(&[0, 0, 0x41, 0]);
    cf.create_stream("PrvText").unwrap().write_all(&prv).unwrap();
    cf.flush().unwrap();
    let bytes = cf.into_inner().into_inner();
    let doc = HwpReader::from_bytes(&bytes).unwrap();
    assert_eq!(String::from_utf16(doc.preview_text.as_ref().unwrap()).unwrap(), "미리보기 preview");
    assert_eq!(doc.extract_text(), "본문\n");
    let plain = HwpReader::from_bytes(&build_file(0, &doc_info_stream(), &[section_stream(&["x"])])).unwrap();
    assert!(plain.preview_text.is_none());
}

fn distribution_record() -> Vec<u8> {
    let mut r = vec![0u8; 4];
    r.extend((0..256u32).map(|i| (i * 7 + 3) as u8));
    r
}

fn pkcs7_encrypt(key: &[u8], plain: &[u8]) -> Vec<u8> {
    let cipher = aes::Aes128::new_from_slice(key).unwrap();
    let mut data = plain.to_vec();
    let pad = 16 - data.len() % 16;
    data.extend(std::iter::repeat(pad as u8).take(pad));
    for chunk in data.chunks_mut(16) {
        let block = aes::cipher::generic_array::GenericArray::from_mut_slice(chunk);
        cipher.encrypt_block(block);
    }
    data
}

fn build_distribution_file(compressed: bool, paragraphs: &[&str]) -> Vec<u8> {
    let record = distribution_record();
    let key = hwpers::crypto::distribution_key(&record);
    let seal = |plain: &[u8]| {
        let mut body = record.clone();
        body.extend(pkcs7_encrypt(&key, plain));
        if compressed { deflate(&body) } else { body }
    };
    let flags = FLAG_DISTRIBUTION | if compressed { FLAG_COMPRESSED } else { 0 };
    let mut cf = cfb::CompoundFile::create(std::io::Cursor::new(Vec::new())).unwrap();
    cf.create_stream("FileHeader").unwrap().write_all(&header_bytes(flags)).unwrap();
    cf.create_stream("DocInfo").unwrap().write_all(&seal(&doc_info_stream())).unwrap();
    cf.create_storage("ViewText").unwrap();
    cf.create_stream("ViewText/Section0").unwrap().write_all(&seal(&section_stream(paragraphs))).unwrap();
    cf.create_storage("BodyText").unwrap();
    cf.create_stream("BodyText/Section0").unwrap().write_all(&section_stream(&["decoy"])).unwrap();
    cf.flush().unwrap();
    cf.into_inner().into_inner()
}

#[test]
fn distribution_key_follows_masked_secret() {
    let record = distribution_record();
    let data = &record[4..];
    let seed = u32::from_le_bytes([data[0], data[1], data[2], data[3]]);
    let mut state = seed;
    let mut rand = || {
        state = state.wrapping_mul(214013).wrapping_add(2531011);
        (state >> 16) & 0x7FFF
    };
    let mut plain = vec![0u8; 256];
    let (mut k, mut n) = (0u8, 0u32);
    for i in 0..256 {
        if n == 0 {
            k = (rand() & 0xFF) as u8;
            n = (rand() & 0xF) + 1;
        }
        plain[i] = data[i] ^ k;
        n -= 1;
    }
    let off = 4 + (seed & 0xF) as usize;
    let digest = sha1::Sha1::digest(&plain[off..off + 80]);
    assert_eq!(hwpers::crypto::distribution_key(&record), digest[..16].to_vec());
}

#[test]
fn distribution_document_is_decrypted() {
    for compressed in [false, true] {
        let file = build_distribution_file(compressed, &["배포용 문서 distribution", "둘째 문단"]);
        let doc = HwpReader::from_bytes(&file).unwrap();
        assert!(doc.is_distribution_document());
        assert_eq!(doc.extract_text(), "배포용 문서 distribution\n둘째 문단\n");
        assert_eq!(doc.doc_info.len(), 1);
    }
}

#[test]
fn decryption_keeps_last_block_without_padding() {
    let key = vec![7u8; 16];
    let mut block = vec![2u8; 15];
    block.push(9);
    let ct = pkcs7_encrypt(&key, &block);
    assert_eq!(ct.len(), 32);
    let plain = hwpers::crypto::decrypt_with_key(&key, &ct).unwrap();
    assert_eq!(plain, block);
    let no_pad = hwpers::crypto::decrypt_with_key(&key, &ct[..16]).unwrap();
    assert_eq!(no_pad, block);
    assert_eq!(hwpers::crypto::decrypt_with_key(&key, &ct[..15]).unwrap_err(), HwpError::CryptoError);
}

#[test]
fn preview_image_and_summary_are_carried() {
    let file = build_file(0, &doc_info_stream(), &[section_stream(&["본문"])]);
    let mut cf = cfb::CompoundFile::open(std::io::Cursor::new(file)).unwrap();
    let png = vec![0x89, 0x50, 0x4E, 0x47, 0x0D, 0x0A];
    cf.create_stream("PrvImage").unwrap().write_all(&png).unwrap();
    cf.create_stream("\u{5}HwpSummaryInformation").unwrap().write_all(&[0xFE, 0xFF, 0, 0]).unwrap();
    cf.flush().unwrap();
    let doc = HwpReader::from_bytes(&cf.into_inner().into_inner()).unwrap();
    let img = doc.preview_image.as_ref().unwrap();
    assert_eq!(img.data, png);
    assert_eq!(img.format, hwpers::ImageFormat::Png);
    assert_eq!(doc.summary_info, Some(vec![0xFE, 0xFF, 0, 0]));
    let plain = HwpReader::from_bytes(&build_file(0, &doc_info_stream(), &[section_stream(&["x"])])).unwrap();
    assert!(plain.preview_image.is_none() && plain.summary_info.is_none());
    assert_eq!(hwpers::model::image_format(&[0xFF, 0xD8, 0]), hwpers::ImageFormat::Jpeg);
    assert_eq!(hwpers::model::image_format(b"BM.."), hwpers::ImageFormat::Bmp);
    assert_eq!(hwpers::model::image_format(b"GIF89a"), hwpers::ImageFormat::Gif);
    assert_eq!(hwpers::model::image_format(b"x"), hwpers::ImageFormat::Unknown);
}
