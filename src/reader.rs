use vstd::prelude::*;

use crate::body_text::{paragraphs_of, section_paragraphs, unit_at, Section};
use crate::container::{
    cfb_opens, cfb_stream, chars_of, inflate, is_compound_file, raw_inflate, read_compound_stream,
    string_of_chars,
};
use crate::crypto::{decrypt_body, decrypt_with_key, distribution_key, distribution_key_of, DISTRIBUTION_RECORD_LEN};
use crate::error::HwpError;
use crate::header::{flag_set, parse_header, FileHeader, HeaderView, FLAG_COMPRESSED, FLAG_DISTRIBUTION, FLAG_PASSWORD};
use crate::model::{image_format, image_format_of, image_view, option_bytes_view, option_units_view, sections_view, HwpDocument, ImageFormat, PreviewImage};
use crate::record::{decode_all, decode_records, records_view, Record, RecordView};

verus! {


pub open spec fn digit_char(d: nat) -> char {
    if d == 0 { '0' } else if d == 1 { '1' } else if d == 2 { '2' } else if d == 3 { '3' }
    else if d == 4 { '4' } else if d == 5 { '5' } else if d == 6 { '6' } else if d == 7 { '7' }
    else if d == 8 { '8' } else { '9' }
}

/// The decimal digits of a number, most significant first.
pub open spec fn decimal(n: nat) -> Seq<char>
    decreases n,
{
    if n < 10 {
        seq![digit_char(n)]
    } else {
        decimal(n / 10).push(digit_char(n % 10))
    }
}

/// The code units of a UTF-16LE text up to its first NUL.
pub open spec fn units_until_nul(b: Seq<u8>) -> Seq<u16>
    decreases b.len(),
{
    if b.len() < 2 || unit_at(b) == 0 {
        Seq::empty()
    } else {
        seq![unit_at(b)] + units_until_nul(b.subrange(2, b.len() as int))
    }
}

/// The preview text of a file, where it has a preview stream.
pub open spec fn preview_of(file: Seq<u8>) -> Option<Seq<u16>> {
    match cfb_stream(file, "PrvText"@) {
        Some(b) => Some(units_until_nul(b)),
        None => None,
    }
}

/// How the body streams of a file are read: whether they are compressed, and
/// the distribution record where the document is a distribution document.
pub type StreamMode = (bool, Option<Seq<u8>>);

/// The preview image of a file, where it has a preview image stream.
pub open spec fn preview_image_of(file: Seq<u8>) -> Option<(Seq<u8>, ImageFormat)> {
    match cfb_stream(file, "PrvImage"@) {
        Some(b) => Some((b, image_format_of(b))),
        None => None,
    }
}

/// The summary-information stream of a file, where it has one.
pub open spec fn summary_info_of(file: Seq<u8>) -> Option<Seq<u8>> {
    cfb_stream(file, "\u{5}HwpSummaryInformation"@)
}

/// The stream path of a body section: under `ViewText` in distribution
/// documents, under `BodyText` otherwise.
pub open spec fn section_path(n: nat, m: StreamMode) -> Seq<char> {
    (if m.1 is Some { "ViewText/Section"@ } else { "BodyText/Section"@ }) + decimal(n)
}

/// The body of a stream once the container and, where the header says so,
/// the compression layer are removed.
pub open spec fn stream_body(file: Seq<u8>, path: Seq<char>, compressed: bool) -> Result<Seq<u8>, HwpError> {
    match cfb_stream(file, path) {
        None => Err(HwpError::StreamNotFound),
        Some(b) => if compressed {
            match raw_inflate(b) {
                Some(d) => Ok(d),
                None => Err(HwpError::Io),
            }
        } else {
            Ok(b)
        },
    }
}

/// A stream body with the distribution layer removed: where there is a
/// distribution record and the body is longer than it, the bytes after its
/// first 260 are decrypted under the record's key.
pub open spec fn plain_data(d: Seq<u8>, record: Option<Seq<u8>>) -> Result<Seq<u8>, HwpError> {
    match record {
        None => Ok(d),
        Some(r) => if d.len() < DISTRIBUTION_RECORD_LEN {
            Ok(d)
        } else {
            match decrypt_body(distribution_key_of(r), d.subrange(DISTRIBUTION_RECORD_LEN as int, d.len() as int)) {
                Some(p) => Ok(p),
                None => Err(HwpError::CryptoError),
            }
        },
    }
}

/// The records of a stream.
pub open spec fn stream_records(file: Seq<u8>, path: Seq<char>, m: StreamMode) -> Result<Seq<RecordView>, HwpError> {
    match stream_body(file, path, m.0) {
        Err(e) => Err(e),
        Ok(d) => match plain_data(d, m.1) {
            Err(e) => Err(e),
            Ok(p) => match decode_all(p) {
                Some(rs) => Ok(rs),
                None => Err(HwpError::InvalidFormat),
            },
        },
    }
}

/// The paragraphs of body section `n`.
pub open spec fn section_result(file: Seq<u8>, n: nat, m: StreamMode) -> Result<Seq<Seq<u16>>, HwpError> {
    match stream_records(file, section_path(n, m), m) {
        Ok(rs) => Ok(section_paragraphs(rs)),
        Err(e) => Err(e),
    }
}

pub open spec fn section_present(file: Seq<u8>, n: nat, m: StreamMode) -> bool {
    cfb_stream(file, section_path(n, m)) is Some
}

/// Everything a document decode settles before the body sections: the header,
/// the document-info records and the distribution record (for distribution
/// documents, the first 260 bytes of the inflated document-info body), or the
/// error that stops the decode.
pub open spec fn document_front(file: Seq<u8>) -> Result<(HeaderView, Seq<RecordView>, Option<Seq<u8>>), HwpError> {
    if !cfb_opens(file) {
        Err(HwpError::Io)
    } else {
        match cfb_stream(file, "FileHeader"@) {
            None => Err(HwpError::StreamNotFound),
            Some(hb) => match parse_header(hb) {
                Err(e) => Err(e),
                Ok(h) => {
                    let c = flag_set(h.1, FLAG_COMPRESSED);
                    if flag_set(h.1, FLAG_PASSWORD) {
                        Err(HwpError::UnsupportedVersion)
                    } else if flag_set(h.1, FLAG_DISTRIBUTION) {
                        match stream_body(file, "DocInfo"@, c) {
                            Err(e) => Err(e),
                            Ok(d) => if d.len() < DISTRIBUTION_RECORD_LEN {
                                Err(HwpError::ParseError)
                            } else {
                                let r = d.subrange(0, DISTRIBUTION_RECORD_LEN as int);
                                match stream_records(file, "DocInfo"@, (c, Some(r))) {
                                    Err(e) => Err(e),
                                    Ok(rs) => Ok((h, rs, Some(r))),
                                }
                            },
                        }
                    } else {
                        match stream_records(file, "DocInfo"@, (c, None)) {
                            Err(e) => Err(e),
                            Ok(rs) => Ok((h, rs, None)),
                        }
                    }
                },
            },
        }
    }
}

/// Decoder for legacy documents held in compound files.
pub struct HwpReader;

fn digit(d: u32) -> (c: char)
    requires
        d < 10,
    ensures
        c == digit_char(d as nat),
{
    if d == 0 { '0' } else if d == 1 { '1' } else if d == 2 { '2' } else if d == 3 { '3' }
    else if d == 4 { '4' } else if d == 5 { '5' } else if d == 6 { '6' } else if d == 7 { '7' }
    else if d == 8 { '8' } else { '9' }
}

pub(crate) fn push_decimal(out: &mut Vec<char>, n: u32)
    ensures
        final(out)@ == old(out)@ + decimal(n as nat),
    decreases n,
{
    if n >= 10 {
        push_decimal(out, n / 10);
    }
    out.push(digit(n % 10));
    assert(final(out)@ =~= old(out)@ + decimal(n as nat));
}

pub open spec fn record_view(o: Option<&Vec<u8>>) -> Option<Seq<u8>> {
    match o {
        Some(v) => Some(v@),
        None => None,
    }
}

pub open spec fn owned_record_view(o: Option<Vec<u8>>) -> Option<Seq<u8>> {
    match o {
        Some(v) => Some(v@),
        None => None,
    }
}

fn section_name(n: u32, view_text: bool) -> (r: String)
    ensures
        r@ == section_path(n as nat, (false, if view_text { Some(Seq::<u8>::empty()) } else { None })),
{
    let mut cs = if view_text { chars_of("ViewText/Section") } else { chars_of("BodyText/Section") };
    push_decimal(&mut cs, n);
    string_of_chars(cs.as_slice())
}

fn read_body(file: &[u8], path: &str, compressed: bool) -> (res: Result<Vec<u8>, HwpError>)
    ensures
        match res {
            Ok(v) => stream_body(file@, path@, compressed) == Ok::<Seq<u8>, HwpError>(v@),
            Err(e) => stream_body(file@, path@, compressed) == Err::<Seq<u8>, HwpError>(e),
        },
{
    match read_compound_stream(file, path) {
        None => Err(HwpError::StreamNotFound),
        Some(b) => if compressed {
            match inflate(b.as_slice()) {
                Some(d) => Ok(d),
                None => Err(HwpError::Io),
            }
        } else {
            Ok(b)
        },
    }
}

/// Sections `0 .. k` all decode.
pub open spec fn sections_ok_upto(file: Seq<u8>, k: nat, m: StreamMode) -> bool {
    forall|j: nat| j < k ==> #[trigger] section_result(file, j, m) is Ok
}

/// The sections read in order from index 0 stop with error `e`: either there
/// is no section 0, or a present section fails to decode.
pub open spec fn sections_fail(file: Seq<u8>, m: StreamMode, e: HwpError) -> bool {
    exists|k: nat| {
        &&& sections_ok_upto(file, k, m)
        &&& ((k == 0 && !section_present(file, 0, m) && e == HwpError::InvalidFormat)
            || (k < u32::MAX && section_present(file, k, m) && section_result(file, k, m) == Err::<Seq<Seq<u16>>, HwpError>(e)))
    }
}

/// `ss` are the sections read in order from index 0 up to the first absent one.
pub open spec fn sections_read(file: Seq<u8>, m: StreamMode, ss: Seq<Seq<Seq<u16>>>) -> bool {
    &&& 1 <= ss.len() <= u32::MAX
    &&& forall|i: nat| i < ss.len() ==> #[trigger] section_result(file, i, m)
        == Ok::<Seq<Seq<u16>>, HwpError>(ss[i as int])
    &&& (!section_present(file, ss.len(), m) || ss.len() == u32::MAX)
}

/// The mode the body sections of a file are read in, once its front is known.
pub open spec fn front_mode(front: (HeaderView, Seq<RecordView>, Option<Seq<u8>>)) -> StreamMode {
    (flag_set(front.0.1, FLAG_COMPRESSED), front.2)
}

/// What decoding a legacy document from memory yields: the front
/// (`document_front`) decides first; then the sections are read.
pub open spec fn document_outcome(file: Seq<u8>, res: Result<HwpDocument, HwpError>) -> bool {
    match document_front(file) {
        Err(e) => res == Err::<HwpDocument, HwpError>(e),
        Ok(front) => {
            let m = front_mode(front);
            match res {
                Ok(doc) => {
                    &&& doc.header@ == front.0
                    &&& records_view(doc.doc_info@) == front.1
                    &&& sections_read(file, m, sections_view(doc.body_texts@))
                    &&& option_units_view(doc.preview_text) == preview_of(file)
                    &&& image_view(doc.preview_image) == preview_image_of(file)
                    &&& option_bytes_view(doc.summary_info) == summary_info_of(file)
                },
                Err(e) => sections_fail(file, m, e),
            }
        },
    }
}

proof fn lemma_read_section_present(file: Seq<u8>, i: nat, m: StreamMode)
    requires
        section_result(file, i, m) is Ok,
    ensures
        section_present(file, i, m),
{
}

/// Decoding is a function of the bytes: two successful decodes of the same
/// bytes give equal documents, hence equal extracted text; and where one
/// decode fails, none succeeds.
pub proof fn lemma_decode_deterministic(file: Seq<u8>, a: HwpDocument, b: HwpDocument, e: HwpError)
    ensures
        document_outcome(file, Ok(a)) && document_outcome(file, Ok(b)) ==> a@ == b@,
        document_outcome(file, Ok(a)) ==> !document_outcome(file, Err(e)),
{
    if document_outcome(file, Ok(a)) {
        let front = document_front(file)->Ok_0;
        let c = front_mode(front);
        let sa = sections_view(a.body_texts@);
        assert(sections_read(file, c, sa));
        if document_outcome(file, Ok(b)) {
            let sb = sections_view(b.body_texts@);
            assert(sections_read(file, c, sb));
            if sa.len() < sb.len() {
                assert(section_result(file, sa.len(), c) is Ok);
                lemma_read_section_present(file, sa.len(), c);
            }
            if sb.len() < sa.len() {
                assert(section_result(file, sb.len(), c) is Ok);
                lemma_read_section_present(file, sb.len(), c);
            }
            assert forall|i: int| 0 <= i < sa.len() implies sa[i] == sb[i] by {
                assert(section_result(file, i as nat, c) == Ok::<Seq<Seq<u16>>, HwpError>(sa[i]));
                assert(section_result(file, i as nat, c) == Ok::<Seq<Seq<u16>>, HwpError>(sb[i]));
            }
            assert(sa =~= sb);
            assert(a@.3 == b@.3);
            assert(a@.4 == b@.4);
            assert(a@.5 == b@.5);
        }
        if document_outcome(file, Err(e)) {
            let k = choose|k: nat| {
                &&& sections_ok_upto(file, k, c)
                &&& ((k == 0 && !section_present(file, 0, c) && e == HwpError::InvalidFormat)
                    || (k < u32::MAX && section_present(file, k, c) && section_result(file, k, c) == Err::<Seq<Seq<u16>>, HwpError>(e)))
            };
            assert(section_result(file, 0, c) == Ok::<Seq<Seq<u16>>, HwpError>(sa[0]));
            lemma_read_section_present(file, 0, c);
            if k < sa.len() {
                assert(section_result(file, k, c) == Ok::<Seq<Seq<u16>>, HwpError>(sa[k as int]));
            } else if k > sa.len() {
                assert(section_result(file, sa.len(), c) is Ok);
                lemma_read_section_present(file, sa.len(), c);
            }
        }
    }
}

impl HwpReader {
    /// Decodes a legacy document held in memory.
    pub fn from_bytes(bytes: &[u8]) -> (res: Result<HwpDocument, HwpError>)
        ensures
            document_outcome(bytes@, res),
    {
        Self::parse_document(bytes)
    }

    fn parse_document(bytes: &[u8]) -> (res: Result<HwpDocument, HwpError>)
        ensures
            document_outcome(bytes@, res),
    {
        let (header, doc_info, record) = match Self::read_front(bytes) {
            Ok(f) => f,
            Err(e) => return Err(e),
        };
        let compressed = header.is_compressed();
        match Self::read_sections(bytes, compressed, record.as_ref()) {
            Ok(body_texts) => {
                let preview_text = Self::read_preview_text(bytes);
                let preview_image = Self::read_preview_image(bytes);
                let summary_info = Self::read_summary_info(bytes);
                Ok(HwpDocument { header, doc_info, body_texts, preview_text, preview_image, summary_info })
            },
            Err(e) => Err(e),
        }
    }

    /// The records of a stream: read, inflated where `compressed`, the
    /// distribution layer removed where there is a record, then decoded.
    fn read_records(bytes: &[u8], path: &str, compressed: bool, record: Option<&Vec<u8>>) -> (res: Result<Vec<Record>, HwpError>)
        requires
            record matches Some(r) ==> r@.len() == DISTRIBUTION_RECORD_LEN,
        ensures
            match res {
                Ok(rs) => stream_records(bytes@, path@, (compressed, record_view(record))) == Ok::<Seq<RecordView>, HwpError>(records_view(rs@)),
                Err(e) => stream_records(bytes@, path@, (compressed, record_view(record))) == Err::<Seq<RecordView>, HwpError>(e),
            },
    {
        let data = match read_body(bytes, path, compressed) {
            Ok(d) => d,
            Err(e) => return Err(e),
        };
        let plain = match Self::decrypt_stream(data, record) {
            Ok(p) => p,
            Err(e) => return Err(e),
        };
        decode_records(plain.as_slice())
    }

    fn read_front(bytes: &[u8]) -> (res: Result<(FileHeader, Vec<Record>, Option<Vec<u8>>), HwpError>)
        ensures
            match res {
                Ok(f) => document_front(bytes@) == Ok::<(HeaderView, Seq<RecordView>, Option<Seq<u8>>), HwpError>(
                    (f.0@, records_view(f.1@), owned_record_view(f.2))),
                Err(e) => document_front(bytes@) == Err::<(HeaderView, Seq<RecordView>, Option<Seq<u8>>), HwpError>(e),
            },
            res matches Ok(f) ==> (f.2 matches Some(r) ==> r@.len() == DISTRIBUTION_RECORD_LEN),
    {
        if !is_compound_file(bytes) {
            return Err(HwpError::Io);
        }
        let header_data = match read_compound_stream(bytes, "FileHeader") {
            Some(d) => d,
            None => return Err(HwpError::StreamNotFound),
        };
        let header = match FileHeader::parse(header_data.as_slice()) {
            Ok(h) => h,
            Err(e) => return Err(e),
        };
        if header.is_encrypted() {
            return Err(HwpError::UnsupportedVersion);
        }
        let compressed = header.is_compressed();
        let record = if header.is_distribute() {
            match Self::read_distribution_record(bytes, compressed) {
                Ok(r) => Some(r),
                Err(e) => return Err(e),
            }
        } else {
            None
        };
        match Self::read_records(bytes, "DocInfo", compressed, record.as_ref()) {
            Ok(rs) => Ok((header, rs, record)),
            Err(e) => Err(e),
        }
    }

    fn read_sections(bytes: &[u8], compressed: bool, record: Option<&Vec<u8>>) -> (res: Result<Vec<Section>, HwpError>)
        requires
            record matches Some(r) ==> r@.len() == DISTRIBUTION_RECORD_LEN,
        ensures
            match res {
                Ok(ss) => sections_read(bytes@, (compressed, record_view(record)), sections_view(ss@)),
                Err(e) => sections_fail(bytes@, (compressed, record_view(record)), e),
            },
    {
        let ghost m = (compressed, record_view(record));
        let view_text = record.is_some();
        let mut body_texts: Vec<Section> = Vec::new();
        let mut idx: u32 = 0;
        loop
            invariant
                body_texts@.len() == idx,
                m == (compressed, record_view(record)),
                view_text == (record is Some),
                record matches Some(r) ==> r@.len() == DISTRIBUTION_RECORD_LEN,
                forall|i: nat| i < idx ==> #[trigger] section_result(bytes@, i, m)
                    == Ok::<Seq<Seq<u16>>, HwpError>(sections_view(body_texts@)[i as int]),
            ensures
                body_texts@.len() == idx,
                forall|i: nat| i < idx ==> #[trigger] section_result(bytes@, i, m)
                    == Ok::<Seq<Seq<u16>>, HwpError>(sections_view(body_texts@)[i as int]),
                !section_present(bytes@, idx as nat, m) || idx == u32::MAX,
            decreases u32::MAX - idx,
        {
            if idx == u32::MAX {
                break;
            }
            let name = section_name(idx, view_text);
            assert(name@ == section_path(idx as nat, m));
            if read_compound_stream(bytes, name.as_str()).is_none() {
                break;
            }
            let records = match Self::read_records(bytes, name.as_str(), compressed, record) {
                Ok(rs) => rs,
                Err(e) => {
                    assert(sections_ok_upto(bytes@, idx as nat, m));
                    assert(section_result(bytes@, idx as nat, m) == Err::<Seq<Seq<u16>>, HwpError>(e));
                    return Err(e);
                },
            };
            let section = paragraphs_of(&records);
            let ghost before = body_texts@;
            body_texts.push(section);
            assert(sections_view(body_texts@) =~= sections_view(before).push(section@));
            assert(section_result(bytes@, idx as nat, m) == Ok::<Seq<Seq<u16>>, HwpError>(section@));
            idx = idx + 1;
        }
        if body_texts.len() == 0 {
            assert(sections_ok_upto(bytes@, 0, m));
            return Err(HwpError::InvalidFormat);
        }
        Ok(body_texts)
    }

    /// The preview image and its format, where the file has a preview image stream.
    fn read_preview_image(bytes: &[u8]) -> (r: Option<PreviewImage>)
        ensures
            image_view(r) == preview_image_of(bytes@),
    {
        match read_compound_stream(bytes, "PrvImage") {
            Some(data) => {
                let format = image_format(data.as_slice());
                Some(PreviewImage { data, format })
            },
            None => None,
        }
    }

    /// The summary-information stream, where the file has one.
    fn read_summary_info(bytes: &[u8]) -> (r: Option<Vec<u8>>)
        ensures
            option_bytes_view(r) == summary_info_of(bytes@),
    {
        read_compound_stream(bytes, "\u{5}HwpSummaryInformation")
    }

    /// The preview text, where the file has a preview stream.
    fn read_preview_text(bytes: &[u8]) -> (r: Option<Vec<u16>>)
        ensures
            option_units_view(r) == preview_of(bytes@),
    {
        match read_compound_stream(bytes, "PrvText") {
            None => None,
            Some(b) => {
                let mut out: Vec<u16> = Vec::new();
                let len = b.len();
                let mut i: usize = 0;
                assert(b@.subrange(0, len as int) =~= b@);
                while len - i >= 2 && (b[i] != 0 || b[i + 1] != 0)
                    invariant
                        i <= len,
                        len == b@.len(),
                        units_until_nul(b@) == out@ + units_until_nul(b@.subrange(i as int, len as int)),
                    decreases len - i,
                {
                    let ghost cur = b@.subrange(i as int, len as int);
                    let c: u16 = b[i] as u16 + (b[i + 1] as u16) * 256;
                    assert(c == unit_at(cur));
                    assert(cur.subrange(2, cur.len() as int) =~= b@.subrange(i + 2, len as int));
                    let ghost before = out@;
                    out.push(c);
                    i = i + 2;
                    assert(out@ + units_until_nul(b@.subrange(i as int, len as int))
                        =~= before + (seq![c] + units_until_nul(b@.subrange(i as int, len as int))));
                }
                let ghost rest = b@.subrange(i as int, len as int);
                assert(rest.len() >= 2 ==> unit_at(rest) == 0);
                assert(units_until_nul(rest) == Seq::<u16>::empty());
                assert(out@ + Seq::<u16>::empty() =~= out@);
                Some(out)
            },
        }
    }

    /// The distribution record: the first 260 bytes of the document-info body.
    fn read_distribution_record(bytes: &[u8], is_compressed: bool) -> (res: Result<Vec<u8>, HwpError>)
        ensures
            match stream_body(bytes@, "DocInfo"@, is_compressed) {
                Err(e) => res == Err::<Vec<u8>, HwpError>(e),
                Ok(d) => if d.len() < DISTRIBUTION_RECORD_LEN {
                    res == Err::<Vec<u8>, HwpError>(HwpError::ParseError)
                } else {
                    res matches Ok(r) && r@ == d.subrange(0, DISTRIBUTION_RECORD_LEN as int)
                },
            },
    {
        let data = match read_body(bytes, "DocInfo", is_compressed) {
            Ok(d) => d,
            Err(e) => return Err(e),
        };
        if data.len() < DISTRIBUTION_RECORD_LEN {
            return Err(HwpError::ParseError);
        }
        let mut out: Vec<u8> = Vec::new();
        let mut i: usize = 0;
        while i < DISTRIBUTION_RECORD_LEN
            invariant
                i <= DISTRIBUTION_RECORD_LEN <= data@.len(),
                out@ == data@.subrange(0, i as int),
            decreases DISTRIBUTION_RECORD_LEN - i,
        {
            out.push(data[i]);
            i = i + 1;
            assert(out@ =~= data@.subrange(0, i as int));
        }
        Ok(out)
    }

    /// Removes the distribution layer from a stream body. Without a
    /// distribution record, or for a body no longer than the record, the body
    /// comes back unchanged; otherwise the bytes after its first 260 are
    /// decrypted under the key the record yields.
    fn decrypt_stream(data: Vec<u8>, distribution_record: Option<&Vec<u8>>) -> (res: Result<Vec<u8>, HwpError>)
        requires
            distribution_record matches Some(r) ==> r@.len() == DISTRIBUTION_RECORD_LEN,
        ensures
            match plain_data(data@, record_view(distribution_record)) {
                Ok(p) => res matches Ok(r) && r@ == p,
                Err(e) => res == Err::<Vec<u8>, HwpError>(e),
            },
    {
        match distribution_record {
            None => Ok(data),
            Some(r) => {
                if data.len() < DISTRIBUTION_RECORD_LEN {
                    return Ok(data);
                }
                let key = distribution_key(r.as_slice());
                let mut body: Vec<u8> = Vec::new();
                let mut i: usize = DISTRIBUTION_RECORD_LEN;
                while i < data.len()
                    invariant
                        DISTRIBUTION_RECORD_LEN <= i <= data@.len(),
                        body@ == data@.subrange(DISTRIBUTION_RECORD_LEN as int, i as int),
                    decreases data@.len() - i,
                {
                    body.push(data[i]);
                    i = i + 1;
                    assert(body@ =~= data@.subrange(DISTRIBUTION_RECORD_LEN as int, i as int));
                }
                decrypt_with_key(&key, body.as_slice())
            },
        }
    }
}

} // verus!
