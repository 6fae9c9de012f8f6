use vstd::prelude::*;

use crate::body_text::{section_paragraphs, unit_at, visible_units, TAG_PARA_HEADER, TAG_PARA_TEXT};
use crate::container::{build_compound_file, cfb_built, chars_of, deflate, names_view, raw_deflate, streams_view};
use crate::header::{emit_header, FileHeader, FLAG_COMPRESSED};
use crate::record::{decode_all, encode_all, encode_records, le_bytes, lemma_records_round_trip, push_le_word, records_view, EXTENDED_SIZE};
use crate::error::HwpError;
use crate::record::{record_encodable, Record, RecordView};

verus! {

pub const TAG_DOCUMENT_PROPERTIES: u16 = 16;
pub const TAG_ID_MAPPINGS: u16 = 17;
pub const TAG_CHAR_SHAPE: u16 = 21;
pub const TAG_PARA_SHAPE: u16 = 25;
pub const TAG_PARA_CHAR_SHAPE: u16 = 68;
pub const TAG_PARA_LINE_SEG: u16 = 69;

/// Code unit that ends every written paragraph.
pub const PARA_END: u16 = 13;

/// Most code units a written paragraph may hold.
pub const MAX_PARAGRAPH_UNITS: usize = 100000000;

/// The UTF-16 code units of one character.
pub open spec fn char_units(c: char) -> Seq<u16> {
    let u = c as u32;
    if u < 0x10000 {
        seq![u as u16]
    } else {
        seq![(0xD800 + (u - 0x10000) / 1024) as u16, (0xDC00 + (u - 0x10000) % 1024) as u16]
    }
}

/// The UTF-16 encoding of a text.
pub open spec fn utf16_units(s: Seq<char>) -> Seq<u16>
    decreases s.len(),
{
    if s.len() == 0 {
        Seq::empty()
    } else {
        utf16_units(s.drop_last()) + char_units(s.last())
    }
}

/// A character a paragraph can carry as text: not a control character, or a line feed.
pub open spec fn writable_char(c: char) -> bool {
    c as u32 >= 32 || c == '\n'
}

pub open spec fn writable_text(s: Seq<char>) -> bool {
    forall|i: int| 0 <= i < s.len() ==> writable_char(#[trigger] s[i])
}

/// Character formatting of written text.
#[derive(Clone, Copy, Debug, PartialEq, Eq, Structural)]
pub struct TextStyle {
    pub bold: bool,
    pub italic: bool,
    pub underline: bool,
    /// Font size in half points.
    pub font_size: u16,
}

impl TextStyle {
    /// Plain 10-point text.
    pub fn new() -> (s: TextStyle)
        ensures
            s == (TextStyle { bold: false, italic: false, underline: false, font_size: 20 }),
    {
        TextStyle { bold: false, italic: false, underline: false, font_size: 20 }
    }

    pub fn bold(self) -> (s: TextStyle)
        ensures
            s == (TextStyle { bold: true, ..self }),
    {
        TextStyle { bold: true, ..self }
    }

    pub fn italic(self) -> (s: TextStyle)
        ensures
            s == (TextStyle { italic: true, ..self }),
    {
        TextStyle { italic: true, ..self }
    }

    pub fn underline(self) -> (s: TextStyle)
        ensures
            s == (TextStyle { underline: true, ..self }),
    {
        TextStyle { underline: true, ..self }
    }

    /// Sets the font size in points.
    pub fn size(self, points: u16) -> (s: TextStyle)
        requires
            points <= 32767,
        ensures
            s == (TextStyle { font_size: (points * 2) as u16, ..self }),
    {
        TextStyle { font_size: points * 2, ..self }
    }
}

/// Version the writer records: 5.0.3.0.
pub const WRITER_VERSION: u32 = 0x05000300;

/// Bytes of the reserved part of the written file header.
pub const HEADER_RESERVED_LEN: usize = 216;

pub open spec fn zeros(n: nat) -> Seq<u8> {
    Seq::new(n, |i: int| 0u8)
}

/// Little-endian bytes of a sequence of code units.
pub open spec fn units_le(us: Seq<u16>) -> Seq<u8>
    decreases us.len(),
{
    if us.len() == 0 {
        Seq::empty()
    } else {
        seq![(us[0] % 256) as u8, (us[0] / 256) as u8] + units_le(us.drop_first())
    }
}

/// The paragraph-header payload for a paragraph of `n` code units: the unit
/// count, one character-shape span, one line segment, all ids zero.
pub open spec fn para_header_payload(n: u32) -> Seq<u8> {
    le_bytes(n) + zeros(8) + seq![1u8, 0, 0, 0, 1, 0] + zeros(4)
}

/// The records of one written paragraph.
pub open spec fn para_records(units: Seq<u16>, shape: u32) -> Seq<RecordView> {
    let text = units.push(PARA_END);
    seq![
        (TAG_PARA_HEADER, 0u16, para_header_payload(text.len() as u32)),
        (TAG_PARA_TEXT, 1u16, units_le(text)),
        (TAG_PARA_CHAR_SHAPE, 1u16, zeros(4) + le_bytes(shape)),
        (TAG_PARA_LINE_SEG, 1u16, zeros(36)),
    ]
}

/// The records of the first `k` written paragraphs.
pub open spec fn section_records(ps: Seq<Seq<u16>>, ids: Seq<u32>, k: nat) -> Seq<RecordView>
    decreases k,
{
    if k == 0 {
        Seq::empty()
    } else {
        section_records(ps, ids, (k - 1) as nat) + para_records(ps[k - 1], ids[k - 1])
    }
}

pub open spec fn shape_attributes(s: TextStyle) -> u32 {
    ((if s.italic { 1u32 } else { 0u32 }) + (if s.bold { 2u32 } else { 0u32 }) + (if s.underline { 4u32 } else { 0u32 })) as u32
}

/// A character shape: base size in hundredths of a point and the attribute bits.
pub open spec fn char_shape_payload(s: TextStyle) -> Seq<u8> {
    zeros(42) + le_bytes(((s.font_size as u32) * 50) as u32) + le_bytes(shape_attributes(s)) + zeros(22)
}

/// The document-info records of the first `k` character shapes.
pub open spec fn char_shape_records(styles: Seq<TextStyle>, k: nat) -> Seq<RecordView>
    decreases k,
{
    if k == 0 {
        Seq::empty()
    } else {
        char_shape_records(styles, (k - 1) as nat).push((TAG_CHAR_SHAPE, 1u16, char_shape_payload(styles[k - 1])))
    }
}

/// The written document-info records: properties (one section), the id
/// mappings (character shapes and one paragraph shape), the character shapes
/// and one paragraph shape.
pub open spec fn doc_info_records(styles: Seq<TextStyle>) -> Seq<RecordView> {
    seq![
        (TAG_DOCUMENT_PROPERTIES, 0u16, seq![1u8, 0, 1, 0, 1, 0, 1, 0, 1, 0, 1, 0, 1, 0] + zeros(12)),
        (TAG_ID_MAPPINGS, 0u16, zeros(36) + le_bytes(styles.len() as u32) + zeros(12) + le_bytes(1) + zeros(16)),
    ] + char_shape_records(styles, styles.len()) + seq![(TAG_PARA_SHAPE, 1u16, zeros(54))]
}

/// The header the writer emits: compressed, no other flag, zero reserved bytes.
pub open spec fn written_header() -> Seq<u8> {
    emit_header((WRITER_VERSION, FLAG_COMPRESSED, zeros(HEADER_RESERVED_LEN as nat)))
}

/// The file the writer produces for the given paragraphs, character-shape
/// ids and styles: the header, the compressed document info and the
/// compressed section, in a compound file with one `BodyText` storage.
pub open spec fn written_file(texts: Seq<Seq<u16>>, ids: Seq<u32>, styles: Seq<TextStyle>) -> Option<Seq<u8>> {
    match (raw_deflate(encode_all(doc_info_records(styles))), raw_deflate(encode_all(section_records(texts, ids, texts.len())))) {
        (Some(d), Some(b)) => cfb_built(
            seq!["BodyText"@],
            seq![("FileHeader"@, written_header()), ("DocInfo"@, d), ("BodyText/Section0"@, b)],
        ),
        _ => None,
    }
}

proof fn lemma_units_le_len(us: Seq<u16>)
    ensures
        units_le(us).len() == 2 * us.len(),
    decreases us.len(),
{
    if us.len() > 0 {
        lemma_units_le_len(us.drop_first());
    }
}

/// A code unit the writer can emit as text: no control code but the line feed.
pub open spec fn writable_unit(u: u16) -> bool {
    u >= 32 || u == 10
}

pub open spec fn writable_paragraphs(ps: Seq<Seq<u16>>) -> bool {
    forall|i: int, j: int| 0 <= i < ps.len() && 0 <= j < ps[i].len() ==> writable_unit(#[trigger] ps[i][j])
}

proof fn lemma_utf16_writable(s: Seq<char>)
    requires
        writable_text(s),
    ensures
        forall|j: int| 0 <= j < utf16_units(s).len() ==> writable_unit(#[trigger] utf16_units(s)[j]),
    decreases s.len(),
{
    if s.len() > 0 {
        let p = s.drop_last();
        assert forall|i: int| 0 <= i < p.len() implies writable_char(#[trigger] p[i]) by {
            assert(writable_char(s[i]));
        }
        lemma_utf16_writable(p);
        let c = s.last();
        assert(writable_char(s[s.len() - 1]));
        vstd::utf8::char_is_scalar(c);
        let cu = char_units(c);
        assert forall|j: int| 0 <= j < cu.len() implies writable_unit(#[trigger] cu[j]) by {
            let u = c as u32;
            if u >= 0x10000 {
                assert(u <= 0x10FFFF);
                assert(0xD800 <= 0xD800 + (u - 0x10000) / 1024 <= 0xDBFF);
                assert(0xDC00 <= 0xDC00 + (u - 0x10000) % 1024 <= 0xDFFF);
            }
        }
        let all = utf16_units(s);
        let q = utf16_units(p);
        assert forall|j: int| 0 <= j < all.len() implies writable_unit(#[trigger] all[j]) by {
            if j < q.len() {
                assert(all[j] == q[j]);
            } else {
                assert(all[j] == cu[j - q.len()]);
            }
        }
    }
}

proof fn lemma_unit_bytes(u: u16)
    ensures
        unit_at(seq![(u % 256) as u8, (u / 256) as u8]) == u,
{
    assert((((u % 256u16) as u8) as u16) + (((u / 256u16) as u8) as u16) * 256u16 == u) by (bit_vector);
}

proof fn lemma_text_reads_back(us: Seq<u16>)
    requires
        forall|j: int| 0 <= j < us.len() ==> writable_unit(#[trigger] us[j]),
    ensures
        visible_units(units_le(us.push(PARA_END))) == us,
    decreases us.len(),
{
    let b = units_le(us.push(PARA_END));
    if us.len() == 0 {
        assert(us.push(PARA_END).drop_first() =~= Seq::<u16>::empty());
        lemma_unit_bytes(PARA_END);
        assert(units_le(Seq::<u16>::empty()) == Seq::<u8>::empty());
        assert(b =~= seq![(PARA_END % 256) as u8, (PARA_END / 256) as u8]);
        assert(unit_at(b) == PARA_END);
        assert(b.subrange(2, b.len() as int) =~= Seq::<u8>::empty());
        assert(visible_units(Seq::<u8>::empty()) == Seq::<u16>::empty());
        assert(us =~= Seq::<u16>::empty());
    } else {
        let rest = us.drop_first();
        assert(us.push(PARA_END).drop_first() =~= rest.push(PARA_END));
        assert forall|j: int| 0 <= j < rest.len() implies writable_unit(#[trigger] rest[j]) by {
            assert(rest[j] == us[j + 1]);
        }
        lemma_text_reads_back(rest);
        let u = us[0];
        assert(writable_unit(us[0]));
        lemma_unit_bytes(u);
        assert(b[0] == (u % 256) as u8 && b[1] == (u / 256) as u8);
        assert(unit_at(b) == unit_at(seq![(u % 256) as u8, (u / 256) as u8]));
        assert(b.subrange(2, b.len() as int) =~= units_le(rest.push(PARA_END)));
        assert(seq![u] + rest =~= us);
    }
}

proof fn lemma_paragraph_reads_back(a: Seq<RecordView>, us: Seq<u16>, id: u32)
    requires
        forall|j: int| 0 <= j < us.len() ==> writable_unit(#[trigger] us[j]),
    ensures
        section_paragraphs(a + para_records(us, id)) == section_paragraphs(a).push(us),
{
    let r = para_records(us, id);
    let s4 = a + r;
    let s3 = a + r.subrange(0, 3);
    let s2 = a + r.subrange(0, 2);
    let s1 = a + r.subrange(0, 1);
    assert(s4.drop_last() =~= s3);
    assert(s3.drop_last() =~= s2);
    assert(s2.drop_last() =~= s1);
    assert(s1.drop_last() =~= a);
    lemma_text_reads_back(us);
    assert(section_paragraphs(s1) == section_paragraphs(a).push(Seq::<u16>::empty()));
    assert(s2.last() == r[1] && r[1].0 == TAG_PARA_TEXT);
    assert(section_paragraphs(s2) =~= section_paragraphs(a).push(us));
    assert(s3.last() == r[2] && r[2].0 == TAG_PARA_CHAR_SHAPE);
    assert(section_paragraphs(s3) == section_paragraphs(s2));
    assert(s4.last() == r[3] && r[3].0 == TAG_PARA_LINE_SEG);
    assert(section_paragraphs(s4) == section_paragraphs(s3));
}

proof fn lemma_section_records_encodable(ps: Seq<Seq<u16>>, ids: Seq<u32>, k: nat)
    requires
        k <= ps.len(),
        k <= ids.len(),
        forall|i: int| 0 <= i < ps.len() ==> #[trigger] ps[i].len() <= MAX_PARAGRAPH_UNITS,
    ensures
        forall|i: int| 0 <= i < section_records(ps, ids, k).len() ==> {
            &&& #[trigger] record_encodable(section_records(ps, ids, k)[i])
            &&& section_records(ps, ids, k)[i].2.len() != EXTENDED_SIZE
        },
    decreases k,
{
    if k > 0 {
        lemma_section_records_encodable(ps, ids, (k - 1) as nat);
        let p = section_records(ps, ids, (k - 1) as nat);
        let r = para_records(ps[k - 1], ids[k - 1]);
        lemma_units_le_len(ps[k - 1].push(PARA_END));
        assert forall|i: int| 0 <= i < section_records(ps, ids, k).len() implies {
            &&& #[trigger] record_encodable(section_records(ps, ids, k)[i])
            &&& section_records(ps, ids, k)[i].2.len() != EXTENDED_SIZE
        } by {
            if i < p.len() {
                assert(section_records(ps, ids, k)[i] == p[i]);
            } else {
                assert(section_records(ps, ids, k)[i] == r[i - p.len()]);
            }
        }
    }
}

/// The section stream the writer emits reads back as the written paragraphs:
/// its records decode from their encoding unchanged, and grouping them into
/// paragraphs gives each paragraph's code units, in order.
pub proof fn lemma_written_section_reads_back(ps: Seq<Seq<u16>>, ids: Seq<u32>)
    requires
        ids.len() == ps.len(),
        writable_paragraphs(ps),
        forall|i: int| 0 <= i < ps.len() ==> #[trigger] ps[i].len() <= MAX_PARAGRAPH_UNITS,
    ensures
        decode_all(encode_all(section_records(ps, ids, ps.len()))) == Some(section_records(ps, ids, ps.len())),
        section_paragraphs(section_records(ps, ids, ps.len())) == ps,
{
    let rs = section_records(ps, ids, ps.len());
    lemma_section_records_encodable(ps, ids, ps.len());
    assert forall|i: int| 0 <= i < rs.len() implies #[trigger] record_encodable(rs[i]) && rs[i].2.len() != EXTENDED_SIZE by {
        assert(record_encodable(section_records(ps, ids, ps.len())[i]));
    }
    lemma_records_round_trip(rs);
    lemma_sections_prefix(ps, ids, ps.len());
    assert(ps.subrange(0, ps.len() as int) =~= ps);
}

proof fn lemma_sections_prefix(ps: Seq<Seq<u16>>, ids: Seq<u32>, k: nat)
    requires
        k <= ps.len(),
        k <= ids.len(),
        writable_paragraphs(ps),
    ensures
        section_paragraphs(section_records(ps, ids, k)) == ps.subrange(0, k as int),
    decreases k,
{
    if k > 0 {
        lemma_sections_prefix(ps, ids, (k - 1) as nat);
        let us = ps[k - 1];
        assert forall|j: int| 0 <= j < us.len() implies writable_unit(#[trigger] us[j]) by {
            assert(writable_unit(ps[k - 1][j]));
        }
        lemma_paragraph_reads_back(section_records(ps, ids, (k - 1) as nat), us, ids[k - 1]);
        assert(ps.subrange(0, k - 1).push(us) =~= ps.subrange(0, k as int));
    } else {
        assert(section_records(ps, ids, 0) =~= Seq::<RecordView>::empty());
        assert(ps.subrange(0, 0) =~= Seq::<Seq<u16>>::empty());
    }
}

/// Serialization is a function of what the writer holds: writers with the same
/// paragraphs, shape ids and styles produce the same bytes.
pub proof fn lemma_writer_deterministic(a: HwpWriter, b: HwpWriter)
    requires
        a.paragraph_texts() == b.paragraph_texts(),
        a.shape_ids@ == b.shape_ids@,
        a.styles@ == b.styles@,
    ensures
        written_file(a.paragraph_texts(), a.shape_ids@, a.styles@) == written_file(b.paragraph_texts(), b.shape_ids@, b.styles@),
{
}

fn push_zeros(out: &mut Vec<u8>, n: usize)
    ensures
        final(out)@ == old(out)@ + zeros(n as nat),
{
    let mut i: usize = 0;
    while i < n
        invariant
            i <= n,
            out@ == old(out)@ + zeros(i as nat),
        decreases n - i,
    {
        out.push(0u8);
        i = i + 1;
        assert(out@ =~= old(out)@ + zeros(i as nat));
    }
}

fn zero_bytes(n: usize) -> (r: Vec<u8>)
    ensures
        r@ == zeros(n as nat),
{
    let mut r: Vec<u8> = Vec::new();
    push_zeros(&mut r, n);
    assert(r@ =~= zeros(n as nat));
    r
}

fn text_payload(units: &Vec<u16>) -> (r: Vec<u8>)
    requires
        units@.len() <= MAX_PARAGRAPH_UNITS,
    ensures
        r@ == units_le(units@.push(PARA_END)),
{
    let ghost text = units@.push(PARA_END);
    let n = units.len();
    let mut r: Vec<u8> = Vec::new();
    let mut i: usize = 0;
    assert(text.subrange(0, text.len() as int) =~= text);
    while i <= n
        invariant
            i <= n + 1,
            n == units@.len(),
            n <= MAX_PARAGRAPH_UNITS,
            text == units@.push(PARA_END),
            units_le(text) == r@ + units_le(text.subrange(i as int, text.len() as int)),
        decreases n + 1 - i,
    {
        let u: u16 = if i < n { units[i] } else { PARA_END };
        let ghost rest = text.subrange(i as int, text.len() as int);
        assert(rest[0] == u);
        assert(rest.drop_first() =~= text.subrange(i + 1, text.len() as int));
        let ghost before = r@;
        r.push((u % 256) as u8);
        r.push((u / 256) as u8);
        assert(r@ =~= before + seq![(u % 256) as u8, (u / 256) as u8]);
        i = i + 1;
    }
    assert(text.subrange(i as int, text.len() as int) =~= Seq::<u16>::empty());
    assert(r@ + Seq::<u8>::empty() =~= r@);
    r
}

fn paragraph_records(units: &Vec<u16>, shape: u32) -> (r: Vec<Record>)
    requires
        units@.len() <= MAX_PARAGRAPH_UNITS,
    ensures
        records_view(r@) == para_records(units@, shape),
{
    let mut header: Vec<u8> = Vec::new();
    push_le_word(&mut header, (units.len() + 1) as u32);
    push_zeros(&mut header, 8);
    header.push(1u8);
    header.push(0u8);
    header.push(0u8);
    header.push(0u8);
    header.push(1u8);
    header.push(0u8);
    push_zeros(&mut header, 4);
    assert(units@.push(PARA_END).len() as u32 == (units@.len() + 1) as u32);
    assert(header@ =~= para_header_payload(units@.push(PARA_END).len() as u32));
    let mut shape_span: Vec<u8> = Vec::new();
    push_zeros(&mut shape_span, 4);
    push_le_word(&mut shape_span, shape);
    assert(shape_span@ =~= zeros(4) + le_bytes(shape));
    let text = text_payload(units);
    let line_seg = zero_bytes(36);
    let mut r: Vec<Record> = Vec::new();
    r.push(Record { tag_id: TAG_PARA_HEADER, level: 0, payload: header });
    r.push(Record { tag_id: TAG_PARA_TEXT, level: 1, payload: text });
    r.push(Record { tag_id: TAG_PARA_CHAR_SHAPE, level: 1, payload: shape_span });
    r.push(Record { tag_id: TAG_PARA_LINE_SEG, level: 1, payload: line_seg });
    assert(records_view(r@) =~= para_records(units@, shape));
    r
}

fn doc_info(styles: &Vec<TextStyle>) -> (r: Vec<Record>)
    requires
        styles@.len() <= u32::MAX,
    ensures
        records_view(r@) == doc_info_records(styles@),
        forall|i: int| 0 <= i < r@.len() ==> #[trigger] record_encodable(r@[i]@),
{
    let mut props: Vec<u8> = vec![1u8, 0, 1, 0, 1, 0, 1, 0, 1, 0, 1, 0, 1, 0];
    push_zeros(&mut props, 12);
    let mut ids: Vec<u8> = zero_bytes(36);
    push_le_word(&mut ids, styles.len() as u32);
    push_zeros(&mut ids, 12);
    push_le_word(&mut ids, 1);
    push_zeros(&mut ids, 16);
    let mut r: Vec<Record> = Vec::new();
    r.push(Record { tag_id: TAG_DOCUMENT_PROPERTIES, level: 0, payload: props });
    r.push(Record { tag_id: TAG_ID_MAPPINGS, level: 0, payload: ids });
    let ghost head = records_view(r@);
    let mut k: usize = 0;
    while k < styles.len()
        invariant
            k <= styles@.len(),
            records_view(r@) == head + char_shape_records(styles@, k as nat),
            forall|i: int| 0 <= i < r@.len() ==> #[trigger] record_encodable(r@[i]@),
        decreases styles@.len() - k,
    {
        let s = styles[k];
        let mut p: Vec<u8> = zero_bytes(42);
        push_le_word(&mut p, (s.font_size as u32) * 50);
        let attr: u32 = (if s.italic { 1u32 } else { 0u32 }) + (if s.bold { 2u32 } else { 0u32 }) + (if s.underline { 4u32 } else { 0u32 });
        push_le_word(&mut p, attr);
        push_zeros(&mut p, 22);
        let ghost before = records_view(r@);
        let rec = Record { tag_id: TAG_CHAR_SHAPE, level: 1, payload: p };
        r.push(rec);
        assert(records_view(r@) =~= before.push(rec@));
        k = k + 1;
        assert(records_view(r@) =~= head + char_shape_records(styles@, k as nat));
    }
    let ghost mid = records_view(r@);
    let ghost mid_r = r@;
    let last = Record { tag_id: TAG_PARA_SHAPE, level: 1, payload: zero_bytes(54) };
    r.push(last);
    assert(records_view(r@) =~= mid.push(last@));
    assert(records_view(r@) =~= doc_info_records(styles@));
    assert forall|i: int| 0 <= i < r@.len() implies #[trigger] record_encodable(r@[i]@) by {
        if i < mid_r.len() {
            assert(r@[i] == mid_r[i]);
        }
    }
    r
}

fn all_section_records(w: &HwpWriter) -> (r: Vec<Record>)
    requires
        w.wf(),
    ensures
        records_view(r@) == section_records(w.paragraph_texts(), w.shape_ids@, w.paragraph_texts().len()),
        forall|i: int| 0 <= i < r@.len() ==> #[trigger] record_encodable(r@[i]@),
{
    let ghost texts = w.paragraph_texts();
    let mut all: Vec<Record> = Vec::new();
    let mut k: usize = 0;
    assert(records_view(all@) =~= Seq::<RecordView>::empty());
    while k < w.paragraphs.len()
        invariant
            w.wf(),
            texts == w.paragraph_texts(),
            k <= w.paragraphs@.len(),
            records_view(all@) == section_records(texts, w.shape_ids@, k as nat),
            forall|i: int| 0 <= i < all@.len() ==> #[trigger] record_encodable(all@[i]@),
        decreases w.paragraphs@.len() - k,
    {
        let units = &w.paragraphs[k];
        assert(units@.len() <= MAX_PARAGRAPH_UNITS);
        let mut rs = paragraph_records(units, w.shape_ids[k]);
        proof {
            lemma_units_le_len(units@.push(PARA_END));
        }
        let ghost before = all@;
        let ghost added = rs@;
        all.append(&mut rs);
        assert(records_view(all@) =~= records_view(before) + records_view(added));
        assert(section_records(texts, w.shape_ids@, (k + 1) as nat)
            == section_records(texts, w.shape_ids@, k as nat) + para_records(texts[k as int], w.shape_ids@[k as int]));
        assert(forall|i: int| 0 <= i < all@.len() ==> #[trigger] record_encodable(all@[i]@)) by {
            assert forall|i: int| 0 <= i < all@.len() implies #[trigger] record_encodable(all@[i]@) by {
                if i >= before.len() {
                    assert(all@[i]@ == para_records(units@, w.shape_ids@[k as int])[i - before.len()]);
                } else {
                    assert(all@[i] == before[i]);
                }
            }
        }
        k = k + 1;
    }
    all
}

/// Encodes a text as UTF-16 where it is writable.
fn encode_text(text: &str) -> (r: Option<Vec<u16>>)
    ensures
        match r {
            Some(u) => writable_text(text@) && u@ == utf16_units(text@),
            None => !writable_text(text@),
        },
{
    let cs = chars_of(text);
    let mut out: Vec<u16> = Vec::new();
    let mut i: usize = 0;
    assert(cs@.subrange(0, 0) =~= Seq::<char>::empty());
    while i < cs.len()
        invariant
            i <= cs@.len(),
            cs@ == text@,
            out@ == utf16_units(cs@.subrange(0, i as int)),
            writable_text(cs@.subrange(0, i as int)),
        decreases cs@.len() - i,
    {
        let c = cs[i];
        let u = c as u32;
        if u < 32 && c != '\n' {
            assert(!writable_char(text@[i as int]));
            return None;
        }
        let ghost before = out@;
        if u < 0x10000 {
            out.push(u as u16);
        } else {
            out.push((0xD800 + (u - 0x10000) / 1024) as u16);
            out.push((0xDC00 + (u - 0x10000) % 1024) as u16);
        }
        assert(cs@.subrange(0, i + 1).drop_last() =~= cs@.subrange(0, i as int));
        i = i + 1;
        assert(out@ =~= utf16_units(cs@.subrange(0, i as int)));
        assert(writable_text(cs@.subrange(0, i as int))) by {
            assert forall|k: int| 0 <= k < i implies writable_char(#[trigger] cs@.subrange(0, i as int)[k]) by {
                if k < i - 1 {
                    assert(cs@.subrange(0, i as int)[k] == cs@.subrange(0, i - 1)[k]);
                }
            }
        }
    }
    assert(cs@.subrange(0, i as int) =~= text@);
    Some(out)
}

/// A builder for new legacy documents with one section.
pub struct HwpWriter {
    /// The UTF-16 text of each paragraph, in order.
    pub paragraphs: Vec<Vec<u16>>,
    /// The index into `styles` of each paragraph's character shape.
    pub shape_ids: Vec<u32>,
    /// The character shapes; the first is the default.
    pub styles: Vec<TextStyle>,
}

impl HwpWriter {
    /// The writer's state holds together: one shape id per paragraph, each naming a style.
    pub open spec fn wf(&self) -> bool {
        &&& self.paragraphs@.len() == self.shape_ids@.len()
        &&& 1 <= self.styles@.len() <= u32::MAX
        &&& forall|i: int| 0 <= i < self.shape_ids@.len() ==> #[trigger] self.shape_ids@[i] < self.styles@.len()
        &&& forall|i: int| 0 <= i < self.paragraphs@.len() ==> #[trigger] self.paragraphs@[i]@.len() <= MAX_PARAGRAPH_UNITS
        &&& writable_paragraphs(self.paragraph_texts())
    }

    pub open spec fn paragraph_texts(&self) -> Seq<Seq<u16>> {
        self.paragraphs@.map_values(|p: Vec<u16>| p@)
    }

    /// Whether the writer's state holds together; callers that edit the
    /// fields directly test this before serializing.
    pub fn is_well_formed(&self) -> (r: bool)
        ensures
            r == self.wf(),
    {
        if self.paragraphs.len() != self.shape_ids.len() || self.styles.len() == 0 || self.styles.len() > 4294967295 {
            return false;
        }
        let mut i: usize = 0;
        while i < self.paragraphs.len()
            invariant
                i <= self.paragraphs@.len(),
                self.paragraphs@.len() == self.shape_ids@.len(),
                1 <= self.styles@.len() <= u32::MAX,
                forall|k: int| 0 <= k < i ==> #[trigger] self.shape_ids@[k] < self.styles@.len(),
                forall|k: int| 0 <= k < i ==> #[trigger] self.paragraphs@[k]@.len() <= MAX_PARAGRAPH_UNITS,
                forall|k: int, j: int| 0 <= k < i && 0 <= j < self.paragraph_texts()[k].len() ==> writable_unit(#[trigger] self.paragraph_texts()[k][j]),
            decreases self.paragraphs@.len() - i,
        {
            if self.shape_ids[i] as usize >= self.styles.len() || self.paragraphs[i].len() > MAX_PARAGRAPH_UNITS {
                return false;
            }
            let p = &self.paragraphs[i];
            assert(p@ == self.paragraph_texts()[i as int]);
            let mut j: usize = 0;
            while j < p.len()
                invariant
                    j <= p@.len(),
                    i < self.paragraphs@.len(),
                    p@ == self.paragraph_texts()[i as int],
                    forall|m: int| 0 <= m < j ==> writable_unit(#[trigger] p@[m]),
                decreases p@.len() - j,
            {
                if p[j] < 32 && p[j] != 10 {
                    assert(!writable_unit(self.paragraph_texts()[i as int][j as int]));
                    return false;
                }
                j = j + 1;
            }
            i = i + 1;
        }
        true
    }

    /// A writer with no paragraphs.
    pub fn new() -> (w: HwpWriter)
        ensures
            w.wf(),
            w.paragraph_texts().len() == 0,
            w.styles@ == seq![TextStyle { bold: false, italic: false, underline: false, font_size: 20 }],
    {
        let mut styles: Vec<TextStyle> = Vec::new();
        styles.push(TextStyle::new());
        assert(styles@ =~= seq![TextStyle { bold: false, italic: false, underline: false, font_size: 20 }]);
        HwpWriter { paragraphs: Vec::new(), shape_ids: Vec::new(), styles }
    }

    /// Appends a paragraph in the default style. Text holding a control
    /// character other than a line feed, or more than `MAX_PARAGRAPH_UNITS`
    /// code units, is refused.
    pub fn add_paragraph(&mut self, text: &str) -> (res: Result<(), HwpError>)
        requires
            old(self).wf(),
        ensures
            final(self).wf(),
            final(self).styles@ == old(self).styles@,
            (writable_text(text@) && utf16_units(text@).len() <= MAX_PARAGRAPH_UNITS) ==> {
                &&& res is Ok
                &&& final(self).paragraph_texts() == old(self).paragraph_texts().push(utf16_units(text@))
                &&& final(self).shape_ids@ == old(self).shape_ids@.push(0)
            },
            !(writable_text(text@) && utf16_units(text@).len() <= MAX_PARAGRAPH_UNITS) ==> {
                &&& res == Err::<(), HwpError>(HwpError::InvalidFormat)
                &&& final(self).paragraph_texts() == old(self).paragraph_texts()
                &&& final(self).shape_ids@ == old(self).shape_ids@
            },
    {
        self.push_paragraph(text, 0)
    }

    /// Appends a paragraph in the given style, which gets a character shape of its own.
    pub fn add_paragraph_with_style(&mut self, text: &str, style: &TextStyle) -> (res: Result<(), HwpError>)
        requires
            old(self).wf(),
        ensures
            final(self).wf(),
            (writable_text(text@) && utf16_units(text@).len() <= MAX_PARAGRAPH_UNITS && old(self).styles@.len() < u32::MAX) ==> {
                &&& res is Ok
                &&& final(self).paragraph_texts() == old(self).paragraph_texts().push(utf16_units(text@))
                &&& final(self).styles@ == old(self).styles@.push(*style)
                &&& final(self).shape_ids@ == old(self).shape_ids@.push(old(self).styles@.len() as u32)
            },
            !(writable_text(text@) && utf16_units(text@).len() <= MAX_PARAGRAPH_UNITS && old(self).styles@.len() < u32::MAX) ==> {
                &&& res == Err::<(), HwpError>(HwpError::InvalidFormat)
                &&& final(self).paragraph_texts() == old(self).paragraph_texts()
                &&& final(self).styles@ == old(self).styles@
            },
    {
        if self.styles.len() >= 4294967295 {
            return Err(HwpError::InvalidFormat);
        }
        let id = self.styles.len() as u32;
        let ghost before = *self;
        let res = self.push_paragraph(text, id);
        if res.is_ok() {
            self.styles.push(*style);
            assert(self.wf()) by {
                assert forall|i: int| 0 <= i < self.shape_ids@.len() implies #[trigger] self.shape_ids@[i] < self.styles@.len() by {
                    if i < before.shape_ids@.len() {
                        assert(self.shape_ids@[i] == before.shape_ids@[i]);
                    }
                }
            }
        }
        res
    }

    /// Serializes the document: a compound file holding the header, the
    /// compressed document info and the compressed section. The same paragraphs
    /// and styles always give the same bytes.
    pub fn to_bytes(&self) -> (res: Result<Vec<u8>, HwpError>)
        requires
            self.wf(),
        ensures
            match res {
                Ok(b) => written_file(self.paragraph_texts(), self.shape_ids@, self.styles@) == Some(b@),
                Err(e) => e == HwpError::Io && written_file(self.paragraph_texts(), self.shape_ids@, self.styles@) is None,
            },
    {
        let reserved: Vec<u8> = zero_bytes(HEADER_RESERVED_LEN);
        let header = FileHeader { version: WRITER_VERSION, flags: FLAG_COMPRESSED, reserved }.emit();
        let info = doc_info(&self.styles);
        let section = all_section_records(self);
        let info_bytes = match deflate(encode_records(&info).as_slice()) {
            Some(b) => b,
            None => return Err(HwpError::Io),
        };
        let section_bytes = match deflate(encode_records(&section).as_slice()) {
            Some(b) => b,
            None => return Err(HwpError::Io),
        };
        let mut storages: Vec<&str> = Vec::new();
        storages.push("BodyText");
        let mut streams: Vec<(&str, &[u8])> = Vec::new();
        streams.push(("FileHeader", header.as_slice()));
        streams.push(("DocInfo", info_bytes.as_slice()));
        streams.push(("BodyText/Section0", section_bytes.as_slice()));
        assert(names_view(storages@) =~= seq!["BodyText"@]);
        assert(streams_view(streams@) =~= seq![("FileHeader"@, written_header()), ("DocInfo"@, info_bytes@), ("BodyText/Section0"@, section_bytes@)]);
        match build_compound_file(storages.as_slice(), streams.as_slice()) {
            Some(b) => Ok(b),
            None => Err(HwpError::Io),
        }
    }

    fn push_paragraph(&mut self, text: &str, id: u32) -> (res: Result<(), HwpError>)
        requires
            old(self).wf(),
            id <= old(self).styles@.len(),
        ensures
            final(self).styles@ == old(self).styles@,
            final(self).paragraphs@.len() == final(self).shape_ids@.len(),
            forall|i: int| 0 <= i < final(self).paragraphs@.len() ==> #[trigger] final(self).paragraphs@[i]@.len() <= MAX_PARAGRAPH_UNITS,
            writable_paragraphs(final(self).paragraph_texts()),
            id < old(self).styles@.len() ==> final(self).wf(),
            res is Ok ==> forall|i: int| 0 <= i < old(self).shape_ids@.len() ==> #[trigger] final(self).shape_ids@[i] == old(self).shape_ids@[i],
            (writable_text(text@) && utf16_units(text@).len() <= MAX_PARAGRAPH_UNITS) ==> {
                &&& res is Ok
                &&& final(self).paragraph_texts() == old(self).paragraph_texts().push(utf16_units(text@))
                &&& final(self).shape_ids@ == old(self).shape_ids@.push(id)
            },
            !(writable_text(text@) && utf16_units(text@).len() <= MAX_PARAGRAPH_UNITS) ==> {
                &&& res == Err::<(), HwpError>(HwpError::InvalidFormat)
                &&& *final(self) == *old(self)
            },
    {
        let units = match encode_text(text) {
            Some(u) => u,
            None => return Err(HwpError::InvalidFormat),
        };
        if units.len() > MAX_PARAGRAPH_UNITS {
            return Err(HwpError::InvalidFormat);
        }
        let ghost before = self.paragraph_texts();
        proof {
            lemma_utf16_writable(text@);
        }
        self.paragraphs.push(units);
        self.shape_ids.push(id);
        assert(self.paragraph_texts() =~= before.push(utf16_units(text@)));
        assert(writable_paragraphs(self.paragraph_texts())) by {
            assert forall|i: int, j: int| 0 <= i < self.paragraph_texts().len() && 0 <= j < self.paragraph_texts()[i].len()
                implies writable_unit(#[trigger] self.paragraph_texts()[i][j]) by {
                if i < before.len() {
                    assert(self.paragraph_texts()[i] == before[i]);
                }
            }
        }
        Ok(())
    }
}

} // verus!
