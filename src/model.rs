use vstd::prelude::*;

use crate::body_text::{Section, LINE_BREAK};
use crate::header::{flag_set, FileHeader, HeaderView, FLAG_DISTRIBUTION, FLAG_PASSWORD};
use crate::record::{records_view, Record, RecordView};

verus! {

/// The text `String::from_utf16_lossy` makes of a sequence of UTF-16 code units.
pub uninterp spec fn utf16_lossy(units: Seq<u16>) -> Seq<char>;

/// Relies on `String::from_utf16_lossy`: the text depends on the code units
/// alone, and no units give the empty string.
#[verifier::external_body]
fn string_from_utf16(units: &[u16]) -> (r: String)
    ensures
        r@ == utf16_lossy(units@),
        units@.len() == 0 ==> r@.len() == 0,
{
    String::from_utf16_lossy(units)
}

/// A decoded legacy document.
#[derive(Clone, Debug)]
pub struct HwpDocument {
    pub header: FileHeader,
    /// The document-info records, kept as framed.
    pub doc_info: Vec<Record>,
    /// The sections, in stream order.
    pub body_texts: Vec<Section>,
    /// The preview text stream's code units up to its terminating NUL, where
    /// the file has one.
    pub preview_text: Option<Vec<u16>>,
    /// The preview image stream, where the file has one.
    pub preview_image: Option<PreviewImage>,
    /// The summary-information property-set stream, kept as bytes, where the file has one.
    pub summary_info: Option<Vec<u8>>,
}

/// The format of a preview image, told by its first bytes.
#[derive(Clone, Copy, Debug, PartialEq, Eq, Structural)]
pub enum ImageFormat {
    Png,
    Jpeg,
    Bmp,
    Gif,
    Unknown,
}

/// A preview image: its bytes as stored, and their format.
#[derive(Clone, Debug)]
pub struct PreviewImage {
    pub data: Vec<u8>,
    pub format: ImageFormat,
}

/// The format whose magic bytes begin the data.
pub open spec fn image_format_of(b: Seq<u8>) -> ImageFormat {
    if b.len() >= 4 && b[0] == 0x89 && b[1] == 0x50 && b[2] == 0x4E && b[3] == 0x47 {
        ImageFormat::Png
    } else if b.len() >= 2 && b[0] == 0xFF && b[1] == 0xD8 {
        ImageFormat::Jpeg
    } else if b.len() >= 2 && b[0] == 0x42 && b[1] == 0x4D {
        ImageFormat::Bmp
    } else if b.len() >= 4 && b[0] == 0x47 && b[1] == 0x49 && b[2] == 0x46 && b[3] == 0x38 {
        ImageFormat::Gif
    } else {
        ImageFormat::Unknown
    }
}

/// Tells the format of image data by its magic bytes.
pub fn image_format(b: &[u8]) -> (f: ImageFormat)
    ensures
        f == image_format_of(b@),
{
    if b.len() >= 4 && b[0] == 0x89 && b[1] == 0x50 && b[2] == 0x4E && b[3] == 0x47 {
        ImageFormat::Png
    } else if b.len() >= 2 && b[0] == 0xFF && b[1] == 0xD8 {
        ImageFormat::Jpeg
    } else if b.len() >= 2 && b[0] == 0x42 && b[1] == 0x4D {
        ImageFormat::Bmp
    } else if b.len() >= 4 && b[0] == 0x47 && b[1] == 0x49 && b[2] == 0x46 && b[3] == 0x38 {
        ImageFormat::Gif
    } else {
        ImageFormat::Unknown
    }
}

pub open spec fn image_view(o: Option<PreviewImage>) -> Option<(Seq<u8>, ImageFormat)> {
    match o {
        Some(i) => Some((i.data@, i.format)),
        None => None,
    }
}

pub open spec fn option_bytes_view(o: Option<Vec<u8>>) -> Option<Seq<u8>> {
    match o {
        Some(v) => Some(v@),
        None => None,
    }
}

/// Mathematical view of a document: header, document-info records, sections,
/// preview text, preview image, summary information.
pub type DocumentView = (
    HeaderView,
    Seq<RecordView>,
    Seq<Seq<Seq<u16>>>,
    Option<Seq<u16>>,
    Option<(Seq<u8>, ImageFormat)>,
    Option<Seq<u8>>,
);

pub open spec fn option_units_view(o: Option<Vec<u16>>) -> Option<Seq<u16>> {
    match o {
        Some(v) => Some(v@),
        None => None,
    }
}

pub open spec fn sections_view(ss: Seq<Section>) -> Seq<Seq<Seq<u16>>> {
    ss.map_values(|s: Section| s@)
}

impl View for HwpDocument {
    type V = DocumentView;

    open spec fn view(&self) -> DocumentView {
        (
            self.header@,
            records_view(self.doc_info@),
            sections_view(self.body_texts@),
            option_units_view(self.preview_text),
            image_view(self.preview_image),
            option_bytes_view(self.summary_info),
        )
    }
}

/// The units of a run of paragraphs, each followed by a line break.
pub open spec fn paragraph_lines(ps: Seq<Seq<u16>>) -> Seq<u16>
    decreases ps.len(),
{
    if ps.len() == 0 {
        Seq::empty()
    } else {
        paragraph_lines(ps.drop_last()) + ps.last() + seq![LINE_BREAK]
    }
}

/// The units of the text of all sections, in order.
pub open spec fn document_units(ss: Seq<Seq<Seq<u16>>>) -> Seq<u16>
    decreases ss.len(),
{
    if ss.len() == 0 {
        Seq::empty()
    } else {
        document_units(ss.drop_last()) + paragraph_lines(ss.last())
    }
}

fn append_line(dst: &mut Vec<u16>, src: &Vec<u16>)
    ensures
        final(dst)@ == old(dst)@ + src@ + seq![LINE_BREAK],
{
    let mut j: usize = 0;
    while j < src.len()
        invariant
            j <= src@.len(),
            dst@ == old(dst)@ + src@.subrange(0, j as int),
        decreases src@.len() - j,
    {
        dst.push(src[j]);
        j = j + 1;
        assert(dst@ =~= old(dst)@ + src@.subrange(0, j as int));
    }
    assert(src@.subrange(0, j as int) =~= src@);
    dst.push(LINE_BREAK);
}

impl HwpDocument {
    /// The UTF-16 units of the document's text: every paragraph of every
    /// section, in order, each followed by a line break.
    pub fn extract_text_units(&self) -> (r: Vec<u16>)
        ensures
            r@ == document_units(self@.2),
    {
        let ghost ss = self@.2;
        let mut out: Vec<u16> = Vec::new();
        let mut i: usize = 0;
        assert(ss.subrange(0, 0) =~= Seq::<Seq<Seq<u16>>>::empty());
        while i < self.body_texts.len()
            invariant
                i <= self.body_texts@.len(),
                ss == sections_view(self.body_texts@),
                out@ == document_units(ss.subrange(0, i as int)),
            decreases self.body_texts@.len() - i,
        {
            let sec = &self.body_texts[i];
            let ghost ps = sec@;
            let ghost base = out@;
            let mut j: usize = 0;
            assert(ps.subrange(0, 0) =~= Seq::<Seq<u16>>::empty());
            while j < sec.paragraphs.len()
                invariant
                    j <= sec.paragraphs@.len(),
                    ps == sec@,
                    out@ == base + paragraph_lines(ps.subrange(0, j as int)),
                decreases sec.paragraphs@.len() - j,
            {
                append_line(&mut out, &sec.paragraphs[j].text);
                assert(ps.subrange(0, j + 1).drop_last() =~= ps.subrange(0, j as int));
                j = j + 1;
                assert(out@ =~= base + paragraph_lines(ps.subrange(0, j as int)));
            }
            assert(ps.subrange(0, j as int) =~= ps);
            assert(ss.subrange(0, i + 1).drop_last() =~= ss.subrange(0, i as int));
            i = i + 1;
        }
        assert(ss.subrange(0, i as int) =~= ss);
        out
    }

    /// The document's text: the units of `extract_text_units` as a string.
    pub fn extract_text(&self) -> (r: String)
        ensures
            r@ == utf16_lossy(document_units(self@.2)),
            document_units(self@.2).len() == 0 ==> r@.len() == 0,
    {
        let units = self.extract_text_units();
        string_from_utf16(units.as_slice())
    }

    /// Whether the header marks the document as password-encrypted.
    pub fn is_encrypted(&self) -> (r: bool)
        ensures
            r == flag_set(self.header.flags, FLAG_PASSWORD),
    {
        self.header.is_encrypted()
    }

    /// Whether the header marks the document as a distribution document.
    pub fn is_distribution_document(&self) -> (r: bool)
        ensures
            r == flag_set(self.header.flags, FLAG_DISTRIBUTION),
    {
        self.header.is_distribute()
    }
}

} // verus!
