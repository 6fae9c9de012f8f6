use vstd::prelude::*;

use crate::container::{build_zip, chars_of, string_of_chars, text_entries_view, zip_built};
use crate::error::HwpError;
use crate::reader::{decimal, push_decimal};

verus! {

/// Character formatting of HWPX text.
#[derive(Clone, Copy, Debug, Default, PartialEq, Eq, Structural)]
pub struct HwpxTextStyle {
    pub bold: bool,
    pub italic: bool,
    pub underline: bool,
    /// Font size in points, where it is not the default.
    pub font_size: Option<u32>,
}

/// Text with the XML special characters `&`, `<` and `>` escaped.
pub open spec fn escape(s: Seq<char>) -> Seq<char>
    decreases s.len(),
{
    if s.len() == 0 {
        Seq::empty()
    } else {
        let c = s.last();
        escape(s.drop_last()) + if c == '&' {
            "&amp;"@
        } else if c == '<' {
            "&lt;"@
        } else if c == '>' {
            "&gt;"@
        } else {
            seq![c]
        }
    }
}

/// One paragraph of section XML: a run with the paragraph's character
/// properties holding its escaped text.
pub open spec fn paragraph_xml(text: Seq<char>, id: u32) -> Seq<char> {
    "<hp:p paraPrIDRef=\"0\" styleIDRef=\"0\"><hp:run charPrIDRef=\""@ + decimal(id as nat) + "\"><hp:t>"@
        + escape(text) + "</hp:t></hp:run></hp:p>"@
}

pub open spec fn paragraphs_xml(ps: Seq<Seq<char>>, ids: Seq<u32>, k: nat) -> Seq<char>
    decreases k,
{
    if k == 0 {
        Seq::empty()
    } else {
        paragraphs_xml(ps, ids, (k - 1) as nat) + paragraph_xml(ps[k - 1], ids[k - 1])
    }
}

pub open spec fn section_xml(ps: Seq<Seq<char>>, ids: Seq<u32>) -> Seq<char> {
    SECTION_OPEN@ + paragraphs_xml(ps, ids, ps.len()) + "</hs:sec>"@
}

/// The character property of one style: its height in hundredths of a point
/// and its bold, italic and underline marks.
pub open spec fn char_pr_xml(s: HwpxTextStyle, id: u32) -> Seq<char> {
    "<hh:charPr id=\""@ + decimal(id as nat) + "\" height=\""@
        + height_xml(s) + "\">"@ + marks_xml(s) + "</hh:charPr>"@
}

pub open spec fn char_prs_xml(styles: Seq<HwpxTextStyle>, k: nat) -> Seq<char>
    decreases k,
{
    if k == 0 {
        Seq::empty()
    } else {
        char_prs_xml(styles, (k - 1) as nat) + char_pr_xml(styles[k - 1], (k - 1) as u32)
    }
}

pub open spec fn header_xml(styles: Seq<HwpxTextStyle>) -> Seq<char> {
    HEADER_OPEN@ + char_prs_xml(styles, styles.len()) + "</hh:charProperties></hh:refList></hh:head>"@
}

pub const SECTION_OPEN: &'static str = "<?xml version=\"1.0\" encoding=\"UTF-8\" standalone=\"yes\"?><hs:sec xmlns:hs=\"http://www.hancom.co.kr/hwpml/2011/section\" xmlns:hp=\"http://www.hancom.co.kr/hwpml/2011/paragraph\">";
pub const HEADER_OPEN: &'static str = "<?xml version=\"1.0\" encoding=\"UTF-8\" standalone=\"yes\"?><hh:head xmlns:hh=\"http://www.hancom.co.kr/hwpml/2011/head\" version=\"1.4\" secCnt=\"1\"><hh:refList><hh:charProperties>";
pub const MIMETYPE: &'static str = "application/hwp+zip";
pub const VERSION_XML: &'static str = "<?xml version=\"1.0\" encoding=\"UTF-8\" standalone=\"yes\"?><hv:HCFVersion xmlns:hv=\"http://www.hancom.co.kr/hwpml/2011/version\" tagetApplication=\"WORDPROCESSOR\" major=\"5\" minor=\"1\" micro=\"0\" buildNumber=\"1\" xmlVersion=\"1.4\" application=\"hwpers\"/>";
pub const CONTAINER_XML: &'static str = "<?xml version=\"1.0\" encoding=\"UTF-8\" standalone=\"yes\"?><ocf:container xmlns:ocf=\"urn:oasis:names:tc:opendocument:xmlns:container\"><ocf:rootfiles><ocf:rootfile full-path=\"Contents/content.hpf\" media-type=\"application/hwpml-package+xml\"/></ocf:rootfiles></ocf:container>";
pub const CONTENT_HPF: &'static str = "<?xml version=\"1.0\" encoding=\"UTF-8\" standalone=\"yes\"?><opf:package xmlns:opf=\"http://www.idpf.org/2007/opf/\" version=\"\" unique-identifier=\"\" id=\"\"><opf:manifest><opf:item id=\"header\" href=\"Contents/header.xml\" media-type=\"application/xml\"/><opf:item id=\"section0\" href=\"Contents/section0.xml\" media-type=\"application/xml\"/></opf:manifest><opf:spine><opf:itemref idref=\"header\" linear=\"yes\"/><opf:itemref idref=\"section0\" linear=\"yes\"/></opf:spine></opf:package>";

/// The archive the HWPX writer produces: the parts in a fixed order, the
/// mimetype first.
pub open spec fn written_package(ps: Seq<Seq<char>>, ids: Seq<u32>, styles: Seq<HwpxTextStyle>) -> Option<Seq<u8>> {
    zip_built(seq![
        ("mimetype"@, MIMETYPE@),
        ("version.xml"@, VERSION_XML@),
        ("META-INF/container.xml"@, CONTAINER_XML@),
        ("Contents/content.hpf"@, CONTENT_HPF@),
        ("Contents/header.xml"@, header_xml(styles)),
        ("Contents/section0.xml"@, section_xml(ps, ids)),
    ])
}

fn push_str(out: &mut Vec<char>, s: &str)
    ensures
        final(out)@ == old(out)@ + s@,
{
    let mut cs = chars_of(s);
    out.append(&mut cs);
}

fn push_escaped(out: &mut Vec<char>, text: &Vec<char>)
    ensures
        final(out)@ == old(out)@ + escape(text@),
{
    let mut i: usize = 0;
    assert(text@.subrange(0, 0) =~= Seq::<char>::empty());
    assert(old(out)@ + escape(Seq::<char>::empty()) =~= old(out)@);
    while i < text.len()
        invariant
            i <= text@.len(),
            out@ == old(out)@ + escape(text@.subrange(0, i as int)),
        decreases text@.len() - i,
    {
        let c = text[i];
        let ghost before = out@;
        if c == '&' {
            push_str(out, "&amp;");
        } else if c == '<' {
            push_str(out, "&lt;");
        } else if c == '>' {
            push_str(out, "&gt;");
        } else {
            out.push(c);
        }
        assert(text@.subrange(0, i + 1).drop_last() =~= text@.subrange(0, i as int));
        i = i + 1;
        assert(out@ =~= old(out)@ + escape(text@.subrange(0, i as int)));
    }
    assert(text@.subrange(0, i as int) =~= text@);
}

pub open spec fn height_xml(s: HwpxTextStyle) -> Seq<char> {
    match s.font_size {
        Some(p) => decimal(p as nat) + "00"@,
        None => "1000"@,
    }
}

pub open spec fn marks_xml(s: HwpxTextStyle) -> Seq<char> {
    (if s.bold { "<hh:bold/>"@ } else { Seq::empty() })
        + (if s.italic { "<hh:italic/>"@ } else { Seq::empty() })
        + (if s.underline { "<hh:underline type=\"BOTTOM\"/>"@ } else { Seq::empty() })
}

fn push_marks(out: &mut Vec<char>, s: HwpxTextStyle)
    ensures
        final(out)@ == old(out)@ + marks_xml(s),
{
    if s.bold {
        push_str(out, "<hh:bold/>");
    }
    if s.italic {
        push_str(out, "<hh:italic/>");
    }
    if s.underline {
        push_str(out, "<hh:underline type=\"BOTTOM\"/>");
    }
    assert(final(out)@ =~= old(out)@ + marks_xml(s));
}

fn push_char_pr(out: &mut Vec<char>, s: HwpxTextStyle, id: u32)
    ensures
        final(out)@ == old(out)@ + char_pr_xml(s, id),
{
    push_str(out, "<hh:charPr id=\"");
    push_decimal(out, id);
    push_str(out, "\" height=\"");
    let ghost a = out@;
    match s.font_size {
        Some(p) => {
            push_decimal(out, p);
            push_str(out, "00");
        },
        None => {
            push_str(out, "1000");
        },
    }
    assert(out@ =~= a + height_xml(s));
    push_str(out, "\">");
    push_marks(out, s);
    push_str(out, "</hh:charPr>");
    assert(final(out)@ =~= old(out)@ + char_pr_xml(s, id));
}

/// A builder for HWPX packages with one section.
pub struct HwpxWriter {
    /// The text of each paragraph, in order.
    pub paragraphs: Vec<Vec<char>>,
    /// The index into `styles` of each paragraph's character properties.
    pub style_ids: Vec<u32>,
    /// The character properties; the first is the default.
    pub styles: Vec<HwpxTextStyle>,
}

impl HwpxWriter {
    pub open spec fn wf(&self) -> bool {
        &&& self.paragraphs@.len() == self.style_ids@.len()
        &&& 1 <= self.styles@.len() <= u32::MAX
    }

    pub open spec fn paragraph_texts(&self) -> Seq<Seq<char>> {
        self.paragraphs@.map_values(|p: Vec<char>| p@)
    }

    /// Whether the writer's state holds together; callers that edit the
    /// fields directly test this before serializing.
    pub fn is_well_formed(&self) -> (r: bool)
        ensures
            r == self.wf(),
    {
        self.paragraphs.len() == self.style_ids.len() && self.styles.len() >= 1 && self.styles.len() <= 4294967295
    }

    /// A writer with no paragraphs.
    pub fn new() -> (w: HwpxWriter)
        ensures
            w.wf(),
            w.paragraph_texts().len() == 0,
            w.styles@ == seq![HwpxTextStyle { bold: false, italic: false, underline: false, font_size: None }],
    {
        let mut styles: Vec<HwpxTextStyle> = Vec::new();
        styles.push(HwpxTextStyle { bold: false, italic: false, underline: false, font_size: None });
        HwpxWriter { paragraphs: Vec::new(), style_ids: Vec::new(), styles }
    }

    /// Appends a paragraph in the default style.
    pub fn add_paragraph(&mut self, text: &str) -> (res: Result<(), HwpError>)
        requires
            old(self).wf(),
        ensures
            final(self).wf(),
            res is Ok,
            final(self).paragraph_texts() == old(self).paragraph_texts().push(text@),
            final(self).style_ids@ == old(self).style_ids@.push(0),
            final(self).styles@ == old(self).styles@,
    {
        let ghost before = self.paragraph_texts();
        self.paragraphs.push(chars_of(text));
        self.style_ids.push(0);
        assert(self.paragraph_texts() =~= before.push(text@));
        Ok(())
    }

    /// Appends a paragraph with character properties of its own; refused only
    /// where the style table is full.
    pub fn add_styled_paragraph(&mut self, text: &str, style: HwpxTextStyle) -> (res: Result<(), HwpError>)
        requires
            old(self).wf(),
        ensures
            final(self).wf(),
            old(self).styles@.len() < u32::MAX ==> {
                &&& res is Ok
                &&& final(self).paragraph_texts() == old(self).paragraph_texts().push(text@)
                &&& final(self).style_ids@ == old(self).style_ids@.push(old(self).styles@.len() as u32)
                &&& final(self).styles@ == old(self).styles@.push(style)
            },
            old(self).styles@.len() >= u32::MAX ==> res == Err::<(), HwpError>(HwpError::InvalidFormat) && *final(self) == *old(self),
    {
        if self.styles.len() >= 4294967295 {
            return Err(HwpError::InvalidFormat);
        }
        let id = self.styles.len() as u32;
        let ghost before = self.paragraph_texts();
        self.paragraphs.push(chars_of(text));
        self.style_ids.push(id);
        self.styles.push(style);
        assert(self.paragraph_texts() =~= before.push(text@));
        Ok(())
    }

    fn section(&self) -> (r: Vec<char>)
        requires
            self.wf(),
        ensures
            r@ == section_xml(self.paragraph_texts(), self.style_ids@),
    {
        let ghost ps = self.paragraph_texts();
        let mut out: Vec<char> = Vec::new();
        push_str(&mut out, SECTION_OPEN);
        let ghost base = out@;
        let mut k: usize = 0;
        assert(base + paragraphs_xml(ps, self.style_ids@, 0) =~= base);
        while k < self.paragraphs.len()
            invariant
                self.wf(),
                ps == self.paragraph_texts(),
                k <= self.paragraphs@.len(),
                out@ == base + paragraphs_xml(ps, self.style_ids@, k as nat),
            decreases self.paragraphs@.len() - k,
        {
            let ghost before = out@;
            push_str(&mut out, "<hp:p paraPrIDRef=\"0\" styleIDRef=\"0\"><hp:run charPrIDRef=\"");
            push_decimal(&mut out, self.style_ids[k]);
            push_str(&mut out, "\"><hp:t>");
            push_escaped(&mut out, &self.paragraphs[k]);
            push_str(&mut out, "</hp:t></hp:run></hp:p>");
            assert(out@ =~= before + paragraph_xml(ps[k as int], self.style_ids@[k as int]));
            k = k + 1;
            assert(out@ =~= base + paragraphs_xml(ps, self.style_ids@, k as nat));
        }
        push_str(&mut out, "</hs:sec>");
        out
    }

    fn header(&self) -> (r: Vec<char>)
        requires
            self.wf(),
        ensures
            r@ == header_xml(self.styles@),
    {
        let mut out: Vec<char> = Vec::new();
        push_str(&mut out, HEADER_OPEN);
        let ghost base = out@;
        let mut k: usize = 0;
        assert(base + char_prs_xml(self.styles@, 0) =~= base);
        while k < self.styles.len()
            invariant
                self.wf(),
                k <= self.styles@.len(),
                out@ == base + char_prs_xml(self.styles@, k as nat),
            decreases self.styles@.len() - k,
        {
            let s = self.styles[k];
            let ghost before = out@;
            push_char_pr(&mut out, s, k as u32);
            assert(out@ =~= before + char_pr_xml(s, k as u32));
            k = k + 1;
            assert(out@ =~= base + char_prs_xml(self.styles@, k as nat));
        }
        push_str(&mut out, "</hh:charProperties></hh:refList></hh:head>");
        out
    }

    /// Serializes the package. The same paragraphs and styles always give the
    /// same bytes.
    pub fn to_bytes(&self) -> (res: Result<Vec<u8>, HwpError>)
        requires
            self.wf(),
        ensures
            match res {
                Ok(b) => written_package(self.paragraph_texts(), self.style_ids@, self.styles@) == Some(b@),
                Err(e) => e == HwpError::Io && written_package(self.paragraph_texts(), self.style_ids@, self.styles@) is None,
            },
    {
        let header = string_of_chars(self.header().as_slice());
        let section = string_of_chars(self.section().as_slice());
        let mut entries: Vec<(&str, &str)> = Vec::new();
        entries.push(("mimetype", MIMETYPE));
        entries.push(("version.xml", VERSION_XML));
        entries.push(("META-INF/container.xml", CONTAINER_XML));
        entries.push(("Contents/content.hpf", CONTENT_HPF));
        entries.push(("Contents/header.xml", header.as_str()));
        entries.push(("Contents/section0.xml", section.as_str()));
        assert(text_entries_view(entries@) =~= seq![
            ("mimetype"@, MIMETYPE@),
            ("version.xml"@, VERSION_XML@),
            ("META-INF/container.xml"@, CONTAINER_XML@),
            ("Contents/content.hpf"@, CONTENT_HPF@),
            ("Contents/header.xml"@, header_xml(self.styles@)),
            ("Contents/section0.xml"@, section_xml(self.paragraph_texts(), self.style_ids@)),
        ]);
        match build_zip(entries.as_slice()) {
            Some(b) => Ok(b),
            None => Err(HwpError::Io),
        }
    }
}

} // verus!
