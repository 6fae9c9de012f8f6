use vstd::prelude::*;

use crate::error::HwpError;
use crate::record::{decode_all, decode_records, records_view, Record, RecordView};

verus! {

/// Tag of the record that opens a paragraph.
pub const TAG_PARA_HEADER: u16 = 66;

/// Tag of the record that holds a paragraph's UTF-16 text.
pub const TAG_PARA_TEXT: u16 = 67;

/// Code unit of a line break.
pub const LINE_BREAK: u16 = 10;

/// Control codes that stand for an inline object and occupy eight code units.
pub open spec fn is_object_control(c: u16) -> bool {
    (1 <= c <= 9) || c == 11 || c == 12 || (14 <= c <= 23)
}

/// The code unit stored little-endian in the first two bytes.
pub open spec fn unit_at(b: Seq<u8>) -> u16 {
    (b[0] as int + b[1] as int * 256) as u16
}

/// The text units a paragraph-text payload shows: objects are skipped with
/// their parameters, line breaks kept, other controls dropped.
pub open spec fn visible_units(b: Seq<u8>) -> Seq<u16>
    decreases b.len(),
{
    if b.len() < 2 {
        Seq::empty()
    } else {
        let c = unit_at(b);
        if is_object_control(c) {
            if b.len() <= 16 {
                Seq::empty()
            } else {
                visible_units(b.subrange(16, b.len() as int))
            }
        } else if c < 32 && c != LINE_BREAK {
            visible_units(b.subrange(2, b.len() as int))
        } else {
            seq![c] + visible_units(b.subrange(2, b.len() as int))
        }
    }
}

/// The paragraphs a section's records describe: each paragraph header opens a
/// paragraph, and each text record extends the latest one.
pub open spec fn section_paragraphs(rs: Seq<RecordView>) -> Seq<Seq<u16>>
    decreases rs.len(),
{
    if rs.len() == 0 {
        Seq::empty()
    } else {
        let p = section_paragraphs(rs.drop_last());
        let r = rs.last();
        if r.0 == TAG_PARA_HEADER {
            p.push(Seq::empty())
        } else if r.0 == TAG_PARA_TEXT && p.len() > 0 {
            p.update(p.len() - 1, p.last() + visible_units(r.2))
        } else {
            p
        }
    }
}

/// One paragraph: the UTF-16 code units of its visible text.
#[derive(Clone, Debug)]
pub struct Paragraph {
    pub text: Vec<u16>,
}

/// One section: its paragraphs in order.
#[derive(Clone, Debug)]
pub struct Section {
    pub paragraphs: Vec<Paragraph>,
}

pub open spec fn paragraphs_view(ps: Seq<Paragraph>) -> Seq<Seq<u16>> {
    ps.map_values(|p: Paragraph| p.text@)
}

impl View for Section {
    type V = Seq<Seq<u16>>;

    open spec fn view(&self) -> Seq<Seq<u16>> {
        paragraphs_view(self.paragraphs@)
    }
}

/// What decoding a section stream yields.
pub open spec fn parse_section(b: Seq<u8>) -> Result<Seq<Seq<u16>>, HwpError> {
    match decode_all(b) {
        Some(rs) => Ok(section_paragraphs(rs)),
        None => Err(HwpError::InvalidFormat),
    }
}

/// Decodes the visible text of a paragraph-text payload.
pub fn paragraph_text(b: &[u8]) -> (r: Vec<u16>)
    ensures
        r@ == visible_units(b@),
{
    let mut out: Vec<u16> = Vec::new();
    let len = b.len();
    let mut i: usize = 0;
    assert(b@.subrange(0, len as int) =~= b@);
    while len - i >= 2
        invariant
            i <= len,
            len == b@.len(),
            visible_units(b@) == out@ + visible_units(b@.subrange(i as int, len as int)),
        decreases len - i,
    {
        let ghost cur = b@.subrange(i as int, len as int);
        let c: u16 = b[i] as u16 + (b[i + 1] as u16) * 256;
        assert(c == unit_at(cur));
        if (1 <= c && c <= 9) || c == 11 || c == 12 || (14 <= c && c <= 23) {
            if len - i <= 16 {
                assert(visible_units(cur) == Seq::<u16>::empty());
                i = len;
                assert(out@ + Seq::<u16>::empty() =~= out@);
                assert(visible_units(b@.subrange(i as int, len as int)) == Seq::<u16>::empty());
                assert(out@ + visible_units(b@.subrange(i as int, len as int)) =~= out@);
            } else {
                assert(cur.subrange(16, cur.len() as int) =~= b@.subrange(i + 16, len as int));
                i = i + 16;
            }
        } else if c < 32 && c != 10 {
            assert(cur.subrange(2, cur.len() as int) =~= b@.subrange(i + 2, len as int));
            i = i + 2;
        } else {
            assert(cur.subrange(2, cur.len() as int) =~= b@.subrange(i + 2, len as int));
            let ghost prev = out@;
            out.push(c);
            i = i + 2;
            assert(out@ + visible_units(b@.subrange(i as int, len as int))
                =~= prev + (seq![c] + visible_units(b@.subrange(i as int, len as int))));
        }
    }
    assert(visible_units(b@.subrange(i as int, len as int)) == Seq::<u16>::empty());
    assert(out@ + Seq::<u16>::empty() =~= out@);
    out
}

fn append_units(dst: &mut Vec<u16>, src: &Vec<u16>)
    ensures
        final(dst)@ == old(dst)@ + src@,
{
    let mut j: usize = 0;
    while j < src.len()
        invariant
            j <= src@.len(),
            dst@ == old(dst)@ + src@.subrange(0, j as int),
        decreases src@.len() - j,
    {
        dst.push(src[j]);
        j = j + 1;
        assert(dst@ =~= old(dst)@ + src@.subrange(0, j as int));
    }
    assert(src@.subrange(0, j as int) =~= src@);
}

/// Groups a section's records into paragraphs.
pub fn paragraphs_of(rs: &Vec<Record>) -> (s: Section)
    ensures
        s@ == section_paragraphs(records_view(rs@)),
{
    let ghost all = records_view(rs@);
    let mut done: Vec<Paragraph> = Vec::new();
    let mut current: Vec<u16> = Vec::new();
    let mut open: bool = false;
    let mut i: usize = 0;
    assert(all.subrange(0, 0) =~= Seq::<RecordView>::empty());
    assert(paragraphs_view(done@) =~= Seq::<Seq<u16>>::empty());
    while i < rs.len()
        invariant
            i <= rs@.len(),
            all == records_view(rs@),
            section_paragraphs(all.subrange(0, i as int)) == if open {
                paragraphs_view(done@).push(current@)
            } else {
                paragraphs_view(done@)
            },
            !open ==> done@.len() == 0,
        decreases rs@.len() - i,
    {
        let r = &rs[i];
        let ghost pre = all.subrange(0, i as int);
        assert(all.subrange(0, i + 1).drop_last() =~= pre);
        assert(all.subrange(0, i + 1).last() == r@);
        let ghost pv = paragraphs_view(done@);
        if r.tag_id == TAG_PARA_HEADER {
            if open {
                let p = Paragraph { text: current };
                done.push(p);
                assert(paragraphs_view(done@) =~= pv.push(p.text@));
            }
            current = Vec::new();
            open = true;
            assert(section_paragraphs(all.subrange(0, i + 1)) =~= paragraphs_view(done@).push(current@));
        } else if r.tag_id == TAG_PARA_TEXT && open {
            let t = paragraph_text(r.payload.as_slice());
            append_units(&mut current, &t);
            assert(section_paragraphs(all.subrange(0, i + 1)) =~= paragraphs_view(done@).push(current@));
        } else {
            assert(section_paragraphs(all.subrange(0, i + 1)) == section_paragraphs(pre));
        }
        i = i + 1;
    }
    assert(all.subrange(0, i as int) =~= all);
    if open {
        let ghost pv = paragraphs_view(done@);
        let p = Paragraph { text: current };
        done.push(p);
        assert(paragraphs_view(done@) =~= pv.push(p.text@));
    }
    Section { paragraphs: done }
}

/// Decodes a section stream into paragraphs.
pub fn parse_section_stream(b: &[u8]) -> (res: Result<Section, HwpError>)
    ensures
        match res {
            Ok(s) => parse_section(b@) == Ok::<Seq<Seq<u16>>, HwpError>(s@),
            Err(e) => parse_section(b@) == Err::<Seq<Seq<u16>>, HwpError>(e),
        },
{
    match decode_records(b) {
        Ok(rs) => Ok(paragraphs_of(&rs)),
        Err(e) => Err(e),
    }
}

} // verus!
