use vstd::prelude::*;

use crate::container::{chars_of, read_zip_entry, string_of_chars, zip_entry};
use crate::error::HwpError;
use crate::hwpx::MIMETYPE;
use crate::reader::{decimal, push_decimal};

verus! {

/// What an entity reference between `&` and `;` stands for; an unknown one
/// stands for itself.
pub open spec fn entity_text(ent: Seq<char>) -> Seq<char> {
    if ent == "amp"@ {
        seq!['&']
    } else if ent == "lt"@ {
        seq!['<']
    } else if ent == "gt"@ {
        seq!['>']
    } else if ent == "quot"@ {
        seq!['"']
    } else if ent == "apos"@ {
        seq!['\'']
    } else {
        seq!['&'] + ent + seq![';']
    }
}

/// Whether the contents of a tag open an element of the given name.
pub open spec fn tag_named(tag: Seq<char>, name: Seq<char>) -> bool {
    tag == name || (tag.len() > name.len() && tag.subrange(0, name.len() as int) == name
        && (tag[name.len() as int] == ' ' || tag[name.len() as int] == '/'))
}

pub open spec fn self_closing(tag: Seq<char>) -> bool {
    tag.len() > 0 && tag.last() == '/'
}

/// The scanner over section XML. Paragraphs are `hp:p` elements; their text
/// is the character data of the `hp:t` elements inside them.
#[derive(Debug)]
pub struct XmlScan {
    pub paras: Vec<Vec<char>>,
    pub cur: Vec<char>,
    pub in_para: bool,
    pub in_tag: bool,
    pub tag: Vec<char>,
    pub in_text: bool,
    pub in_ent: bool,
    pub ent: Vec<char>,
}

/// (paragraphs, current text, in paragraph, in tag, tag, in text, in entity, entity)
pub type ScanView = (Seq<Seq<char>>, Seq<char>, bool, bool, Seq<char>, bool, bool, Seq<char>);

impl View for XmlScan {
    type V = ScanView;

    open spec fn view(&self) -> ScanView {
        (self.paras@.map_values(|p: Vec<char>| p@), self.cur@, self.in_para, self.in_tag, self.tag@, self.in_text, self.in_ent, self.ent@)
    }
}

pub open spec fn scan_start() -> ScanView {
    (Seq::empty(), Seq::empty(), false, false, Seq::empty(), false, false, Seq::empty())
}

/// The scanner's state once a tag closes.
pub open spec fn close_tag(v: ScanView) -> ScanView {
    let t = v.4;
    let w = (v.0, v.1, v.2, false, Seq::<char>::empty(), v.5, v.6, v.7);
    if tag_named(t, "hp:p"@) {
        if self_closing(t) {
            (w.0.push(Seq::empty()), w.1, w.2, w.3, w.4, w.5, w.6, w.7)
        } else {
            (w.0, Seq::empty(), true, w.3, w.4, w.5, w.6, w.7)
        }
    } else if t == "/hp:p"@ {
        if w.2 {
            (w.0.push(w.1), Seq::empty(), false, w.3, w.4, w.5, w.6, w.7)
        } else {
            w
        }
    } else if tag_named(t, "hp:t"@) {
        (w.0, w.1, w.2, w.3, w.4, !self_closing(t), w.6, w.7)
    } else if t == "/hp:t"@ {
        (w.0, w.1, w.2, w.3, w.4, false, w.6, w.7)
    } else {
        w
    }
}

/// The scanner's state after one more character.
pub open spec fn scan_step(v: ScanView, c: char) -> ScanView {
    if v.3 {
        if c == '>' {
            close_tag(v)
        } else {
            (v.0, v.1, v.2, v.3, v.4.push(c), v.5, v.6, v.7)
        }
    } else if c == '<' {
        (v.0, v.1, v.2, true, Seq::empty(), v.5, false, Seq::empty())
    } else if v.5 && v.2 {
        if v.6 {
            if c == ';' {
                (v.0, v.1 + entity_text(v.7), v.2, v.3, v.4, v.5, false, Seq::empty())
            } else {
                (v.0, v.1, v.2, v.3, v.4, v.5, v.6, v.7.push(c))
            }
        } else if c == '&' {
            (v.0, v.1, v.2, v.3, v.4, v.5, true, Seq::empty())
        } else {
            (v.0, v.1.push(c), v.2, v.3, v.4, v.5, v.6, v.7)
        }
    } else {
        v
    }
}

pub open spec fn scan(s: Seq<char>) -> ScanView
    decreases s.len(),
{
    if s.len() == 0 {
        scan_start()
    } else {
        scan_step(scan(s.drop_last()), s.last())
    }
}

/// The paragraphs of a section part.
pub open spec fn section_paragraph_texts(s: Seq<char>) -> Seq<Seq<char>> {
    scan(s).0
}

fn equals_str(a: &Vec<char>, s: &str) -> (r: bool)
    ensures
        r == (a@ == s@),
{
    let b = chars_of(s);
    if a.len() != b.len() {
        return false;
    }
    let mut i: usize = 0;
    while i < a.len()
        invariant
            i <= a@.len(),
            a@.len() == b@.len(),
            b@ == s@,
            a@.subrange(0, i as int) == b@.subrange(0, i as int),
        decreases a@.len() - i,
    {
        if a[i] != b[i] {
            assert(a@[i as int] != b@[i as int]);
            return false;
        }
        i = i + 1;
        assert(a@.subrange(0, i as int) =~= b@.subrange(0, i as int));
    }
    assert(a@ =~= a@.subrange(0, i as int));
    assert(b@ =~= b@.subrange(0, i as int));
    true
}

fn named(tag: &Vec<char>, name: &str) -> (r: bool)
    ensures
        r == tag_named(tag@, name@),
{
    let n = chars_of(name);
    if equals_str(tag, name) {
        return true;
    }
    if tag.len() <= n.len() {
        return false;
    }
    let mut i: usize = 0;
    while i < n.len()
        invariant
            i <= n@.len() < tag@.len(),
            n@ == name@,
            tag@.subrange(0, i as int) == n@.subrange(0, i as int),
        decreases n@.len() - i,
    {
        if tag[i] != n[i] {
            assert(tag@.subrange(0, n@.len() as int)[i as int] != n@[i as int]);
            return false;
        }
        i = i + 1;
        assert(tag@.subrange(0, i as int) =~= n@.subrange(0, i as int));
    }
    assert(n@.subrange(0, i as int) =~= n@);
    tag[n.len()] == ' ' || tag[n.len()] == '/'
}

fn entity(ent: &Vec<char>) -> (r: Vec<char>)
    ensures
        r@ == entity_text(ent@),
{
    let mut r: Vec<char> = Vec::new();
    if equals_str(ent, "amp") {
        r.push('&');
    } else if equals_str(ent, "lt") {
        r.push('<');
    } else if equals_str(ent, "gt") {
        r.push('>');
    } else if equals_str(ent, "quot") {
        r.push('"');
    } else if equals_str(ent, "apos") {
        r.push('\'');
    } else {
        r.push('&');
        let mut i: usize = 0;
        while i < ent.len()
            invariant
                i <= ent@.len(),
                r@ == seq!['&'] + ent@.subrange(0, i as int),
            decreases ent@.len() - i,
        {
            r.push(ent[i]);
            i = i + 1;
            assert(r@ =~= seq!['&'] + ent@.subrange(0, i as int));
        }
        r.push(';');
        assert(ent@.subrange(0, i as int) =~= ent@);
    }
    assert(r@ =~= entity_text(ent@));
    r
}

impl XmlScan {
    fn close(&mut self)
        requires
            old(self).in_tag,
        ensures
            final(self)@ == close_tag(old(self)@),
    {
        let ghost v = self@;
        let mut t: Vec<char> = Vec::new();
        std::mem::swap(&mut self.tag, &mut t);
        self.in_tag = false;
        if named(&t, "hp:p") {
            if t.len() > 0 && t[t.len() - 1] == '/' {
                let ghost ps = self@.0;
                self.paras.push(Vec::new());
                assert(self@.0 =~= ps.push(Seq::empty()));
            } else {
                self.cur = Vec::new();
                self.in_para = true;
            }
        } else if equals_str(&t, "/hp:p") {
            if self.in_para {
                let mut done: Vec<char> = Vec::new();
                std::mem::swap(&mut self.cur, &mut done);
                let ghost ps = self@.0;
                self.paras.push(done);
                self.in_para = false;
                assert(self@.0 =~= ps.push(v.1));
            }
        } else if named(&t, "hp:t") {
            self.in_text = !(t.len() > 0 && t[t.len() - 1] == '/');
        } else if equals_str(&t, "/hp:t") {
            self.in_text = false;
        }
        assert(self@ =~= close_tag(v));
    }

    fn step(&mut self, c: char)
        ensures
            final(self)@ == scan_step(old(self)@, c),
    {
        let ghost v = self@;
        if self.in_tag {
            if c == '>' {
                self.close();
            } else {
                self.tag.push(c);
                assert(self@ =~= scan_step(v, c));
            }
        } else if c == '<' {
            self.in_tag = true;
            self.tag = Vec::new();
            self.in_ent = false;
            self.ent = Vec::new();
            assert(self@ =~= scan_step(v, c));
        } else if self.in_text && self.in_para {
            if self.in_ent {
                if c == ';' {
                    let mut t = entity(&self.ent);
                    self.cur.append(&mut t);
                    self.in_ent = false;
                    self.ent = Vec::new();
                } else {
                    self.ent.push(c);
                }
            } else if c == '&' {
                self.in_ent = true;
                self.ent = Vec::new();
            } else {
                self.cur.push(c);
            }
            assert(self@ =~= scan_step(v, c));
        }
    }
}

/// Reads the paragraphs of a section part.
pub fn parse_section_xml(text: &str) -> (r: Vec<Vec<char>>)
    ensures
        r@.map_values(|p: Vec<char>| p@) == section_paragraph_texts(text@),
{
    let cs = chars_of(text);
    let mut st = XmlScan {
        paras: Vec::new(),
        cur: Vec::new(),
        in_para: false,
        in_tag: false,
        tag: Vec::new(),
        in_text: false,
        in_ent: false,
        ent: Vec::new(),
    };
    assert(st@ =~= scan_start());
    assert(cs@.subrange(0, 0) =~= Seq::<char>::empty());
    let mut i: usize = 0;
    while i < cs.len()
        invariant
            i <= cs@.len(),
            cs@ == text@,
            st@ == scan(cs@.subrange(0, i as int)),
        decreases cs@.len() - i,
    {
        st.step(cs[i]);
        assert(cs@.subrange(0, i + 1).drop_last() =~= cs@.subrange(0, i as int));
        i = i + 1;
    }
    assert(cs@.subrange(0, i as int) =~= text@);
    st.paras
}

/// The archive entry of section `n`.
pub open spec fn section_part(n: nat) -> Seq<char> {
    "Contents/section"@ + decimal(n) + ".xml"@
}

/// A decoded HWPX package: the paragraphs of each section, in order.
#[derive(Debug)]
pub struct HwpxDocument {
    pub sections: Vec<Vec<Vec<char>>>,
}

impl View for HwpxDocument {
    type V = Seq<Seq<Seq<char>>>;

    open spec fn view(&self) -> Seq<Seq<Seq<char>>> {
        self.sections@.map_values(|s: Vec<Vec<char>>| s@.map_values(|p: Vec<char>| p@))
    }
}

/// The lines of a run of paragraphs, each followed by a line feed.
pub open spec fn paragraph_text_lines(ps: Seq<Seq<char>>) -> Seq<char>
    decreases ps.len(),
{
    if ps.len() == 0 {
        Seq::empty()
    } else {
        paragraph_text_lines(ps.drop_last()) + ps.last() + seq!['\n']
    }
}

/// The text of a package: every paragraph of every section, in order.
pub open spec fn package_text(ss: Seq<Seq<Seq<char>>>) -> Seq<char>
    decreases ss.len(),
{
    if ss.len() == 0 {
        Seq::empty()
    } else {
        package_text(ss.drop_last()) + paragraph_text_lines(ss.last())
    }
}

/// What decoding an HWPX package yields: the mimetype entry must be there and
/// name the format; the sections are read from `Contents/section0.xml`
/// upwards until the first absent one, and there must be at least one.
pub open spec fn package_outcome(file: Seq<u8>, res: Result<HwpxDocument, HwpError>) -> bool {
    match zip_entry(file, "mimetype"@) {
        None => res == Err::<HwpxDocument, HwpError>(HwpError::Io),
        Some(m) => if m != MIMETYPE@ {
            res == Err::<HwpxDocument, HwpError>(HwpError::InvalidFormat)
        } else {
            match res {
                Ok(doc) => {
                    let n = doc@.len();
                    &&& 1 <= n <= u32::MAX
                    &&& forall|i: nat| i < n ==> (#[trigger] zip_entry(file, section_part(i))) is Some
                        && section_paragraph_texts(zip_entry(file, section_part(i))->0) == doc@[i as int]
                    &&& (zip_entry(file, section_part(n)) is None || n == u32::MAX)
                },
                Err(e) => e == HwpError::InvalidFormat && zip_entry(file, section_part(0)) is None,
            }
        },
    }
}

fn section_part_name(n: u32) -> (r: String)
    ensures
        r@ == section_part(n as nat),
{
    let mut cs = chars_of("Contents/section");
    push_decimal(&mut cs, n);
    let mut tail = chars_of(".xml");
    cs.append(&mut tail);
    string_of_chars(cs.as_slice())
}

/// Decoder for HWPX packages.
pub struct HwpxReader;

impl HwpxReader {
    /// Decodes an HWPX package held in memory.
    pub fn from_bytes(bytes: &[u8]) -> (res: Result<HwpxDocument, HwpError>)
        ensures
            package_outcome(bytes@, res),
    {
        let mime = match read_zip_entry(bytes, "mimetype") {
            Some(m) => m,
            None => return Err(HwpError::Io),
        };
        let mc = chars_of(mime.as_str());
        if !equals_str(&mc, MIMETYPE) {
            return Err(HwpError::InvalidFormat);
        }
        let mut sections: Vec<Vec<Vec<char>>> = Vec::new();
        let mut idx: u32 = 0;
        loop
            invariant
                sections@.len() == idx,
                forall|i: nat| i < idx ==> (#[trigger] zip_entry(bytes@, section_part(i))) is Some
                    && section_paragraph_texts(zip_entry(bytes@, section_part(i))->0)
                    == sections@[i as int]@.map_values(|p: Vec<char>| p@),
            ensures
                sections@.len() == idx,
                forall|i: nat| i < idx ==> (#[trigger] zip_entry(bytes@, section_part(i))) is Some
                    && section_paragraph_texts(zip_entry(bytes@, section_part(i))->0)
                    == sections@[i as int]@.map_values(|p: Vec<char>| p@),
                zip_entry(bytes@, section_part(idx as nat)) is None || idx == u32::MAX,
            decreases u32::MAX - idx,
        {
            if idx == u32::MAX {
                break;
            }
            let name = section_part_name(idx);
            let text = match read_zip_entry(bytes, name.as_str()) {
                Some(t) => t,
                None => break,
            };
            let paras = parse_section_xml(text.as_str());
            sections.push(paras);
            idx = idx + 1;
        }
        if sections.len() == 0 {
            return Err(HwpError::InvalidFormat);
        }
        let doc = HwpxDocument { sections };
        assert forall|i: nat| i < doc@.len() implies (#[trigger] zip_entry(bytes@, section_part(i))) is Some
            && section_paragraph_texts(zip_entry(bytes@, section_part(i))->0) == doc@[i as int] by {
            assert(doc@[i as int] == doc.sections@[i as int]@.map_values(|p: Vec<char>| p@));
        }
        Ok(doc)
    }
}

impl HwpxDocument {
    /// The package's text: every paragraph of every section, in order, each
    /// followed by a line feed.
    pub fn extract_text(&self) -> (r: String)
        ensures
            r@ == package_text(self@),
    {
        let ghost ss = self@;
        let mut out: Vec<char> = Vec::new();
        let mut i: usize = 0;
        assert(ss.subrange(0, 0) =~= Seq::<Seq<Seq<char>>>::empty());
        while i < self.sections.len()
            invariant
                i <= self.sections@.len(),
                ss == self@,
                out@ == package_text(ss.subrange(0, i as int)),
            decreases self.sections@.len() - i,
        {
            let sec = &self.sections[i];
            let ghost ps = ss[i as int];
            assert(ps == sec@.map_values(|p: Vec<char>| p@));
            let ghost base = out@;
            let mut j: usize = 0;
            assert(ps.subrange(0, 0) =~= Seq::<Seq<char>>::empty());
            while j < sec.len()
                invariant
                    j <= sec@.len(),
                    ps == sec@.map_values(|p: Vec<char>| p@),
                    out@ == base + paragraph_text_lines(ps.subrange(0, j as int)),
                decreases sec@.len() - j,
            {
                let ghost before = out@;
                let p = &sec[j];
                let mut k: usize = 0;
                while k < p.len()
                    invariant
                        k <= p@.len(),
                        out@ == before + p@.subrange(0, k as int),
                    decreases p@.len() - k,
                {
                    out.push(p[k]);
                    k = k + 1;
                    assert(out@ =~= before + p@.subrange(0, k as int));
                }
                out.push('\n');
                assert(p@.subrange(0, k as int) =~= p@);
                assert(ps.subrange(0, j + 1).drop_last() =~= ps.subrange(0, j as int));
                j = j + 1;
                assert(out@ =~= base + paragraph_text_lines(ps.subrange(0, j as int)));
            }
            assert(ps.subrange(0, j as int) =~= ps);
            assert(ss.subrange(0, i + 1).drop_last() =~= ss.subrange(0, i as int));
            i = i + 1;
        }
        assert(ss.subrange(0, i as int) =~= ss);
        string_of_chars(out.as_slice())
    }
}

} // verus!
