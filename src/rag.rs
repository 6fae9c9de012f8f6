use vstd::prelude::*;

use crate::container::{chars_of, string_of_chars};
use crate::error::HwpError;
use crate::model::{document_units, utf16_lossy, HwpDocument};
use crate::hwpx_reader::{package_outcome, package_text, HwpxDocument, HwpxReader};
use crate::reader::{document_outcome, HwpReader};

verus! {

/// Fewest characters a retrieval text may have.
pub const MIN_RETRIEVAL_CHARS: usize = 50;

/// The Unicode White_Space property, as `char::is_whitespace` and `str::trim` use it.
pub open spec fn is_white_space(c: char) -> bool {
    let u = c as u32;
    (9 <= u <= 13) || u == 32 || u == 0x85 || u == 0xA0 || u == 0x1680 || (0x2000 <= u <= 0x200A)
        || u == 0x2028 || u == 0x2029 || u == 0x202F || u == 0x205F || u == 0x3000
}

pub open spec fn trim_start(l: Seq<char>) -> Seq<char>
    decreases l.len(),
{
    if l.len() > 0 && is_white_space(l[0]) {
        trim_start(l.drop_first())
    } else {
        l
    }
}

pub open spec fn trim_end(l: Seq<char>) -> Seq<char>
    decreases l.len(),
{
    if l.len() > 0 && is_white_space(l.last()) {
        trim_end(l.drop_last())
    } else {
        l
    }
}

/// A line with its leading and trailing white space removed.
pub open spec fn trim(l: Seq<char>) -> Seq<char> {
    trim_end(trim_start(l))
}

/// The lines of a text: the pieces between line feeds.
pub open spec fn split_lines(s: Seq<char>) -> Seq<Seq<char>>
    decreases s.len(),
{
    if s.len() == 0 {
        seq![Seq::empty()]
    } else {
        let p = split_lines(s.drop_last());
        if s.last() == '\n' {
            p.push(Seq::empty())
        } else {
            p.update(p.len() - 1, p.last().push(s.last()))
        }
    }
}

/// The trimmed lines that are not empty, in order.
pub open spec fn kept_lines(ls: Seq<Seq<char>>) -> Seq<Seq<char>>
    decreases ls.len(),
{
    if ls.len() == 0 {
        Seq::empty()
    } else {
        let p = kept_lines(ls.drop_last());
        if trim(ls.last()).len() == 0 {
            p
        } else {
            p.push(trim(ls.last()))
        }
    }
}

/// Lines joined with a line feed between each two.
pub open spec fn join_lines(ls: Seq<Seq<char>>) -> Seq<char>
    decreases ls.len(),
{
    if ls.len() == 0 {
        Seq::empty()
    } else if ls.len() == 1 {
        ls[0]
    } else {
        join_lines(ls.drop_last()) + seq!['\n'] + ls.last()
    }
}

/// The normalized form of a text.
pub open spec fn normalized(s: Seq<char>) -> Seq<char> {
    join_lines(kept_lines(split_lines(s)))
}

/// A line of normalized text: not empty, no white space at either end, no line feed.
pub open spec fn clean_line(l: Seq<char>) -> bool {
    &&& l.len() > 0
    &&& !is_white_space(l[0])
    &&& !is_white_space(l.last())
    &&& forall|i: int| 0 <= i < l.len() ==> l[i] != '\n'
}

/// Where the retrieval entry point dispatches on a path's extension.
#[derive(Clone, Copy, Debug, PartialEq, Eq, Structural)]
pub enum DocumentKind {
    Hwp,
    Hwpx,
}

pub open spec fn ascii_lower(c: char) -> char {
    if 'A' <= c <= 'Z' { (((c as u32) + 32) as u8) as char } else { c }
}

pub open spec fn equals_ignoring_case(e: Seq<char>, word: Seq<char>) -> bool {
    e.len() == word.len() && forall|i: int| 0 <= i < e.len() ==> ascii_lower(e[i]) == word[i]
}

/// The position of the last '.' in the final component of a path (what
/// follows the last '/'), if that component has one.
pub open spec fn last_dot(p: Seq<char>) -> Option<int>
    decreases p.len(),
{
    if p.len() == 0 || p.last() == '/' {
        None
    } else if p.last() == '.' {
        Some(p.len() - 1)
    } else {
        last_dot(p.drop_last())
    }
}

/// A path with the separators at its end removed, as path components read it.
pub open spec fn without_trailing_slashes(p: Seq<char>) -> Seq<char>
    decreases p.len(),
{
    if p.len() > 0 && p.last() == '/' {
        without_trailing_slashes(p.drop_last())
    } else {
        p
    }
}

/// A path's extension: what follows the last '.' of its final component,
/// where that dot is not the component's first character.
pub open spec fn extension(path: Seq<char>) -> Option<Seq<char>> {
    let p = without_trailing_slashes(path);
    match last_dot(p) {
        Some(d) => if d > 0 && p[d - 1] != '/' { Some(p.subrange(d + 1, p.len() as int)) } else { None },
        None => None,
    }
}

/// The kind a path's extension names, compared without regard to case.
pub open spec fn kind_of_path(p: Seq<char>) -> Result<DocumentKind, HwpError> {
    match extension(p) {
        None => Err(HwpError::InvalidFormat),
        Some(e) => if equals_ignoring_case(e, seq!['h', 'w', 'p']) {
            Ok(DocumentKind::Hwp)
        } else if equals_ignoring_case(e, seq!['h', 'w', 'p', 'x']) {
            Ok(DocumentKind::Hwpx)
        } else {
            Err(HwpError::InvalidFormat)
        },
    }
}

/// What the retrieval text of an extracted text is.
pub open spec fn retrieval_text(s: Seq<char>) -> Result<Seq<char>, HwpError> {
    if normalized(s).len() < MIN_RETRIEVAL_CHARS {
        Err(HwpError::InvalidFormat)
    } else {
        Ok(normalized(s))
    }
}

/// Every line that normalization keeps is clean, so no line of a normalized
/// text is empty or consists of white space alone.
pub proof fn lemma_normalized_lines_clean(s: Seq<char>)
    ensures
        forall|i: int| 0 <= i < kept_lines(split_lines(s)).len() ==> #[trigger] clean_line(kept_lines(split_lines(s))[i]),
        normalized(s) == join_lines(kept_lines(split_lines(s))),
{
    lemma_split_lines_no_feed(s);
    lemma_kept_clean(split_lines(s));
}

proof fn lemma_split_lines_no_feed(s: Seq<char>)
    ensures
        split_lines(s).len() > 0,
        forall|i: int, j: int| 0 <= i < split_lines(s).len() && 0 <= j < split_lines(s)[i].len() ==> #[trigger] split_lines(s)[i][j] != '\n',
    decreases s.len(),
{
    if s.len() > 0 {
        lemma_split_lines_no_feed(s.drop_last());
        let p = split_lines(s.drop_last());
        if s.last() != '\n' {
            assert forall|i: int, j: int| 0 <= i < split_lines(s).len() && 0 <= j < split_lines(s)[i].len() implies #[trigger] split_lines(s)[i][j] != '\n' by {
                if i < p.len() - 1 {
                    assert(split_lines(s)[i] == p[i]);
                } else if j < p.last().len() {
                    assert(split_lines(s)[i][j] == p[i][j]);
                }
            }
        } else {
            assert forall|i: int, j: int| 0 <= i < split_lines(s).len() && 0 <= j < split_lines(s)[i].len() implies #[trigger] split_lines(s)[i][j] != '\n' by {
                assert(split_lines(s)[i] == p.push(Seq::<char>::empty())[i]);
            }
        }
    }
}

proof fn lemma_trim_start_shape(l: Seq<char>)
    ensures
        exists|a: int| 0 <= a <= l.len() && trim_start(l) == l.subrange(a, l.len() as int),
        trim_start(l).len() > 0 ==> !is_white_space(trim_start(l)[0]),
    decreases l.len(),
{
    if l.len() > 0 && is_white_space(l[0]) {
        lemma_trim_start_shape(l.drop_first());
        let a = choose|a: int| 0 <= a <= l.drop_first().len() && trim_start(l.drop_first()) == l.drop_first().subrange(a, l.drop_first().len() as int);
        assert(l.drop_first().subrange(a, l.drop_first().len() as int) =~= l.subrange(a + 1, l.len() as int));
    } else {
        assert(l.subrange(0, l.len() as int) =~= l);
    }
}

proof fn lemma_trim_end_shape(l: Seq<char>)
    ensures
        exists|b: int| 0 <= b <= l.len() && trim_end(l) == l.subrange(0, b),
        trim_end(l).len() > 0 ==> !is_white_space(trim_end(l).last()),
        trim_end(l).len() > 0 ==> trim_end(l)[0] == l[0],
    decreases l.len(),
{
    if l.len() > 0 && is_white_space(l.last()) {
        lemma_trim_end_shape(l.drop_last());
        let b = choose|b: int| 0 <= b <= l.drop_last().len() && trim_end(l.drop_last()) == l.drop_last().subrange(0, b);
        assert(l.drop_last().subrange(0, b) =~= l.subrange(0, b));
    } else {
        assert(l.subrange(0, l.len() as int) =~= l);
    }
}

proof fn lemma_trim_clean(l: Seq<char>)
    requires
        forall|j: int| 0 <= j < l.len() ==> l[j] != '\n',
        trim(l).len() > 0,
    ensures
        clean_line(trim(l)),
{
    lemma_trim_start_shape(l);
    lemma_trim_end_shape(trim_start(l));
    let a = choose|a: int| 0 <= a <= l.len() && trim_start(l) == l.subrange(a, l.len() as int);
    let t = trim_start(l);
    let b = choose|b: int| 0 <= b <= t.len() && trim_end(t) == t.subrange(0, b);
    assert forall|i: int| 0 <= i < trim(l).len() implies trim(l)[i] != '\n' by {
        assert(trim(l)[i] == l[a + i]);
    }
}

proof fn lemma_kept_clean(ls: Seq<Seq<char>>)
    requires
        forall|i: int, j: int| 0 <= i < ls.len() && 0 <= j < ls[i].len() ==> #[trigger] ls[i][j] != '\n',
    ensures
        forall|i: int| 0 <= i < kept_lines(ls).len() ==> #[trigger] clean_line(kept_lines(ls)[i]),
    decreases ls.len(),
{
    if ls.len() > 0 {
        assert forall|i: int, j: int| 0 <= i < ls.drop_last().len() && 0 <= j < ls.drop_last()[i].len() implies #[trigger] ls.drop_last()[i][j] != '\n' by {
            assert(ls.drop_last()[i][j] == ls[i][j]);
        }
        lemma_kept_clean(ls.drop_last());
        let last = ls.last();
        if trim(last).len() > 0 {
            assert forall|j: int| 0 <= j < last.len() implies last[j] != '\n' by {
                assert(ls[ls.len() - 1][j] != '\n');
            }
            lemma_trim_clean(last);
            let p = kept_lines(ls.drop_last());
            assert forall|i: int| 0 <= i < kept_lines(ls).len() implies #[trigger] clean_line(kept_lines(ls)[i]) by {
                assert(kept_lines(ls) == p.push(trim(last)));
                if i < p.len() {
                    assert(kept_lines(ls)[i] == p[i]);
                } else {
                    assert(kept_lines(ls)[i] == trim(last));
                }
            }
        } else {
            assert(kept_lines(ls) == kept_lines(ls.drop_last()));
        }
    }
}

fn white_space(c: char) -> (r: bool)
    ensures
        r == is_white_space(c),
{
    let u = c as u32;
    (9 <= u && u <= 13) || u == 32 || u == 0x85 || u == 0xA0 || u == 0x1680 || (0x2000 <= u && u <= 0x200A)
        || u == 0x2028 || u == 0x2029 || u == 0x202F || u == 0x205F || u == 0x3000
}

fn trimmed(l: &Vec<char>) -> (r: Vec<char>)
    ensures
        r@ == trim(l@),
{
    let len = l.len();
    let mut a: usize = 0;
    assert(l@.subrange(0, len as int) =~= l@);
    while a < len && white_space(l[a])
        invariant
            a <= len,
            len == l@.len(),
            trim_start(l@) == trim_start(l@.subrange(a as int, len as int)),
        decreases len - a,
    {
        assert(l@.subrange(a as int, len as int).drop_first() =~= l@.subrange(a + 1, len as int));
        a = a + 1;
    }
    let ghost t = l@.subrange(a as int, len as int);
    assert(trim_start(t) == t);
    let mut b: usize = len;
    while b > a && white_space(l[b - 1])
        invariant
            a <= b <= len,
            len == l@.len(),
            t == l@.subrange(a as int, len as int),
            trim_end(t) == trim_end(l@.subrange(a as int, b as int)),
        decreases b - a,
    {
        assert(l@.subrange(a as int, b as int).drop_last() =~= l@.subrange(a as int, b - 1));
        b = b - 1;
    }
    let mut r: Vec<char> = Vec::new();
    let mut k: usize = a;
    while k < b
        invariant
            a <= k <= b <= len,
            len == l@.len(),
            r@ == l@.subrange(a as int, k as int),
        decreases b - k,
    {
        r.push(l[k]);
        k = k + 1;
        assert(r@ =~= l@.subrange(a as int, k as int));
    }
    r
}

fn flush_line(out: &mut Vec<char>, line: &Vec<char>, emitted: bool, Ghost(kept): Ghost<Seq<Seq<char>>>) -> (r: bool)
    requires
        old(out)@ == join_lines(kept),
        emitted == (kept.len() > 0),
    ensures
        trim(line@).len() == 0 ==> final(out)@ == old(out)@ && r == emitted,
        trim(line@).len() > 0 ==> final(out)@ == join_lines(kept.push(trim(line@))) && r,
{
    let t = trimmed(line);
    if t.len() == 0 {
        return emitted;
    }
    assert(kept.push(t@).drop_last() =~= kept);
    if emitted {
        out.push('\n');
    }
    let ghost base = out@;
    let mut k: usize = 0;
    while k < t.len()
        invariant
            k <= t@.len(),
            out@ == base + t@.subrange(0, k as int),
        decreases t@.len() - k,
    {
        out.push(t[k]);
        k = k + 1;
        assert(out@ =~= base + t@.subrange(0, k as int));
    }
    assert(t@.subrange(0, k as int) =~= t@);
    if !emitted {
        assert(join_lines(kept) =~= Seq::<char>::empty());
        assert(out@ =~= t@);
    }
    true
}

fn normalize_chars(text: &str) -> (r: Vec<char>)
    ensures
        r@ == normalized(text@),
        r@ == join_lines(kept_lines(split_lines(text@))),
        forall|i: int| 0 <= i < kept_lines(split_lines(text@)).len() ==> #[trigger] clean_line(kept_lines(split_lines(text@))[i]),
{
    proof {
        lemma_normalized_lines_clean(text@);
    }
    let cs = chars_of(text);
    let mut out: Vec<char> = Vec::new();
    let mut cur: Vec<char> = Vec::new();
    let mut emitted: bool = false;
    let ghost mut done: Seq<Seq<char>> = Seq::empty();
    let mut i: usize = 0;
    assert(cs@.subrange(0, 0) =~= Seq::<char>::empty());
    assert(done.push(cur@) =~= seq![Seq::<char>::empty()]);
    while i < cs.len()
        invariant
            i <= cs@.len(),
            split_lines(cs@.subrange(0, i as int)) == done.push(cur@),
            out@ == join_lines(kept_lines(done)),
            emitted == (kept_lines(done).len() > 0),
        decreases cs@.len() - i,
    {
        let c = cs[i];
        let ghost pre = cs@.subrange(0, i as int);
        assert(cs@.subrange(0, i + 1).drop_last() =~= pre);
        if c == '\n' {
            emitted = flush_line(&mut out, &cur, emitted, Ghost(kept_lines(done)));
            proof {
                assert(done.push(cur@).drop_last() =~= done);
                done = done.push(cur@);
            }
            cur = Vec::new();
            assert(split_lines(cs@.subrange(0, i + 1)) =~= done.push(cur@));
        } else {
            cur.push(c);
            assert(split_lines(cs@.subrange(0, i + 1)) =~= done.push(cur@));
        }
        i = i + 1;
    }
    assert(cs@.subrange(0, i as int) =~= text@);
    flush_line(&mut out, &cur, emitted, Ghost(kept_lines(done)));
    assert(done.push(cur@).drop_last() =~= done);
    out
}

/// Normalizes text for retrieval: each line is trimmed of white space, empty
/// lines are dropped, and the rest are joined with line feeds. Every line of
/// the result is clean: not empty, without white space at either end.
pub fn normalize_text(text: &str) -> (r: String)
    ensures
        r@ == normalized(text@),
        r@ == join_lines(kept_lines(split_lines(text@))),
        forall|i: int| 0 <= i < kept_lines(split_lines(text@)).len() ==> #[trigger] clean_line(kept_lines(split_lines(text@))[i]),
{
    let cs = normalize_chars(text);
    string_of_chars(cs.as_slice())
}

/// The retrieval text of an extracted text: its normalized form, which must
/// hold at least 50 characters.
pub fn finish_retrieval_text(text: &str) -> (res: Result<String, HwpError>)
    ensures
        match res {
            Ok(r) => retrieval_text(text@) == Ok::<Seq<char>, HwpError>(r@),
            Err(e) => retrieval_text(text@) == Err::<Seq<char>, HwpError>(e),
        },
{
    let cs = normalize_chars(text);
    if cs.len() < MIN_RETRIEVAL_CHARS {
        return Err(HwpError::InvalidFormat);
    }
    Ok(string_of_chars(cs.as_slice()))
}

fn lower(c: char) -> (r: char)
    ensures
        r == ascii_lower(c),
{
    if 'A' <= c && c <= 'Z' {
        (((c as u32) + 32) as u8) as char
    } else {
        c
    }
}

fn matches_word(cs: &Vec<char>, from: usize, word: &Vec<char>) -> (r: bool)
    requires
        from <= cs@.len(),
    ensures
        r == equals_ignoring_case(cs@.subrange(from as int, cs@.len() as int), word@),
{
    let ghost e = cs@.subrange(from as int, cs@.len() as int);
    if cs.len() - from != word.len() {
        return false;
    }
    let n = cs.len();
    let mut k: usize = 0;
    while k < word.len()
        invariant
            n == cs@.len(),
            k <= word@.len(),
            word@.len() == e.len(),
            from + word@.len() == cs@.len(),
            from <= cs@.len(),
            e == cs@.subrange(from as int, cs@.len() as int),
            forall|i: int| 0 <= i < k ==> ascii_lower(e[i]) == word@[i],
        decreases word@.len() - k,
    {
        if lower(cs[from + k]) != word[k] {
            return false;
        }
        k = k + 1;
    }
    true
}

/// Which kind of document a path names, by its extension, ignoring case.
pub fn document_kind(path: &str) -> (res: Result<DocumentKind, HwpError>)
    ensures
        res == kind_of_path(path@),
{
    let full = chars_of(path);
    let mut e: usize = full.len();
    assert(full@.subrange(0, e as int) =~= full@);
    while e > 0 && full[e - 1] == '/'
        invariant
            e <= full@.len(),
            without_trailing_slashes(full@) == without_trailing_slashes(full@.subrange(0, e as int)),
        decreases e,
    {
        assert(full@.subrange(0, e as int).drop_last() =~= full@.subrange(0, e - 1));
        e = e - 1;
    }
    let mut cs: Vec<char> = Vec::new();
    let mut k: usize = 0;
    while k < e
        invariant
            k <= e <= full@.len(),
            cs@ == full@.subrange(0, k as int),
        decreases e - k,
    {
        cs.push(full[k]);
        k = k + 1;
        assert(cs@ =~= full@.subrange(0, k as int));
    }
    assert(without_trailing_slashes(full@) == cs@);
    let len = cs.len();
    let mut j: usize = len;
    assert(cs@.subrange(0, len as int) =~= cs@);
    while j > 0 && cs[j - 1] != '/' && cs[j - 1] != '.'
        invariant
            j <= len,
            len == cs@.len(),
            last_dot(cs@) == last_dot(cs@.subrange(0, j as int)),
        decreases j,
    {
        assert(cs@.subrange(0, j as int).drop_last() =~= cs@.subrange(0, j - 1));
        j = j - 1;
    }
    if j == 0 || cs[j - 1] == '/' {
        return Err(HwpError::InvalidFormat);
    }
    let d = j - 1;
    if d == 0 || cs[d - 1] == '/' {
        return Err(HwpError::InvalidFormat);
    }
    let hwp: Vec<char> = vec!['h', 'w', 'p'];
    let hwpx: Vec<char> = vec!['h', 'w', 'p', 'x'];
    assert(hwp@ =~= seq!['h', 'w', 'p']);
    assert(hwpx@ =~= seq!['h', 'w', 'p', 'x']);
    if matches_word(&cs, j, &hwp) {
        Ok(DocumentKind::Hwp)
    } else if matches_word(&cs, j, &hwpx) {
        Ok(DocumentKind::Hwpx)
    } else {
        Err(HwpError::InvalidFormat)
    }
}

/// Extracts retrieval text from the contents of the file at `file_path`.
/// The extension decides the format: `.hwp` contents are decoded as a legacy
/// document and `.hwpx` contents as a package; the text is normalized and
/// must hold at least 50 characters. Other extensions are rejected.
pub fn extract_text_for_rag(file_path: &str, contents: &[u8]) -> (res: Result<String, HwpError>)
    ensures
        match kind_of_path(file_path@) {
            Err(e) => res == Err::<String, HwpError>(e),
            Ok(DocumentKind::Hwpx) => match res {
                Ok(r) => exists|doc: HwpxDocument| #[trigger] package_outcome(contents@, Ok(doc))
                    && retrieval_text(package_text(doc@)) == Ok::<Seq<char>, HwpError>(r@),
                Err(e) => package_outcome(contents@, Err(e))
                    || exists|doc: HwpxDocument| #[trigger] package_outcome(contents@, Ok(doc))
                    && retrieval_text(package_text(doc@)) == Err::<Seq<char>, HwpError>(e),
            },
            Ok(DocumentKind::Hwp) => match res {
                Ok(r) => exists|doc: HwpDocument| #[trigger] document_outcome(contents@, Ok(doc))
                    && retrieval_text(utf16_lossy(document_units(doc@.2))) == Ok::<Seq<char>, HwpError>(r@),
                Err(e) => document_outcome(contents@, Err(e))
                    || exists|doc: HwpDocument| #[trigger] document_outcome(contents@, Ok(doc))
                    && retrieval_text(utf16_lossy(document_units(doc@.2))) == Err::<Seq<char>, HwpError>(e),
            },
        },
{
    match document_kind(file_path) {
        Err(e) => Err(e),
        Ok(DocumentKind::Hwpx) => {
            let doc = match HwpxReader::from_bytes(contents) {
                Ok(d) => d,
                Err(e) => return Err(e),
            };
            let text = doc.extract_text();
            finish_retrieval_text(text.as_str())
        },
        Ok(DocumentKind::Hwp) => {
            let doc = match HwpReader::from_bytes(contents) {
                Ok(d) => d,
                Err(e) => return Err(e),
            };
            let text = doc.extract_text();
            finish_retrieval_text(text.as_str())
        },
    }
}

} // verus!
