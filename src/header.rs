use vstd::prelude::*;

use crate::error::HwpError;
use crate::record::{le_bytes, le_word_at, lemma_le_round_trip, push_le_word, read_le_word};

verus! {

/// Length of the signature block at the start of the file header.
pub const SIGNATURE_BLOCK_LEN: usize = 32;

/// Offset of the first byte after the version and flag words.
pub const HEADER_FIXED_LEN: usize = 40;

pub const FLAG_COMPRESSED: u32 = 1;
pub const FLAG_PASSWORD: u32 = 2;
pub const FLAG_DISTRIBUTION: u32 = 4;

/// The file header of a legacy document.
#[derive(Clone, Debug)]
pub struct FileHeader {
    /// Version quadruple packed as major.minor.micro.build, most significant first.
    pub version: u32,
    /// The property bit field.
    pub flags: u32,
    /// The bytes that follow the flag word, kept verbatim.
    pub reserved: Vec<u8>,
}

/// Mathematical view of a header: (version, flags, reserved bytes).
pub type HeaderView = (u32, u32, Seq<u8>);

impl View for FileHeader {
    type V = HeaderView;

    open spec fn view(&self) -> HeaderView {
        (self.version, self.flags, self.reserved@)
    }
}

/// The 17 bytes of "HWP Document File".
pub open spec fn hwp_signature() -> Seq<u8> {
    seq![72u8, 87, 80, 32, 68, 111, 99, 117, 109, 101, 110, 116, 32, 70, 105, 108, 101]
}

pub open spec fn has_signature(b: Seq<u8>) -> bool {
    b.len() >= 17 && b.subrange(0, 17) == hwp_signature()
}

/// What parsing a header stream yields.
pub open spec fn parse_header(b: Seq<u8>) -> Result<HeaderView, HwpError> {
    if !has_signature(b) {
        Err(HwpError::NotHwpFile)
    } else if b.len() < HEADER_FIXED_LEN {
        Err(HwpError::InvalidFormat)
    } else {
        Ok((le_word_at(b, 32), le_word_at(b, 36), b.subrange(40, b.len() as int)))
    }
}

/// The bytes a header is written as: signature zero-padded to 32 bytes,
/// the version word, the flag word, then the reserved bytes.
pub open spec fn emit_header(h: HeaderView) -> Seq<u8> {
    hwp_signature() + Seq::new(15, |i: int| 0u8) + le_bytes(h.0) + le_bytes(h.1) + h.2
}

pub open spec fn flag_set(flags: u32, bit: u32) -> bool {
    flags & bit != 0
}

/// Emitting a header whose password flag is clear, then parsing the bytes,
/// gives the same header back.
pub proof fn lemma_header_round_trip(h: HeaderView)
    requires
        !flag_set(h.1, FLAG_PASSWORD),
    ensures
        parse_header(emit_header(h)) == Ok::<HeaderView, HwpError>(h),
{
    let b = emit_header(h);
    assert(b.subrange(0, 17) =~= hwp_signature());
    lemma_le_round_trip(h.0);
    lemma_le_round_trip(h.1);
    assert(b.subrange(32, 36) =~= le_bytes(h.0));
    assert(b.subrange(36, 40) =~= le_bytes(h.1));
    assert(le_word_at(b, 32) == le_word_at(le_bytes(h.0), 0));
    assert(le_word_at(b, 36) == le_word_at(le_bytes(h.1), 0));
    assert(b.subrange(40, b.len() as int) =~= h.2);
}

fn signature_bytes() -> (r: Vec<u8>)
    ensures
        r@ == hwp_signature(),
{
    let r: Vec<u8> = vec![72u8, 87, 80, 32, 68, 111, 99, 117, 109, 101, 110, 116, 32, 70, 105, 108, 101];
    assert(r@ =~= hwp_signature());
    r
}

impl FileHeader {
    /// Parses a header stream: the signature must match exactly.
    pub fn parse(b: &[u8]) -> (res: Result<FileHeader, HwpError>)
        ensures
            match res {
                Ok(h) => parse_header(b@) == Ok::<HeaderView, HwpError>(h@),
                Err(e) => parse_header(b@) == Err::<HeaderView, HwpError>(e),
            },
    {
        let sig = signature_bytes();
        if b.len() < 17 {
            return Err(HwpError::NotHwpFile);
        }
        let mut i: usize = 0;
        while i < 17
            invariant
                i <= 17,
                17 <= b@.len(),
                sig@ == hwp_signature(),
                b@.subrange(0, i as int) == sig@.subrange(0, i as int),
            decreases 17 - i,
        {
            if b[i] != sig[i] {
                assert(b@.subrange(0, 17)[i as int] != hwp_signature()[i as int]);
                return Err(HwpError::NotHwpFile);
            }
            i = i + 1;
            assert(b@.subrange(0, i as int) =~= sig@.subrange(0, i as int));
        }
        assert(sig@.subrange(0, 17) =~= sig@);
        if b.len() < 40 {
            return Err(HwpError::InvalidFormat);
        }
        let version = read_le_word(b, 32);
        let flags = read_le_word(b, 36);
        let mut reserved: Vec<u8> = Vec::new();
        let mut j: usize = 40;
        while j < b.len()
            invariant
                40 <= j <= b@.len(),
                reserved@ == b@.subrange(40, j as int),
            decreases b@.len() - j,
        {
            reserved.push(b[j]);
            j = j + 1;
            assert(reserved@ =~= b@.subrange(40, j as int));
        }
        Ok(FileHeader { version, flags, reserved })
    }

    /// Writes the header in its on-disk layout.
    pub fn emit(&self) -> (r: Vec<u8>)
        ensures
            r@ == emit_header(self@),
    {
        let mut out = signature_bytes();
        let mut k: usize = 0;
        while k < 15
            invariant
                k <= 15,
                out@ == hwp_signature() + Seq::new(k as nat, |i: int| 0u8),
            decreases 15 - k,
        {
            out.push(0u8);
            k = k + 1;
            assert(out@ =~= hwp_signature() + Seq::new(k as nat, |i: int| 0u8));
        }
        push_le_word(&mut out, self.version);
        push_le_word(&mut out, self.flags);
        let ghost before = out@;
        let mut j: usize = 0;
        while j < self.reserved.len()
            invariant
                j <= self.reserved@.len(),
                out@ == before + self.reserved@.subrange(0, j as int),
            decreases self.reserved@.len() - j,
        {
            out.push(self.reserved[j]);
            j = j + 1;
            assert(out@ =~= before + self.reserved@.subrange(0, j as int));
        }
        assert(self.reserved@.subrange(0, j as int) =~= self.reserved@);
        out
    }

    /// Whether streams other than the header are DEFLATE-compressed.
    pub fn is_compressed(&self) -> (r: bool)
        ensures
            r == flag_set(self.flags, FLAG_COMPRESSED),
    {
        self.flags & FLAG_COMPRESSED != 0
    }

    /// Whether the document is password-encrypted.
    pub fn is_encrypted(&self) -> (r: bool)
        ensures
            r == flag_set(self.flags, FLAG_PASSWORD),
    {
        self.flags & FLAG_PASSWORD != 0
    }

    /// Whether the document is a distribution document.
    pub fn is_distribute(&self) -> (r: bool)
        ensures
            r == flag_set(self.flags, FLAG_DISTRIBUTION),
    {
        self.flags & FLAG_DISTRIBUTION != 0
    }
}

} // verus!
