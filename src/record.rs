use vstd::prelude::*;

use crate::error::HwpError;

verus! {

/// Default ceiling on the payload size a record may declare (256 MiB).
pub const MAX_RECORD_SIZE: u32 = 268435456;

/// The size value that announces an extended size word.
pub const EXTENDED_SIZE: u32 = 4095;

/// One tagged record of a legacy binary stream.
#[derive(Clone, Debug)]
pub struct Record {
    pub tag_id: u16,
    pub level: u16,
    pub payload: Vec<u8>,
}

/// Mathematical view of a record: (tag, level, payload).
pub type RecordView = (u16, u16, Seq<u8>);

impl View for Record {
    type V = RecordView;

    open spec fn view(&self) -> RecordView {
        (self.tag_id, self.level, self.payload@)
    }
}

pub open spec fn records_view(rs: Seq<Record>) -> Seq<RecordView> {
    rs.map_values(|r: Record| r@)
}

/// A record that the encoder can frame and the decoder reads back.
pub open spec fn record_encodable(r: RecordView) -> bool {
    &&& r.0 < 1024
    &&& r.1 < 1024
    &&& r.2.len() <= MAX_RECORD_SIZE
}

/// The header word: tag in the low 10 bits, level in the next 10, size in the top 12.
pub open spec fn pack_header(tag: u32, level: u32, size: u32) -> u32 {
    tag | (level << 10u32) | (size << 20u32)
}

pub open spec fn header_tag(w: u32) -> u32 {
    w & 0x3FFu32
}

pub open spec fn header_level(w: u32) -> u32 {
    (w >> 10u32) & 0x3FFu32
}

pub open spec fn header_size(w: u32) -> u32 {
    w >> 20u32
}

/// The four little-endian bytes of a word.
pub open spec fn le_bytes(w: u32) -> Seq<u8> {
    seq![(w & 0xFFu32) as u8, ((w >> 8u32) & 0xFFu32) as u8, ((w >> 16u32) & 0xFFu32) as u8, (w >> 24u32) as u8]
}

/// The word whose little-endian bytes are b0, b1, b2, b3.
pub open spec fn le_word(b0: u8, b1: u8, b2: u8, b3: u8) -> u32 {
    (b0 as u32) | ((b1 as u32) << 8u32) | ((b2 as u32) << 16u32) | ((b3 as u32) << 24u32)
}

pub open spec fn le_word_at(b: Seq<u8>, i: int) -> u32 {
    le_word(b[i], b[i + 1], b[i + 2], b[i + 3])
}

/// The bytes of one record on the wire.
pub open spec fn encode_record(r: RecordView) -> Seq<u8> {
    let n = r.2.len();
    if n <= EXTENDED_SIZE {
        le_bytes(pack_header(r.0 as u32, r.1 as u32, n as u32)) + r.2
    } else {
        le_bytes(pack_header(r.0 as u32, r.1 as u32, EXTENDED_SIZE)) + le_bytes(n as u32) + r.2
    }
}

/// The bytes of a record sequence: each record's bytes, in order.
pub open spec fn encode_all(rs: Seq<RecordView>) -> Seq<u8>
    decreases rs.len(),
{
    if rs.len() == 0 {
        Seq::empty()
    } else {
        encode_record(rs[0]) + encode_all(rs.drop_first())
    }
}

pub open spec fn prepend(r: RecordView, rest: Option<Seq<RecordView>>) -> Option<Seq<RecordView>> {
    match rest {
        Some(s) => Some(seq![r] + s),
        None => None,
    }
}

/// The records a byte sequence frames under the default size ceiling.
pub open spec fn decode_all(b: Seq<u8>) -> Option<Seq<RecordView>> {
    decode_within(b, MAX_RECORD_SIZE)
}

/// The records a byte sequence frames, or None where it is malformed or a
/// record declares an extended size above `limit`.
pub open spec fn decode_within(b: Seq<u8>, limit: u32) -> Option<Seq<RecordView>>
    decreases b.len(),
{
    if b.len() == 0 {
        Some(Seq::empty())
    } else if b.len() < 4 {
        None
    } else {
        let w = le_word_at(b, 0);
        let tag = header_tag(w) as u16;
        let level = header_level(w) as u16;
        let size = header_size(w);
        if size == EXTENDED_SIZE {
            if b.len() < 8 {
                None
            } else {
                let n = le_word_at(b, 4);
                if n > limit || b.len() - 8 < n {
                    None
                } else {
                    prepend((tag, level, b.subrange(8, 8 + n)), decode_within(b.subrange(8 + n, b.len() as int), limit))
                }
            }
        } else if b.len() - 4 < size {
            None
        } else {
            prepend((tag, level, b.subrange(4, 4 + size)), decode_within(b.subrange(4 + size, b.len() as int), limit))
        }
    }
}

pub proof fn lemma_header_fields(t: u32, l: u32, s: u32)
    requires
        t < 1024,
        l < 1024,
        s < 4096,
    ensures
        header_tag(pack_header(t, l, s)) == t,
        header_level(pack_header(t, l, s)) == l,
        header_size(pack_header(t, l, s)) == s,
{
    assert((t | (l << 10u32) | (s << 20u32)) & 0x3FFu32 == t) by (bit_vector)
        requires t < 1024u32, l < 1024u32, s < 4096u32;
    assert(((t | (l << 10u32) | (s << 20u32)) >> 10u32) & 0x3FFu32 == l) by (bit_vector)
        requires t < 1024u32, l < 1024u32, s < 4096u32;
    assert((t | (l << 10u32) | (s << 20u32)) >> 20u32 == s) by (bit_vector)
        requires t < 1024u32, l < 1024u32, s < 4096u32;
}

pub proof fn lemma_le_round_trip(w: u32)
    ensures
        le_word_at(le_bytes(w), 0) == w,
{
    let b = le_bytes(w);
    assert(b[0] == (w & 0xFFu32) as u8);
    assert(b[3] == (w >> 24u32) as u8);
    assert(((w & 0xFFu32) as u8 as u32) | ((((w >> 8u32) & 0xFFu32) as u8 as u32) << 8u32)
        | ((((w >> 16u32) & 0xFFu32) as u8 as u32) << 16u32) | (((w >> 24u32) as u8 as u32) << 24u32)
        == w) by (bit_vector);
}

proof fn lemma_decode_front(r: RecordView, e: Seq<u8>)
    requires
        record_encodable(r),
        r.2.len() != EXTENDED_SIZE,
    ensures
        decode_all(encode_record(r) + e) == prepend(r, decode_all(e)),
{
    let b = encode_record(r) + e;
    let n: int = r.2.len() as int;
    if n <= EXTENDED_SIZE {
        let w = pack_header(r.0 as u32, r.1 as u32, n as u32);
        lemma_header_fields(r.0 as u32, r.1 as u32, n as u32);
        lemma_le_round_trip(w);
        assert(le_word_at(b, 0) == le_word_at(le_bytes(w), 0));
        assert(b.subrange(4, 4 + n) =~= r.2);
        assert(b.subrange(4 + n, b.len() as int) =~= e);
    } else {
        let w = pack_header(r.0 as u32, r.1 as u32, EXTENDED_SIZE);
        lemma_header_fields(r.0 as u32, r.1 as u32, EXTENDED_SIZE);
        lemma_le_round_trip(w);
        lemma_le_round_trip(n as u32);
        assert(le_word_at(b, 0) == le_word_at(le_bytes(w), 0));
        assert(le_word_at(b, 4) == le_word_at(le_bytes(n as u32), 0));
        assert(b.subrange(8, 8 + n) =~= r.2);
        assert(b.subrange(8 + n, b.len() as int) =~= e);
    }
}

/// Encoding then decoding a record sequence gives the records back, for every
/// sequence whose records fit the header fields and whose payloads do not have
/// exactly 4095 bytes (a size the header word cannot tell from the extension mark).
pub proof fn lemma_records_round_trip(rs: Seq<RecordView>)
    requires
        forall|i: int| 0 <= i < rs.len() ==> #[trigger] record_encodable(rs[i]) && rs[i].2.len() != EXTENDED_SIZE,
    ensures
        decode_all(encode_all(rs)) == Some(rs),
    decreases rs.len(),
{
    if rs.len() > 0 {
        let rest = rs.drop_first();
        assert(record_encodable(rs[0]) && rs[0].2.len() != EXTENDED_SIZE);
        assert forall|i: int| 0 <= i < rest.len() implies #[trigger] record_encodable(rest[i]) && rest[i].2.len() != EXTENDED_SIZE by {
            assert(record_encodable(rs[i + 1]) && rs[i + 1].2.len() != EXTENDED_SIZE);
        }
        lemma_records_round_trip(rest);
        lemma_decode_front(rs[0], encode_all(rest));
        assert(seq![rs[0]] + rest =~= rs);
    }
}

pub(crate) fn push_le_word(out: &mut Vec<u8>, w: u32)
    ensures
        final(out)@ == old(out)@ + le_bytes(w),
{
    out.push((w & 0xFF) as u8);
    out.push(((w >> 8) & 0xFF) as u8);
    out.push(((w >> 16) & 0xFF) as u8);
    out.push((w >> 24) as u8);
    assert(final(out)@ =~= old(out)@ + le_bytes(w));
}

pub(crate) fn read_le_word(b: &[u8], i: usize) -> (r: u32)
    requires
        i + 4 <= b@.len(),
    ensures
        r == le_word_at(b@, i as int),
{
    (b[i] as u32) | ((b[i + 1] as u32) << 8) | ((b[i + 2] as u32) << 16) | ((b[i + 3] as u32) << 24)
}

/// Frames a record sequence for a legacy binary stream.
pub fn encode_records(rs: &Vec<Record>) -> (out: Vec<u8>)
    requires
        forall|i: int| 0 <= i < rs@.len() ==> #[trigger] record_encodable(rs@[i]@),
    ensures
        out@ == encode_all(records_view(rs@)),
{
    let mut out: Vec<u8> = Vec::new();
    let ghost all = records_view(rs@);
    let mut i: usize = 0;
    assert(all.subrange(0, all.len() as int) =~= all);
    while i < rs.len()
        invariant
            i <= rs@.len(),
            all == records_view(rs@),
            forall|k: int| 0 <= k < rs@.len() ==> #[trigger] record_encodable(rs@[k]@),
            encode_all(all) == out@ + encode_all(all.subrange(i as int, all.len() as int)),
        decreases rs@.len() - i,
    {
        let r = &rs[i];
        assert(record_encodable(rs@[i as int]@));
        let ghost tail = all.subrange(i as int, all.len() as int);
        assert(tail[0] == r@);
        assert(tail.drop_first() =~= all.subrange(i + 1, all.len() as int));
        let n = r.payload.len();
        if n <= 4095 {
            push_le_word(&mut out, (r.tag_id as u32) | ((r.level as u32) << 10) | ((n as u32) << 20));
        } else {
            push_le_word(&mut out, (r.tag_id as u32) | ((r.level as u32) << 10) | (4095u32 << 20));
            push_le_word(&mut out, n as u32);
        }
        let mut j: usize = 0;
        let ghost before = out@;
        while j < n
            invariant
                j <= n,
                n == r.payload@.len(),
                out@ == before + r.payload@.subrange(0, j as int),
            decreases n - j,
        {
            out.push(r.payload[j]);
            j = j + 1;
            assert(out@ =~= before + r.payload@.subrange(0, j as int));
        }
        assert(r.payload@.subrange(0, n as int) =~= r.payload@);
        i = i + 1;
    }
    assert(all.subrange(i as int, all.len() as int) =~= Seq::<RecordView>::empty());
    assert(out@ + Seq::<u8>::empty() =~= out@);
    out
}

/// Reads the record sequence that a legacy binary stream frames, under the
/// default size ceiling.
pub fn decode_records(b: &[u8]) -> (res: Result<Vec<Record>, HwpError>)
    ensures
        match res {
            Ok(rs) => decode_all(b@) == Some(records_view(rs@)),
            Err(e) => decode_all(b@) is None && e == HwpError::InvalidFormat,
        },
{
    decode_records_within(b, MAX_RECORD_SIZE)
}

/// Reads the record sequence that a legacy binary stream frames, refusing
/// records that declare an extended size above `limit`.
pub fn decode_records_within(b: &[u8], limit: u32) -> (res: Result<Vec<Record>, HwpError>)
    ensures
        match res {
            Ok(rs) => decode_within(b@, limit) == Some(records_view(rs@)),
            Err(e) => decode_within(b@, limit) is None && e == HwpError::InvalidFormat,
        },
{
    let mut rs: Vec<Record> = Vec::new();
    let mut pos: usize = 0;
    let len = b.len();
    assert(b@.subrange(0, len as int) =~= b@);
    assert(decode_within(b@, limit) is Some ==> records_view(rs@) + decode_within(b@, limit)->0 =~= decode_within(b@, limit)->0);
    while pos < len
        invariant
            pos <= len,
            len == b@.len(),
            decode_within(b@, limit) == match decode_within(b@.subrange(pos as int, len as int), limit) {
                Some(s) => Some(records_view(rs@) + s),
                None => None,
            },
        decreases len - pos,
    {
        let ghost cur = b@.subrange(pos as int, len as int);
        assert(cur.len() == len - pos);
        if len - pos < 4 {
            return Err(HwpError::InvalidFormat);
        }
        let w = read_le_word(b, pos);
        assert(le_word_at(cur, 0) == w);
        assert(w & 0x3FFu32 < 1024u32) by (bit_vector);
        assert((w >> 10u32) & 0x3FFu32 < 1024u32) by (bit_vector);
        let tag = (w & 0x3FF) as u16;
        let level = ((w >> 10) & 0x3FF) as u16;
        let size = w >> 20;
        let start: usize;
        let n: usize;
        if size == 4095 {
            if len - pos < 8 {
                return Err(HwpError::InvalidFormat);
            }
            let ext = read_le_word(b, pos + 4);
            assert(le_word_at(cur, 4) == ext);
            if ext > limit || len - pos - 8 < ext as usize {
                return Err(HwpError::InvalidFormat);
            }
            start = pos + 8;
            n = ext as usize;
        } else {
            if len - pos - 4 < size as usize {
                return Err(HwpError::InvalidFormat);
            }
            start = pos + 4;
            n = size as usize;
        }
        let mut payload: Vec<u8> = Vec::new();
        let mut j: usize = 0;
        while j < n
            invariant
                j <= n,
                start + n <= len,
                len == b@.len(),
                payload@ == b@.subrange(start as int, start + j),
            decreases n - j,
        {
            payload.push(b[start + j]);
            j = j + 1;
            assert(payload@ =~= b@.subrange(start as int, start + j));
        }
        let r = Record { tag_id: tag, level, payload };
        let ghost old_rs = rs@;
        assert(r@.2 =~= cur.subrange((start - pos) as int, (start - pos + n) as int));
        assert(cur.subrange((start - pos + n) as int, cur.len() as int) =~= b@.subrange(start + n, len as int));
        rs.push(r);
        assert(records_view(rs@) =~= records_view(old_rs) + seq![r@]);
        assert(records_view(rs@) + decode_within(b@.subrange(start + n, len as int), limit)->0
            =~= records_view(old_rs) + (seq![r@] + decode_within(b@.subrange(start + n, len as int), limit)->0));
        pos = start + n;
    }
    assert(b@.subrange(pos as int, len as int) =~= Seq::<u8>::empty());
    assert(records_view(rs@) + Seq::<RecordView>::empty() =~= records_view(rs@));
    Ok(rs)
}

} // verus!
