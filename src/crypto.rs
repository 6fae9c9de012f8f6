use vstd::prelude::*;

use crate::error::HwpError;
use crate::record::{le_word_at, read_le_word};

verus! {

/// Length of the distribution record: a 4-byte record header and 256 bytes of data.
pub const DISTRIBUTION_RECORD_LEN: usize = 260;

/// The SHA-1 digest of the bytes, as the `sha1` crate computes it.
pub uninterp spec fn sha1_digest(data: Seq<u8>) -> Seq<u8>;

/// The AES-128 decryption of one 16-byte block under a 16-byte key, as the `aes` crate computes it.
pub uninterp spec fn aes128_decrypt_block(key: Seq<u8>, block: Seq<u8>) -> Seq<u8>;

/// Relies on `sha1::Sha1::digest`: the 20-byte SHA-1 digest of the bytes.
#[verifier::external_body]
fn sha1(data: &[u8]) -> (r: Vec<u8>)
    ensures
        r@ == sha1_digest(data@),
        r@.len() == 20,
{
    <sha1::Sha1 as sha1::Digest>::digest(data).to_vec()
}

/// Relies on `aes::Aes128` (`KeyInit::new_from_slice`, `BlockDecrypt::decrypt_block`):
/// one block decrypted under the key.
#[verifier::external_body]
fn decrypt_block(key: &[u8], block: &[u8]) -> (r: Vec<u8>)
    requires
        key@.len() == 16,
        block@.len() == 16,
    ensures
        r@ == aes128_decrypt_block(key@, block@),
        r@.len() == 16,
{
    let cipher = <aes::Aes128 as aes::cipher::KeyInit>::new_from_slice(key).unwrap();
    let mut b = aes::cipher::generic_array::GenericArray::clone_from_slice(block);
    aes::cipher::BlockDecrypt::decrypt_block(&cipher, &mut b);
    b.to_vec()
}

/// The state of the Microsoft C runtime's `rand` after one draw.
pub open spec fn rand_next(s: u32) -> u32 {
    ((s as int * 214013 + 2531011) % 0x1_0000_0000) as u32
}

/// The value one draw yields from the state it leaves.
pub open spec fn rand_value(s: u32) -> u32 {
    (s / 65536) % 32768
}

/// The mask state (generator state, mask byte, bytes left for it) before a
/// byte, once a fresh mask byte and run length are drawn where the last run
/// is used up.
pub open spec fn refresh(st: (u32, u8, nat)) -> (u32, u8, nat) {
    if st.2 == 0 {
        let s1 = rand_next(st.0);
        let s2 = rand_next(s1);
        (s2, (rand_value(s1) % 256) as u8, (rand_value(s2) % 16 + 1) as nat)
    } else {
        st
    }
}

/// The mask state after `i` bytes of the distribution data, seeded by its first word.
pub open spec fn mask_after(seed: u32, i: nat) -> (u32, u8, nat)
    decreases i,
{
    if i == 0 {
        (seed, 0, 0)
    } else {
        let st = refresh(mask_after(seed, (i - 1) as nat));
        (st.0, st.1, (st.2 - 1) as nat)
    }
}

/// The distribution data with its mask removed: each byte XORed with the mask
/// byte of its run.
pub open spec fn unmasked(data: Seq<u8>) -> Seq<u8>
    recommends
        data.len() >= 4,
{
    Seq::new(data.len(), |i: int| data[i] ^ refresh(mask_after(le_word_at(data, 0), i as nat)).1)
}

/// The AES key of a distribution record: the first 16 bytes of the SHA-1
/// digest of the 80-byte secret that starts, in the unmasked data, at
/// 4 plus the low four bits of the seed.
pub open spec fn distribution_key_of(record: Seq<u8>) -> Seq<u8> {
    let data = record.subrange(4, DISTRIBUTION_RECORD_LEN as int);
    let off = 4 + le_word_at(data, 0) % 16;
    sha1_digest(unmasked(data).subrange(off as int, off + 80)).subrange(0, 16)
}

/// The blocks of a body decrypted one by one, in order.
pub open spec fn ecb_decrypt(key: Seq<u8>, body: Seq<u8>) -> Seq<u8>
    decreases body.len(),
{
    if body.len() < 16 {
        Seq::empty()
    } else {
        aes128_decrypt_block(key, body.subrange(0, 16)) + ecb_decrypt(key, body.subrange(16, body.len() as int))
    }
}

/// Whether plain text ends in valid PKCS#7 padding.
pub open spec fn has_padding(p: Seq<u8>) -> bool {
    p.len() > 0 && 1 <= p.last() <= 16 && p.last() <= p.len()
        && forall|i: int| p.len() - p.last() <= i < p.len() ==> p[i] == p.last()
}

/// Plain text with valid padding removed; without it, the text is kept whole.
pub open spec fn unpadded(p: Seq<u8>) -> Seq<u8> {
    if has_padding(p) { p.subrange(0, p.len() - p.last()) } else { p }
}

/// The plain text of a distribution stream body under a key, or None where
/// the body is not a whole number of blocks.
pub open spec fn decrypt_body(key: Seq<u8>, body: Seq<u8>) -> Option<Seq<u8>> {
    if body.len() % 16 != 0 {
        None
    } else {
        Some(unpadded(ecb_decrypt(key, body)))
    }
}

/// Removes the mask from the 256 bytes of distribution data.
fn unmask(data: &[u8]) -> (r: Vec<u8>)
    requires
        data@.len() >= 4,
    ensures
        r@ == unmasked(data@),
{
    let seed = read_le_word(data, 0);
    let mut s: u32 = seed;
    let mut k: u8 = 0;
    let mut n: u32 = 0;
    let mut out: Vec<u8> = Vec::new();
    let mut i: usize = 0;
    while i < data.len()
        invariant
            i <= data@.len(),
            seed == le_word_at(data@, 0),
            n <= 16,
            (s, k, n as nat) == mask_after(seed, i as nat),
            out@.len() == i,
            forall|j: int| 0 <= j < i ==> out@[j] == #[trigger] unmasked(data@)[j],
        decreases data@.len() - i,
    {
        if n == 0 {
            let s1 = s.wrapping_mul(214013).wrapping_add(2531011);
            let s2 = s1.wrapping_mul(214013).wrapping_add(2531011);
            assert(s1 == rand_next(s) && s2 == rand_next(s1)) by {
                assert(s1 as int == (s as int * 214013 % 0x1_0000_0000 + 2531011) % 0x1_0000_0000);
                assert(s2 as int == (s1 as int * 214013 % 0x1_0000_0000 + 2531011) % 0x1_0000_0000);
                assert((s as int * 214013 % 0x1_0000_0000 + 2531011) % 0x1_0000_0000
                    == (s as int * 214013 + 2531011) % 0x1_0000_0000) by (nonlinear_arith);
                assert((s1 as int * 214013 % 0x1_0000_0000 + 2531011) % 0x1_0000_0000
                    == (s1 as int * 214013 + 2531011) % 0x1_0000_0000) by (nonlinear_arith);
            }
            k = (((s1 / 65536) % 32768) % 256) as u8;
            n = ((s2 / 65536) % 32768) % 16 + 1;
            s = s2;
        }
        assert((s, k, n as nat) == refresh(mask_after(seed, i as nat)));
        out.push(data[i] ^ k);
        n = n - 1;
        i = i + 1;
    }
    assert(out@ =~= unmasked(data@));
    out
}

/// The AES key of a distribution record.
pub fn distribution_key(record: &[u8]) -> (key: Vec<u8>)
    requires
        record@.len() >= DISTRIBUTION_RECORD_LEN,
    ensures
        key@ == distribution_key_of(record@),
        key@.len() == 16,
{
    let mut data: Vec<u8> = Vec::new();
    let mut i: usize = 4;
    while i < DISTRIBUTION_RECORD_LEN
        invariant
            4 <= i <= DISTRIBUTION_RECORD_LEN <= record@.len(),
            data@ == record@.subrange(4, i as int),
        decreases DISTRIBUTION_RECORD_LEN - i,
    {
        data.push(record[i]);
        i = i + 1;
        assert(data@ =~= record@.subrange(4, i as int));
    }
    let plain = unmask(data.as_slice());
    let seed = read_le_word(data.as_slice(), 0);
    let off: usize = 4 + (seed % 16) as usize;
    let mut secret: Vec<u8> = Vec::new();
    let mut j: usize = off;
    while j < off + 80
        invariant
            off <= 19,
            off <= j <= off + 80,
            off + 80 <= plain@.len(),
            secret@ == plain@.subrange(off as int, j as int),
        decreases off + 80 - j,
    {
        secret.push(plain[j]);
        j = j + 1;
        assert(secret@ =~= plain@.subrange(off as int, j as int));
    }
    let digest = sha1(secret.as_slice());
    let mut key: Vec<u8> = Vec::new();
    let mut m: usize = 0;
    while m < 16
        invariant
            m <= 16,
            digest@.len() == 20,
            key@ == digest@.subrange(0, m as int),
        decreases 16 - m,
    {
        key.push(digest[m]);
        m = m + 1;
        assert(key@ =~= digest@.subrange(0, m as int));
    }
    key
}

fn strip_padding(p: Vec<u8>) -> (r: Vec<u8>)
    ensures
        r@ == unpadded(p@),
{
    let len = p.len();
    if len == 0 {
        return p;
    }
    let last = p[len - 1];
    if last < 1 || last > 16 || last as usize > len {
        return p;
    }
    let start = len - last as usize;
    let mut i: usize = start;
    while i < len
        invariant
            start <= i <= len,
            len == p@.len(),
            last == p@.last(),
            start == len - last,
            forall|j: int| start <= j < i ==> p@[j] == last,
        decreases len - i,
    {
        if p[i] != last {
            return p;
        }
        i = i + 1;
    }
    let mut r: Vec<u8> = Vec::new();
    let mut j: usize = 0;
    while j < start
        invariant
            j <= start <= len,
            len == p@.len(),
            r@ == p@.subrange(0, j as int),
        decreases start - j,
    {
        r.push(p[j]);
        j = j + 1;
        assert(r@ =~= p@.subrange(0, j as int));
    }
    r
}

/// Decrypts a distribution stream body under a key: AES-128 in ECB mode,
/// valid PKCS#7 padding removed, else the last block kept as it is.
pub fn decrypt_with_key(key: &Vec<u8>, body: &[u8]) -> (res: Result<Vec<u8>, HwpError>)
    requires
        key@.len() == 16,
    ensures
        match decrypt_body(key@, body@) {
            Some(p) => res matches Ok(r) && r@ == p,
            None => res == Err::<Vec<u8>, HwpError>(HwpError::CryptoError),
        },
{
    let len = body.len();
    if len % 16 != 0 {
        return Err(HwpError::CryptoError);
    }
    let mut out: Vec<u8> = Vec::new();
    let mut i: usize = 0;
    assert(body@.subrange(0, len as int) =~= body@);
    while i < len
        invariant
            i <= len,
            len == body@.len(),
            len % 16 == 0,
            i % 16 == 0,
            key@.len() == 16,
            ecb_decrypt(key@, body@) == out@ + ecb_decrypt(key@, body@.subrange(i as int, len as int)),
        decreases len - i,
    {
        let ghost cur = body@.subrange(i as int, len as int);
        let mut block: Vec<u8> = Vec::new();
        let mut j: usize = 0;
        while j < 16
            invariant
                j <= 16,
                i + 16 <= len,
                len == body@.len(),
                block@ == body@.subrange(i as int, i + j),
            decreases 16 - j,
        {
            block.push(body[i + j]);
            j = j + 1;
            assert(block@ =~= body@.subrange(i as int, i + j));
        }
        assert(cur.subrange(0, 16) =~= block@);
        assert(cur.subrange(16, cur.len() as int) =~= body@.subrange(i + 16, len as int));
        let mut plain = decrypt_block(key.as_slice(), block.as_slice());
        let ghost before = out@;
        out.append(&mut plain);
        assert(out@ + ecb_decrypt(key@, body@.subrange(i + 16, len as int))
            =~= before + (aes128_decrypt_block(key@, block@) + ecb_decrypt(key@, body@.subrange(i + 16, len as int))));
        i = i + 16;
    }
    assert(ecb_decrypt(key@, body@.subrange(i as int, len as int)) == Seq::<u8>::empty());
    assert(out@ + Seq::<u8>::empty() =~= out@);
    Ok(strip_padding(out))
}

} // verus!
