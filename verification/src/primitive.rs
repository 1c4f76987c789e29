//! The primitive decoder: variable-length unsigned integers (little-endian
//! base-128 continuation encoding), zigzag-coded signed values, and
//! length-prefixed byte strings. Every reader advances a monotone cursor and
//! is proved against a spec-level decoder over the byte sequence.

use vstd::prelude::*;

use crate::FtrError;

verus! {

/// Spec decoder for a variable-length unsigned integer starting at `i`:
/// the decoded value (of unbounded width) and the cursor after it, or
/// `None` when the input ends inside the number.
pub open spec fn vdec(s: Seq<u8>, i: int) -> Option<(nat, int)>
    decreases s.len() - i,
{
    if i < 0 || i >= s.len() {
        None
    } else if s[i] < 128 {
        Some((s[i] as nat, i + 1))
    } else {
        match vdec(s, i + 1) {
            None => None,
            Some((v, j)) => Some((((s[i] - 128) as nat + 128 * v) as nat, j)),
        }
    }
}

/// A successful varint decode always moves the cursor forward and stays
/// inside the input.
pub proof fn lemma_vdec_advances(s: Seq<u8>, i: int)
    ensures
        vdec(s, i) matches Some((v, j)) ==> i < j <= s.len(),
    decreases s.len() - i,
{
    if 0 <= i < s.len() && s[i] >= 128 {
        lemma_vdec_advances(s, i + 1);
    }
}

/// Reads one varint at `pos`. Values that do not fit a `u64` are malformed.
pub fn read_varint(bytes: &[u8], pos: usize) -> (r: Result<(u64, usize), FtrError>)
    ensures
        match r {
            Ok((v, p)) => vdec(bytes@, pos as int) == Some((v as nat, p as int)),
            Err(e) => match vdec(bytes@, pos as int) {
                None => e == FtrError::UnexpectedEndOfInput,
                Some((v, j)) => v > u64::MAX && e == FtrError::MalformedVarint,
            },
        },
    decreases bytes@.len() - pos,
{
    proof {
        lemma_vdec_advances(bytes@, pos as int);
    }
    if pos >= bytes.len() {
        return Err(FtrError::UnexpectedEndOfInput);
    }
    let b = bytes[pos];
    if b < 128 {
        return Ok((b as u64, pos + 1));
    }
    match read_varint(bytes, pos + 1) {
        Err(e) => Err(e),
        Ok((v, j)) => {
            // 2^57 is the least value whose low seven bits no longer fit
            // beside the rest in 64 bits.
            if v >= 144115188075855872u64 {
                Err(FtrError::MalformedVarint)
            } else {
                Ok(((b - 128) as u64 + 128 * v, j))
            }
        },
    }
}

/// Spec meaning of zigzag decoding: even codes are the non-negative values,
/// odd codes the negative ones.
pub open spec fn zigzag(v: nat) -> int {
    if v % 2 == 0 {
        (v / 2) as int
    } else {
        -((v / 2) as int) - 1
    }
}

/// Decodes a zigzag-coded signed value. Every `u64` code has a meaning, and
/// every result fits an `i64`.
pub fn unzigzag(v: u64) -> (r: i64)
    ensures
        r as int == zigzag(v as nat),
{
    if v % 2 == 0 {
        (v / 2) as i64
    } else {
        -((v / 2) as i64) - 1
    }
}

/// Spec decoder for a length-prefixed byte string at `i`: the raw bytes and
/// the cursor after them.
pub open spec fn rawstr_dec(s: Seq<u8>, i: int) -> Option<(Seq<u8>, int)> {
    match vdec(s, i) {
        None => None,
        Some((n, j)) => if j + n <= s.len() {
            Some((s.subrange(j, j + n), j + n))
        } else {
            None
        },
    }
}

/// A successful byte-string decode moves the cursor forward.
pub proof fn lemma_rawstr_advances(s: Seq<u8>, i: int)
    ensures
        rawstr_dec(s, i) matches Some((raw, j)) ==> i < j <= s.len(),
{
    lemma_vdec_advances(s, i);
}

/// Reads a length-prefixed byte string at `pos` into an owned buffer.
pub fn read_rawstr(bytes: &[u8], pos: usize) -> (r: Result<(Vec<u8>, usize), FtrError>)
    ensures
        match rawstr_dec(bytes@, pos as int) {
            None => r is Err,
            Some((raw, j)) => r matches Ok((v, p)) && v@ == raw && p == j,
        },
{
    let len = bytes.len();
    proof {
        lemma_vdec_advances(bytes@, pos as int);
    }
    let (n, j) = match read_varint(bytes, pos) {
        Ok(x) => x,
        Err(e) => {
            return Err(e);
        },
    };
    if n > (bytes.len() - j) as u64 {
        return Err(FtrError::UnexpectedEndOfInput);
    }
    let end = j + n as usize;
    let raw = vstd::slice::slice_subrange(bytes, j, end);
    let v = vstd::slice::slice_to_vec(raw);
    Ok((v, end))
}

/// Relies on String::from_utf8_lossy: the result depends on the bytes alone;
/// on valid UTF-8 it is exactly the decoded string.
#[verifier::external_body]
pub(crate) fn bytes_to_string(v: &[u8]) -> (r: String)
    ensures
        r@ == lossy_utf8(v@),
        vstd::utf8::valid_utf8(v@) ==> r@ == vstd::utf8::decode_utf8(v@),
{
    String::from_utf8_lossy(v).into_owned()
}

/// What String::from_utf8_lossy makes of a byte string.
pub uninterp spec fn lossy_utf8(bytes: Seq<u8>) -> Seq<char>;

} // verus!
