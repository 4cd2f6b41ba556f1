//! The byte format of log entries and snapshot blobs, and its primitives: a
//! `u64` as 8 little-endian bytes, a request id as two such words (low word
//! first), a string as its UTF-8 length followed by its UTF-8 bytes.
use vstd::prelude::*;
use vstd::utf8::{decode_utf8, encode_utf8, valid_utf8};

verus! {

broadcast use {vstd::utf8::encode_utf8_valid_utf8, vstd::utf8::encode_utf8_decode_utf8};

/// The 8 little-endian bytes of `v`.
pub open spec fn u64_bytes(v: u64) -> Seq<u8> {
    seq![
        v as u8,
        (v >> 8u64) as u8,
        (v >> 16u64) as u8,
        (v >> 24u64) as u8,
        (v >> 32u64) as u8,
        (v >> 40u64) as u8,
        (v >> 48u64) as u8,
        (v >> 56u64) as u8,
    ]
}

/// The `u64` whose little-endian bytes are the first 8 of `w`.
pub open spec fn u64_of(w: Seq<u8>) -> u64
    recommends
        w.len() >= 8,
{
    (w[0] as u64) | ((w[1] as u64) << 8u64) | ((w[2] as u64) << 16u64) | ((w[3] as u64) << 24u64)
        | ((w[4] as u64) << 32u64) | ((w[5] as u64) << 40u64) | ((w[6] as u64) << 48u64) | ((
    w[7] as u64) << 56u64)
}

/// The request id with low word `lo` and high word `hi`.
pub open spec fn id_of(lo: u64, hi: u64) -> u128 {
    ((hi as u128) << 64u128) | (lo as u128)
}

/// The bytes of a request id.
pub open spec fn id_bytes(v: u128) -> Seq<u8> {
    u64_bytes(v as u64) + u64_bytes((v >> 64u128) as u64)
}

/// The bytes of a string: its UTF-8 length, then its UTF-8 bytes.
pub open spec fn str_bytes(s: Seq<char>) -> Seq<u8> {
    u64_bytes(encode_utf8(s).len() as u64) + encode_utf8(s)
}

/// A string whose UTF-8 length fits in a `u64`, as that of every `String` does.
pub open spec fn encodable(s: Seq<char>) -> bool {
    encode_utf8(s).len() <= u64::MAX
}

/// `x` stands in `b` from position `pos` on.
pub open spec fn holds_at(b: Seq<u8>, pos: int, x: Seq<u8>) -> bool {
    0 <= pos && pos + x.len() <= b.len() && b.subrange(pos, pos + x.len()) == x
}

/// Reads a `u64` at `pos`: the value and the position after it.
pub open spec fn dec_u64(b: Seq<u8>, pos: int) -> Option<(u64, int)> {
    if 0 <= pos && pos + 8 <= b.len() {
        Some((u64_of(b.subrange(pos, pos + 8)), pos + 8))
    } else {
        None
    }
}

/// Reads a request id at `pos`.
#[verifier::opaque]
pub open spec fn dec_id(b: Seq<u8>, pos: int) -> Option<(u128, int)> {
    match dec_u64(b, pos) {
        Some((lo, p)) => match dec_u64(b, p) {
            Some((hi, q)) => Some((id_of(lo, hi), q)),
            None => None,
        },
        None => None,
    }
}

/// Reads a string at `pos`.
#[verifier::opaque]
pub open spec fn dec_str(b: Seq<u8>, pos: int) -> Option<(Seq<char>, int)> {
    match dec_u64(b, pos) {
        Some((n, p)) => if p + n <= b.len() && valid_utf8(b.subrange(p, p + n)) {
            Some((decode_utf8(b.subrange(p, p + n)), p + n))
        } else {
            None
        },
        None => None,
    }
}

pub proof fn lemma_u64_round_trip(v: u64)
    ensures
        u64_of(u64_bytes(v)) == v,
{
    let b = u64_bytes(v);
    let b0 = b[0];
    let b1 = b[1];
    let b2 = b[2];
    let b3 = b[3];
    let b4 = b[4];
    let b5 = b[5];
    let b6 = b[6];
    let b7 = b[7];
    assert(((b0 as u64) | ((b1 as u64) << 8u64) | ((b2 as u64) << 16u64) | ((b3 as u64) << 24u64)
        | ((b4 as u64) << 32u64) | ((b5 as u64) << 40u64) | ((b6 as u64) << 48u64) | ((b7 as u64)
        << 56u64)) == v) by (bit_vector)
        requires
            b0 == v as u8,
            b1 == (v >> 8u64) as u8,
            b2 == (v >> 16u64) as u8,
            b3 == (v >> 24u64) as u8,
            b4 == (v >> 32u64) as u8,
            b5 == (v >> 40u64) as u8,
            b6 == (v >> 48u64) as u8,
            b7 == (v >> 56u64) as u8,
    ;
}

pub proof fn lemma_id_round_trip(v: u128)
    ensures
        id_of(v as u64, (v >> 64u128) as u64) == v,
{
    assert(((((v >> 64u128) as u64) as u128) << 64u128) | ((v as u64) as u128) == v)
        by (bit_vector);
}

/// A sequence stands in itself from its start.
pub proof fn lemma_holds_whole(b: Seq<u8>)
    ensures
        holds_at(b, 0, b),
{
    assert(b.subrange(0, b.len() as int) =~= b);
}

/// A value that stands at `pos` as a concatenation has each part in place.
pub proof fn lemma_holds_split(b: Seq<u8>, pos: int, x: Seq<u8>, y: Seq<u8>)
    requires
        holds_at(b, pos, x + y),
    ensures
        holds_at(b, pos, x),
        holds_at(b, pos + x.len(), y),
{
    let whole = b.subrange(pos, pos + (x + y).len());
    assert(whole == x + y);
    assert(b.subrange(pos, pos + x.len()) =~= whole.subrange(0, x.len() as int));
    assert(whole.subrange(0, x.len() as int) =~= x);
    assert(b.subrange(pos + x.len(), pos + x.len() + y.len()) =~= whole.subrange(
        x.len() as int,
        whole.len() as int,
    ));
    assert(whole.subrange(x.len() as int, whole.len() as int) =~= y);
}

pub proof fn lemma_dec_u64(b: Seq<u8>, pos: int, v: u64)
    requires
        holds_at(b, pos, u64_bytes(v)),
    ensures
        dec_u64(b, pos) == Some((v, pos + 8)),
{
    lemma_u64_round_trip(v);
}

pub proof fn lemma_dec_id(b: Seq<u8>, pos: int, v: u128)
    requires
        holds_at(b, pos, id_bytes(v)),
    ensures
        dec_id(b, pos) == Some((v, pos + 16)),
{
    reveal(dec_id);
    lemma_holds_split(b, pos, u64_bytes(v as u64), u64_bytes((v >> 64u128) as u64));
    lemma_dec_u64(b, pos, v as u64);
    lemma_dec_u64(b, pos + 8, (v >> 64u128) as u64);
    lemma_id_round_trip(v);
}

pub proof fn lemma_dec_str(b: Seq<u8>, pos: int, s: Seq<char>)
    requires
        encodable(s),
        holds_at(b, pos, str_bytes(s)),
    ensures
        dec_str(b, pos) == Some((s, pos + str_bytes(s).len())),
{
    reveal(dec_str);
    let e = encode_utf8(s);
    lemma_holds_split(b, pos, u64_bytes(e.len() as u64), e);
    lemma_dec_u64(b, pos, e.len() as u64);
}

/// Appends the bytes of `v`.
pub fn push_u64(out: &mut Vec<u8>, v: u64)
    ensures
        final(out)@ == old(out)@ + u64_bytes(v),
{
    out.push(v as u8);
    out.push((v >> 8) as u8);
    out.push((v >> 16) as u8);
    out.push((v >> 24) as u8);
    out.push((v >> 32) as u8);
    out.push((v >> 40) as u8);
    out.push((v >> 48) as u8);
    out.push((v >> 56) as u8);
    assert(final(out)@ =~= old(out)@ + u64_bytes(v));
}

/// Appends the bytes of a request id.
pub fn push_id(out: &mut Vec<u8>, v: u128)
    ensures
        final(out)@ == old(out)@ + id_bytes(v),
{
    push_u64(out, v as u64);
    push_u64(out, (v >> 64) as u64);
    assert(final(out)@ =~= old(out)@ + id_bytes(v));
}

/// Appends the bytes of a string.
pub fn push_str(out: &mut Vec<u8>, s: &str)
    ensures
        final(out)@ == old(out)@ + str_bytes(s@),
        encodable(s@),
{
    let b = s.as_bytes();
    push_u64(out, b.len() as u64);
    let ghost mid = out@;
    let mut i: usize = 0;
    while i < b.len()
        invariant
            i <= b@.len(),
            out@ == mid + b@.subrange(0, i as int),
        decreases b@.len() - i,
    {
        out.push(b[i]);
        i = i + 1;
        assert(out@ =~= mid + b@.subrange(0, i as int));
    }
    assert(b@.subrange(0, b@.len() as int) =~= b@);
    assert(final(out)@ =~= old(out)@ + str_bytes(s@));
}

/// Reads a `u64` at `pos`.
pub fn read_u64(b: &[u8], pos: usize) -> (r: Option<(u64, usize)>)
    ensures
        r is Some <==> dec_u64(b@, pos as int) is Some,
        r matches Some((v, q)) ==> dec_u64(b@, pos as int) == Some((v, q as int)),
{
    if pos > b.len() || b.len() - pos < 8 {
        return None;
    }
    let v = (b[pos] as u64) | ((b[pos + 1] as u64) << 8) | ((b[pos + 2] as u64) << 16) | ((b[pos
        + 3] as u64) << 24) | ((b[pos + 4] as u64) << 32) | ((b[pos + 5] as u64) << 40) | ((b[pos
        + 6] as u64) << 48) | ((b[pos + 7] as u64) << 56);
    let ghost w = b@.subrange(pos as int, pos + 8);
    assert(w[0] == b@[pos as int] && w[1] == b@[pos + 1] && w[2] == b@[pos + 2] && w[3] == b@[pos
        + 3] && w[4] == b@[pos + 4] && w[5] == b@[pos + 5] && w[6] == b@[pos + 6] && w[7] == b@[pos
        + 7]);
    Some((v, pos + 8))
}

/// Reads a request id at `pos`.
pub fn read_id(b: &[u8], pos: usize) -> (r: Option<(u128, usize)>)
    ensures
        r is Some <==> dec_id(b@, pos as int) is Some,
        r matches Some((v, q)) ==> dec_id(b@, pos as int) == Some((v, q as int)),
{
    reveal(dec_id);
    match read_u64(b, pos) {
        Some((lo, p)) => match read_u64(b, p) {
            Some((hi, q)) => Some((((hi as u128) << 64) | (lo as u128), q)),
            None => None,
        },
        None => None,
    }
}

/// The string whose UTF-8 bytes are `b`, if they are valid UTF-8.
///
/// Relies on `std::str::from_utf8`, which accepts exactly the valid UTF-8
/// byte sequences and then views them as a `str`.
#[verifier::external_body]
fn string_from_utf8(b: &[u8]) -> (r: Option<String>)
    ensures
        r is Some <==> valid_utf8(b@),
        r matches Some(s) ==> s@ == decode_utf8(b@),
{
    std::str::from_utf8(b).ok().map(|s| s.to_owned())
}

/// Reads a string at `pos`.
pub fn read_str(b: &[u8], pos: usize) -> (r: Option<(String, usize)>)
    ensures
        r is Some <==> dec_str(b@, pos as int) is Some,
        r matches Some((s, q)) ==> dec_str(b@, pos as int) == Some((s@, q as int)),
{
    reveal(dec_str);
    match read_u64(b, pos) {
        Some((n, p)) => {
            if n > (b.len() - p) as u64 {
                return None;
            }
            let q = p + n as usize;
            let bytes = &b[p..q];
            match string_from_utf8(bytes) {
                Some(s) => Some((s, q)),
                None => None,
            }
        },
        None => None,
    }
}

} // verus!
