//! Binary primitives of the wire format: fixed-width little-endian integers,
//! raw byte runs, and length-prefixed UTF-8 text.
use vstd::prelude::*;
use vstd::utf8::*;

verus! {

broadcast use vstd::utf8::group_utf8_lib, vstd::string::group_string_axioms;

/// Whether a length or count can be written as a 64-bit prefix.
pub open spec fn fits_u64(n: nat) -> bool {
    n <= u64::MAX
}

/// The eight little-endian bytes of `n`.
pub open spec fn u64_bytes(n: u64) -> Seq<u8> {
    seq![
        n as u8,
        (n >> 8u64) as u8,
        (n >> 16u64) as u8,
        (n >> 24u64) as u8,
        (n >> 32u64) as u8,
        (n >> 40u64) as u8,
        (n >> 48u64) as u8,
        (n >> 56u64) as u8,
    ]
}

/// The integer whose little-endian bytes start `s`.
pub open spec fn u64_of(s: Seq<u8>) -> u64 {
    (s[0] as u64) | ((s[1] as u64) << 8u64) | ((s[2] as u64) << 16u64) | ((s[3] as u64)
        << 24u64) | ((s[4] as u64) << 32u64) | ((s[5] as u64) << 40u64) | ((s[6] as u64) << 48u64)
        | ((s[7] as u64) << 56u64)
}

/// The two little-endian bytes of `n`.
pub open spec fn u16_bytes(n: u16) -> Seq<u8> {
    seq![n as u8, (n >> 8u16) as u8]
}

/// The integer whose little-endian bytes start `s`.
pub open spec fn u16_of(s: Seq<u8>) -> u16 {
    (s[0] as u16) | ((s[1] as u16) << 8u16)
}

/// Reads a 64-bit integer off the front of `s`.
pub open spec fn take_u64(s: Seq<u8>) -> Option<(u64, Seq<u8>)> {
    if s.len() >= 8 {
        Some((u64_of(s), s.skip(8)))
    } else {
        None
    }
}

/// Reads a 16-bit integer off the front of `s`.
pub open spec fn take_u16(s: Seq<u8>) -> Option<(u16, Seq<u8>)> {
    if s.len() >= 2 {
        Some((u16_of(s), s.skip(2)))
    } else {
        None
    }
}

/// Reads `n` raw bytes off the front of `s`.
pub open spec fn take_raw(s: Seq<u8>, n: nat) -> Option<(Seq<u8>, Seq<u8>)> {
    if s.len() >= n {
        Some((s.take(n as int), s.skip(n as int)))
    } else {
        None
    }
}

/// Text on the wire: its UTF-8 length as a 64-bit prefix, then its UTF-8 bytes.
pub open spec fn text_bytes(t: Seq<char>) -> Seq<u8> {
    u64_bytes(encode_utf8(t).len() as u64) + encode_utf8(t)
}

/// Whether `t` is short enough for its length prefix.
pub open spec fn text_fits(t: Seq<char>) -> bool {
    fits_u64(encode_utf8(t).len())
}

/// Reads length-prefixed text off the front of `s`; the bytes must be valid UTF-8.
pub open spec fn take_text(s: Seq<u8>) -> Option<(Seq<char>, Seq<u8>)> {
    match take_u64(s) {
        Some((n, r)) => if r.len() >= n && valid_utf8(r.take(n as int)) {
            Some((decode_utf8(r.take(n as int)), r.skip(n as int)))
        } else {
            None
        },
        None => None,
    }
}

pub proof fn lemma_u64_round_trip(n: u64, rest: Seq<u8>)
    ensures
        take_u64(u64_bytes(n) + rest) == Some((n, rest)),
{
    let s = u64_bytes(n) + rest;
    let b0 = n as u8;
    let b1 = (n >> 8u64) as u8;
    let b2 = (n >> 16u64) as u8;
    let b3 = (n >> 24u64) as u8;
    let b4 = (n >> 32u64) as u8;
    let b5 = (n >> 40u64) as u8;
    let b6 = (n >> 48u64) as u8;
    let b7 = (n >> 56u64) as u8;
    assert((b0 as u64) | ((b1 as u64) << 8u64) | ((b2 as u64) << 16u64) | ((b3 as u64) << 24u64)
        | ((b4 as u64) << 32u64) | ((b5 as u64) << 40u64) | ((b6 as u64) << 48u64) | ((b7 as u64)
        << 56u64) == n) by (bit_vector)
        requires
            b0 == n as u8,
            b1 == (n >> 8u64) as u8,
            b2 == (n >> 16u64) as u8,
            b3 == (n >> 24u64) as u8,
            b4 == (n >> 32u64) as u8,
            b5 == (n >> 40u64) as u8,
            b6 == (n >> 48u64) as u8,
            b7 == (n >> 56u64) as u8,
    ;
    assert(s[0] == b0 && s[1] == b1 && s[2] == b2 && s[3] == b3);
    assert(s[4] == b4 && s[5] == b5 && s[6] == b6 && s[7] == b7);
    assert(s.skip(8) =~= rest);
}

pub proof fn lemma_u16_round_trip(n: u16, rest: Seq<u8>)
    ensures
        take_u16(u16_bytes(n) + rest) == Some((n, rest)),
{
    let s = u16_bytes(n) + rest;
    let b0 = n as u8;
    let b1 = (n >> 8u16) as u8;
    assert((b0 as u16) | ((b1 as u16) << 8u16) == n) by (bit_vector)
        requires
            b0 == n as u8,
            b1 == (n >> 8u16) as u8,
    ;
    assert(s[0] == b0 && s[1] == b1);
    assert(s.skip(2) =~= rest);
}

pub proof fn lemma_raw_round_trip(b: Seq<u8>, rest: Seq<u8>)
    ensures
        take_raw(b + rest, b.len()) == Some((b, rest)),
{
    assert((b + rest).take(b.len() as int) =~= b);
    assert((b + rest).skip(b.len() as int) =~= rest);
}

pub proof fn lemma_text_round_trip(t: Seq<char>, rest: Seq<u8>)
    requires
        text_fits(t),
    ensures
        take_text(text_bytes(t) + rest) == Some((t, rest)),
{
    let e = encode_utf8(t);
    let n = e.len() as u64;
    assert(text_bytes(t) + rest =~= u64_bytes(n) + (e + rest));
    lemma_u64_round_trip(n, e + rest);
    assert((e + rest).take(n as int) =~= e);
    assert((e + rest).skip(n as int) =~= rest);
    encode_utf8_valid_utf8(t);
    encode_utf8_decode_utf8(t);
}

/// Appends the bytes of `n`.
pub fn put_u64(out: &mut Vec<u8>, n: u64)
    ensures
        final(out)@ == old(out)@ + u64_bytes(n),
{
    out.push(n as u8);
    out.push((n >> 8u64) as u8);
    out.push((n >> 16u64) as u8);
    out.push((n >> 24u64) as u8);
    out.push((n >> 32u64) as u8);
    out.push((n >> 40u64) as u8);
    out.push((n >> 48u64) as u8);
    out.push((n >> 56u64) as u8);
    assert(out@ =~= old(out)@ + u64_bytes(n));
}

/// Appends the bytes of `n`.
pub fn put_u16(out: &mut Vec<u8>, n: u16)
    ensures
        final(out)@ == old(out)@ + u16_bytes(n),
{
    out.push(n as u8);
    out.push((n >> 8u16) as u8);
    assert(out@ =~= old(out)@ + u16_bytes(n));
}

/// Appends `b` as it is.
pub fn put_raw(out: &mut Vec<u8>, b: &[u8])
    ensures
        final(out)@ == old(out)@ + b@,
{
    let ghost start = out@;
    let mut i: usize = 0;
    while i < b.len()
        invariant
            i <= b@.len(),
            out@ == start + b@.take(i as int),
        decreases b@.len() - i,
    {
        out.push(b[i]);
        i += 1;
        assert(out@ =~= start + b@.take(i as int));
    }
    assert(b@.take(i as int) =~= b@);
}

/// Appends `t` with its length prefix.
pub fn put_text(out: &mut Vec<u8>, t: &str)
    ensures
        final(out)@ == old(out)@ + text_bytes(t@),
        text_fits(t@),
{
    let b = t.as_bytes();
    let n = b.len();
    put_u64(out, n as u64);
    put_raw(out, b);
    assert(out@ =~= old(out)@ + text_bytes(t@));
}

/// Reads a 64-bit integer at `pos`; gives it with the position after it.
pub fn get_u64(b: &[u8], pos: usize) -> (r: Option<(u64, usize)>)
    requires
        pos <= b@.len(),
    ensures
        match r {
            Some((v, p)) => pos <= p <= b@.len() && take_u64(b@.skip(pos as int)) == Some(
                (v, b@.skip(p as int)),
            ),
            None => take_u64(b@.skip(pos as int)) is None,
        },
{
    if b.len() - pos < 8 {
        return None;
    }
    let v: u64 = (b[pos] as u64) | ((b[pos + 1] as u64) << 8u64) | ((b[pos + 2] as u64) << 16u64)
        | ((b[pos + 3] as u64) << 24u64) | ((b[pos + 4] as u64) << 32u64) | ((b[pos + 5] as u64)
        << 40u64) | ((b[pos + 6] as u64) << 48u64) | ((b[pos + 7] as u64) << 56u64);
    let ghost s = b@.skip(pos as int);
    assert(s[0] == b@[pos as int] && s[1] == b@[pos + 1] && s[2] == b@[pos + 2] && s[3] == b@[pos
        + 3]);
    assert(s[4] == b@[pos + 4] && s[5] == b@[pos + 5] && s[6] == b@[pos + 6] && s[7] == b@[pos
        + 7]);
    assert(s.skip(8) =~= b@.skip(pos + 8));
    Some((v, pos + 8))
}

/// Reads a 16-bit integer at `pos`; gives it with the position after it.
pub fn get_u16(b: &[u8], pos: usize) -> (r: Option<(u16, usize)>)
    requires
        pos <= b@.len(),
    ensures
        match r {
            Some((v, p)) => pos <= p <= b@.len() && take_u16(b@.skip(pos as int)) == Some(
                (v, b@.skip(p as int)),
            ),
            None => take_u16(b@.skip(pos as int)) is None,
        },
{
    if b.len() - pos < 2 {
        return None;
    }
    let v: u16 = (b[pos] as u16) | ((b[pos + 1] as u16) << 8u16);
    let ghost s = b@.skip(pos as int);
    assert(s[0] == b@[pos as int] && s[1] == b@[pos + 1]);
    assert(s.skip(2) =~= b@.skip(pos + 2));
    Some((v, pos + 2))
}

/// Reads `N` raw bytes at `pos` into an array.
pub fn get_array<const N: usize>(b: &[u8], pos: usize) -> (r: Option<([u8; N], usize)>)
    requires
        pos <= b@.len(),
    ensures
        match r {
            Some((a, p)) => pos <= p <= b@.len() && take_raw(b@.skip(pos as int), N as nat) == Some(
                (a@, b@.skip(p as int)),
            ),
            None => take_raw(b@.skip(pos as int), N as nat) is None,
        },
{
    if b.len() - pos < N {
        return None;
    }
    let mut a = [0u8; N];
    let mut i: usize = 0;
    while i < N
        invariant
            i <= N,
            pos + N <= b.len(),
            a@.len() == N,
            forall|j: int| 0 <= j < i ==> a@[j] == b@[pos + j],
        decreases N - i,
    {
        a[i] = b[pos + i];
        i += 1;
    }
    assert(a@ =~= b@.skip(pos as int).take(N as int));
    assert(b@.skip(pos as int).skip(N as int) =~= b@.skip(pos + N));
    Some((a, pos + N))
}

/// Reads length-prefixed UTF-8 text at `pos`.
pub fn get_text(b: &[u8], pos: usize) -> (r: Option<(String, usize)>)
    requires
        pos <= b@.len(),
    ensures
        match r {
            Some((t, p)) => pos <= p <= b@.len() && take_text(b@.skip(pos as int)) == Some(
                (t@, b@.skip(p as int)),
            ),
            None => take_text(b@.skip(pos as int)) is None,
        },
{
    let (n, p) = match get_u64(b, pos) {
        Some(x) => x,
        None => return None,
    };
    if ((b.len() - p) as u64) < n {
        return None;
    }
    let end = p + n as usize;
    let body = &b[p..end];
    let ghost r = b@.skip(p as int);
    assert(body@ =~= r.take(n as int));
    assert(r.skip(n as int) =~= b@.skip(end as int));
    match utf8_text(body) {
        Some(t) => Some((t, end)),
        None => None,
    }
}

/// Relies on std::str::from_utf8: it accepts exactly the valid UTF-8 byte
/// strings, and reads them as the characters they encode.
#[verifier::external_body]
fn utf8_text(b: &[u8]) -> (r: Option<String>)
    ensures
        r is Some <==> valid_utf8(b@),
        r matches Some(t) ==> t@ == decode_utf8(b@),
{
    match std::str::from_utf8(b) {
        Ok(t) => Some(t.to_string()),
        Err(_) => None,
    }
}

} // verus!
