//! Byte codec for the stored records.
//!
//! Records are laid out as a concatenation of fields: 64-bit integers in
//! little-endian order, signed times as their two's-complement bit pattern,
//! text as a length-prefixed UTF-8 byte run, and optional text behind a
//! one-byte presence tag. Every decoder is exact: it returns precisely what
//! the matching spec-level decoder says, and decoding an encoding yields
//! the encoded value back.

use vstd::bytes::{
    spec_u64_from_le_bytes, spec_u64_to_le_bytes, u64_from_le_bytes, u64_to_le_bytes,
};
use vstd::prelude::*;
use vstd::slice::{slice_subrange, slice_to_vec};
use vstd::utf8::{decode_utf8, encode_utf8, valid_utf8};

verus! {

// ---------------------------------------------------------------------------
// 64-bit unsigned integers
// ---------------------------------------------------------------------------
/// Encoding of a 64-bit integer: its eight little-endian bytes.
pub open spec fn enc_u64(x: u64) -> Seq<u8> {
    spec_u64_to_le_bytes(x)
}

/// Reads a 64-bit integer at offset `i`, returning it with the next offset.
pub open spec fn dec_u64_at(b: Seq<u8>, i: int) -> Option<(u64, int)> {
    if 0 <= i && i + 8 <= b.len() {
        Some((spec_u64_from_le_bytes(b.subrange(i, i + 8)), i + 8))
    } else {
        None
    }
}

pub proof fn lemma_dec_u64_enc(pre: Seq<u8>, x: u64, post: Seq<u8>)
    ensures
        dec_u64_at(pre + enc_u64(x) + post, pre.len() as int) == Some(
            (x, pre.len() + 8 as int),
        ),
{
    vstd::bytes::lemma_auto_spec_u64_to_from_le_bytes();
    let b = pre + enc_u64(x) + post;
    assert(b.subrange(pre.len() as int, pre.len() + 8 as int) =~= enc_u64(x));
}

pub fn read_u64(b: &[u8], pos: usize) -> (r: Option<(u64, usize)>)
    ensures
        match r {
            Some(p) => dec_u64_at(b@, pos as int) == Some((p.0, p.1 as int)),
            None => dec_u64_at(b@, pos as int) is None,
        },
{
    if pos <= b.len() && b.len() - pos >= 8 {
        let s = slice_subrange(b, pos, pos + 8);
        Some((u64_from_le_bytes(s), pos + 8))
    } else {
        None
    }
}

pub fn push_u64(out: &mut Vec<u8>, x: u64)
    ensures
        final(out)@ == old(out)@ + enc_u64(x),
{
    let mut b = u64_to_le_bytes(x);
    out.append(&mut b);
}

// ---------------------------------------------------------------------------
// 64-bit signed integers (times in unix seconds)
// ---------------------------------------------------------------------------
/// The two's-complement bit pattern of a signed 64-bit integer.
pub open spec fn i64_bits(x: i64) -> u64 {
    if x >= 0 {
        x as u64
    } else {
        (x + 0x1_0000_0000_0000_0000) as u64
    }
}

/// The signed 64-bit integer whose two's-complement bit pattern is `x`.
pub open spec fn i64_unbits(x: u64) -> i64 {
    if x < 0x8000_0000_0000_0000 {
        x as i64
    } else {
        (x - 0x1_0000_0000_0000_0000) as i64
    }
}

pub proof fn lemma_i64_bits_roundtrip(x: i64)
    ensures
        i64_unbits(i64_bits(x)) == x,
{
}

pub open spec fn enc_i64(x: i64) -> Seq<u8> {
    enc_u64(i64_bits(x))
}

pub open spec fn dec_i64_at(b: Seq<u8>, i: int) -> Option<(i64, int)> {
    match dec_u64_at(b, i) {
        Some(p) => Some((i64_unbits(p.0), p.1)),
        None => None,
    }
}

pub proof fn lemma_dec_i64_enc(pre: Seq<u8>, x: i64, post: Seq<u8>)
    ensures
        dec_i64_at(pre + enc_i64(x) + post, pre.len() as int) == Some(
            (x, pre.len() + 8 as int),
        ),
{
    lemma_dec_u64_enc(pre, i64_bits(x), post);
}

pub fn bits_of_i64(x: i64) -> (r: u64)
    ensures
        r == i64_bits(x),
{
    if x >= 0 {
        x as u64
    } else {
        ((x - i64::MIN) as u64) + 0x8000_0000_0000_0000
    }
}

pub fn i64_of_bits(x: u64) -> (r: i64)
    ensures
        r == i64_unbits(x),
{
    if x < 0x8000_0000_0000_0000 {
        x as i64
    } else {
        ((x - 0x8000_0000_0000_0000) as i64) + i64::MIN
    }
}

pub fn read_i64(b: &[u8], pos: usize) -> (r: Option<(i64, usize)>)
    ensures
        match r {
            Some(p) => dec_i64_at(b@, pos as int) == Some((p.0, p.1 as int)),
            None => dec_i64_at(b@, pos as int) is None,
        },
{
    match read_u64(b, pos) {
        Some(p) => Some((i64_of_bits(p.0), p.1)),
        None => None,
    }
}

pub fn push_i64(out: &mut Vec<u8>, x: i64)
    ensures
        final(out)@ == old(out)@ + enc_i64(x),
{
    push_u64(out, bits_of_i64(x));
}

// ---------------------------------------------------------------------------
// Length-prefixed byte runs
// ---------------------------------------------------------------------------
/// A byte run fits the length prefix when its length is expressible in it.
pub open spec fn bytes_fit(b: Seq<u8>) -> bool {
    b.len() < 0x1_0000_0000_0000_0000
}

pub open spec fn enc_bytes(b: Seq<u8>) -> Seq<u8> {
    enc_u64(b.len() as u64) + b
}

pub open spec fn dec_bytes_at(b: Seq<u8>, i: int) -> Option<(Seq<u8>, int)> {
    match dec_u64_at(b, i) {
        Some(p) => if p.1 + p.0 <= b.len() {
            Some((b.subrange(p.1, p.1 + p.0), p.1 + p.0))
        } else {
            None
        },
        None => None,
    }
}

pub proof fn lemma_dec_bytes_enc(pre: Seq<u8>, v: Seq<u8>, post: Seq<u8>)
    requires
        bytes_fit(v),
    ensures
        dec_bytes_at(pre + enc_bytes(v) + post, pre.len() as int) == Some(
            (v, (pre.len() + 8 + v.len()) as int),
        ),
{
    vstd::bytes::lemma_auto_spec_u64_to_from_le_bytes();
    let b = pre + enc_bytes(v) + post;
    assert(b =~= pre + enc_u64(v.len() as u64) + (v + post));
    lemma_dec_u64_enc(pre, v.len() as u64, v + post);
    assert(b.subrange(pre.len() + 8 as int, pre.len() + 8 + v.len() as int) =~= v);
}

pub fn read_bytes(b: &[u8], pos: usize) -> (r: Option<(Vec<u8>, usize)>)
    ensures
        match r {
            Some(p) => dec_bytes_at(b@, pos as int) matches Some(q) && q.0 == p.0@ && q.1 == p.1
                as int,
            None => dec_bytes_at(b@, pos as int) is None,
        },
{
    match read_u64(b, pos) {
        Some(p) => {
            let n = p.0;
            let j = p.1;
            if n <= (b.len() - j) as u64 {
                let m = n as usize;
                let s = slice_subrange(b, j, j + m);
                Some((slice_to_vec(s), j + m))
            } else {
                None
            }
        },
        None => None,
    }
}

pub fn push_bytes(out: &mut Vec<u8>, b: &[u8])
    ensures
        final(out)@ == old(out)@ + enc_bytes(b@),
{
    push_u64(out, b.len() as u64);
    let mut v = slice_to_vec(b);
    out.append(&mut v);
    assert(out@ =~= old(out)@ + enc_bytes(b@));
}

// ---------------------------------------------------------------------------
// Text
// ---------------------------------------------------------------------------
/// Text fits when its UTF-8 encoding fits the length prefix.
pub open spec fn str_fits(s: Seq<char>) -> bool {
    bytes_fit(encode_utf8(s))
}

pub open spec fn enc_str(s: Seq<char>) -> Seq<u8> {
    enc_bytes(encode_utf8(s))
}

pub open spec fn dec_str_at(b: Seq<u8>, i: int) -> Option<(Seq<char>, int)> {
    match dec_bytes_at(b, i) {
        Some(p) => if valid_utf8(p.0) {
            Some((decode_utf8(p.0), p.1))
        } else {
            None
        },
        None => None,
    }
}

pub proof fn lemma_dec_str_enc(pre: Seq<u8>, s: Seq<char>, post: Seq<u8>)
    requires
        str_fits(s),
    ensures
        dec_str_at(pre + enc_str(s) + post, pre.len() as int) == Some(
            (s, (pre.len() + 8 + encode_utf8(s).len()) as int),
        ),
{
    lemma_dec_bytes_enc(pre, encode_utf8(s), post);
    vstd::utf8::encode_utf8_valid_utf8(s);
    vstd::utf8::encode_utf8_decode_utf8(s);
}

/// Relies on String::from_utf8: it accepts exactly the valid UTF-8 byte
/// runs and decodes such a run to the text it encodes.
#[verifier::external_body]
fn string_from_utf8(b: Vec<u8>) -> (r: Option<String>)
    ensures
        match r {
            Some(s) => valid_utf8(b@) && s@ == decode_utf8(b@),
            None => !valid_utf8(b@),
        },
{
    String::from_utf8(b).ok()
}

pub fn read_str(b: &[u8], pos: usize) -> (r: Option<(String, usize)>)
    ensures
        match r {
            Some(p) => dec_str_at(b@, pos as int) matches Some(q) && q.0 == p.0@ && q.1 == p.1
                as int,
            None => dec_str_at(b@, pos as int) is None,
        },
{
    match read_bytes(b, pos) {
        Some(p) => match string_from_utf8(p.0) {
            Some(s) => Some((s, p.1)),
            None => None,
        },
        None => None,
    }
}

pub fn push_str(out: &mut Vec<u8>, s: &str)
    ensures
        final(out)@ == old(out)@ + enc_str(s@),
{
    push_bytes(out, s.as_bytes());
}

// ---------------------------------------------------------------------------
// Optional text
// ---------------------------------------------------------------------------
/// The spec-level value of optionally present text.
pub open spec fn opt_str_view(s: Option<String>) -> Option<Seq<char>> {
    match s {
        None => None,
        Some(v) => Some(v@),
    }
}

pub open spec fn opt_str_fits(s: Option<Seq<char>>) -> bool {
    match s {
        None => true,
        Some(v) => str_fits(v),
    }
}

pub open spec fn enc_opt_str(s: Option<Seq<char>>) -> Seq<u8> {
    match s {
        None => seq![0u8],
        Some(v) => seq![1u8] + enc_str(v),
    }
}

pub open spec fn dec_opt_str_at(b: Seq<u8>, i: int) -> Option<(Option<Seq<char>>, int)> {
    if 0 <= i < b.len() {
        if b[i] == 0 {
            Some((None, i + 1))
        } else if b[i] == 1 {
            match dec_str_at(b, i + 1) {
                Some(p) => Some((Some(p.0), p.1)),
                None => None,
            }
        } else {
            None
        }
    } else {
        None
    }
}

pub proof fn lemma_dec_opt_str_enc(pre: Seq<u8>, s: Option<Seq<char>>, post: Seq<u8>)
    requires
        opt_str_fits(s),
    ensures
        dec_opt_str_at(pre + enc_opt_str(s) + post, pre.len() as int) == Some(
            (s, (pre.len() + enc_opt_str(s).len()) as int),
        ),
{
    vstd::bytes::lemma_auto_spec_u64_to_from_le_bytes();
    let b = pre + enc_opt_str(s) + post;
    match s {
        None => {
            assert(b[pre.len() as int] == 0);
        },
        Some(v) => {
            assert(b[pre.len() as int] == 1);
            assert(b =~= (pre + seq![1u8]) + enc_str(v) + post);
            lemma_dec_str_enc(pre + seq![1u8], v, post);
        },
    }
}

pub fn read_opt_str(b: &[u8], pos: usize) -> (r: Option<(Option<String>, usize)>)
    ensures
        match r {
            Some(p) => dec_opt_str_at(b@, pos as int) matches Some(q) && q.0 == opt_str_view(p.0)
                && q.1 == p.1 as int,
            None => dec_opt_str_at(b@, pos as int) is None,
        },
{
    if pos < b.len() {
        let tag = b[pos];
        if tag == 0 {
            Some((None, pos + 1))
        } else if tag == 1 {
            match read_str(b, pos + 1) {
                Some(p) => Some((Some(p.0), p.1)),
                None => None,
            }
        } else {
            None
        }
    } else {
        None
    }
}

pub fn push_opt_str(out: &mut Vec<u8>, s: &Option<String>)
    ensures
        final(out)@ == old(out)@ + enc_opt_str(opt_str_view(*s)),
{
    match s {
        None => {
            out.push(0u8);
            assert(out@ =~= old(out)@ + enc_opt_str(opt_str_view(*s)));
        },
        Some(v) => {
            out.push(1u8);
            push_str(out, v.as_str());
            assert(out@ =~= old(out)@ + enc_opt_str(opt_str_view(*s)));
        },
    }
}

} // verus!
