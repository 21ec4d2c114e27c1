//! Building blocks of the record formats: a byte string behind its length,
//! readers that peel one field off the front of what is left of a buffer, and
//! the facts that make such a format unambiguous.

use vstd::prelude::*;
use vstd::utf8::{decode_utf8, encode_utf8, valid_utf8};
use crate::bytes::{
    copy_range, get_le, lemma_le_of_value, lemma_le_roundtrip, lemma_pow256_values, put_bytes,
    put_u64_le, u32_le, u64_le,
};

verus! {

/// A byte string behind its length, the length as eight little-endian bytes.
pub open spec fn len_prefixed(b: Seq<u8>) -> Seq<u8> {
    u64_le(b.len() as u64) + b
}

/// Two strings that start with fields of one length and are equal have equal
/// fields and equal rests.
pub proof fn lemma_cancel(a: Seq<u8>, r1: Seq<u8>, b: Seq<u8>, r2: Seq<u8>)
    requires
        a.len() == b.len(),
        a + r1 == b + r2,
    ensures
        a == b,
        r1 == r2,
{
    assert(a =~= (a + r1).subrange(0, a.len() as int));
    assert(b =~= (b + r2).subrange(0, b.len() as int));
    assert(r1 =~= (a + r1).skip(a.len() as int));
    assert(r2 =~= (b + r2).skip(b.len() as int));
}

/// Two strings that start with a 64-bit little-endian field and are equal
/// hold the same number there, and have equal rests.
pub proof fn lemma_cancel_u64(x: u64, r1: Seq<u8>, y: u64, r2: Seq<u8>)
    requires
        u64_le(x) + r1 == u64_le(y) + r2,
    ensures
        x == y,
        r1 == r2,
{
    lemma_pow256_values();
    lemma_le_roundtrip(x as nat, 8);
    lemma_le_roundtrip(y as nat, 8);
    lemma_cancel(u64_le(x), r1, u64_le(y), r2);
}

/// Two strings that start with a 32-bit little-endian field and are equal
/// hold the same number there, and have equal rests.
pub proof fn lemma_cancel_u32(x: u32, r1: Seq<u8>, y: u32, r2: Seq<u8>)
    requires
        u32_le(x) + r1 == u32_le(y) + r2,
    ensures
        x == y,
        r1 == r2,
{
    lemma_pow256_values();
    lemma_le_roundtrip(x as nat, 4);
    lemma_le_roundtrip(y as nat, 4);
    lemma_cancel(u32_le(x), r1, u32_le(y), r2);
}

/// Two strings that start with a length-prefixed field and are equal hold the
/// same field, and have equal rests.
pub proof fn lemma_cancel_len_prefixed(a: Seq<u8>, r1: Seq<u8>, b: Seq<u8>, r2: Seq<u8>)
    requires
        a.len() <= u64::MAX,
        b.len() <= u64::MAX,
        len_prefixed(a) + r1 == len_prefixed(b) + r2,
    ensures
        a == b,
        r1 == r2,
{
    let la = u64_le(a.len() as u64);
    let lb = u64_le(b.len() as u64);
    assert(len_prefixed(a) + r1 =~= la + (a + r1));
    assert(len_prefixed(b) + r2 =~= lb + (b + r2));
    lemma_cancel_u64(a.len() as u64, a + r1, b.len() as u64, b + r2);
    lemma_cancel(a, r1, b, r2);
}

/// Appends `data` behind its length.
pub fn put_len_prefixed(out: &mut Vec<u8>, data: &[u8])
    ensures
        final(out)@ == old(out)@ + len_prefixed(data@),
{
    let ghost before = out@;
    put_u64_le(out, data.len() as u64);
    put_bytes(out, data);
    proof {
        assert(out@ =~= before + len_prefixed(data@));
    }
}

/// Peels one byte off the front of `data[pos..]`.
pub fn take_u8(data: &[u8], pos: usize) -> (r: Option<(u8, usize)>)
    requires
        pos <= data.len(),
    ensures
        match r {
            Some((x, next)) => next == pos + 1 && next <= data.len() && data@.skip(pos as int)
                == seq![x] + data@.skip(next as int),
            None => pos == data.len(),
        },
{
    if pos < data.len() {
        let x: u8 = data[pos];
        proof {
            assert(data@.skip(pos as int) =~= seq![x] + data@.skip(pos + 1));
        }
        Some((x, pos + 1))
    } else {
        None
    }
}

/// Peels a 64-bit little-endian number off the front of `data[pos..]`.
pub fn take_u64(data: &[u8], pos: usize) -> (r: Option<(u64, usize)>)
    requires
        pos <= data.len(),
    ensures
        match r {
            Some((x, next)) => next == pos + 8 && next <= data.len() && data@.skip(pos as int)
                == u64_le(x) + data@.skip(next as int),
            None => data.len() - pos < 8,
        },
{
    if data.len() - pos < 8 {
        return None;
    }
    let x: u64 = get_le(data, pos, 8);
    proof {
        let field = data@.subrange(pos as int, pos + 8);
        lemma_le_of_value(field);
        assert(data@.skip(pos as int) =~= field + data@.skip(pos + 8));
    }
    Some((x, pos + 8))
}

/// Peels a 32-bit little-endian number off the front of `data[pos..]`.
pub fn take_u32(data: &[u8], pos: usize) -> (r: Option<(u32, usize)>)
    requires
        pos <= data.len(),
    ensures
        match r {
            Some((x, next)) => next == pos + 4 && next <= data.len() && data@.skip(pos as int)
                == u32_le(x) + data@.skip(next as int),
            None => data.len() - pos < 4,
        },
{
    if data.len() - pos < 4 {
        return None;
    }
    let wide: u64 = get_le(data, pos, 4);
    proof {
        let field = data@.subrange(pos as int, pos + 4);
        lemma_le_of_value(field);
        lemma_pow256_values();
        assert(data@.skip(pos as int) =~= field + data@.skip(pos + 4));
    }
    let x: u32 = wide as u32;
    Some((x, pos + 4))
}

/// Peels `n` bytes off the front of `data[pos..]`.
pub fn take_fixed(data: &[u8], pos: usize, n: usize) -> (r: Option<(Vec<u8>, usize)>)
    requires
        pos <= data.len(),
    ensures
        match r {
            Some((field, next)) => next == pos + n && next <= data.len() && field@.len() == n
                && data@.skip(pos as int) == field@ + data@.skip(next as int),
            None => data.len() - pos < n,
        },
{
    if data.len() - pos < n {
        return None;
    }
    let field = copy_range(data, pos, pos + n);
    proof {
        assert(data@.skip(pos as int) =~= field@ + data@.skip(pos + n));
    }
    Some((field, pos + n))
}

/// Peels a length-prefixed byte string off the front of `data[pos..]`. It
/// fails exactly when what is left does not start with one.
pub fn take_len_prefixed(data: &[u8], pos: usize) -> (r: Option<(Vec<u8>, usize)>)
    requires
        pos <= data.len(),
    ensures
        match r {
            Some((field, next)) => next == pos + 8 + field@.len() && next <= data.len()
                && data@.skip(pos as int) == len_prefixed(field@) + data@.skip(next as int),
            None => forall|b: Seq<u8>, rest: Seq<u8>|
                b.len() <= u64::MAX ==> data@.skip(pos as int) != #[trigger] (len_prefixed(b)
                    + rest),
        },
{
    let ghost left = data@.skip(pos as int);
    match take_u64(data, pos) {
        None => {
            proof {
                assert forall|b: Seq<u8>, rest: Seq<u8>| b.len() <= u64::MAX implies left
                    != #[trigger] (len_prefixed(b) + rest) by {
                    lemma_pow256_values();
                    lemma_le_roundtrip(b.len(), 8);
                    assert((len_prefixed(b) + rest).len() >= 8);
                }
            }
            None
        },
        Some((n, body)) => {
            if n > (data.len() - body) as u64 {
                proof {
                    assert forall|b: Seq<u8>, rest: Seq<u8>| b.len() <= u64::MAX implies left
                        != #[trigger] (len_prefixed(b) + rest) by {
                        if left == len_prefixed(b) + rest {
                            assert(len_prefixed(b) + rest =~= u64_le(b.len() as u64) + (b
                                + rest));
                            lemma_cancel_u64(
                                n,
                                data@.skip(body as int),
                                b.len() as u64,
                                b + rest,
                            );
                        }
                    }
                }
                None
            } else {
                let len: usize = n as usize;
                let field = copy_range(data, body, body + len);
                proof {
                    assert(data@.skip(body as int) =~= field@ + data@.skip(body + len));
                    assert(left =~= len_prefixed(field@) + data@.skip(body + len));
                }
                Some((field, body + len))
            }
        },
    }
}

/// The text that `bytes` spell in UTF-8, where they spell one.
///
/// Trusted: `String::from_utf8` of std, which gives the text exactly when the
/// bytes are well-formed UTF-8, and refuses them otherwise.
#[verifier::external_body]
pub(crate) fn text_from_utf8(bytes: Vec<u8>) -> (r: Option<String>)
    ensures
        match r {
            Some(text) => valid_utf8(bytes@) && text@ == decode_utf8(bytes@),
            None => !valid_utf8(bytes@),
        },
{
    String::from_utf8(bytes).ok()
}

/// A text field on the wire: its UTF-8 bytes behind their length.
pub open spec fn text_field(text: Seq<char>) -> Seq<u8> {
    len_prefixed(encode_utf8(text))
}

/// Two strings that start with a text field and are equal hold the same text,
/// and have equal rests.
pub proof fn lemma_cancel_text(a: Seq<char>, r1: Seq<u8>, b: Seq<char>, r2: Seq<u8>)
    requires
        encode_utf8(a).len() <= u64::MAX,
        encode_utf8(b).len() <= u64::MAX,
        text_field(a) + r1 == text_field(b) + r2,
    ensures
        a == b,
        r1 == r2,
{
    lemma_cancel_len_prefixed(encode_utf8(a), r1, encode_utf8(b), r2);
    vstd::utf8::encode_utf8_decode_utf8(a);
    vstd::utf8::encode_utf8_decode_utf8(b);
}

/// Appends a text field.
pub fn put_text(out: &mut Vec<u8>, text: &str)
    ensures
        final(out)@ == old(out)@ + text_field(text@),
{
    put_len_prefixed(out, text.as_bytes());
}

/// Peels a text field off the front of `data[pos..]`. It fails exactly when
/// what is left does not start with one.
pub fn take_text(data: &[u8], pos: usize) -> (r: Option<(String, usize)>)
    requires
        pos <= data.len(),
    ensures
        match r {
            Some((text, next)) => next <= data.len() && encode_utf8(text@).len() <= u64::MAX
                && data@.skip(pos as int) == text_field(text@) + data@.skip(next as int),
            None => forall|t: Seq<char>, rest: Seq<u8>|
                encode_utf8(t).len() <= u64::MAX ==> data@.skip(pos as int) != #[trigger] (
                text_field(t) + rest),
        },
{
    let ghost left = data@.skip(pos as int);
    match take_len_prefixed(data, pos) {
        None => None,
        Some((raw, next)) => {
            let ghost raw_bytes = raw@;
            match text_from_utf8(raw) {
                Some(text) => {
                    proof {
                        vstd::utf8::decode_utf8_encode_utf8(raw_bytes);
                    }
                    Some((text, next))
                },
                None => {
                    proof {
                        assert forall|t: Seq<char>, rest: Seq<u8>|
                            encode_utf8(t).len() <= u64::MAX implies left != #[trigger] (
                        text_field(t) + rest) by {
                            if left == text_field(t) + rest {
                                lemma_cancel_len_prefixed(
                                    encode_utf8(t),
                                    rest,
                                    raw_bytes,
                                    data@.skip(next as int),
                                );
                                vstd::utf8::encode_utf8_valid_utf8(t);
                            }
                        }
                    }
                    None
                },
            }
        },
    }
}

} // verus!
