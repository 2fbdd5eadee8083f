use vstd::prelude::*;
use vstd::slice::slice_subrange;
use vstd::utf8::{decode_utf8, encode_utf8, encode_utf8_decode_utf8, encode_utf8_valid_utf8, valid_utf8};

use crate::cow::{Cow, CowView};

verus! {

/// The eight little-endian bytes of `v`.
pub open spec fn le_bytes(v: u64) -> Seq<u8> {
    seq![
        v as u8,
        (v >> 8) as u8,
        (v >> 16) as u8,
        (v >> 24) as u8,
        (v >> 32) as u8,
        (v >> 40) as u8,
        (v >> 48) as u8,
        (v >> 56) as u8,
    ]
}

/// Distinct integers have distinct byte images.
pub proof fn lemma_le_bytes_injective(x: u64, y: u64)
    requires
        le_bytes(x) == le_bytes(y),
    ensures
        x == y,
{
    assert(le_bytes(x)[0] == le_bytes(y)[0]);
    assert(le_bytes(x)[1] == le_bytes(y)[1]);
    assert(le_bytes(x)[2] == le_bytes(y)[2]);
    assert(le_bytes(x)[3] == le_bytes(y)[3]);
    assert(le_bytes(x)[4] == le_bytes(y)[4]);
    assert(le_bytes(x)[5] == le_bytes(y)[5]);
    assert(le_bytes(x)[6] == le_bytes(y)[6]);
    assert(le_bytes(x)[7] == le_bytes(y)[7]);
    assert(x == y) by (bit_vector)
        requires
            x as u8 == y as u8,
            (x >> 8) as u8 == (y >> 8) as u8,
            (x >> 16) as u8 == (y >> 16) as u8,
            (x >> 24) as u8 == (y >> 24) as u8,
            (x >> 32) as u8 == (y >> 32) as u8,
            (x >> 40) as u8 == (y >> 40) as u8,
            (x >> 48) as u8 == (y >> 48) as u8,
            (x >> 56) as u8 == (y >> 56) as u8,
    ;
}

/// Appends the little-endian bytes of `v`.
fn push_u64(out: &mut Vec<u8>, v: u64)
    ensures
        final(out)@ == old(out)@ + le_bytes(v),
{
    out.push(v as u8);
    out.push((v >> 8) as u8);
    out.push((v >> 16) as u8);
    out.push((v >> 24) as u8);
    out.push((v >> 32) as u8);
    out.push((v >> 40) as u8);
    out.push((v >> 48) as u8);
    out.push((v >> 56) as u8);
    assert(final(out)@ =~= old(out)@ + le_bytes(v));
}

/// Reads the integer whose little-endian bytes start at `at`.
fn read_u64(b: &[u8], at: usize) -> (r: u64)
    requires
        at + 8 <= b@.len(),
    ensures
        le_bytes(r) == b@.subrange(at as int, at + 8),
{
    let b0 = b[at];
    let b1 = b[at + 1];
    let b2 = b[at + 2];
    let b3 = b[at + 3];
    let b4 = b[at + 4];
    let b5 = b[at + 5];
    let b6 = b[at + 6];
    let b7 = b[at + 7];
    let r: u64 = (b0 as u64) | ((b1 as u64) << 8) | ((b2 as u64) << 16) | ((b3 as u64) << 24) | ((
    b4 as u64) << 32) | ((b5 as u64) << 40) | ((b6 as u64) << 48) | ((b7 as u64) << 56);
    assert(r as u8 == b0 && (r >> 8) as u8 == b1 && (r >> 16) as u8 == b2 && (r >> 24) as u8 == b3
        && (r >> 32) as u8 == b4 && (r >> 40) as u8 == b5 && (r >> 48) as u8 == b6 && (r >> 56) as u8
        == b7) by (bit_vector)
        requires
            r == (b0 as u64) | ((b1 as u64) << 8) | ((b2 as u64) << 16) | ((b3 as u64) << 24) | ((
            b4 as u64) << 32) | ((b5 as u64) << 40) | ((b6 as u64) << 48) | ((b7 as u64) << 56),
    ;
    assert(le_bytes(r) =~= b@.subrange(at as int, at + 8));
    r
}

/// A text as stored: the byte length of its UTF-8 encoding, then that
/// encoding.
pub open spec fn encoded_text(t: Seq<char>) -> Seq<u8> {
    le_bytes(encode_utf8(t).len() as u64) + encode_utf8(t)
}

/// The stored form of a cow: its four integers, then its name, then its
/// health status.
pub open spec fn record_bytes(c: CowView) -> Seq<u8> {
    le_bytes(c.id) + le_bytes(c.age) + le_bytes(c.milk_produced) + le_bytes(c.created_at)
        + encoded_text(c.name) + encoded_text(c.health_status)
}

/// `b` holds the stored form of `t` from position `at` on.
pub open spec fn text_at(b: Seq<u8>, at: int, t: Seq<char>) -> bool {
    &&& 0 <= at
    &&& at + encoded_text(t).len() <= b.len()
    &&& b.subrange(at, at + encoded_text(t).len()) == encoded_text(t)
}

/// Relies on `std::str::from_utf8`: it accepts exactly the well-formed
/// UTF-8 byte sequences, and the text it returns is the one they encode.
#[verifier::external_body]
fn text_from_utf8(b: &[u8]) -> (r: Option<String>)
    ensures
        r.is_some() == valid_utf8(b@),
        match r {
            Some(s) => s@ == decode_utf8(b@),
            None => true,
        },
{
    match std::str::from_utf8(b) {
        Ok(s) => Some(s.to_owned()),
        Err(_) => None,
    }
}

/// Appends the stored form of `s`.
fn push_text(out: &mut Vec<u8>, s: &String)
    ensures
        final(out)@ == old(out)@ + encoded_text(s@),
{
    let bytes = s.as_str().as_bytes();
    let ghost start = out@;
    push_u64(out, bytes.len() as u64);
    let mut i: usize = 0;
    while i < bytes.len()
        invariant
            bytes@ == encode_utf8(s@),
            i <= bytes@.len(),
            out@ == start + le_bytes(bytes@.len() as u64) + bytes@.subrange(0, i as int),
        decreases bytes@.len() - i,
    {
        out.push(bytes[i]);
        i += 1;
        assert(out@ =~= start + le_bytes(bytes@.len() as u64) + bytes@.subrange(0, i as int));
    }
    assert(bytes@.subrange(0, i as int) =~= bytes@);
    assert(out@ =~= start + encoded_text(s@));
}

proof fn lemma_text_at(b: Seq<u8>, at: int, t: Seq<char>)
    requires
        text_at(b, at, t),
    ensures
        b.subrange(at, at + 8) == le_bytes(encode_utf8(t).len() as u64),
        b.subrange(at + 8, at + 8 + encode_utf8(t).len()) == encode_utf8(t),
        encoded_text(t).len() == 8 + encode_utf8(t).len(),
{
    let e = encoded_text(t);
    assert(e.len() == 8 + encode_utf8(t).len());
    assert(b.subrange(at, at + 8) =~= e.subrange(0, 8));
    assert(e.subrange(0, 8) =~= le_bytes(encode_utf8(t).len() as u64));
    assert(b.subrange(at + 8, at + 8 + encode_utf8(t).len()) =~= e.subrange(8, e.len() as int));
    assert(e.subrange(8, e.len() as int) =~= encode_utf8(t));
}

/// Reads a stored text starting at `at`, with the position just past it.
fn read_text(b: &[u8], at: usize) -> (r: Option<(String, usize)>)
    requires
        at <= b@.len(),
    ensures
        match r {
            Some((s, next)) => at <= next <= b@.len() && b@.subrange(at as int, next as int)
                == encoded_text(s@),
            None => true,
        },
        forall|t: Seq<char>|
            #[trigger] text_at(b@, at as int, t) ==> r.is_some() && r.unwrap().0@ == t
                && r.unwrap().1 == at + encoded_text(t).len(),
{
    if b.len() - at < 8 {
        proof {
            assert forall|t: Seq<char>| !#[trigger] text_at(b@, at as int, t) by {
                if text_at(b@, at as int, t) {
                    lemma_text_at(b@, at as int, t);
                }
            }
        }
        return None;
    }
    let n = read_u64(b, at);
    let start = at + 8;
    if n > (b.len() - start) as u64 {
        proof {
            assert forall|t: Seq<char>| !#[trigger] text_at(b@, at as int, t) by {
                if text_at(b@, at as int, t) {
                    lemma_text_at(b@, at as int, t);
                    lemma_le_bytes_injective(n, encode_utf8(t).len() as u64);
                }
            }
        }
        return None;
    }
    let end = start + n as usize;
    let slice = slice_subrange(b, start, end);
    match text_from_utf8(slice) {
        None => {
            proof {
                assert forall|t: Seq<char>| !#[trigger] text_at(b@, at as int, t) by {
                    if text_at(b@, at as int, t) {
                        lemma_text_at(b@, at as int, t);
                        lemma_le_bytes_injective(n, encode_utf8(t).len() as u64);
                        encode_utf8_valid_utf8(t);
                    }
                }
            }
            None
        },
        Some(s) => {
            proof {
                vstd::utf8::decode_utf8_encode_utf8(slice@);
                assert(b@.subrange(at as int, end as int) =~= b@.subrange(at as int, at + 8)
                    + slice@);
                assert(encode_utf8(s@).len() == n);
                assert forall|t: Seq<char>| #[trigger] text_at(b@, at as int, t) implies s@ == t
                    && end == at + encoded_text(t).len() by {
                    lemma_text_at(b@, at as int, t);
                    lemma_le_bytes_injective(n, encode_utf8(t).len() as u64);
                    encode_utf8_decode_utf8(t);
                }
            }
            Some((s, end))
        },
    }
}

/// The stored form of a cow.
pub fn encode_cow(c: &Cow) -> (r: Vec<u8>)
    ensures
        r@ == record_bytes(c@),
{
    let mut out: Vec<u8> = Vec::new();
    push_u64(&mut out, c.id);
    push_u64(&mut out, c.age);
    push_u64(&mut out, c.milk_produced);
    push_u64(&mut out, c.created_at);
    push_text(&mut out, &c.name);
    push_text(&mut out, &c.health_status);
    assert(out@ =~= record_bytes(c@));
    out
}

/// Where the parts of a stored cow lie.
proof fn lemma_record_parts(c: CowView, b: Seq<u8>)
    requires
        b == record_bytes(c),
    ensures
        b.len() == 32 + encoded_text(c.name).len() + encoded_text(c.health_status).len(),
        b.subrange(0, 8) == le_bytes(c.id),
        b.subrange(8, 16) == le_bytes(c.age),
        b.subrange(16, 24) == le_bytes(c.milk_produced),
        b.subrange(24, 32) == le_bytes(c.created_at),
        text_at(b, 32, c.name),
        text_at(b, 32 + encoded_text(c.name).len() as int, c.health_status),
{
    let n = encoded_text(c.name).len() as int;
    let m = encoded_text(c.health_status).len() as int;
    assert(b.subrange(0, 8) =~= le_bytes(c.id));
    assert(b.subrange(8, 16) =~= le_bytes(c.age));
    assert(b.subrange(16, 24) =~= le_bytes(c.milk_produced));
    assert(b.subrange(24, 32) =~= le_bytes(c.created_at));
    assert(b.subrange(32, 32 + n) =~= encoded_text(c.name));
    assert(b.subrange(32 + n, 32 + n + m) =~= encoded_text(c.health_status));
}

/// Decodes a stored cow. The result is present exactly when `b` is the
/// stored form of some cow, and is then that cow (there is only one).
pub fn decode_cow(b: &[u8]) -> (r: Option<Cow>)
    ensures
        match r {
            Some(c) => {
                &&& record_bytes(c@) == b@
                &&& forall|d: CowView| #[trigger] record_bytes(d) == b@ ==> d == c@
            },
            None => forall|d: CowView| #[trigger] record_bytes(d) != b@,
        },
{
    if b.len() < 32 {
        proof {
            assert forall|d: CowView| #[trigger] record_bytes(d) != b@ by {
                if record_bytes(d) == b@ {
                    lemma_record_parts(d, b@);
                }
            }
        }
        return None;
    }
    let id = read_u64(b, 0);
    let age = read_u64(b, 8);
    let milk_produced = read_u64(b, 16);
    let created_at = read_u64(b, 24);
    let (name, p) = match read_text(b, 32) {
        Some(x) => x,
        None => {
            proof {
                assert forall|d: CowView| #[trigger] record_bytes(d) != b@ by {
                    if record_bytes(d) == b@ {
                        lemma_record_parts(d, b@);
                    }
                }
            }
            return None;
        },
    };
    let (health_status, q) = match read_text(b, p) {
        Some(x) => x,
        None => {
            proof {
                assert forall|d: CowView| #[trigger] record_bytes(d) != b@ by {
                    if record_bytes(d) == b@ {
                        lemma_record_parts(d, b@);
                    }
                }
            }
            return None;
        },
    };
    if q != b.len() {
        proof {
            assert forall|d: CowView| #[trigger] record_bytes(d) != b@ by {
                if record_bytes(d) == b@ {
                    lemma_record_parts(d, b@);
                }
            }
        }
        return None;
    }
    let c = Cow { id, name, age, milk_produced, health_status, created_at };
    proof {
        assert(b@ =~= b@.subrange(0, 8) + b@.subrange(8, 16) + b@.subrange(16, 24) + b@.subrange(
            24,
            32,
        ) + b@.subrange(32, p as int) + b@.subrange(p as int, q as int));
        assert(record_bytes(c@) == b@);
        assert forall|d: CowView| #[trigger] record_bytes(d) == b@ implies d == c@ by {
            lemma_record_parts(d, b@);
            lemma_le_bytes_injective(d.id, id);
            lemma_le_bytes_injective(d.age, age);
            lemma_le_bytes_injective(d.milk_produced, milk_produced);
            lemma_le_bytes_injective(d.created_at, created_at);
        }
    }
    Some(c)
}

} // verus!
