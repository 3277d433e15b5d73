//! Paths as byte strings: their byte order and their encoding.

use vstd::prelude::*;
use vstd::utf8::{
    is_continuation_byte, length_of_first_scalar, not_overlong_encoding, not_surrogate,
    pop_first_scalar, valid_first_scalar, valid_utf8,
};

verus! {

/// Byte order on byte strings: the first byte that differs decides, and a
/// string comes before every string that it is a proper prefix of.
pub open spec fn bytes_less(a: Seq<u8>, b: Seq<u8>) -> bool
    decreases a.len(),
{
    if b.len() == 0 {
        false
    } else if a.len() == 0 {
        true
    } else if a[0] != b[0] {
        a[0] < b[0]
    } else {
        bytes_less(a.skip(1), b.skip(1))
    }
}

/// How two byte strings stand in byte order.
#[derive(Clone, Copy, Debug, PartialEq, Eq, Structural)]
pub enum PathOrder {
    Before,
    Same,
    After,
}

/// No byte string comes before itself.
pub proof fn lemma_bytes_less_irreflexive(a: Seq<u8>)
    ensures
        !bytes_less(a, a),
    decreases a.len(),
{
    if a.len() > 0 {
        lemma_bytes_less_irreflexive(a.skip(1));
    }
}

/// Byte order is transitive.
pub proof fn lemma_bytes_less_transitive(a: Seq<u8>, b: Seq<u8>, c: Seq<u8>)
    requires
        bytes_less(a, b),
        bytes_less(b, c),
    ensures
        bytes_less(a, c),
    decreases a.len(),
{
    if a.len() > 0 && a[0] == b[0] && b[0] == c[0] {
        lemma_bytes_less_transitive(a.skip(1), b.skip(1), c.skip(1));
    }
}

/// Of two different byte strings one comes before the other.
pub proof fn lemma_bytes_less_total(a: Seq<u8>, b: Seq<u8>)
    ensures
        a == b || bytes_less(a, b) || bytes_less(b, a),
    decreases a.len(),
{
    if a.len() == 0 || b.len() == 0 {
        if a.len() == 0 && b.len() == 0 {
            assert(a =~= b);
        }
    } else if a[0] == b[0] {
        lemma_bytes_less_total(a.skip(1), b.skip(1));
        if a.skip(1) == b.skip(1) {
            assert(a =~= seq![a[0]] + a.skip(1));
            assert(b =~= seq![b[0]] + b.skip(1));
        }
    }
}

/// Of two byte strings at most one comes before the other.
pub proof fn lemma_bytes_less_asymmetric(a: Seq<u8>, b: Seq<u8>)
    requires
        bytes_less(a, b),
    ensures
        !bytes_less(b, a),
        a != b,
{
    lemma_bytes_less_irreflexive(a);
    if bytes_less(b, a) {
        lemma_bytes_less_transitive(a, b, a);
    }
}

/// Compares two byte strings in byte order.
pub fn compare_paths(a: &[u8], b: &[u8]) -> (order: PathOrder)
    ensures
        order == PathOrder::Before <==> bytes_less(a@, b@),
        order == PathOrder::Same <==> a@ == b@,
        order == PathOrder::After <==> bytes_less(b@, a@),
{
    let mut i: usize = 0;
    proof {
        assert(a@.skip(0) == a@);
        assert(b@.skip(0) == b@);
    }
    while i < a.len() && i < b.len()
        invariant
            i <= a.len(),
            i <= b.len(),
            a@.take(i as int) == b@.take(i as int),
            bytes_less(a@, b@) == bytes_less(a@.skip(i as int), b@.skip(i as int)),
            bytes_less(b@, a@) == bytes_less(b@.skip(i as int), a@.skip(i as int)),
        decreases a.len() - i,
    {
        let x = a[i];
        let y = b[i];
        proof {
            assert(a@.skip(i as int)[0] == x);
            assert(b@.skip(i as int)[0] == y);
            assert(a@.skip(i as int).skip(1) == a@.skip(i + 1));
            assert(b@.skip(i as int).skip(1) == b@.skip(i + 1));
        }
        if x < y {
            proof {
                assert(a@[i as int] != b@[i as int]);
            }
            return PathOrder::Before;
        }
        if y < x {
            proof {
                assert(a@[i as int] != b@[i as int]);
            }
            return PathOrder::After;
        }
        proof {
            assert(a@.take(i + 1) == a@.take(i as int).push(x));
            assert(b@.take(i + 1) == b@.take(i as int).push(y));
        }
        i += 1;
    }
    if i < b.len() {
        proof {
            assert(a@.skip(i as int).len() == 0);
            assert(a@.len() != b@.len());
        }
        PathOrder::Before
    } else if i < a.len() {
        proof {
            assert(b@.skip(i as int).len() == 0);
            assert(a@.len() != b@.len());
        }
        PathOrder::After
    } else {
        proof {
            assert(a@.take(i as int) == a@);
            assert(b@.take(i as int) == b@);
            lemma_bytes_less_irreflexive(a@);
        }
        PathOrder::Same
    }
}

/// A copy of a byte string.
pub fn copy_bytes(bytes: &[u8]) -> (copy: Vec<u8>)
    ensures
        copy@ == bytes@,
{
    let mut copy: Vec<u8> = Vec::new();
    let mut i: usize = 0;
    while i < bytes.len()
        invariant
            i <= bytes.len(),
            copy@ == bytes@.take(i as int),
        decreases bytes.len() - i,
    {
        copy.push(bytes[i]);
        proof {
            assert(bytes@.take(i + 1) == bytes@.take(i as int).push(bytes@[i as int]));
        }
        i += 1;
    }
    proof {
        assert(bytes@.take(i as int) == bytes@);
    }
    copy
}

/// Whether a code point may stand in UTF-8 in `width` bytes: it needs that
/// many bytes and is no surrogate.
fn scalar_fits(codepoint: u32, width: usize) -> (fits: bool)
    requires
        1 <= width <= 4,
    ensures
        fits == (not_overlong_encoding(codepoint, width as int) && not_surrogate(codepoint)),
{
    let long_enough = if width == 2 {
        0x80 <= codepoint
    } else if width == 3 {
        0x800 <= codepoint
    } else if width == 4 {
        0x10000 <= codepoint && codepoint <= 0x10ffff
    } else {
        true
    };
    long_enough && !(0xD800 <= codepoint && codepoint <= 0xDFFF)
}

/// Whether a byte is a continuation byte of UTF-8.
fn continues(byte: u8) -> (continuation: bool)
    ensures
        continuation == is_continuation_byte(byte),
{
    0x80 <= byte && byte <= 0xbf
}

/// The number of bytes of the scalar that `bytes` holds at `at`, or `None`
/// where no well-formed scalar stands there.
fn scalar_width(bytes: &[u8], at: usize) -> (width: Option<usize>)
    requires
        at < bytes.len(),
    ensures
        match width {
            Some(w) => valid_first_scalar(bytes@.subrange(at as int, bytes@.len() as int)) && w
                == length_of_first_scalar(bytes@.subrange(at as int, bytes@.len() as int)) && at
                + w <= bytes.len(),
            None => !valid_first_scalar(bytes@.subrange(at as int, bytes@.len() as int)),
        },
{
    let ghost rest = bytes@.subrange(at as int, bytes@.len() as int);
    let left = bytes.len() - at;
    let first = bytes[at];
    proof {
        assert(rest[0] == first);
        if left >= 2 {
            assert(rest[1] == bytes@[at + 1]);
        }
        if left >= 3 {
            assert(rest[2] == bytes@[at + 2]);
        }
        if left >= 4 {
            assert(rest[3] == bytes@[at + 3]);
        }
    }
    if first <= 0x7f {
        let codepoint = (first & 0x7F) as u32;
        if scalar_fits(codepoint, 1) {
            Some(1)
        } else {
            None
        }
    } else if 0xc0 <= first && first <= 0xdf {
        if left < 2 || !continues(bytes[at + 1]) {
            return None;
        }
        let codepoint = (((first & 0x1F) as u32) << 6) | ((bytes[at + 1] & 0x3f) as u32);
        if scalar_fits(codepoint, 2) {
            Some(2)
        } else {
            None
        }
    } else if 0xe0 <= first && first <= 0xef {
        if left < 3 || !continues(bytes[at + 1]) || !continues(bytes[at + 2]) {
            return None;
        }
        let codepoint = (((first & 0x0F) as u32) << 12) | (((bytes[at + 1] & 0x3f) as u32) << 6) | ((
        bytes[at + 2] & 0x3f) as u32);
        if scalar_fits(codepoint, 3) {
            Some(3)
        } else {
            None
        }
    } else if 0xf0 <= first && first <= 0xf7 {
        if left < 4 || !continues(bytes[at + 1]) || !continues(bytes[at + 2]) || !continues(
            bytes[at + 3],
        ) {
            return None;
        }
        let codepoint = (((first & 0x07) as u32) << 18) | (((bytes[at + 1] & 0x3f) as u32) << 12)
            | (((bytes[at + 2] & 0x3f) as u32) << 6) | ((bytes[at + 3] & 0x3f) as u32);
        if scalar_fits(codepoint, 4) {
            Some(4)
        } else {
            None
        }
    } else {
        None
    }
}

/// Whether the bytes are UTF-8.
pub fn is_utf8(bytes: &[u8]) -> (valid: bool)
    ensures
        valid == valid_utf8(bytes@),
{
    let mut at: usize = 0;
    proof {
        assert(bytes@.subrange(0, bytes@.len() as int) == bytes@);
    }
    while at < bytes.len()
        invariant
            at <= bytes.len(),
            valid_utf8(bytes@) == valid_utf8(bytes@.subrange(at as int, bytes@.len() as int)),
        decreases bytes.len() - at,
    {
        let ghost rest = bytes@.subrange(at as int, bytes@.len() as int);
        match scalar_width(bytes, at) {
            None => {
                return false;
            },
            Some(width) => {
                proof {
                    assert(pop_first_scalar(rest) == bytes@.subrange(
                        at + width,
                        bytes@.len() as int,
                    ));
                }
                at += width;
            },
        }
    }
    proof {
        assert(bytes@.subrange(at as int, bytes@.len() as int).len() == 0);
    }
    true
}

} // verus!
