//! Byte-level view of UTF-8 text: boundaries, sub-slices, literal
//! matching and the measures (UTF-16 units, scalar counts) that the
//! editor protocols speak in.

use vstd::prelude::*;
use vstd::string::*;
use vstd::utf8::*;

verus! {

/// `i` starts a scalar's encoding in `b`, or is the end of `b`.
pub open spec fn at_boundary(b: Seq<u8>, i: int) -> bool {
    i == b.len() || (0 <= i < b.len() && !is_continuation_byte(b[i]))
}

/// `needle` occurs in `hay` starting at byte `at`.
pub open spec fn matches_at(hay: Seq<u8>, at: int, needle: Seq<u8>) -> bool {
    0 <= at && at + needle.len() <= hay.len() && hay.subrange(at, at + needle.len()) == needle
}

/// Number of UTF-16 code units a byte run encodes: one per leading
/// byte, two for a four-byte (astral) scalar, none for continuations.
pub open spec fn utf16_width(b: u8) -> nat {
    if is_continuation_byte(b) {
        0
    } else if b >= 0xf0 {
        2
    } else {
        1
    }
}

/// UTF-16 length of a byte run.
pub open spec fn utf16_len(b: Seq<u8>) -> nat
    decreases b.len(),
{
    if b.len() == 0 {
        0
    } else {
        utf16_len(b.drop_last()) + utf16_width(b.last())
    }
}

/// Number of Unicode scalar values a byte run encodes (its leading bytes).
pub open spec fn scalar_count(b: Seq<u8>) -> nat
    decreases b.len(),
{
    if b.len() == 0 {
        0
    } else {
        scalar_count(b.drop_last()) + (if is_continuation_byte(b.last()) {
            0nat
        } else {
            1nat
        })
    }
}

/// Number of occurrences of byte `x` in `b`.
pub open spec fn count_byte(b: Seq<u8>, x: u8) -> nat
    decreases b.len(),
{
    if b.len() == 0 {
        0
    } else {
        count_byte(b.drop_last(), x) + (if b.last() == x {
            1nat
        } else {
            0nat
        })
    }
}

/// UTF-8 encoding distributes over concatenation.
pub proof fn lemma_encode_concat(a: Seq<char>, b: Seq<char>)
    ensures
        encode_utf8(a + b) == encode_utf8(a) + encode_utf8(b),
    decreases a.len(),
{
    if a.len() == 0 {
        assert(a + b =~= b);
        assert(encode_utf8(a) + encode_utf8(b) =~= encode_utf8(b));
    } else {
        assert((a + b).drop_first() =~= a.drop_first() + b);
        assert((a + b)[0] == a[0]);
        lemma_encode_concat(a.drop_first(), b);
        assert(encode_utf8(a + b) =~= encode_scalar(a[0] as u32) + (encode_utf8(a.drop_first())
            + encode_utf8(b)));
        assert(encode_utf8(a) + encode_utf8(b) =~= encode_scalar(a[0] as u32) + (encode_utf8(
            a.drop_first(),
        ) + encode_utf8(b)));
    }
}

/// Every string's bytes are valid UTF-8.
pub proof fn lemma_str_valid(s: &str)
    ensures
        valid_utf8(s.spec_bytes()),
{
    encode_utf8_valid_utf8(s@);
}

/// On valid UTF-8, vstd's `is_char_boundary` is the byte test
/// `at_boundary`.
pub proof fn lemma_boundary_iff(b: Seq<u8>, i: int)
    requires
        valid_utf8(b),
        0 <= i <= b.len(),
    ensures
        is_char_boundary(b, i) == at_boundary(b, i),
{
    if i == b.len() {
        is_char_boundary_start_end_of_seq(b);
    } else {
        is_char_boundary_iff_not_is_continuation_byte(b, i);
    }
}

/// A boundary of `b` past `i` is a boundary of `b[i..]`.
pub proof fn lemma_boundary_shift(b: Seq<u8>, i: int, j: int)
    requires
        valid_utf8(b),
        0 <= i <= j <= b.len(),
        is_char_boundary(b, i),
        is_char_boundary(b, j),
    ensures
        valid_utf8(b.subrange(i, b.len() as int)),
        is_char_boundary(b.subrange(i, b.len() as int), j - i),
{
    let r = b.subrange(i, b.len() as int);
    valid_utf8_split(b, i);
    lemma_boundary_iff(b, j);
    lemma_boundary_iff(r, j - i);
}

/// The sub-slice `s[start..end]` of a string.
pub fn substr<'a>(s: &'a str, start: usize, end: usize) -> (r: &'a str)
    requires
        start <= end <= s.spec_bytes().len(),
        is_char_boundary(s.spec_bytes(), start as int),
        is_char_boundary(s.spec_bytes(), end as int),
    ensures
        r.spec_bytes() == s.spec_bytes().subrange(start as int, end as int),
{
    proof {
        lemma_str_valid(s);
        lemma_boundary_shift(s.spec_bytes(), start as int, end as int);
    }
    let (_, rest) = s.split_at(start);
    let (mid, _) = rest.split_at(end - start);
    proof {
        assert(mid.spec_bytes() =~= s.spec_bytes().subrange(start as int, end as int));
    }
    mid
}

/// Byte-exact test for `needle` at byte `at` of `hay`.
pub fn bytes_match_at(hay: &[u8], at: usize, needle: &[u8]) -> (r: bool)
    ensures
        r == matches_at(hay@, at as int, needle@),
{
    if at > hay.len() || needle.len() > hay.len() - at {
        return false;
    }
    let mut k: usize = 0;
    while k < needle.len()
        invariant
            at + needle@.len() <= hay@.len(),
            at + needle.len() <= hay.len(),
            k <= needle@.len(),
            forall|m: int| 0 <= m < k ==> hay@[at + m] == needle@[m],
        decreases needle@.len() - k,
    {
        if hay[at + k] != needle[k] {
            proof {
                assert(hay@.subrange(at as int, at + needle@.len())[k as int] != needle@[k as int]);
            }
            return false;
        }
        k += 1;
    }
    proof {
        assert(hay@.subrange(at as int, at + needle@.len()) =~= needle@);
    }
    true
}

/// `true` for a UTF-8 continuation byte (`10xxxxxx`).
pub fn is_cont_byte(b: u8) -> (r: bool)
    ensures
        r == is_continuation_byte(b),
{
    0x80 <= b && b <= 0xbf
}

/// UTF-16 width of one byte of a UTF-8 run.
pub fn byte_utf16_width(b: u8) -> (w: u8)
    ensures
        w == utf16_width(b),
        w <= 2,
{
    if 0x80 <= b && b <= 0xbf {
        0
    } else if b >= 0xf0 {
        2
    } else {
        1
    }
}

/// String equality, decided on the bytes.
pub fn str_eq(a: &str, b: &str) -> (r: bool)
    ensures
        r == (a@ == b@),
{
    let ab = a.as_bytes();
    let bb = b.as_bytes();
    let same = ab.len() == bb.len() && bytes_match_at(ab, 0, bb);
    proof {
        if ab@.len() == bb@.len() {
            assert(ab@.subrange(0, bb@.len() as int) =~= ab@);
        }
        if same {
            encode_utf8_decode_utf8(a@);
            encode_utf8_decode_utf8(b@);
        }
    }
    same
}

/// From a char boundary, the first scalar's encoding is well formed and
/// ends on the next char boundary.
pub proof fn lemma_scalar_step(b: Seq<u8>, p: int)
    requires
        valid_utf8(b),
        is_char_boundary(b, p),
        0 <= p < b.len(),
    ensures
        valid_first_scalar(b.subrange(p, b.len() as int)),
        p + length_of_first_scalar(b.subrange(p, b.len() as int)) <= b.len(),
        is_char_boundary(b, p + length_of_first_scalar(b.subrange(p, b.len() as int))),
    decreases b.len(),
{
    let l0 = length_of_first_scalar(b);
    let t = pop_first_scalar(b);
    if p == 0 {
        assert(b.subrange(0, b.len() as int) =~= b);
        assert(is_char_boundary(t, 0));
    } else {
        assert(is_char_boundary(b, p) == is_char_boundary(t, p - l0));
        assert(t.subrange(p - l0, t.len() as int) =~= b.subrange(p, b.len() as int));
        lemma_scalar_step(t, p - l0);
        let l = length_of_first_scalar(b.subrange(p, b.len() as int));
        assert(is_char_boundary(b, p + l) == is_char_boundary(t, p + l - l0));
    }
}

/// A boundary holding the lead byte of a three-byte scalar is followed
/// by another boundary three bytes on.
pub proof fn lemma_boundary_after_lead3(b: Seq<u8>, p: int)
    requires
        valid_utf8(b),
        0 <= p < b.len(),
        at_boundary(b, p),
        0xe0 <= b[p] <= 0xef,
    ensures
        p + 3 <= b.len(),
        at_boundary(b, p + 3),
{
    lemma_boundary_iff(b, p);
    lemma_scalar_step(b, p);
    let r = b.subrange(p, b.len() as int);
    assert(r[0] == b[p]);
    assert(length_of_first_scalar(r) == 3);
    lemma_boundary_iff(b, p + 3);
}

/// A boundary holding an ASCII byte is followed by another boundary.
pub proof fn lemma_boundary_after_ascii(b: Seq<u8>, p: int)
    requires
        valid_utf8(b),
        0 <= p < b.len(),
        b[p] < 0x80,
    ensures
        at_boundary(b, p),
        at_boundary(b, p + 1),
{
    lemma_boundary_iff(b, p);
    lemma_scalar_step(b, p);
    let r = b.subrange(p, b.len() as int);
    assert(r[0] == b[p]);
    assert(length_of_first_scalar(r) == 1);
    lemma_boundary_iff(b, p + 1);
}

/// A byte occurs at most once per position.
pub proof fn lemma_count_byte_bound(b: Seq<u8>, x: u8)
    ensures
        count_byte(b, x) <= b.len(),
    decreases b.len(),
{
    if b.len() > 0 {
        lemma_count_byte_bound(b.drop_last(), x);
    }
}

} // verus!
