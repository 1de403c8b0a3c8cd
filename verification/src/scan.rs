//! Byte-level searches over UTF-8 text. A needle that is itself the
//! encoding of whole chars can only match at char boundaries, so these
//! searches agree with the char-level `find` / `rfind` / `contains` of
//! `str`.

use vstd::prelude::*;

use crate::utf8_bytes::{bytes_match_at, matches_at};

verus! {

/// The first match of `needle` lying wholly in `p..end`.
pub open spec fn first_match_from(b: Seq<u8>, p: int, end: int, needle: Seq<u8>) -> Option<int>
    decreases end - p + 1,
{
    if p < 0 || p + needle.len() > end {
        None
    } else if matches_at(b, p, needle) {
        Some(p)
    } else {
        first_match_from(b, p + 1, end, needle)
    }
}

/// The last match of `needle` starting at or before `p`.
pub open spec fn last_match_from(b: Seq<u8>, p: int, needle: Seq<u8>) -> Option<int>
    decreases p + 1,
{
    if p < 0 {
        None
    } else if matches_at(b, p, needle) {
        Some(p)
    } else {
        last_match_from(b, p - 1, needle)
    }
}

/// The last match of `needle` lying wholly in `0..end` (`rfind` on the
/// prefix).
pub open spec fn rfind_spec(b: Seq<u8>, end: int, needle: Seq<u8>) -> Option<int> {
    last_match_from(b, end - needle.len(), needle)
}

pub proof fn lemma_first_match_found(b: Seq<u8>, p: int, end: int, needle: Seq<u8>)
    requires
        first_match_from(b, p, end, needle) is Some,
    ensures
        p <= first_match_from(b, p, end, needle)->0,
        first_match_from(b, p, end, needle)->0 + needle.len() <= end,
        matches_at(b, first_match_from(b, p, end, needle)->0, needle),
    decreases end - p + 1,
{
    if !matches_at(b, p, needle) {
        lemma_first_match_found(b, p + 1, end, needle);
    }
}

pub proof fn lemma_last_match_found(b: Seq<u8>, p: int, needle: Seq<u8>)
    requires
        last_match_from(b, p, needle) is Some,
    ensures
        0 <= last_match_from(b, p, needle)->0 <= p,
        matches_at(b, last_match_from(b, p, needle)->0, needle),
    decreases p + 1,
{
    if !matches_at(b, p, needle) {
        lemma_last_match_found(b, p - 1, needle);
    }
}

/// The first match of `needle` lying wholly in `from..end`.
pub fn find_bytes(bytes: &[u8], from: usize, end: usize, needle: &[u8]) -> (r: Option<usize>)
    requires
        from <= end <= bytes@.len(),
    ensures
        r == (match first_match_from(bytes@, from as int, end as int, needle@) {
            Some(p) => Some(p as usize),
            None => None::<usize>,
        }),
{
    if needle.len() > end - from {
        return None;
    }
    let last = end - needle.len();
    let mut p = from;
    while p <= last
        invariant
            from <= p,
            last + needle@.len() == end,
            end <= bytes@.len(),
            first_match_from(bytes@, from as int, end as int, needle@) == first_match_from(
                bytes@,
                p as int,
                end as int,
                needle@,
            ),
        decreases last + 1 - p,
    {
        if bytes_match_at(bytes, p, needle) {
            return Some(p);
        }
        if p == last {
            proof {
                assert(first_match_from(bytes@, p + 1, end as int, needle@) is None);
            }
            return None;
        }
        p += 1;
    }
    None
}

/// The last match of `needle` lying wholly in `0..end`.
pub fn rfind_bytes(bytes: &[u8], end: usize, needle: &[u8]) -> (r: Option<usize>)
    requires
        end <= bytes@.len(),
    ensures
        r == (match rfind_spec(bytes@, end as int, needle@) {
            Some(p) => Some(p as usize),
            None => None::<usize>,
        }),
{
    if needle.len() > end {
        return None;
    }
    let mut p = end - needle.len();
    loop
        invariant
            p + needle@.len() <= end,
            end <= bytes@.len(),
            rfind_spec(bytes@, end as int, needle@) == last_match_from(bytes@, p as int, needle@),
        decreases p,
    {
        if bytes_match_at(bytes, p, needle) {
            return Some(p);
        }
        if p == 0 {
            proof {
                assert(last_match_from(bytes@, -1, needle@) is None);
            }
            return None;
        }
        p -= 1;
    }
}

} // verus!
