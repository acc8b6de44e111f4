//! Searching byte buffers.
use vstd::prelude::*;

verus! {

/// Whether `needle` occurs in `h` at position `i`.
pub open spec fn match_at(h: Seq<u8>, needle: Seq<u8>, i: int) -> bool {
    0 <= i && i + needle.len() <= h.len() && h.subrange(i, i + needle.len()) == needle
}

/// The first position at or after `i` where `needle` occurs in `h`.
pub open spec fn find_from(h: Seq<u8>, needle: Seq<u8>, i: int) -> Option<int>
    decreases h.len() + 1 - i,
{
    if i < 0 || i + needle.len() > h.len() {
        None
    } else if match_at(h, needle, i) {
        Some(i)
    } else {
        find_from(h, needle, i + 1)
    }
}

pub proof fn lemma_find_from(h: Seq<u8>, needle: Seq<u8>, i: int)
    requires
        0 <= i,
    ensures
        match find_from(h, needle, i) {
            Some(k) => i <= k && k + needle.len() <= h.len() && match_at(h, needle, k),
            None => true,
        },
    decreases h.len() + 1 - i,
{
    if i + needle.len() <= h.len() && !match_at(h, needle, i) {
        lemma_find_from(h, needle, i + 1);
    }
}

/// Whether `needle` occurs in `h` at `i`.
pub fn bytes_at(h: &[u8], i: usize, needle: &[u8]) -> (r: bool)
    ensures
        r == match_at(h@, needle@, i as int),
{
    if i > h.len() || h.len() - i < needle.len() {
        return false;
    }
    let hl = h.len();
    let mut k: usize = 0;
    while k < needle.len()
        invariant
            hl == h@.len(),
            i + needle@.len() <= h@.len(),
            k <= needle@.len(),
            forall|t: int| 0 <= t < k ==> #[trigger] h@[i + t] == needle@[t],
        decreases needle.len() - k,
    {
        if h[i + k] != needle[k] {
            assert(h@.subrange(i as int, i + needle@.len())[k as int] != needle@[k as int]);
            return false;
        }
        k += 1;
    }
    assert forall|t: int| 0 <= t < needle@.len() implies h@.subrange(i as int, i + needle@.len())[t]
        == needle@[t] by {
        assert(h@[i + t] == needle@[t]);
    }
    assert(h@.subrange(i as int, i + needle@.len()) =~= needle@);
    true
}

/// The first position at or after `start` where `needle` occurs in `h`.
pub fn find_bytes(h: &[u8], start: usize, needle: &[u8]) -> (r: Option<usize>)
    requires
        needle@.len() > 0,
    ensures
        match find_from(h@, needle@, start as int) {
            Some(k) => r == Some(k as usize),
            None => r is None,
        },
{
    let mut i = start;
    while i <= h.len() && h.len() - i >= needle.len()
        invariant
            start <= i,
            needle@.len() > 0,
            find_from(h@, needle@, start as int) == find_from(h@, needle@, i as int),
        decreases h@.len() + 1 - i,
    {
        if bytes_at(h, i, needle) {
            return Some(i);
        }
        i += 1;
    }
    None
}

} // verus!
