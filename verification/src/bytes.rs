//! Byte-level scanning primitives shared by the parser, the domain
//! extractor and the IPv4 encoder.

use vstd::prelude::*;

verus! {

/// The ASCII dot that separates hostname labels and IPv4 octets.
pub const DOT: u8 = 46;

/// ASCII whitespace skipped between record tokens: space, tab, newline,
/// carriage return.
pub open spec fn is_white(b: u8) -> bool {
    b == 32 || b == 9 || b == 10 || b == 13
}

/// Index of the first occurrence of `c` in `s` at or after `from`.
pub open spec fn spec_find(s: Seq<u8>, c: u8, from: int) -> Option<int>
    decreases s.len() - from,
{
    if from < 0 || from >= s.len() {
        None
    } else if s[from] == c {
        Some(from)
    } else {
        spec_find(s, c, from + 1)
    }
}

/// Index of the last occurrence of `c` in `s` strictly before `end`.
pub open spec fn spec_rfind(s: Seq<u8>, c: u8, end: int) -> Option<int>
    decreases end,
{
    if end <= 0 || end > s.len() {
        None
    } else if s[end - 1] == c {
        Some(end - 1)
    } else {
        spec_rfind(s, c, end - 1)
    }
}

/// A found index always lies in `[from, s.len())`, whatever `from` is.
pub proof fn lemma_find_bounds(s: Seq<u8>, c: u8, from: int)
    ensures
        spec_find(s, c, from) matches Some(j) ==> from <= j < s.len() && s[j] == c,
    decreases s.len() - from,
{
    if 0 <= from && from < s.len() && s[from] != c {
        lemma_find_bounds(s, c, from + 1);
    }
}

/// A found index always lies in `[0, end)`, whatever `end` is.
pub proof fn lemma_rfind_bounds(s: Seq<u8>, c: u8, end: int)
    ensures
        spec_rfind(s, c, end) matches Some(j) ==> 0 <= j < end && s[j] == c,
    decreases end,
{
    if 0 < end && end <= s.len() && s[end - 1] != c {
        lemma_rfind_bounds(s, c, end - 1);
    }
}

/// `spec_rfind` returns the last occurrence before `end`: nothing between it
/// and `end` matches, and a `None` means no occurrence before `end` at all.
pub proof fn lemma_rfind_props(s: Seq<u8>, c: u8, end: int)
    requires
        end <= s.len(),
    ensures
        match spec_rfind(s, c, end) {
            Some(j) => 0 <= j < end && s[j] == c && (forall|k: int|
                j < k < end ==> s[k] != c),
            None => forall|k: int| 0 <= k < end ==> s[k] != c,
        },
    decreases end,
{
    if 0 < end && end <= s.len() && s[end - 1] != c {
        lemma_rfind_props(s, c, end - 1);
    }
}

/// First occurrence of `c` in `s` at or after `from`.
pub fn find_byte(s: &[u8], c: u8, from: usize) -> (r: Option<usize>)
    ensures
        r is Some <==> spec_find(s@, c, from as int) is Some,
        r matches Some(j) ==> spec_find(s@, c, from as int) == Some(j as int) && from <= j
            < s@.len() && s@[j as int] == c,
{
    let mut i: usize = from;
    while i < s.len()
        invariant
            from <= i,
            spec_find(s@, c, from as int) == spec_find(s@, c, i as int),
        decreases s@.len() - i,
    {
        if s[i] == c {
            return Some(i);
        }
        i += 1;
    }
    None
}

/// Last occurrence of `c` in `s` strictly before `offset`, as `str::rfind`
/// restricted to the prefix of that length.
pub fn rfind_from(s: &[u8], c: u8, offset: usize) -> (r: Option<usize>)
    requires
        offset <= s@.len(),
    ensures
        r is Some <==> spec_rfind(s@, c, offset as int) is Some,
        r matches Some(j) ==> spec_rfind(s@, c, offset as int) == Some(j as int) && j < offset
            && s@[j as int] == c,
{
    let mut i: usize = offset;
    while i > 0
        invariant
            i <= offset <= s@.len(),
            spec_rfind(s@, c, offset as int) == spec_rfind(s@, c, i as int),
        decreases i,
    {
        if s[i - 1] == c {
            return Some(i - 1);
        }
        i -= 1;
    }
    None
}

/// Exact equality of two byte slices.
pub fn eq_bytes(a: &[u8], b: &[u8]) -> (r: bool)
    ensures
        r == (a@ == b@),
{
    if a.len() != b.len() {
        return false;
    }
    let mut i: usize = 0;
    while i < a.len()
        invariant
            i <= a@.len(),
            a@.len() == b@.len(),
            forall|j: int| 0 <= j < i ==> a@[j] == b@[j],
        decreases a@.len() - i,
    {
        if a[i] != b[i] {
            return false;
        }
        i += 1;
    }
    proof {
        assert(a@ =~= b@);
    }
    true
}

} // verus!
