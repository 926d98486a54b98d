//! Registrable-domain extraction.
//!
//! The hostname is scanned from the right. A cursor (the frontier) starts at
//! the end; as long as the label immediately left of the frontier's tail is
//! a known public suffix, the frontier moves to the dot in front of that
//! label, absorbing it into the confirmed suffix chain. The registrable
//! domain is the label immediately left of the final frontier; if the
//! frontier never moved (the rightmost label is not a recognized suffix, or
//! there is no dot at all), there is no domain.

use vstd::prelude::*;

use crate::bytes::{lemma_rfind_bounds, rfind_from, spec_rfind, DOT};
use crate::suffix::SuffixSet;
use vstd::slice::slice_subrange;

verus! {

/// Left edge of the confirmed public-suffix chain when the scan starts with
/// everything right of `end` already confirmed: each step absorbs the label
/// between the previous dot and `end` while that label is in `set`.
pub open spec fn spec_frontier(host: Seq<u8>, set: Set<Seq<u8>>, end: int) -> int
    decreases end via spec_frontier_decreases
{
    match spec_rfind(host, DOT, end) {
        Some(idx) => if set.contains(host.subrange(idx + 1, end)) {
            spec_frontier(host, set, idx)
        } else {
            end
        },
        None => end,
    }
}

#[via_fn]
proof fn spec_frontier_decreases(host: Seq<u8>, set: Set<Seq<u8>>, end: int) {
    lemma_rfind_bounds(host, DOT, end);
}

/// Start and end of the registrable domain inside `host`, if any: the final
/// frontier closes the domain, and the dot before it (or the start of the
/// hostname) opens it.
pub open spec fn spec_domain_bounds(host: Seq<u8>, set: Set<Seq<u8>>) -> Option<(int, int)> {
    let f = spec_frontier(host, set, host.len() as int);
    if f == host.len() {
        None
    } else {
        let start = match spec_rfind(host, DOT, f) {
            Some(i) => i + 1,
            None => 0,
        };
        Some((start, f))
    }
}

/// The registrable domain of `host` under the suffix set, if any.
pub open spec fn spec_domain(host: Seq<u8>, set: Set<Seq<u8>>) -> Option<Seq<u8>> {
    match spec_domain_bounds(host, set) {
        Some(b) => Some(host.subrange(b.0, b.1)),
        None => None,
    }
}

/// Start and end, within `host`, of the registrable domain.
pub fn domain_bounds(host: &[u8], tld_set: &SuffixSet) -> (r: Option<(usize, usize)>)
    ensures
        r is Some <==> spec_domain_bounds(host@, tld_set@) is Some,
        r matches Some((ds, de)) ==> spec_domain_bounds(host@, tld_set@) == Some(
            (ds as int, de as int),
        ) && ds <= de <= host@.len(),
{
    let ghost len = host@.len() as int;
    let mut frontier: usize = host.len();
    loop
        invariant_except_break
            frontier <= host@.len(),
            spec_frontier(host@, tld_set@, len) == spec_frontier(host@, tld_set@, frontier as int),
        ensures
            frontier <= host@.len(),
            spec_frontier(host@, tld_set@, len) == frontier as int,
        decreases frontier,
    {
        match rfind_from(host, DOT, frontier) {
            None => {
                break ;
            },
            Some(idx) => {
                let label = slice_subrange(host, idx + 1, frontier);
                if tld_set.contains(label) {
                    frontier = idx;
                } else {
                    break ;
                }
            },
        }
    }
    if frontier == host.len() {
        return None;
    }
    let start = match rfind_from(host, DOT, frontier) {
        Some(i) => i + 1,
        None => 0,
    };
    Some((start, frontier))
}

/// The registrable domain of `host` under the suffix set: the label
/// immediately left of the public-suffix chain, or `None` when the
/// rightmost label is not a recognized suffix.
pub fn domain_for<'a>(host: &'a [u8], tld_set: &SuffixSet) -> (r: Option<&'a [u8]>)
    ensures
        r is Some <==> spec_domain(host@, tld_set@) is Some,
        r matches Some(d) ==> spec_domain(host@, tld_set@) == Some(d@),
{
    match domain_bounds(host, tld_set) {
        Some((ds, de)) => Some(slice_subrange(host, ds, de)),
        None => None,
    }
}

/// The frontier never leaves the hostname: it stays within `[0, end]`.
pub proof fn lemma_frontier_bounds(host: Seq<u8>, set: Set<Seq<u8>>, end: int)
    requires
        0 <= end,
    ensures
        0 <= spec_frontier(host, set, end) <= end,
    decreases end,
{
    lemma_rfind_bounds(host, DOT, end);
    match spec_rfind(host, DOT, end) {
        Some(idx) => {
            if set.contains(host.subrange(idx + 1, end)) {
                lemma_frontier_bounds(host, set, idx);
            }
        },
        None => {},
    }
}

/// The extracted domain is a single label: it never contains a dot.
pub proof fn lemma_domain_is_one_label(host: Seq<u8>, set: Set<Seq<u8>>)
    ensures
        spec_domain(host, set) matches Some(d) ==> forall|i: int| 0 <= i < d.len() ==> d[i] != DOT,
{
    if spec_domain(host, set) is Some {
        let f = spec_frontier(host, set, host.len() as int);
        lemma_frontier_bounds(host, set, host.len() as int);
        crate::bytes::lemma_rfind_props(host, DOT, f);
    }
}

/// A hostname without any dot yields no domain, whatever the suffix set.
pub proof fn lemma_no_dot_no_domain(host: Seq<u8>, set: Set<Seq<u8>>)
    requires
        forall|i: int| 0 <= i < host.len() ==> host[i] != DOT,
    ensures
        spec_domain(host, set) is None,
{
    crate::bytes::lemma_rfind_props(host, DOT, host.len() as int);
}

/// The label after the last dot, or the whole hostname when it has no dot.
pub open spec fn last_label(host: Seq<u8>) -> Seq<u8> {
    match spec_rfind(host, DOT, host.len() as int) {
        Some(i) => host.subrange(i + 1, host.len() as int),
        None => host,
    }
}

/// A hostname whose rightmost label is not in the suffix set yields no
/// domain.
pub proof fn lemma_unknown_last_label_no_domain(host: Seq<u8>, set: Set<Seq<u8>>)
    requires
        !set.contains(last_label(host)),
    ensures
        spec_domain(host, set) is None,
{
}

} // verus!
