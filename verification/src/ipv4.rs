//! Dotted-decimal IPv4 encoding.
//!
//! A well-formed address is four dot-separated groups of one to three ASCII
//! digits, each group's value at most 255. The encoder packs the groups in
//! network (big-endian) order. Inputs are validated first: a malformed
//! address is reported rather than silently encoded to a meaningless number.

use vstd::prelude::*;

use crate::bytes::{find_byte, spec_find, DOT};

verus! {

/// ASCII decimal digit.
pub open spec fn is_digit(b: u8) -> bool {
    48 <= b && b <= 57
}

pub open spec fn all_digits(s: Seq<u8>) -> bool {
    forall|i: int| 0 <= i < s.len() ==> is_digit(#[trigger] s[i])
}

/// Numeric value of a run of ASCII digits, most significant first.
pub open spec fn digits_value(s: Seq<u8>) -> int
    decreases s.len(),
{
    if s.len() == 0 {
        0
    } else {
        digits_value(s.drop_last()) * 10 + (s.last() - 48)
    }
}

/// One octet group: one to three digits, value at most 255.
pub open spec fn is_octet_group(s: Seq<u8>) -> bool {
    1 <= s.len() <= 3 && all_digits(s) && digits_value(s) <= 255
}

/// A digit run's value is non-negative and below ten to its length; stated
/// for the lengths an octet group can have.
pub proof fn lemma_digits_value_bounds(s: Seq<u8>)
    requires
        all_digits(s),
    ensures
        0 <= digits_value(s),
        s.len() <= 1 ==> digits_value(s) <= 9,
        s.len() <= 2 ==> digits_value(s) <= 99,
        s.len() <= 3 ==> digits_value(s) <= 999,
    decreases s.len(),
{
    if s.len() > 0 {
        assert(all_digits(s.drop_last()));
        lemma_digits_value_bounds(s.drop_last());
    }
}

/// Exactly four dot-separated octet groups.
pub open spec fn is_ipv4_text(s: Seq<u8>) -> bool {
    match spec_find(s, DOT, 0) {
        None => false,
        Some(d1) => match spec_find(s, DOT, d1 + 1) {
            None => false,
            Some(d2) => match spec_find(s, DOT, d2 + 1) {
                None => false,
                Some(d3) => spec_find(s, DOT, d3 + 1) is None && is_octet_group(
                    s.subrange(0, d1),
                ) && is_octet_group(s.subrange(d1 + 1, d2)) && is_octet_group(
                    s.subrange(d2 + 1, d3),
                ) && is_octet_group(s.subrange(d3 + 1, s.len() as int)),
            },
        },
    }
}

/// The network-order 32-bit value of a well-formed dotted-decimal address:
/// the first octet is the most significant byte.
pub open spec fn ipv4_value(s: Seq<u8>) -> int {
    match spec_find(s, DOT, 0) {
        None => 0,
        Some(d1) => match spec_find(s, DOT, d1 + 1) {
            None => 0,
            Some(d2) => match spec_find(s, DOT, d2 + 1) {
                None => 0,
                Some(d3) => digits_value(s.subrange(0, d1)) * 0x1000000 + digits_value(
                    s.subrange(d1 + 1, d2),
                ) * 0x10000 + digits_value(s.subrange(d2 + 1, d3)) * 0x100 + digits_value(
                    s.subrange(d3 + 1, s.len() as int),
                ),
            },
        },
    }
}

/// A well-formed address always encodes to a `u32`.
pub proof fn lemma_ipv4_value_fits(s: Seq<u8>)
    requires
        is_ipv4_text(s),
    ensures
        0 <= ipv4_value(s) <= 0xFFFFFFFF,
{
    let d1 = spec_find(s, DOT, 0).unwrap();
    let d2 = spec_find(s, DOT, d1 + 1).unwrap();
    let d3 = spec_find(s, DOT, d2 + 1).unwrap();
    lemma_digits_value_bounds(s.subrange(0, d1));
    lemma_digits_value_bounds(s.subrange(d1 + 1, d2));
    lemma_digits_value_bounds(s.subrange(d2 + 1, d3));
    lemma_digits_value_bounds(s.subrange(d3 + 1, s.len() as int));
}

/// Value of the digit group `s[i..j]`.
fn parse_octet(s: &[u8], i: usize, j: usize) -> (v: u32)
    requires
        i <= j <= s@.len(),
        is_octet_group(s@.subrange(i as int, j as int)),
    ensures
        v as int == digits_value(s@.subrange(i as int, j as int)),
        v <= 255,
{
    let ghost whole = s@.subrange(i as int, j as int);
    let mut v: u32 = 0;
    let mut k: usize = i;
    while k < j
        invariant
            i <= k <= j <= s@.len(),
            is_octet_group(whole),
            whole == s@.subrange(i as int, j as int),
            v as int == digits_value(s@.subrange(i as int, k as int)),
            v <= 999,
        decreases j - k,
    {
        let ghost pre = s@.subrange(i as int, k as int);
        proof {
            assert(pre == whole.subrange(0, k - i));
            assert(all_digits(pre));
            lemma_digits_value_bounds(pre);
            assert(pre.len() <= 2);
            assert(is_digit(s@[k as int])) by {
                assert(whole[k - i] == s@[k as int]);
            }
        }
        v = v * 10 + (s[k] - 48) as u32;
        k += 1;
        proof {
            let post = s@.subrange(i as int, k as int);
            assert(post.drop_last() == pre);
            assert(post.last() == s@[k - 1]);
            lemma_digits_value_bounds(post);
        }
    }
    proof {
        lemma_digits_value_bounds(whole);
    }
    v
}

/// Whether `s[i..j]` is a single octet group.
fn check_octet(s: &[u8], i: usize, j: usize) -> (r: bool)
    requires
        i <= j <= s@.len(),
    ensures
        r == is_octet_group(s@.subrange(i as int, j as int)),
{
    let ghost whole = s@.subrange(i as int, j as int);
    let n = j - i;
    if n < 1 || n > 3 {
        return false;
    }
    let mut v: u32 = 0;
    let mut k: usize = i;
    while k < j
        invariant
            i <= k <= j <= s@.len(),
            j - i <= 3,
            whole == s@.subrange(i as int, j as int),
            all_digits(s@.subrange(i as int, k as int)),
            v as int == digits_value(s@.subrange(i as int, k as int)),
            v <= 999,
        decreases j - k,
    {
        let ghost pre = s@.subrange(i as int, k as int);
        let b = s[k];
        if b < 48 || b > 57 {
            proof {
                assert(whole[k - i] == s@[k as int]);
            }
            return false;
        }
        proof {
            lemma_digits_value_bounds(pre);
            assert(pre.len() <= 2);
        }
        v = v * 10 + (b - 48) as u32;
        k += 1;
        proof {
            let post = s@.subrange(i as int, k as int);
            assert(post.drop_last() == pre);
            assert(post.last() == s@[k - 1]);
            assert(all_digits(post)) by {
                assert(forall|t: int|
                    0 <= t < post.len() ==> #[trigger] post[t] == s@.subrange(
                        i as int,
                        k as int,
                    )[t]);
            }
            lemma_digits_value_bounds(post);
        }
    }
    proof {
        assert(s@.subrange(i as int, k as int) == whole);
    }
    v <= 255
}

/// Whether `s` is a well-formed dotted-decimal IPv4 address.
pub fn is_ipv4(s: &[u8]) -> (r: bool)
    ensures
        r == is_ipv4_text(s@),
{
    let n = s.len();
    let d1 = match find_byte(s, DOT, 0) {
        Some(d) => d,
        None => {
            return false;
        },
    };
    let d2 = match find_byte(s, DOT, d1 + 1) {
        Some(d) => d,
        None => {
            return false;
        },
    };
    let d3 = match find_byte(s, DOT, d2 + 1) {
        Some(d) => d,
        None => {
            return false;
        },
    };
    if find_byte(s, DOT, d3 + 1).is_some() {
        return false;
    }
    check_octet(s, 0, d1) && check_octet(s, d1 + 1, d2) && check_octet(s, d2 + 1, d3)
        && check_octet(s, d3 + 1, n)
}

/// Packs a well-formed dotted-decimal address into its network-order 32-bit
/// value.
pub fn ipv4_to_u32(s: &[u8]) -> (ip: u32)
    requires
        is_ipv4_text(s@),
    ensures
        ip as int == ipv4_value(s@),
{
    proof {
        lemma_ipv4_value_fits(s@);
    }
    let n = s.len();
    let d1 = match find_byte(s, DOT, 0) {
        Some(d) => d,
        None => vstd::pervasive::unreached(),
    };
    let d2 = match find_byte(s, DOT, d1 + 1) {
        Some(d) => d,
        None => vstd::pervasive::unreached(),
    };
    let d3 = match find_byte(s, DOT, d2 + 1) {
        Some(d) => d,
        None => vstd::pervasive::unreached(),
    };
    let o0 = parse_octet(s, 0, d1);
    let o1 = parse_octet(s, d1 + 1, d2);
    let o2 = parse_octet(s, d2 + 1, d3);
    let o3 = parse_octet(s, d3 + 1, n);
    o0 * 0x1000000 + o1 * 0x10000 + o2 * 0x100 + o3
}

/// Validates and packs in one step: `Some` exactly on well-formed addresses.
pub fn ipv4_checked(s: &[u8]) -> (r: Option<u32>)
    ensures
        r is Some <==> is_ipv4_text(s@),
        r matches Some(ip) ==> ip as int == ipv4_value(s@),
{
    if is_ipv4(s) {
        Some(ipv4_to_u32(s))
    } else {
        None
    }
}

} // verus!
