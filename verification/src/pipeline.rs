//! The per-line decision of the stream driver.
//!
//! For each decompressed input line the driver either diverts it (it carries
//! a `\u` escape), skips it with a diagnostic (it does not parse), drops it
//! silently (its hostname has no registrable domain), reports a malformed
//! address, or emits the encoded IP with the domain's range. All of that
//! decision is computed here; the driver only performs the corresponding
//! I/O.

use vstd::prelude::*;

use crate::domain::{domain_bounds, spec_domain_bounds};
use crate::ipv4::{ipv4_checked, ipv4_value, is_ipv4_text};
use crate::record::{spec_parse, Parser, COMMA};
use crate::suffix::SuffixSet;
use vstd::slice::slice_subrange;

verus! {

/// The ASCII newline that ends every primary-output line.
pub const NEWLINE: u8 = 10;

/// The ASCII backslash.
pub const BACKSLASH: u8 = 92;

/// The ASCII letter `u`; after a backslash it marks a unicode escape.
pub const LETTER_U: u8 = 117;

/// Whether the line holds the two-byte sequence `\u` anywhere.
pub open spec fn spec_has_unicode_escape(s: Seq<u8>) -> bool {
    exists|i: int| 0 <= i && i + 1 < s.len() && s[i] == BACKSLASH && #[trigger] s[i + 1] == LETTER_U
}

/// Whether the line holds the two-byte sequence `\u` anywhere.
pub fn has_unicode_escape(line: &[u8]) -> (r: bool)
    ensures
        r == spec_has_unicode_escape(line@),
{
    let n = line.len();
    if n == 0 {
        return false;
    }
    let mut i: usize = 0;
    while i < n - 1
        invariant
            n == line@.len(),
            1 <= n,
            i + 1 <= line@.len(),
            forall|j: int|
                0 <= j && j + 1 < line@.len() && j < i ==> !(line@[j] == BACKSLASH
                    && #[trigger] line@[j + 1] == LETTER_U),
        decreases line@.len() - i,
    {
        if line[i] == BACKSLASH && line[i + 1] == LETTER_U {
            return true;
        }
        i += 1;
    }
    false
}

/// What the driver does with one input line.
#[derive(Clone, Copy, Debug, PartialEq, Eq, Structural)]
pub enum LineOutcome {
    /// The line carries a `\u` escape: copy it verbatim to the rejects file.
    Rejected,
    /// The line does not parse as a record: log it and continue.
    ParseFailure,
    /// The hostname has no registrable domain: drop the line silently.
    NoDomain,
    /// The `name` field is not well-formed dotted decimal: log it and
    /// continue.
    BadAddress,
    /// Emit `<ip>,<domain>`: the domain is `line[domain_start..domain_end]`.
    Emit { ip: u32, domain_start: usize, domain_end: usize },
}

/// The decision for one line, as a function of the line's bytes and the
/// suffix set.
pub open spec fn spec_process_line(line: Seq<u8>, set: Set<Seq<u8>>) -> LineOutcome {
    if spec_has_unicode_escape(line) {
        LineOutcome::Rejected
    } else {
        match spec_parse(line, 0) {
            None => LineOutcome::ParseFailure,
            Some((name_r, value_r)) => {
                let host = line.subrange(value_r.0, value_r.1);
                match spec_domain_bounds(host, set) {
                    None => LineOutcome::NoDomain,
                    Some(b) => {
                        let addr = line.subrange(name_r.0, name_r.1);
                        if is_ipv4_text(addr) {
                            LineOutcome::Emit {
                                ip: ipv4_value(addr) as u32,
                                domain_start: (value_r.0 + b.0) as usize,
                                domain_end: (value_r.0 + b.1) as usize,
                            }
                        } else {
                            LineOutcome::BadAddress
                        }
                    },
                }
            },
        }
    }
}

/// The decision is a function of the line's bytes and the suffix set alone:
/// two runs over equal inputs decide every line identically, so re-running
/// the whole pipeline on the same input and suffix file reproduces the
/// primary output and the rejects output byte for byte. (`process_line`'s
/// contract ties each call to this one spec value.)
pub proof fn lemma_process_line_deterministic(
    line_a: Seq<u8>,
    line_b: Seq<u8>,
    set_a: Set<Seq<u8>>,
    set_b: Set<Seq<u8>>,
)
    requires
        line_a == line_b,
        set_a == set_b,
    ensures
        spec_process_line(line_a, set_a) == spec_process_line(line_b, set_b),
{
}

/// Decides one line. On `Emit`, the returned range lies inside the line and
/// holds the registrable domain of the record's hostname.
pub fn process_line(line: &[u8], tld_set: &SuffixSet) -> (r: LineOutcome)
    ensures
        r == spec_process_line(line@, tld_set@),
        r matches LineOutcome::Emit { ip, domain_start, domain_end } ==> domain_start <= domain_end
            <= line@.len(),
{
    if has_unicode_escape(line) {
        return LineOutcome::Rejected;
    }
    let mut parser = Parser { buf: line, pos: 0 };
    let info = match parser.parse() {
        None => {
            return LineOutcome::ParseFailure;
        },
        Some(info) => info,
    };
    let host = slice_subrange(line, info.value.0, info.value.1);
    let (ds, de) = match domain_bounds(host, tld_set) {
        None => {
            return LineOutcome::NoDomain;
        },
        Some(b) => b,
    };
    let addr = slice_subrange(line, info.name.0, info.name.1);
    match ipv4_checked(addr) {
        None => LineOutcome::BadAddress,
        Some(ip) => LineOutcome::Emit {
            ip,
            domain_start: info.value.0 + ds,
            domain_end: info.value.0 + de,
        },
    }
}

/// The usual decimal numeral of `n`: most significant digit first, no sign,
/// no leading zero (a single `0` for zero).
pub open spec fn spec_decimal(n: int) -> Seq<u8>
    decreases n,
{
    if n < 10 {
        seq![(48 + n) as u8]
    } else {
        spec_decimal(n / 10) + seq![(48 + n % 10) as u8]
    }
}

/// Appends the decimal numeral of `n` to `out`.
fn push_decimal(n: u32, out: &mut Vec<u8>)
    ensures
        final(out)@ == old(out)@ + spec_decimal(n as int),
    decreases n,
{
    if n < 10 {
        out.push(48 + n as u8);
        proof {
            assert(out@ =~= old(out)@ + spec_decimal(n as int));
        }
    } else {
        push_decimal(n / 10, out);
        out.push(48 + (n % 10) as u8);
        proof {
            assert(out@ =~= old(out)@ + spec_decimal(n as int));
        }
    }
}

/// The primary-output line for one emitted record: the decimal IP, a comma,
/// the domain, a newline.
pub open spec fn spec_emit_line(ip: int, domain: Seq<u8>) -> Seq<u8> {
    spec_decimal(ip) + seq![COMMA] + domain + seq![NEWLINE]
}

/// Renders one primary-output line, `<ip>,<domain>\n`.
pub fn emit_line(ip: u32, domain: &[u8]) -> (r: Vec<u8>)
    ensures
        r@ == spec_emit_line(ip as int, domain@),
{
    let mut out: Vec<u8> = Vec::new();
    push_decimal(ip, &mut out);
    out.push(COMMA);
    proof {
        assert(out@ =~= spec_decimal(ip as int) + seq![COMMA] + domain@.subrange(0, 0));
    }
    let mut i: usize = 0;
    while i < domain.len()
        invariant
            i <= domain@.len(),
            out@ == spec_decimal(ip as int) + seq![COMMA] + domain@.subrange(0, i as int),
        decreases domain@.len() - i,
    {
        out.push(domain[i]);
        i += 1;
        proof {
            assert(out@ =~= spec_decimal(ip as int) + seq![COMMA] + domain@.subrange(0, i as int));
        }
    }
    out.push(NEWLINE);
    proof {
        assert(domain@.subrange(0, domain@.len() as int) == domain@);
        assert(out@ =~= spec_emit_line(ip as int, domain@));
    }
    out
}

} // verus!
