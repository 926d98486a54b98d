//! Zero-copy parser for one record line.
//!
//! A record is a flat JSON object of exactly four string-valued members in a
//! fixed document order: some first member, then the `name` member holding
//! the IP string, some third member, then the `value` member holding the
//! hostname. The parser scans the raw bytes once and returns the byte-offset
//! ranges of the second and fourth member values; it never allocates and it
//! never decodes escapes (lines carrying `\u` escapes are diverted before
//! parsing). Any deviation from the expected token sequence yields `None`
//! with no partial output.

use vstd::prelude::*;

use crate::bytes::{is_white, spec_find};

verus! {

pub const QUOTE: u8 = 34;

pub const COMMA: u8 = 44;

pub const COLON: u8 = 58;

pub const LBRACE: u8 = 123;

pub const RBRACE: u8 = 125;

/// First position at or after `pos` that does not hold whitespace (or the
/// end of the buffer).
pub open spec fn spec_skip_white(s: Seq<u8>, pos: int) -> int
    decreases s.len() - pos,
{
    if 0 <= pos < s.len() && is_white(s[pos]) {
        spec_skip_white(s, pos + 1)
    } else {
        pos
    }
}

/// Position after the expected token `c`, with whitespace skipped in front;
/// `None` when the next token is a different byte or the buffer ends.
pub open spec fn spec_expect(s: Seq<u8>, pos: int, c: u8) -> Option<int> {
    let p = spec_skip_white(s, pos);
    if p < s.len() && s[p] == c {
        Some(p + 1)
    } else {
        None
    }
}

/// Content range of a quoted string starting at `pos` (whitespace allowed in
/// front): the bytes strictly between the two quotes. The scan after the
/// opening quote consumes everything up to the next quote, so the content
/// never holds one.
pub open spec fn spec_string(s: Seq<u8>, pos: int) -> Option<(int, int)> {
    match spec_expect(s, pos, QUOTE) {
        Some(p) => match spec_find(s, QUOTE, p) {
            Some(end) => Some((p, end)),
            None => None,
        },
        None => None,
    }
}

/// One `"key": "value"` member starting at `pos`: the key's content range
/// and the value's content range.
pub open spec fn spec_member(s: Seq<u8>, pos: int) -> Option<((int, int), (int, int))> {
    match spec_string(s, pos) {
        Some((ks, ke)) => match spec_expect(s, ke + 1, COLON) {
            Some(p) => match spec_string(s, p) {
                Some((vs, ve)) => Some(((ks, ke), (vs, ve))),
                None => None,
            },
            None => None,
        },
        None => None,
    }
}

/// The whole record: `{`, four comma-separated members, `}`. The result is
/// the pair of content ranges of the second and fourth member values.
pub open spec fn spec_parse(s: Seq<u8>, pos: int) -> Option<((int, int), (int, int))> {
    match spec_expect(s, pos, LBRACE) {
        Some(p0) => match spec_member(s, p0) {
            Some((_k1, v1)) => match spec_expect(s, v1.1 + 1, COMMA) {
                Some(p1) => match spec_member(s, p1) {
                    Some((_k2, name_v)) => match spec_expect(s, name_v.1 + 1, COMMA) {
                        Some(p2) => match spec_member(s, p2) {
                            Some((_k3, v3)) => match spec_expect(s, v3.1 + 1, COMMA) {
                                Some(p3) => match spec_member(s, p3) {
                                    Some((_k4, value_v)) => match spec_expect(
                                        s,
                                        value_v.1 + 1,
                                        RBRACE,
                                    ) {
                                        Some(_pend) => Some((name_v, value_v)),
                                        None => None,
                                    },
                                    None => None,
                                },
                                None => None,
                            },
                            None => None,
                        },
                        None => None,
                    },
                    None => None,
                },
                None => None,
            },
            None => None,
        },
        None => None,
    }
}

/// A field content that a quoted string can carry: no quote byte inside.
pub open spec fn quote_free(s: Seq<u8>) -> bool {
    forall|i: int| 0 <= i < s.len() ==> s[i] != QUOTE
}

/// The text of one `"key":"value"` member.
pub open spec fn member_text(k: Seq<u8>, v: Seq<u8>) -> Seq<u8> {
    seq![QUOTE] + k + seq![QUOTE, COLON, QUOTE] + v + seq![QUOTE]
}

/// The canonical text of a whole four-member record, with no whitespace
/// between tokens.
pub open spec fn record_text(
    k1: Seq<u8>,
    v1: Seq<u8>,
    k2: Seq<u8>,
    v2: Seq<u8>,
    k3: Seq<u8>,
    v3: Seq<u8>,
    k4: Seq<u8>,
    v4: Seq<u8>,
) -> Seq<u8> {
    seq![LBRACE] + member_text(k1, v1) + seq![COMMA] + member_text(k2, v2) + seq![COMMA]
        + member_text(k3, v3) + seq![COMMA] + member_text(k4, v4) + seq![RBRACE]
}

/// `spec_find` finds `j` when `j` holds `c` and nothing before it (from
/// `from` on) does.
proof fn lemma_find_at(s: Seq<u8>, c: u8, from: int, j: int)
    requires
        0 <= from <= j < s.len(),
        s[j] == c,
        forall|k: int| from <= k < j ==> s[k] != c,
    ensures
        spec_find(s, c, from) == Some(j),
    decreases j - from,
{
    if from < j {
        lemma_find_at(s, c, from + 1, j);
    }
}

/// A quoted string sitting at `pos` (quote, `n` quote-free bytes, quote)
/// parses to exactly its content range.
proof fn lemma_string_at(s: Seq<u8>, pos: int, n: int)
    requires
        0 <= pos,
        0 <= n,
        pos + n + 2 <= s.len(),
        s[pos] == QUOTE,
        s[pos + 1 + n] == QUOTE,
        forall|k: int| pos + 1 <= k < pos + 1 + n ==> s[k] != QUOTE,
    ensures
        spec_string(s, pos) == Some((pos + 1, pos + 1 + n)),
{
    assert(spec_skip_white(s, pos) == pos);
    assert(spec_expect(s, pos, QUOTE) == Some(pos + 1));
    lemma_find_at(s, QUOTE, pos + 1, pos + 1 + n);
}

/// A member whose text sits at `pos` parses to the key and value content
/// ranges, and the value range slices back to the value itself.
proof fn lemma_member_text_at(s: Seq<u8>, pos: int, k: Seq<u8>, v: Seq<u8>)
    requires
        0 <= pos,
        pos + k.len() + v.len() + 5 <= s.len(),
        s.subrange(pos, pos + k.len() + v.len() + 5) == member_text(k, v),
        quote_free(k),
        quote_free(v),
    ensures
        spec_member(s, pos) == Some(
            ((pos + 1, pos + 1 + k.len() as int), (
                pos + 4 + k.len() as int,
                pos + 4 + k.len() + v.len(),
            )),
        ),
        s.subrange(pos + 4 + k.len() as int, pos + 4 + k.len() + v.len()) == v,
{
    let nk = k.len() as int;
    let nv = v.len() as int;
    let mt = member_text(k, v);
    assert forall|t: int| 0 <= t < nk + nv + 5 implies s[pos + t] == mt[t] by {
        assert(s.subrange(pos, pos + nk + nv + 5)[t] == s[pos + t]);
    }
    assert(mt[0] == QUOTE);
    assert(forall|i: int| 0 <= i < nk ==> mt[1 + i] == k[i]);
    assert(mt[1 + nk] == QUOTE);
    assert(mt[2 + nk] == COLON);
    assert(mt[3 + nk] == QUOTE);
    assert(forall|i: int| 0 <= i < nv ==> mt[4 + nk + i] == v[i]);
    assert(mt[4 + nk + nv] == QUOTE);
    assert forall|q: int| pos + 1 <= q < pos + 1 + nk implies s[q] != QUOTE by {
        let t = q - pos;
        assert(s[pos + t] == mt[t]);
        assert(mt[t] == k[t - 1]);
    }
    assert forall|q: int| pos + 4 + nk <= q < pos + 4 + nk + nv implies s[q] != QUOTE by {
        let t = q - pos;
        assert(s[pos + t] == mt[t]);
        assert(mt[t] == v[t - 4 - nk]);
    }
    lemma_string_at(s, pos, nk);
    assert(spec_skip_white(s, pos + 2 + nk) == pos + 2 + nk);
    assert(spec_expect(s, pos + 2 + nk, COLON) == Some(pos + 3 + nk));
    lemma_string_at(s, pos + 3 + nk, nv);
    assert(s.subrange(pos + 4 + nk, pos + 4 + nk + nv) =~= v);
}

/// Round trip: parsing the canonical text of a well-formed four-member
/// record recovers exactly the second and fourth member values.
#[verifier::rlimit(100)]
pub proof fn lemma_parse_round_trip(
    k1: Seq<u8>,
    v1: Seq<u8>,
    k2: Seq<u8>,
    v2: Seq<u8>,
    k3: Seq<u8>,
    v3: Seq<u8>,
    k4: Seq<u8>,
    v4: Seq<u8>,
)
    requires
        quote_free(k1),
        quote_free(v1),
        quote_free(k2),
        quote_free(v2),
        quote_free(k3),
        quote_free(v3),
        quote_free(k4),
        quote_free(v4),
    ensures
        ({
            let s = record_text(k1, v1, k2, v2, k3, v3, k4, v4);
            match spec_parse(s, 0) {
                Some((name_r, value_r)) => s.subrange(name_r.0, name_r.1) == v2 && s.subrange(
                    value_r.0,
                    value_r.1,
                ) == v4,
                None => false,
            }
        }),
{
    let s = record_text(k1, v1, k2, v2, k3, v3, k4, v4);
    let l1 = k1.len() + v1.len() + 5;
    let l2 = k2.len() + v2.len() + 5;
    let l3 = k3.len() + v3.len() + 5;
    let l4 = k4.len() + v4.len() + 5;
    let a1 = 1int;
    let a2 = a1 + l1 + 1;
    let a3 = a2 + l2 + 1;
    let a4 = a3 + l3 + 1;
    assert(s.len() == a4 + l4 + 1);
    assert(s[0] == LBRACE);
    assert(s.subrange(a1, a1 + l1) =~= member_text(k1, v1));
    assert(s.subrange(a2, a2 + l2) =~= member_text(k2, v2));
    assert(s.subrange(a3, a3 + l3) =~= member_text(k3, v3));
    assert(s.subrange(a4, a4 + l4) =~= member_text(k4, v4));
    lemma_member_text_at(s, a1, k1, v1);
    lemma_member_text_at(s, a2, k2, v2);
    lemma_member_text_at(s, a3, k3, v3);
    lemma_member_text_at(s, a4, k4, v4);
    assert(s[a1 + l1] == COMMA);
    assert(s[a2 + l2] == COMMA);
    assert(s[a3 + l3] == COMMA);
    assert(s[a4 + l4] == RBRACE);
    assert(spec_skip_white(s, 0) == 0);
    assert(spec_expect(s, 0, LBRACE) == Some(a1));
    assert(spec_skip_white(s, a1 + l1) == a1 + l1);
    assert(spec_expect(s, a1 + l1, COMMA) == Some(a2));
    assert(spec_skip_white(s, a2 + l2) == a2 + l2);
    assert(spec_expect(s, a2 + l2, COMMA) == Some(a3));
    assert(spec_skip_white(s, a3 + l3) == a3 + l3);
    assert(spec_expect(s, a3 + l3, COMMA) == Some(a4));
    assert(spec_skip_white(s, a4 + l4) == a4 + l4);
    assert(spec_expect(s, a4 + l4, RBRACE) == Some(a4 + l4 + 1));
}

/// Byte-offset ranges of the `name` and `value` member contents inside the
/// parsed line buffer. The ranges borrow nothing: they are only meaningful
/// against the buffer the parser ran over.
pub struct RdnsInfoPositions {
    pub name: (usize, usize),
    pub value: (usize, usize),
}

/// A cursor over one line's byte buffer.
pub struct Parser<'a> {
    pub buf: &'a [u8],
    pub pos: usize,
}

impl<'a> Parser<'a> {
    /// ASCII whitespace skipped between tokens.
    pub fn is_white(c: u8) -> (r: bool)
        ensures
            r == is_white(c),
    {
        let b0 = c == 32;
        let b1 = c == 9;
        let b2 = c == 10;
        let b3 = c == 13;
        b0 || b1 || b2 || b3
    }

    /// Advances the cursor past any whitespace.
    pub fn skip_white(&mut self)
        requires
            old(self).pos <= old(self).buf@.len(),
        ensures
            final(self).buf == old(self).buf,
            final(self).pos <= final(self).buf@.len(),
            final(self).pos as int == spec_skip_white(old(self).buf@, old(self).pos as int),
    {
        loop
            invariant_except_break
                self.buf == old(self).buf,
                self.pos <= self.buf@.len(),
                spec_skip_white(self.buf@, old(self).pos as int) == spec_skip_white(
                    self.buf@,
                    self.pos as int,
                ),
            ensures
                self.buf == old(self).buf,
                self.pos <= self.buf@.len(),
                self.pos as int == spec_skip_white(self.buf@, old(self).pos as int),
            decreases self.buf@.len() - self.pos,
        {
            if self.pos < self.buf.len() {
                if Self::is_white(self.buf[self.pos]) {
                    self.pos += 1;
                } else {
                    break ;
                }
            } else {
                break ;
            }
        }
    }

    /// Consumes the single expected byte `c`, whitespace allowed in front.
    pub fn expect(&mut self, c: u8) -> (r: Option<()>)
        requires
            old(self).pos <= old(self).buf@.len(),
        ensures
            final(self).buf == old(self).buf,
            final(self).pos <= final(self).buf@.len(),
            r is Some <==> spec_expect(old(self).buf@, old(self).pos as int, c) is Some,
            r is Some ==> Some(final(self).pos as int) == spec_expect(
                old(self).buf@,
                old(self).pos as int,
                c,
            ),
    {
        self.skip_white();
        if self.pos < self.buf.len() && self.buf[self.pos] == c {
            self.pos += 1;
            Some(())
        } else {
            None
        }
    }

    /// The byte under the cursor, or 0 at the end of the buffer.
    pub fn peek(&self) -> (r: u8)
        ensures
            r == if self.pos < self.buf@.len() {
                self.buf@[self.pos as int]
            } else {
                0
            },
    {
        if self.pos < self.buf.len() {
            self.buf[self.pos]
        } else {
            0
        }
    }

    /// Consumes one quoted string and returns its content range; `None`
    /// when no opening quote follows or the buffer ends before the closing
    /// quote.
    pub fn string(&mut self) -> (r: Option<(usize, usize)>)
        requires
            old(self).pos <= old(self).buf@.len(),
        ensures
            final(self).buf == old(self).buf,
            final(self).pos <= final(self).buf@.len(),
            r is Some <==> spec_string(old(self).buf@, old(self).pos as int) is Some,
            r matches Some((st, en)) ==> spec_string(old(self).buf@, old(self).pos as int) == Some(
                (st as int, en as int),
            ) && st <= en < old(self).buf@.len() && final(self).pos == en + 1,
    {
        if self.expect(QUOTE).is_none() {
            return None;
        }
        let start = self.pos;
        loop
            invariant_except_break
                self.buf == old(self).buf,
                start <= self.pos <= self.buf@.len(),
                spec_find(self.buf@, QUOTE, start as int) == spec_find(
                    self.buf@,
                    QUOTE,
                    self.pos as int,
                ),
            ensures
                self.buf == old(self).buf,
                start <= self.pos <= self.buf@.len(),
                spec_find(self.buf@, QUOTE, start as int) == spec_find(
                    self.buf@,
                    QUOTE,
                    self.pos as int,
                ),
                self.pos == self.buf@.len() || self.buf@[self.pos as int] == QUOTE,
            decreases self.buf@.len() - self.pos,
        {
            if self.pos < self.buf.len() {
                if self.buf[self.pos] != QUOTE {
                    self.pos += 1;
                } else {
                    break ;
                }
            } else {
                break ;
            }
        }
        if self.pos == self.buf.len() {
            return None;
        }
        let end = self.pos;
        proof {
            assert(spec_skip_white(self.buf@, end as int) == end as int);
        }
        match self.expect(QUOTE) {
            Some(()) => Some((start, end)),
            None => vstd::pervasive::unreached(),
        }
    }

    /// Parses the whole record from the cursor on, returning the content
    /// ranges of the second and fourth member values.
    pub fn parse(&mut self) -> (r: Option<RdnsInfoPositions>)
        requires
            old(self).pos <= old(self).buf@.len(),
        ensures
            final(self).buf == old(self).buf,
            r is Some <==> spec_parse(old(self).buf@, old(self).pos as int) is Some,
            r matches Some(info) ==> spec_parse(old(self).buf@, old(self).pos as int) == Some(
                ((info.name.0 as int, info.name.1 as int), (
                    info.value.0 as int,
                    info.value.1 as int,
                )),
            ) && info.name.0 <= info.name.1 < old(self).buf@.len() && info.value.0 <= info.value.1
                < old(self).buf@.len(),
    {
        if self.expect(LBRACE).is_none() {
            return None;
        }
        let _k1 = match self.string() {
            Some(x) => x,
            None => {
                return None;
            },
        };
        if self.expect(COLON).is_none() {
            return None;
        }
        let _v1 = match self.string() {
            Some(x) => x,
            None => {
                return None;
            },
        };
        if self.expect(COMMA).is_none() {
            return None;
        }
        let _k2 = match self.string() {
            Some(x) => x,
            None => {
                return None;
            },
        };
        if self.expect(COLON).is_none() {
            return None;
        }
        let name_v = match self.string() {
            Some(x) => x,
            None => {
                return None;
            },
        };
        if self.expect(COMMA).is_none() {
            return None;
        }
        let _k3 = match self.string() {
            Some(x) => x,
            None => {
                return None;
            },
        };
        if self.expect(COLON).is_none() {
            return None;
        }
        let _v3 = match self.string() {
            Some(x) => x,
            None => {
                return None;
            },
        };
        if self.expect(COMMA).is_none() {
            return None;
        }
        let _k4 = match self.string() {
            Some(x) => x,
            None => {
                return None;
            },
        };
        if self.expect(COLON).is_none() {
            return None;
        }
        let value_v = match self.string() {
            Some(x) => x,
            None => {
                return None;
            },
        };
        if self.expect(RBRACE).is_none() {
            return None;
        }
        Some(RdnsInfoPositions { name: name_v, value: value_v })
    }
}

} // verus!
