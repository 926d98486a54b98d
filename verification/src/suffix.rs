//! The set of public-suffix / TLD labels, with exact membership queries.
//!
//! Entries come from a reference file, one suffix per line; lines that are
//! blank (all ASCII whitespace) or begin with `//` are comments. The set is
//! built once and read-only thereafter.

use vstd::prelude::*;

use crate::bytes::is_white;
use vstd::slice::slice_to_vec;

verus! {

/// The ASCII slash; two in a row open a comment line in the suffix file.
pub const SLASH: u8 = 47;

/// A suffix-file line is kept when it has a non-whitespace byte and does not
/// begin with the comment marker `//`.
pub open spec fn spec_keep_tld_line(line: Seq<u8>) -> bool {
    (exists|i: int| 0 <= i < line.len() && !is_white(#[trigger] line[i])) && !(line.len() >= 2
        && line[0] == SLASH && line[1] == SLASH)
}

/// An in-memory set of suffix strings (as bytes), abstracted as the set of
/// its entries' byte sequences.
pub struct SuffixSet {
    entries: Vec<Vec<u8>>,
}

impl View for SuffixSet {
    type V = Set<Seq<u8>>;

    closed spec fn view(&self) -> Set<Seq<u8>> {
        Set::new(
            |s: Seq<u8>|
                exists|i: int| 0 <= i < self.entries@.len() && (#[trigger] self.entries@[i])@ == s,
        )
    }
}

impl SuffixSet {
    /// The empty suffix set.
    pub fn new() -> (r: SuffixSet)
        ensures
            r@ == Set::<Seq<u8>>::empty(),
    {
        let r = SuffixSet { entries: Vec::new() };
        proof {
            assert(r@ =~= Set::<Seq<u8>>::empty());
        }
        r
    }

    /// Exact membership of `s` in the set.
    pub fn contains(&self, s: &[u8]) -> (r: bool)
        ensures
            r == self@.contains(s@),
    {
        let mut i: usize = 0;
        while i < self.entries.len()
            invariant
                i <= self.entries@.len(),
                forall|j: int| 0 <= j < i ==> (#[trigger] self.entries@[j])@ != s@,
            decreases self.entries@.len() - i,
        {
            if crate::bytes::eq_bytes(self.entries[i].as_slice(), s) {
                return true;
            }
            i += 1;
        }
        false
    }

    /// Adds one suffix; already-present entries are not duplicated.
    pub fn insert(&mut self, entry: Vec<u8>)
        ensures
            final(self)@ == old(self)@.insert(entry@),
    {
        if self.contains(entry.as_slice()) {
            proof {
                assert(old(self)@ =~= old(self)@.insert(entry@));
            }
        } else {
            let ghost before = self.entries@;
            self.entries.push(entry);
            proof {
                assert forall|s: Seq<u8>| #[trigger] self@.contains(s) implies old(
                    self,
                )@.insert(entry@).contains(s) by {
                    let i = choose|i: int|
                        0 <= i < self.entries@.len() && (#[trigger] self.entries@[i])@ == s;
                    if i < before.len() {
                        assert(before[i]@ == s);
                    }
                }
                assert forall|s: Seq<u8>| old(self)@.insert(entry@).contains(s) implies #[trigger] self@.contains(
                    s,
                ) by {
                    if old(self)@.contains(s) {
                        let i = choose|i: int|
                            0 <= i < before.len() && (#[trigger] before[i])@ == s;
                        assert(self.entries@[i]@ == s);
                    } else {
                        assert(self.entries@[before.len() as int]@ == s);
                    }
                }
                assert(self@ =~= old(self)@.insert(entry@));
            }
        }
    }

    /// Whether a suffix-file line carries an entry (is neither blank nor a
    /// `//` comment).
    pub fn keep_tld_line(line: &[u8]) -> (r: bool)
        ensures
            r == spec_keep_tld_line(line@),
    {
        if line.len() >= 2 && line[0] == SLASH && line[1] == SLASH {
            return false;
        }
        let mut i: usize = 0;
        while i < line.len()
            invariant
                i <= line@.len(),
                !(line@.len() >= 2 && line@[0] == SLASH && line@[1] == SLASH),
                forall|j: int| 0 <= j < i ==> is_white(#[trigger] line@[j]),
            decreases line@.len() - i,
        {
            if !Self::white_byte(line[i]) {
                return true;
            }
            i += 1;
        }
        false
    }

    /// Feeds one line of the suffix reference file into the set: entries are
    /// inserted verbatim, blank and comment lines are ignored.
    pub fn add_line(&mut self, line: &[u8])
        ensures
            final(self)@ == if spec_keep_tld_line(line@) {
                old(self)@.insert(line@)
            } else {
                old(self)@
            },
    {
        if Self::keep_tld_line(line) {
            self.insert(slice_to_vec(line));
        }
    }

    /// ASCII whitespace test used by the blank-line check.
    fn white_byte(b: u8) -> (r: bool)
        ensures
            r == is_white(b),
    {
        b == 32 || b == 9 || b == 10 || b == 13
    }
}

} // verus!
