//! The deletion filter: songs whose canonical title is on the exclusion
//! list are dropped entirely before bucketing, so no chart of theirs reaches
//! any bucket.

use vstd::prelude::*;

verus! {

/// The set of titles fully excluded from output, loaded once per run from a
/// newline-delimited list.
#[derive(Debug, Clone)]
pub struct DeletionSet {
    pub titles: Vec<String>,
}

impl View for DeletionSet {
    type V = Set<Seq<char>>;

    open spec fn view(&self) -> Set<Seq<char>> {
        self.titles@.map_values(|t: String| t@).to_set()
    }
}

impl DeletionSet {
    /// Builds the set from the lines of the exclusion list.
    pub fn from_lines(lines: Vec<String>) -> (r: DeletionSet)
        ensures
            r@ == lines@.map_values(|t: String| t@).to_set(),
    {
        DeletionSet { titles: lines }
    }

    /// Is this title excluded?
    pub fn contains(&self, title: &String) -> (r: bool)
        ensures
            r == self@.contains(title@),
    {
        let ghost tvs = self.titles@.map_values(|t: String| t@);
        let n = self.titles.len();
        let mut i: usize = 0;
        while i < n
            invariant
                i <= n,
                n == self.titles@.len(),
                tvs == self.titles@.map_values(|t: String| t@),
                forall|j: int| 0 <= j < i ==> tvs[j] != title@,
            decreases n - i,
        {
            if self.titles[i] == *title {
                proof {
                    assert(tvs[i as int] == self.titles@[i as int]@);
                    assert(tvs[i as int] == title@);
                    assert(tvs.contains(title@));
                }
                return true;
            }
            i = i + 1;
        }
        proof {
            assert(!tvs.contains(title@));
        }
        false
    }
}

} // verus!
