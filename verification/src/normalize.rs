//! The normalizer: canonicalizes titles through a small exact-replacement
//! table, and decodes a narrow whitelist of markup entities for sources that
//! hand titles in as raw markup. The canonical title is the join key used
//! everywhere downstream.

use vstd::prelude::*;

verus! {

/// A small table of known-incorrect titles and their canonical forms,
/// applied by exact match. Loaded once and passed into the pipeline.
#[derive(Debug, Clone)]
pub struct ReplacementTable {
    pub pairs: Vec<(String, String)>,
}

impl View for ReplacementTable {
    type V = Seq<(Seq<char>, Seq<char>)>;

    open spec fn view(&self) -> Seq<(Seq<char>, Seq<char>)> {
        self.pairs@.map_values(|p: (String, String)| (p.0@, p.1@))
    }
}

/// What a title becomes under a replacement table: the replacement of the
/// first pair whose key equals the title exactly, or the title itself when
/// no pair matches.
pub open spec fn replaced(table: Seq<(Seq<char>, Seq<char>)>, title: Seq<char>) -> Seq<char>
    decreases table.len(),
{
    if table.len() == 0 {
        title
    } else if table[0].0 == title {
        table[0].1
    } else {
        replaced(table.drop_first(), title)
    }
}

impl ReplacementTable {
    /// A table with no pairs, under which every title is already canonical.
    pub fn empty() -> (r: ReplacementTable)
        ensures
            r@ =~= Seq::<(Seq<char>, Seq<char>)>::empty(),
    {
        ReplacementTable { pairs: Vec::new() }
    }

    /// The compiled-in table of known title-encoding artifacts.
    pub fn standard() -> (r: ReplacementTable)
        ensures
            r@ =~= seq![("GIGANT\u{d8}MAKHIA"@, "GIGANTOMAKHIA"@)],
    {
        let mut pairs: Vec<(String, String)> = Vec::new();
        pairs.push(("GIGANT\u{d8}MAKHIA".to_owned(), "GIGANTOMAKHIA".to_owned()));
        ReplacementTable { pairs }
    }

    /// Canonicalizes one title by exact-match replacement.
    pub fn normalize_title(&self, title: &String) -> (r: String)
        ensures
            r@ == replaced(self@, title@),
    {
        let n = self.pairs.len();
        let mut i: usize = 0;
        proof {
            assert(self@.skip(0) =~= self@);
        }
        while i < n
            invariant
                i <= n,
                n == self.pairs.len(),
                replaced(self@, title@) == replaced(self@.skip(i as int), title@),
            decreases n - i,
        {
            proof {
                assert(self@.skip(i as int)[0] == self@[i as int]);
                assert(self@.skip(i as int).drop_first() =~= self@.skip(i as int + 1));
            }
            if self.pairs[i].0 == *title {
                return self.pairs[i].1.clone();
            }
            i = i + 1;
        }
        proof {
            assert(self@.skip(n as int) =~= Seq::<(Seq<char>, Seq<char>)>::empty());
        }
        title.clone()
    }
}

/// Does `s` begin with `p`?
pub open spec fn starts(s: Seq<char>, p: Seq<char>) -> bool {
    p.len() <= s.len() && s.subrange(0, p.len() as int) == p
}

/// The encoding of `&` that the decoder recognizes.
pub open spec fn amp_entity() -> Seq<char> {
    seq!['&', 'a', 'm', 'p', ';']
}

/// The encoding of `<` that the decoder recognizes.
pub open spec fn lt_entity() -> Seq<char> {
    seq!['&', 'l', 't', ';']
}

/// The encoding of `>` that the decoder recognizes.
pub open spec fn gt_entity() -> Seq<char> {
    seq!['&', 'g', 't', ';']
}

/// The encoding of `"` that the decoder recognizes.
pub open spec fn quot_entity() -> Seq<char> {
    seq!['&', 'q', 'u', 'o', 't', ';']
}

/// What a title becomes under entity decoding: each whitelisted entity is
/// replaced by its character, scanning left to right; everything else is
/// copied unchanged.
pub open spec fn decoded(s: Seq<char>) -> Seq<char>
    decreases s.len(),
{
    if s.len() == 0 {
        Seq::<char>::empty()
    } else if starts(s, amp_entity()) {
        seq!['&'] + decoded(s.skip(5))
    } else if starts(s, lt_entity()) {
        seq!['<'] + decoded(s.skip(4))
    } else if starts(s, gt_entity()) {
        seq!['>'] + decoded(s.skip(4))
    } else if starts(s, quot_entity()) {
        seq!['"'] + decoded(s.skip(6))
    } else {
        seq![s[0]] + decoded(s.skip(1))
    }
}

/// Does `s` carry `p` as a prefix at character position `i`?
fn has_prefix_at(s: &str, i: usize, slen: usize, p: &str) -> (r: bool)
    requires
        i <= s@.len(),
        slen == s@.len(),
    ensures
        r == starts(s@.skip(i as int), p@),
{
    let plen = p.unicode_len();
    if plen > slen - i {
        proof {
            assert(!starts(s@.skip(i as int), p@));
        }
        return false;
    }
    let mut j: usize = 0;
    while j < plen
        invariant
            j <= plen,
            plen == p@.len(),
            slen == s@.len(),
            i <= slen,
            plen <= slen - i,
            forall|k: int| 0 <= k < j ==> s@[i + k] == p@[k],
        decreases plen - j,
    {
        if s.get_char(i + j) != p.get_char(j) {
            proof {
                assert(s@.skip(i as int).subrange(0, p@.len() as int)[j as int] != p@[j as int]);
            }
            return false;
        }
        j = j + 1;
    }
    proof {
        assert(s@.skip(i as int).subrange(0, p@.len() as int) =~= p@);
    }
    true
}

/// Decodes the whitelisted markup entities in a raw title.
pub fn decode_entities(s: &String) -> (r: String)
    ensures
        r@ == decoded(s@),
{
    let st = s.as_str();
    let n = st.unicode_len();
    let mut out = String::new();
    let mut i: usize = 0;
    proof {
        reveal_strlit("&amp;");
        reveal_strlit("&lt;");
        reveal_strlit("&gt;");
        reveal_strlit("&quot;");
        reveal_strlit("&");
        reveal_strlit("<");
        reveal_strlit(">");
        reveal_strlit("\"");
        assert("&amp;"@ =~= amp_entity());
        assert("&lt;"@ =~= lt_entity());
        assert("&gt;"@ =~= gt_entity());
        assert("&quot;"@ =~= quot_entity());
        assert(s@.skip(0) =~= s@);
        assert(out@ + decoded(s@) =~= decoded(s@));
    }
    while i < n
        invariant
            i <= n,
            n == s@.len(),
            st@ == s@,
            "&amp;"@ == amp_entity(),
            "&lt;"@ == lt_entity(),
            "&gt;"@ == gt_entity(),
            "&quot;"@ == quot_entity(),
            "&"@ == seq!['&'],
            "<"@ == seq!['<'],
            ">"@ == seq!['>'],
            "\""@ == seq!['"'],
            out@ + decoded(s@.skip(i as int)) == decoded(s@),
        decreases n - i,
    {
        let ghost rest = s@.skip(i as int);
        proof {
            assert(rest.len() == n - i);
        }
        if has_prefix_at(st, i, n, "&amp;") {
            out.append("&");
            proof {
                assert(rest.skip(5) =~= s@.skip(i + 5));
                assert(decoded(rest) == seq!['&'] + decoded(s@.skip(i + 5)));
                assert(out@ + decoded(s@.skip(i + 5)) =~= decoded(s@));
            }
            i = i + 5;
        } else if has_prefix_at(st, i, n, "&lt;") {
            out.append("<");
            proof {
                assert(rest.skip(4) =~= s@.skip(i + 4));
                assert(decoded(rest) == seq!['<'] + decoded(s@.skip(i + 4)));
                assert(out@ + decoded(s@.skip(i + 4)) =~= decoded(s@));
            }
            i = i + 4;
        } else if has_prefix_at(st, i, n, "&gt;") {
            out.append(">");
            proof {
                assert(rest.skip(4) =~= s@.skip(i + 4));
                assert(decoded(rest) == seq!['>'] + decoded(s@.skip(i + 4)));
                assert(out@ + decoded(s@.skip(i + 4)) =~= decoded(s@));
            }
            i = i + 4;
        } else if has_prefix_at(st, i, n, "&quot;") {
            out.append("\"");
            proof {
                assert(rest.skip(6) =~= s@.skip(i + 6));
                assert(decoded(rest) == seq!['"'] + decoded(s@.skip(i + 6)));
                assert(out@ + decoded(s@.skip(i + 6)) =~= decoded(s@));
            }
            i = i + 6;
        } else {
            let c = st.substring_char(i, i + 1);
            out.append(c);
            proof {
                assert(c@ =~= seq![s@[i as int]]);
                assert(rest[0] == s@[i as int]);
                assert(rest.skip(1) =~= s@.skip(i + 1));
                assert(decoded(rest) == seq![rest[0]] + decoded(s@.skip(i + 1)));
                assert(out@ + decoded(s@.skip(i + 1)) =~= decoded(s@));
            }
            i = i + 1;
        }
    }
    proof {
        assert(s@.skip(n as int) =~= Seq::<char>::empty());
        assert(out@ =~= decoded(s@));
    }
    out
}

} // verus!
