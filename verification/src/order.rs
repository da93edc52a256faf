//! The orderer: a deterministic strict total order over charts within a
//! bucket. Titles ranked by the ordering table come first, by ascending
//! rank; unranked titles follow in codepoint order; equal titles tie-break
//! by chart variant (deluxe before standard), then by difficulty.

use vstd::prelude::*;
use crate::model::{chart_type_rank, diff_rank, Chart, ChartView};
use crate::prev::ResolvedChart;

verus! {

/// Codepoint-wise lexicographic order over titles.
pub open spec fn lex_lt(a: Seq<char>, b: Seq<char>) -> bool
    decreases a.len(),
{
    if b.len() == 0 {
        false
    } else if a.len() == 0 {
        true
    } else if a[0] != b[0] {
        (a[0] as u32) < (b[0] as u32)
    } else {
        lex_lt(a.drop_first(), b.drop_first())
    }
}

/// Exactly one of `lex_lt(a, b)`, `lex_lt(b, a)` and `a == b` holds.
pub proof fn lemma_lex_lt_props(a: Seq<char>, b: Seq<char>)
    ensures
        lex_lt(a, b) || lex_lt(b, a) || a == b,
        lex_lt(a, b) ==> !lex_lt(b, a),
        lex_lt(a, b) ==> a != b,
    decreases a.len(),
{
    if b.len() == 0 {
        if a.len() == 0 {
            assert(a =~= b);
        }
    } else if a.len() == 0 {
    } else if a[0] != b[0] {
        assert(a[0] as u32 != b[0] as u32) by {
            if a[0] as u32 == b[0] as u32 {
                vstd::utf8::char_u32_cast(a[0], a[0] as u32);
                vstd::utf8::char_u32_cast(b[0], b[0] as u32);
            }
        }
    } else {
        lemma_lex_lt_props(a.drop_first(), b.drop_first());
        if a.drop_first() == b.drop_first() {
            assert(a =~= b) by {
                assert(a.len() == b.len());
                assert(forall|i: int|
                    1 <= i < a.len() ==> a[i] == a.drop_first()[i - 1] && b[i] == b.drop_first()[
                        i - 1]);
            }
        }
        if a == b {
            assert(a.drop_first() == b.drop_first());
        }
    }
}

/// Lexicographic order is transitive.
pub proof fn lemma_lex_lt_trans(a: Seq<char>, b: Seq<char>, c: Seq<char>)
    requires
        lex_lt(a, b),
        lex_lt(b, c),
    ensures
        lex_lt(a, c),
    decreases a.len(),
{
    if a.len() == 0 {
    } else {
        if a[0] != b[0] {
            if b[0] != c[0] {
            } else {
            }
        } else {
            if b[0] != c[0] {
            } else {
                lemma_lex_lt_trans(a.drop_first(), b.drop_first(), c.drop_first());
            }
        }
    }
}

/// The canonical ordering of titles, loaded once per run: the line index of
/// a title is its rank; titles not listed are unranked.
#[derive(Debug, Clone)]
pub struct OrderingTable {
    pub titles: Vec<String>,
}

impl View for OrderingTable {
    type V = Seq<Seq<char>>;

    open spec fn view(&self) -> Seq<Seq<char>> {
        self.titles@.map_values(|t: String| t@)
    }
}

/// The rank of a title: the index of its first occurrence in the table, or
/// nothing when the table does not list it.
pub open spec fn rank_of(t: Seq<Seq<char>>, title: Seq<char>) -> Option<int>
    decreases t.len(),
{
    if t.len() == 0 {
        Option::None
    } else if t[0] == title {
        Option::Some(0)
    } else {
        match rank_of(t.drop_first(), title) {
            Option::Some(r) => Option::Some(r + 1),
            Option::None => Option::None,
        }
    }
}

/// A rank points at the title it ranks; an unranked title is not listed.
pub proof fn lemma_rank_props(t: Seq<Seq<char>>, x: Seq<char>)
    ensures
        match rank_of(t, x) {
            Option::Some(r) => 0 <= r < t.len() && t[r] == x,
            Option::None => forall|i: int| 0 <= i < t.len() ==> t[i] != x,
        },
    decreases t.len(),
{
    if t.len() == 0 {
    } else if t[0] == x {
    } else {
        lemma_rank_props(t.drop_first(), x);
        match rank_of(t.drop_first(), x) {
            Option::Some(r) => {
                assert(t.drop_first()[r] == t[r + 1]);
            },
            Option::None => {
                assert(forall|i: int|
                    1 <= i < t.len() ==> t[i] == t.drop_first()[i - 1] && t.drop_first()[i - 1]
                        != x);
            },
        }
    }
}

impl OrderingTable {
    /// Builds the table from the lines of the ordering list.
    pub fn from_lines(lines: Vec<String>) -> (r: OrderingTable)
        ensures
            r@ == lines@.map_values(|t: String| t@),
    {
        OrderingTable { titles: lines }
    }

    /// The rank of a title, or nothing when the table does not list it.
    pub fn rank(&self, title: &String) -> (r: Option<usize>)
        ensures
            match r {
                Option::Some(i) => rank_of(self@, title@) == Option::Some(i as int),
                Option::None => rank_of(self@, title@) is None,
            },
    {
        let ghost t = self@;
        let n = self.titles.len();
        let mut i: usize = 0;
        proof {
            assert(t.skip(0) =~= t);
        }
        while i < n
            invariant
                i <= n,
                n == self.titles@.len(),
                t == self@,
                rank_of(t, title@) == match rank_of(t.skip(i as int), title@) {
                    Option::Some(r) => Option::Some(r + i),
                    Option::None => Option::None::<int>,
                },
            decreases n - i,
        {
            proof {
                assert(t.skip(i as int)[0] == t[i as int]);
                assert(t.skip(i as int).drop_first() =~= t.skip(i + 1));
                assert(t[i as int] == self.titles@[i as int]@);
            }
            if self.titles[i] == *title {
                return Option::Some(i);
            }
            i = i + 1;
        }
        proof {
            assert(t.skip(n as int) =~= Seq::<Seq<char>>::empty());
        }
        Option::None
    }
}

/// The canonical order over titles: ranked before unranked, ranked by
/// ascending rank, unranked by codepoint order.
pub open spec fn title_lt(t: Seq<Seq<char>>, a: Seq<char>, b: Seq<char>) -> bool {
    match (rank_of(t, a), rank_of(t, b)) {
        (Option::Some(ra), Option::Some(rb)) => ra < rb,
        (Option::Some(_), Option::None) => true,
        (Option::None, Option::Some(_)) => false,
        (Option::None, Option::None) => lex_lt(a, b),
    }
}

proof fn lemma_title_lt_asym(t: Seq<Seq<char>>, a: Seq<char>, b: Seq<char>)
    requires
        title_lt(t, a, b),
    ensures
        !title_lt(t, b, a),
{
    match (rank_of(t, a), rank_of(t, b)) {
        (Option::None, Option::None) => {
            lemma_lex_lt_props(a, b);
        },
        _ => {},
    }
}

proof fn lemma_title_lt_trans(t: Seq<Seq<char>>, a: Seq<char>, b: Seq<char>, c: Seq<char>)
    requires
        title_lt(t, a, b),
        title_lt(t, b, c),
    ensures
        title_lt(t, a, c),
{
    match (rank_of(t, a), rank_of(t, b), rank_of(t, c)) {
        (Option::None, Option::None, Option::None) => {
            lemma_lex_lt_trans(a, b, c);
        },
        _ => {},
    }
}

proof fn lemma_title_lt_connected(t: Seq<Seq<char>>, a: Seq<char>, b: Seq<char>)
    requires
        a != b,
    ensures
        title_lt(t, a, b) || title_lt(t, b, a),
{
    lemma_rank_props(t, a);
    lemma_rank_props(t, b);
    match (rank_of(t, a), rank_of(t, b)) {
        (Option::Some(ra), Option::Some(rb)) => {
            assert(ra != rb) by {
                if ra == rb {
                    assert(t[ra] == a && t[rb] == b);
                }
            }
        },
        (Option::None, Option::None) => {
            lemma_lex_lt_props(a, b);
        },
        _ => {},
    }
}

/// The strict total order over charts within a bucket: canonical title
/// order first; equal titles tie-break by chart variant (deluxe before
/// standard), then by difficulty.
pub open spec fn chart_lt(t: Seq<Seq<char>>, a: ChartView, b: ChartView) -> bool {
    if a.song.title != b.song.title {
        title_lt(t, a.song.title, b.song.title)
    } else if a.song.chart_type != b.song.chart_type {
        chart_type_rank(a.song.chart_type) < chart_type_rank(b.song.chart_type)
    } else {
        diff_rank(a.diff) < diff_rank(b.diff)
    }
}

/// No chart sorts before itself.
pub proof fn lemma_chart_order_irreflexive(t: Seq<Seq<char>>, a: ChartView)
    ensures
        !chart_lt(t, a, a),
{
}

/// The chart order is antisymmetric: no two charts each sort before the
/// other.
pub proof fn lemma_chart_order_antisymmetric(t: Seq<Seq<char>>, a: ChartView, b: ChartView)
    requires
        chart_lt(t, a, b),
    ensures
        !chart_lt(t, b, a),
{
    if a.song.title != b.song.title {
        lemma_title_lt_asym(t, a.song.title, b.song.title);
    }
}

/// The chart order is transitive.
pub proof fn lemma_chart_order_transitive(
    t: Seq<Seq<char>>,
    a: ChartView,
    b: ChartView,
    c: ChartView,
)
    requires
        chart_lt(t, a, b),
        chart_lt(t, b, c),
    ensures
        chart_lt(t, a, c),
{
    let ta = a.song.title;
    let tb = b.song.title;
    let tc = c.song.title;
    if ta != tb && tb != tc {
        lemma_title_lt_trans(t, ta, tb, tc);
        if ta == tc {
            lemma_title_lt_asym(t, ta, tb);
        }
    } else if ta != tb && tb == tc {
    } else if ta == tb && tb != tc {
    } else {
    }
}

/// The chart order is total: two charts with different identity keys sort
/// one way or the other.
pub proof fn lemma_chart_order_total(t: Seq<Seq<char>>, a: ChartView, b: ChartView)
    requires
        a.key() != b.key(),
    ensures
        chart_lt(t, a, b) || chart_lt(t, b, a),
{
    if a.song.title != b.song.title {
        lemma_title_lt_connected(t, a.song.title, b.song.title);
    }
}

/// The mathematical images of a sequence of resolved charts.
pub open spec fn resolved_views(s: Seq<ResolvedChart>) -> Seq<crate::prev::ResolvedChartView> {
    s.map_values(|c: ResolvedChart| c@)
}

/// Is the sequence sorted under the chart order?
pub open spec fn sorted_charts(t: Seq<Seq<char>>, s: Seq<crate::prev::ResolvedChartView>) -> bool {
    forall|i: int, j: int|
        0 <= i < j < s.len() ==> !chart_lt(t, (#[trigger] s[j]).chart, (#[trigger] s[i]).chart)
}

/// Does `a` sort strictly before `b`?
pub fn chart_lt_exec(table: &OrderingTable, a: &Chart, b: &Chart) -> (r: bool)
    ensures
        r == chart_lt(table@, a@, b@),
{
    if a.song.title == b.song.title {
        if chart_type_rank_neq(a, b) {
            crate::model::chart_type_rank_exec(a.song.chart_type)
                < crate::model::chart_type_rank_exec(b.song.chart_type)
        } else {
            crate::model::diff_rank_exec(a.diff) < crate::model::diff_rank_exec(b.diff)
        }
    } else {
        let ra = table.rank(&a.song.title);
        let rb = table.rank(&b.song.title);
        match (ra, rb) {
            (Option::Some(x), Option::Some(y)) => x < y,
            (Option::Some(_), Option::None) => true,
            (Option::None, Option::Some(_)) => false,
            (Option::None, Option::None) => lex_lt_exec(&a.song.title, &b.song.title),
        }
    }
}

fn chart_type_rank_neq(a: &Chart, b: &Chart) -> (r: bool)
    ensures
        r == (a@.song.chart_type != b@.song.chart_type),
{
    a.song.chart_type != b.song.chart_type
}

/// Codepoint-wise comparison of two titles.
fn lex_lt_exec(a: &String, b: &String) -> (r: bool)
    ensures
        r == lex_lt(a@, b@),
{
    let sa = a.as_str();
    let sb = b.as_str();
    let na = sa.unicode_len();
    let nb = sb.unicode_len();
    let mut i: usize = 0;
    proof {
        assert(a@.skip(0) =~= a@);
        assert(b@.skip(0) =~= b@);
    }
    while i < na && i < nb
        invariant
            i <= na,
            i <= nb,
            na == a@.len(),
            nb == b@.len(),
            sa@ == a@,
            sb@ == b@,
            lex_lt(a@, b@) == lex_lt(a@.skip(i as int), b@.skip(i as int)),
        decreases na - i,
    {
        let ca = sa.get_char(i);
        let cb = sb.get_char(i);
        proof {
            assert(a@.skip(i as int)[0] == a@[i as int]);
            assert(b@.skip(i as int)[0] == b@[i as int]);
            assert(a@.skip(i as int).drop_first() =~= a@.skip(i + 1));
            assert(b@.skip(i as int).drop_first() =~= b@.skip(i + 1));
        }
        if ca != cb {
            return (ca as u32) < (cb as u32);
        }
        i = i + 1;
    }
    proof {
        if i >= nb {
            assert(b@.skip(i as int).len() == 0);
        } else {
            assert(a@.skip(i as int).len() == 0);
            assert(b@.skip(i as int).len() > 0);
        }
    }
    na < nb
}

/// Sorts a bucket's resolved charts into the canonical order. The result is
/// a permutation of the input; with unique chart identities the order pins
/// the output down completely.
pub fn sort_charts(table: &OrderingTable, input: &Vec<ResolvedChart>) -> (out: Vec<ResolvedChart>)
    ensures
        sorted_charts(table@, resolved_views(out@)),
        resolved_views(out@).to_multiset() == resolved_views(input@).to_multiset(),
{
    broadcast use vstd::seq_lib::group_to_multiset_ensures;

    let n = input.len();
    let mut out: Vec<ResolvedChart> = Vec::new();
    let mut idx: usize = 0;
    proof {
        assert(resolved_views(input@.take(0)) =~= Seq::<crate::prev::ResolvedChartView>::empty());
        assert(resolved_views(out@) =~= Seq::<crate::prev::ResolvedChartView>::empty());
        assert(resolved_views(out@).to_multiset() =~= resolved_views(
            input@.take(0),
        ).to_multiset());
    }
    while idx < n
        invariant
            idx <= n,
            n == input@.len(),
            sorted_charts(table@, resolved_views(out@)),
            resolved_views(out@).to_multiset() == resolved_views(
                input@.take(idx as int),
            ).to_multiset(),
        decreases n - idx,
    {
        let x = input[idx].duplicate();
        let ghost prev_out = resolved_views(out@);
        let m = out.len();
        let mut p: usize = 0;
        while p < m && chart_lt_exec(table, &out[p].chart, &x.chart)
            invariant
                p <= m,
                m == out@.len(),
                prev_out == resolved_views(out@),
                x@ == input@[idx as int]@,
                forall|k: int|
                    0 <= k < p ==> chart_lt(table@, (#[trigger] prev_out[k]).chart, x@.chart),
            decreases m - p,
        {
            proof {
                assert(prev_out[p as int] == out@[p as int]@);
            }
            p = p + 1;
        }
        proof {
            assert(p < m ==> !chart_lt(table@, out@[p as int]@.chart, x@.chart));
        }
        out.insert(p, x);
        proof {
            let nv = resolved_views(out@);
            assert(nv =~= prev_out.insert(p as int, x@));
            assert(sorted_charts(table@, nv)) by {
                assert forall|i: int, j: int| 0 <= i < j < nv.len() implies !chart_lt(
                    table@,
                    (#[trigger] nv[j]).chart,
                    (#[trigger] nv[i]).chart,
                ) by {
                    if i < p && j == p {
                        assert(nv[i] == prev_out[i]);
                        assert(chart_lt(table@, prev_out[i].chart, x@.chart));
                        lemma_chart_order_antisymmetric(table@, prev_out[i].chart, x@.chart);
                    } else if i == p && j > p {
                        assert(nv[j] == prev_out[j - 1]);
                        if j - 1 == p {
                            assert(!chart_lt(table@, prev_out[p as int].chart, x@.chart));
                        } else {
                            assert(!chart_lt(
                                table@,
                                prev_out[j - 1].chart,
                                prev_out[p as int].chart,
                            ));
                            lemma_chart_le_transitive(
                                table@,
                                x@.chart,
                                prev_out[p as int].chart,
                                prev_out[j - 1].chart,
                            );
                        }
                    } else if i < p && j > p {
                        assert(nv[i] == prev_out[i]);
                        assert(nv[j] == prev_out[j - 1]);
                    } else if i < p && j < p {
                        assert(nv[i] == prev_out[i] && nv[j] == prev_out[j]);
                    } else {
                        assert(i > p && j > p);
                        assert(nv[i] == prev_out[i - 1] && nv[j] == prev_out[j - 1]);
                    }
                }
            }
            assert(input@.take(idx + 1).drop_last() =~= input@.take(idx as int));
            assert(input@.take(idx + 1).last() == input@[idx as int]);
            assert(resolved_views(input@.take(idx + 1)) =~= resolved_views(
                input@.take(idx as int),
            ).push(input@[idx as int]@));
            assert(nv.to_multiset() == resolved_views(input@.take(idx + 1)).to_multiset());
        }
        idx = idx + 1;
    }
    proof {
        assert(input@.take(n as int) =~= input@);
    }
    out
}

/// The chart order reads nothing but the identity key: charts with one key
/// sort identically against everything.
pub proof fn lemma_chart_key_congruence(
    t: Seq<Seq<char>>,
    a: ChartView,
    b: ChartView,
    c: ChartView,
)
    requires
        a.key() == b.key(),
    ensures
        chart_lt(t, a, c) == chart_lt(t, b, c),
        chart_lt(t, c, a) == chart_lt(t, c, b),
{
    assert(a.song.title == b.song.title);
    assert(a.song.chart_type == b.song.chart_type);
    assert(a.diff == b.diff);
}

/// The reflexive closure of the chart order is transitive: a chart that
/// sorts no later than a second, which sorts no later than a third, sorts
/// no later than the third.
pub proof fn lemma_chart_le_transitive(t: Seq<Seq<char>>, x: ChartView, p: ChartView, b: ChartView)
    requires
        !chart_lt(t, p, x),
        !chart_lt(t, b, p),
    ensures
        !chart_lt(t, b, x),
{
    if chart_lt(t, b, x) {
        if b.key() == p.key() {
            lemma_chart_key_congruence(t, b, p, x);
        } else {
            lemma_chart_order_total(t, b, p);
            lemma_chart_order_transitive(t, p, b, x);
        }
    }
}

} // verus!
