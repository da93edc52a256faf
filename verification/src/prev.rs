//! The prior-version resolver: builds a `(title, chart type, difficulty) →
//! prior rating` index from the secondary feed and resolves each bucketed
//! chart against it. Resolution is total: a missing key yields the sentinel
//! `"N/A"`, never a failure. Titles from the secondary feed are matched
//! as-is against the primary canonical titles.

use vstd::prelude::*;
use crate::model::{Chart, ChartType, ChartView, Diff, RawRecord, RawRecordView,
    SourceFormatError};
use crate::catalog::{record_ok, record_views, all_records_ok};

verus! {

/// The identity key of a chart: title, chart variant and difficulty.
pub type ChartKey = (Seq<char>, ChartType, Diff);

/// One entry of the prior-rating index.
#[derive(Debug, Clone)]
pub struct PrevEntry {
    pub title: String,
    pub chart_type: ChartType,
    pub diff: Diff,
    pub level: String,
}

/// Mathematical image of a `PrevEntry`.
#[verifier::ext_equal]
pub ghost struct PrevEntryView {
    pub title: Seq<char>,
    pub chart_type: ChartType,
    pub diff: Diff,
    pub level: Seq<char>,
}

impl View for PrevEntry {
    type V = PrevEntryView;

    open spec fn view(&self) -> PrevEntryView {
        PrevEntryView {
            title: self.title@,
            chart_type: self.chart_type,
            diff: self.diff,
            level: self.level@,
        }
    }
}

impl PrevEntryView {
    /// The key under which this entry is looked up.
    pub open spec fn key(self) -> ChartKey {
        (self.title, self.chart_type, self.diff)
    }
}

/// The mathematical images of a sequence of entries.
pub open spec fn entry_views(s: Seq<PrevEntry>) -> Seq<PrevEntryView> {
    s.map_values(|e: PrevEntry| e@)
}

/// No two entries share a key, so the entry list represents a mapping.
pub open spec fn keys_unique(s: Seq<PrevEntryView>) -> bool {
    forall|i: int, j: int|
        0 <= i < j < s.len() ==> (#[trigger] s[i]).key() != (#[trigger] s[j]).key()
}

/// The mapping an entry list represents.
pub open spec fn index_map(s: Seq<PrevEntryView>) -> Map<ChartKey, Seq<char>> {
    Map::new(
        |k: ChartKey| exists|i: int| 0 <= i < s.len() && (#[trigger] s[i]).key() == k,
        |k: ChartKey|
            {
                let i = choose|i: int| 0 <= i < s.len() && (#[trigger] s[i]).key() == k;
                s[i].level
            },
    )
}

/// What resolving a key against the index yields: the prior rating on a
/// hit, the sentinel `"N/A"` on a miss. Total by construction.
pub open spec fn resolve_spec(m: Map<ChartKey, Seq<char>>, k: ChartKey) -> Seq<char> {
    if m.dom().contains(k) {
        m[k]
    } else {
        "N/A"@
    }
}

/// What one well-formed secondary-feed record adds to the index: one entry
/// per present variant and difficulty, remaster only when present, in slot
/// order, duplicates overwriting (last write wins).
pub open spec fn index_after_record(m: Map<ChartKey, Seq<char>>, r: RawRecordView) -> Map<
    ChartKey,
    Seq<char>,
> {
    let m1 = if crate::catalog::std_present(r) {
        let mb = m.insert((r.title, ChartType::Std, Diff::Bas), r.std_bas->0).insert(
            (r.title, ChartType::Std, Diff::Adv),
            r.std_adv->0,
        ).insert((r.title, ChartType::Std, Diff::Exp), r.std_exp->0).insert(
            (r.title, ChartType::Std, Diff::Mas),
            r.std_mas->0,
        );
        match r.std_rem {
            Option::Some(v) => mb.insert((r.title, ChartType::Std, Diff::Rem), v),
            Option::None => mb,
        }
    } else {
        m
    };
    if crate::catalog::dx_present(r) {
        let mb = m1.insert((r.title, ChartType::Dx, Diff::Bas), r.dx_bas->0).insert(
            (r.title, ChartType::Dx, Diff::Adv),
            r.dx_adv->0,
        ).insert((r.title, ChartType::Dx, Diff::Exp), r.dx_exp->0).insert(
            (r.title, ChartType::Dx, Diff::Mas),
            r.dx_mas->0,
        );
        match r.dx_rem {
            Option::Some(v) => mb.insert((r.title, ChartType::Dx, Diff::Rem), v),
            Option::None => mb,
        }
    } else {
        m1
    }
}

/// What a whole secondary feed builds, record by record.
pub open spec fn index_after_records(m: Map<ChartKey, Seq<char>>, rs: Seq<RawRecordView>) -> Map<
    ChartKey,
    Seq<char>,
>
    decreases rs.len(),
{
    if rs.len() == 0 {
        m
    } else {
        index_after_record(index_after_records(m, rs.drop_last()), rs.last())
    }
}

/// The prior-rating index of one run, built once from the secondary feed.
#[derive(Debug)]
pub struct PrevLevelIndex {
    pub entries: Vec<PrevEntry>,
}

impl View for PrevLevelIndex {
    type V = Map<ChartKey, Seq<char>>;

    open spec fn view(&self) -> Map<ChartKey, Seq<char>> {
        index_map(entry_views(self.entries@))
    }
}

impl PrevLevelIndex {
    /// The entry list represents the mapping faithfully.
    pub open spec fn wf(self) -> bool {
        keys_unique(entry_views(self.entries@))
    }

    /// An index with nothing in it.
    pub fn new() -> (r: PrevLevelIndex)
        ensures
            r.wf(),
            r@ =~= Map::<ChartKey, Seq<char>>::empty(),
    {
        PrevLevelIndex { entries: Vec::new() }
    }

    /// Inserts one prior rating; an existing rating under the same key is
    /// overwritten (last write wins).
    pub fn insert(&mut self, title: &String, chart_type: ChartType, diff: Diff, level: &String)
        requires
            old(self).wf(),
        ensures
            final(self).wf(),
            final(self)@ == old(self)@.insert((title@, chart_type, diff), level@),
    {
        let ghost evs = entry_views(self.entries@);
        let ghost k = (title@, chart_type, diff);
        let n = self.entries.len();
        let mut i: usize = 0;
        while i < n
            invariant
                i <= n,
                n == self.entries@.len(),
                evs == entry_views(self.entries@),
                forall|j: int| 0 <= j < i ==> (#[trigger] evs[j]).key() != k,
            decreases n - i,
        {
            proof {
                assert(evs[i as int] == self.entries@[i as int]@);
            }
            let same = self.entries[i].title == *title && self.entries[i].chart_type
                == chart_type && self.entries[i].diff == diff;
            if same {
                proof {
                    assert(evs[i as int].key() == k);
                }
                let e = PrevEntry {
                    title: title.clone(),
                    chart_type,
                    diff,
                    level: level.clone(),
                };
                self.entries[i] = e;
                proof {
                    let evs2 = entry_views(self.entries@);
                    assert(evs2[i as int].key() == k && evs2[i as int].level == level@);
                    assert(forall|j: int| 0 <= j < n && j != i ==> evs2[j] == evs[j]);
                    assert(keys_unique(evs2));
                    assert(index_map(evs2) =~= index_map(evs).insert(k, level@)) by {
                        assert forall|k2: ChartKey|
                            index_map(evs2).dom().contains(k2)
                                == index_map(evs).insert(k, level@).dom().contains(k2) by {
                            if k2 == k {
                                assert(evs2[i as int].key() == k2);
                            } else {
                                if exists|a: int|
                                    0 <= a < evs2.len() && (#[trigger] evs2[a]).key() == k2 {
                                    let a = choose|a: int|
                                        0 <= a < evs2.len() && (#[trigger] evs2[a]).key() == k2;
                                    assert(evs[a].key() == k2);
                                }
                                if exists|a: int|
                                    0 <= a < evs.len() && (#[trigger] evs[a]).key() == k2 {
                                    let a = choose|a: int|
                                        0 <= a < evs.len() && (#[trigger] evs[a]).key() == k2;
                                    assert(evs2[a].key() == k2);
                                }
                            }
                        }
                        assert forall|k2: ChartKey|
                            index_map(evs2).dom().contains(k2) implies index_map(evs2)[k2]
                            == index_map(evs).insert(k, level@)[k2] by {
                            let a = choose|a: int|
                                0 <= a < evs2.len() && (#[trigger] evs2[a]).key() == k2;
                            if k2 == k {
                                assert(a == i);
                            } else {
                                assert(evs[a].key() == k2);
                                let b = choose|b: int|
                                    0 <= b < evs.len() && (#[trigger] evs[b]).key() == k2;
                                assert(evs2[b].key() == k2);
                                assert(b == a);
                            }
                        }
                    }
                }
                return ;
            }
            i = i + 1;
        }
        let e = PrevEntry { title: title.clone(), chart_type, diff, level: level.clone() };
        self.entries.push(e);
        proof {
            let evs2 = entry_views(self.entries@);
            assert(evs2.len() == evs.len() + 1);
            assert(forall|j: int| 0 <= j < evs.len() ==> evs2[j] == evs[j]);
            assert(evs2[evs.len() as int].key() == k && evs2[evs.len() as int].level == level@);
            assert(forall|j: int| 0 <= j < evs.len() ==> (#[trigger] evs[j]).key() != k);
            assert(keys_unique(evs2));
            assert(index_map(evs2) =~= index_map(evs).insert(k, level@)) by {
                assert forall|k2: ChartKey|
                    index_map(evs2).dom().contains(k2) == index_map(evs).insert(
                        k,
                        level@,
                    ).dom().contains(k2) by {
                    if k2 == k {
                        assert(evs2[evs.len() as int].key() == k2);
                    } else {
                        if exists|a: int| 0 <= a < evs2.len() && (#[trigger] evs2[a]).key()
                            == k2 {
                            let a = choose|a: int|
                                0 <= a < evs2.len() && (#[trigger] evs2[a]).key() == k2;
                            assert(a < evs.len());
                            assert(evs[a].key() == k2);
                        }
                        if exists|a: int| 0 <= a < evs.len() && (#[trigger] evs[a]).key() == k2 {
                            let a = choose|a: int|
                                0 <= a < evs.len() && (#[trigger] evs[a]).key() == k2;
                            assert(evs2[a].key() == k2);
                        }
                    }
                }
                assert forall|k2: ChartKey| index_map(evs2).dom().contains(k2) implies index_map(
                    evs2,
                )[k2] == index_map(evs).insert(k, level@)[k2] by {
                    let a = choose|a: int|
                        0 <= a < evs2.len() && (#[trigger] evs2[a]).key() == k2;
                    if k2 == k {
                        assert(a == evs.len());
                    } else {
                        assert(a < evs.len());
                        assert(evs[a].key() == k2);
                        let b = choose|b: int|
                            0 <= b < evs.len() && (#[trigger] evs[b]).key() == k2;
                        assert(evs2[b].key() == k2);
                        assert(b == a);
                    }
                }
            }
        }
    }

    /// Folds one secondary-feed record into the index. A present variant
    /// missing a mandatory slot is refused before anything is inserted.
    pub fn add_record(&mut self, r: &RawRecord) -> (result: Result<(), SourceFormatError>)
        requires
            old(self).wf(),
        ensures
            final(self).wf(),
            result is Ok <==> record_ok(r@),
            result is Ok ==> final(self)@ == index_after_record(old(self)@, r@),
            result is Err ==> final(self)@ == old(self)@ && result->Err_0.title@ == r@.title,
    {
        let std_here = r.std_bas.is_some();
        let dx_here = r.dx_bas.is_some();
        if std_here && (r.std_adv.is_none() || r.std_exp.is_none() || r.std_mas.is_none()) {
            return Result::Err(SourceFormatError { title: r.title.clone() });
        }
        if dx_here && (r.dx_adv.is_none() || r.dx_exp.is_none() || r.dx_mas.is_none()) {
            return Result::Err(SourceFormatError { title: r.title.clone() });
        }
        if std_here {
            match (&r.std_bas, &r.std_adv, &r.std_exp, &r.std_mas) {
                (Option::Some(bas), Option::Some(adv), Option::Some(exp), Option::Some(mas)) => {
                    self.insert(&r.title, ChartType::Std, Diff::Bas, bas);
                    self.insert(&r.title, ChartType::Std, Diff::Adv, adv);
                    self.insert(&r.title, ChartType::Std, Diff::Exp, exp);
                    self.insert(&r.title, ChartType::Std, Diff::Mas, mas);
                },
                _ => {
                    proof {
                        assert(false);
                    }
                },
            }
            match &r.std_rem {
                Option::Some(rem) => {
                    self.insert(&r.title, ChartType::Std, Diff::Rem, rem);
                },
                Option::None => {},
            }
        }
        if dx_here {
            match (&r.dx_bas, &r.dx_adv, &r.dx_exp, &r.dx_mas) {
                (Option::Some(bas), Option::Some(adv), Option::Some(exp), Option::Some(mas)) => {
                    self.insert(&r.title, ChartType::Dx, Diff::Bas, bas);
                    self.insert(&r.title, ChartType::Dx, Diff::Adv, adv);
                    self.insert(&r.title, ChartType::Dx, Diff::Exp, exp);
                    self.insert(&r.title, ChartType::Dx, Diff::Mas, mas);
                },
                _ => {
                    proof {
                        assert(false);
                    }
                },
            }
            match &r.dx_rem {
                Option::Some(rem) => {
                    self.insert(&r.title, ChartType::Dx, Diff::Rem, rem);
                },
                Option::None => {},
            }
        }
        Result::Ok(())
    }

    /// Builds the index from the whole secondary feed. Succeeds exactly when
    /// every record is well-formed; otherwise reports the first offending
    /// record.
    pub fn build(records: &Vec<RawRecord>) -> (result: Result<PrevLevelIndex, SourceFormatError>)
        ensures
            result is Ok <==> all_records_ok(record_views(records@)),
            result is Ok ==> result->Ok_0.wf() && result->Ok_0@ == index_after_records(
                Map::<ChartKey, Seq<char>>::empty(),
                record_views(records@),
            ),
            result is Err ==> exists|i: int|
                0 <= i < records@.len() && !record_ok(#[trigger] records@[i]@) && (forall|j: int|
                    0 <= j < i ==> record_ok(#[trigger] records@[j]@)) && result->Err_0.title@
                    == records@[i]@.title,
    {
        let ghost rvs = record_views(records@);
        let mut idx = PrevLevelIndex::new();
        let n = records.len();
        let mut i: usize = 0;
        while i < n
            invariant
                i <= n,
                n == records@.len(),
                rvs == record_views(records@),
                idx.wf(),
                forall|j: int| 0 <= j < i ==> record_ok(#[trigger] rvs[j]),
                idx@ == index_after_records(Map::<ChartKey, Seq<char>>::empty(), rvs.take(i as int)),
            decreases n - i,
        {
            proof {
                assert(rvs[i as int] == records@[i as int]@);
                assert(rvs.take(i + 1).drop_last() =~= rvs.take(i as int));
                assert(rvs.take(i + 1).last() == rvs[i as int]);
            }
            match idx.add_record(&records[i]) {
                Result::Ok(()) => {},
                Result::Err(e) => {
                    proof {
                        assert(!record_ok(records@[i as int]@));
                        assert forall|j: int| 0 <= j < i implies record_ok(
                            #[trigger] records@[j]@,
                        ) by {
                            assert(rvs[j] == records@[j]@);
                        }
                    }
                    return Result::Err(e);
                },
            }
            i = i + 1;
        }
        proof {
            assert(rvs.take(n as int) =~= rvs);
        }
        Result::Ok(idx)
    }

    /// Resolves one chart against the index: the prior rating on a hit, the
    /// sentinel `"N/A"` on a miss. Total: never fails, whatever the chart.
    pub fn resolve(&self, chart: &Chart) -> (r: String)
        requires
            self.wf(),
        ensures
            r@ == resolve_spec(self@, chart@.key()),
    {
        let ghost evs = entry_views(self.entries@);
        let ghost k = chart@.key();
        let n = self.entries.len();
        let mut i: usize = 0;
        while i < n
            invariant
                i <= n,
                n == self.entries@.len(),
                evs == entry_views(self.entries@),
                forall|j: int| 0 <= j < i ==> (#[trigger] evs[j]).key() != k,
            decreases n - i,
        {
            proof {
                assert(evs[i as int] == self.entries@[i as int]@);
            }
            let same = self.entries[i].title == chart.song.title && self.entries[i].chart_type
                == chart.song.chart_type && self.entries[i].diff == chart.diff;
            if same {
                proof {
                    assert(evs[i as int].key() == k);
                    assert(self@.dom().contains(k));
                    let a = choose|a: int| 0 <= a < evs.len() && (#[trigger] evs[a]).key() == k;
                    assert(a == i);
                }
                return self.entries[i].level.clone();
            }
            i = i + 1;
        }
        proof {
            assert(!self@.dom().contains(k));
        }
        "N/A".to_owned()
    }
}

/// A chart paired with the prior rating it resolved to.
#[derive(Debug)]
pub struct ResolvedChart {
    pub chart: Chart,
    pub prev_level: String,
}

/// Mathematical image of a `ResolvedChart`.
#[verifier::ext_equal]
pub ghost struct ResolvedChartView {
    pub chart: ChartView,
    pub prev_level: Seq<char>,
}

impl View for ResolvedChart {
    type V = ResolvedChartView;

    open spec fn view(&self) -> ResolvedChartView {
        ResolvedChartView { chart: self.chart@, prev_level: self.prev_level@ }
    }
}

impl ResolvedChart {
    /// A copy whose mathematical image is the same.
    pub fn duplicate(&self) -> (r: ResolvedChart)
        ensures
            r@ == self@,
    {
        ResolvedChart { chart: self.chart.duplicate(), prev_level: self.prev_level.clone() }
    }
}

/// What a whole bucket resolves to, chart by chart.
pub open spec fn resolved_of(m: Map<ChartKey, Seq<char>>, charts: Seq<ChartView>) -> Seq<
    ResolvedChartView,
> {
    charts.map_values(
        |c: ChartView| ResolvedChartView { chart: c, prev_level: resolve_spec(m, c.key()) },
    )
}

impl PrevLevelIndex {
    /// Resolves every chart of a bucket, in order. Total: one resolved
    /// chart per chart, whatever the index holds.
    pub fn resolve_all(&self, charts: &Vec<Chart>) -> (r: Vec<ResolvedChart>)
        requires
            self.wf(),
        ensures
            r@.map_values(|c: ResolvedChart| c@) == resolved_of(
                self@,
                charts@.map_values(|c: Chart| c@),
            ),
    {
        let ghost cvs = charts@.map_values(|c: Chart| c@);
        let mut out: Vec<ResolvedChart> = Vec::new();
        let n = charts.len();
        let mut i: usize = 0;
        while i < n
            invariant
                i <= n,
                n == charts@.len(),
                cvs == charts@.map_values(|c: Chart| c@),
                out@.len() == i,
                forall|j: int|
                    0 <= j < i ==> (#[trigger] out@[j]@) == resolved_of(self@, cvs)[j],
            decreases n - i,
        {
            let prev_level = self.resolve(&charts[i]);
            let rc = ResolvedChart { chart: charts[i].duplicate(), prev_level };
            out.push(rc);
            proof {
                assert(cvs[i as int] == charts@[i as int]@);
                assert(out@[i as int]@ == resolved_of(self@, cvs)[i as int]);
            }
            i = i + 1;
        }
        proof {
            assert(out@.map_values(|c: ResolvedChart| c@) =~= resolved_of(self@, cvs));
        }
        out
    }
}

/// Against an empty index every chart resolves to the sentinel `"N/A"`:
/// a total miss is the expected case, never a failure.
pub proof fn lemma_resolve_empty(k: ChartKey)
    ensures
        resolve_spec(Map::<ChartKey, Seq<char>>::empty(), k) == "N/A"@,
{
}

} // verus!
