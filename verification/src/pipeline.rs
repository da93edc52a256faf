//! The whole run, end to end: build the catalog from the primary feed,
//! build the prior-rating index from the secondary feed, drop deleted
//! songs, bucket every surviving chart, resolve each bucket against the
//! index, sort it into the canonical order and format its output lines.
//! All inputs are loaded once and passed in; nothing persists across runs.

use vstd::prelude::*;
use crate::bucket::{bucket_songs_rec, dedup_first, BucketView, Buckets};
use crate::catalog::{all_records_ok, build_catalog, catalog_of, record_views, song_views};
use crate::deletion::DeletionSet;
use crate::emit::{format_lines, line_of};
use crate::model::{PipelineError, RawRecord};
use crate::normalize::ReplacementTable;
use crate::order::{sort_charts, sorted_charts, resolved_views, OrderingTable};
use crate::prev::{resolved_of, ChartKey, PrevLevelIndex, ResolvedChartView};

verus! {

/// A collection of empty buckets, one per name, in order.
pub open spec fn buckets_of_names(names: Seq<Seq<char>>) -> Seq<BucketView> {
    Seq::new(names.len(), |i: int| BucketView { name: names[i], charts: Seq::empty() })
}

/// Is `lines` the output of one bucket: its resolved charts, sorted into
/// the canonical order, formatted line by line? Chart identities in a
/// bucket are unique, so the strict total order pins the line order down.
pub open spec fn bucket_lines_ok(
    t: Seq<Seq<char>>,
    m: Map<ChartKey, Seq<char>>,
    b: BucketView,
    lines: Seq<Seq<char>>,
) -> bool {
    exists|perm: Seq<ResolvedChartView>|
        {
            &&& #[trigger] perm.to_multiset() == resolved_of(m, b.charts).to_multiset()
            &&& sorted_charts(t, perm)
            &&& lines == perm.map_values(|rc: ResolvedChartView| line_of(rc))
        }
}

/// Runs the whole pipeline over inputs loaded once by the caller. Returns
/// one `(bucket name, output lines)` pair per tracked bucket, in bucket
/// order, or the error that aborted the run: a malformed record in either
/// feed, or inconsistent upstream chart data.
pub fn run_pipeline(
    records: &Vec<RawRecord>,
    prev_records: &Vec<RawRecord>,
    deletion: &DeletionSet,
    ordering: &OrderingTable,
    replacements: &ReplacementTable,
    bucket_names: &Vec<String>,
) -> (result: Result<Vec<(String, Vec<String>)>, PipelineError>)
    ensures
        result is Ok <==> all_records_ok(record_views(records@)) && all_records_ok(
            record_views(prev_records@),
        ) && bucket_songs_rec(
            buckets_of_names(dedup_first(bucket_names@.map_values(|s: String| s@))),
            catalog_of(replacements@, record_views(records@)),
            deletion@,
        ) is Ok,
        result is Ok ==> ({
            let bs = bucket_songs_rec(
                buckets_of_names(dedup_first(bucket_names@.map_values(|s: String| s@))),
                catalog_of(replacements@, record_views(records@)),
                deletion@,
            )->Ok_0;
            let m = crate::prev::index_after_records(
                Map::<ChartKey, Seq<char>>::empty(),
                record_views(prev_records@),
            );
            &&& result->Ok_0@.len() == bs.len()
            &&& forall|i: int|
                0 <= i < bs.len() ==> (#[trigger] result->Ok_0@[i]).0@ == bs[i].name
                    && bucket_lines_ok(
                    ordering@,
                    m,
                    bs[i],
                    result->Ok_0@[i].1@.map_values(|l: String| l@),
                )
        }),
        result matches Result::Err(PipelineError::SourceFormat(_)) ==> !all_records_ok(
            record_views(records@),
        ) || !all_records_ok(record_views(prev_records@)),
        result matches Result::Err(PipelineError::Inconsistency(_)) ==> bucket_songs_rec(
            buckets_of_names(dedup_first(bucket_names@.map_values(|s: String| s@))),
            catalog_of(replacements@, record_views(records@)),
            deletion@,
        ) is Err,
{
    let ghost names = bucket_names@.map_values(|s: String| s@);
    let ghost bs0 = buckets_of_names(dedup_first(names));
    let songs = match build_catalog(replacements, records) {
        Result::Ok(s) => s,
        Result::Err(e) => {
            return Result::Err(PipelineError::SourceFormat(e));
        },
    };
    let index = match PrevLevelIndex::build(prev_records) {
        Result::Ok(ix) => ix,
        Result::Err(e) => {
            return Result::Err(PipelineError::SourceFormat(e));
        },
    };
    let mut buckets = Buckets::new(bucket_names);
    proof {
        assert(buckets@ =~~= bs0) by {
            assert(buckets@.len() == bs0.len());
            assert forall|i: int| 0 <= i < bs0.len() implies buckets@[i] =~~= bs0[i] by {
                assert(buckets@[i].name == crate::bucket::names_of(buckets@)[i]);
                assert(buckets@[i].charts.len() == 0);
            }
        }
    }
    match buckets.bucket_songs(&songs, deletion) {
        Result::Ok(()) => {},
        Result::Err(e) => {
            proof {
                assert(song_views(songs@) =~= catalog_of(replacements@, record_views(records@)));
                assert(bucket_songs_rec(bs0, song_views(songs@), deletion@) is Err);
            }
            return Result::Err(PipelineError::Inconsistency(e));
        },
    }
    let ghost bs = buckets@;
    proof {
        assert(song_views(songs@) =~= catalog_of(replacements@, record_views(records@)));
        assert(bs == bucket_songs_rec(
            bs0,
            catalog_of(replacements@, record_views(records@)),
            deletion@,
        )->Ok_0);
    }
    let mut out: Vec<(String, Vec<String>)> = Vec::new();
    let n = buckets.buckets.len();
    let mut b: usize = 0;
    while b < n
        invariant
            b <= n,
            n == buckets.buckets@.len(),
            bs == buckets@,
            index.wf(),
            out@.len() == b,
            forall|i: int|
                0 <= i < b ==> (#[trigger] out@[i]).0@ == bs[i].name && bucket_lines_ok(
                    ordering@,
                    index@,
                    bs[i],
                    out@[i].1@.map_values(|l: String| l@),
                ),
        decreases n - b,
    {
        proof {
            assert(bs[b as int] == buckets.buckets@[b as int]@);
        }
        let resolved = index.resolve_all(&buckets.buckets[b].charts);
        let sorted = sort_charts(ordering, &resolved);
        let lines = format_lines(&sorted);
        let name = buckets.buckets[b].name.clone();
        out.push((name, lines));
        proof {
            let perm = resolved_views(sorted@);
            assert(resolved_views(resolved@) == resolved_of(index@, bs[b as int].charts));
            assert(perm.to_multiset() == resolved_of(index@, bs[b as int].charts).to_multiset());
            assert(lines@.map_values(|l: String| l@) == perm.map_values(
                |rc: ResolvedChartView| line_of(rc),
            ));
            assert(bucket_lines_ok(
                ordering@,
                index@,
                bs[b as int],
                out@[b as int].1@.map_values(|l: String| l@),
            ));
        }
        b = b + 1;
    }
    Result::Ok(out)
}

} // verus!
