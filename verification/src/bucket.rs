//! The level bucketer: scans each surviving song's rating slots and places a
//! chart into the bucket whose name equals the slot's rating string. Buckets
//! deduplicate by chart identity; a duplicate identity with a different
//! jacket reference signals inconsistent upstream data and aborts the run.

use vstd::prelude::*;
use crate::deletion::DeletionSet;
use crate::model::{Chart, ChartType, ChartView, Diff, InconsistencyError, Song, SongView};

verus! {

/// The mathematical images of a sequence of charts.
pub open spec fn chart_views(s: Seq<Chart>) -> Seq<ChartView> {
    s.map_values(|c: Chart| c@)
}

/// One rating bucket: its displayed-rating name and its charts in insertion
/// order.
#[derive(Debug)]
pub struct Bucket {
    pub name: String,
    pub charts: Vec<Chart>,
}

/// Mathematical image of a `Bucket`.
#[verifier::ext_equal]
pub ghost struct BucketView {
    pub name: Seq<char>,
    pub charts: Seq<ChartView>,
}

impl View for Bucket {
    type V = BucketView;

    open spec fn view(&self) -> BucketView {
        BucketView { name: self.name@, charts: chart_views(self.charts@) }
    }
}

/// The chart a song yields for one difficulty slot.
pub open spec fn chart_of(song: SongView, d: Diff) -> ChartView {
    ChartView { diff: d, song }
}

/// No two charts of the sequence share an identity key.
pub open spec fn charts_unique(s: Seq<ChartView>) -> bool {
    forall|i: int, j: int| 0 <= i < j < s.len() ==> (#[trigger] s[i]).key() != (#[trigger] s[j]).key()
}

/// Does some chart of the sequence carry this identity key?
pub open spec fn has_key(s: Seq<ChartView>, k: (Seq<char>, ChartType, Diff)) -> bool {
    exists|i: int| 0 <= i < s.len() && (#[trigger] s[i]).key() == k
}

/// Insertion with deduplication: a chart whose identity key is already held
/// leaves the bucket exactly as it was.
pub open spec fn bucket_insert(s: Seq<ChartView>, c: ChartView) -> Seq<ChartView> {
    if has_key(s, c.key()) {
        s
    } else {
        s.push(c)
    }
}

/// A chart whose identity key is already held under a different jacket
/// reference: inconsistent upstream data.
pub open spec fn insert_conflict(s: Seq<ChartView>, c: ChartView) -> bool {
    exists|i: int|
        0 <= i < s.len() && (#[trigger] s[i]).key() == c.key() && s[i].song.jacket
            != c.song.jacket
}

impl Bucket {
    /// Inserts one chart, deduplicating by identity key. Re-inserting a held
    /// identity is a no-op; a held identity under a different jacket
    /// reference is refused.
    pub fn insert(&mut self, c: &Chart) -> (result: Result<(), InconsistencyError>)
        requires
            charts_unique(old(self)@.charts),
        ensures
            charts_unique(final(self)@.charts),
            final(self)@.name == old(self)@.name,
            result is Ok <==> !insert_conflict(old(self)@.charts, c@),
            result is Ok ==> final(self)@.charts == bucket_insert(old(self)@.charts, c@),
            result is Err ==> final(self)@ == old(self)@ && result->Err_0.title@
                == c@.song.title,
    {
        let ghost cs = chart_views(self.charts@);
        let n = self.charts.len();
        let mut i: usize = 0;
        while i < n
            invariant
                i <= n,
                n == self.charts@.len(),
                cs == chart_views(self.charts@),
                forall|j: int| 0 <= j < i ==> (#[trigger] cs[j]).key() != c@.key(),
            decreases n - i,
        {
            let same_key = self.charts[i].song.title == c.song.title
                && self.charts[i].song.chart_type == c.song.chart_type
                && self.charts[i].diff == c.diff;
            proof {
                assert(cs[i as int] == self.charts@[i as int]@);
            }
            if same_key {
                if self.charts[i].song.jacket == c.song.jacket {
                    proof {
                        assert(has_key(cs, c@.key()));
                        assert(!insert_conflict(cs, c@)) by {
                            assert(forall|j: int|
                                0 <= j < cs.len() && (#[trigger] cs[j]).key() == c@.key() ==> j
                                    == i as int);
                        }
                        assert(bucket_insert(cs, c@) == cs);
                    }
                    return Result::Ok(());
                } else {
                    proof {
                        assert(insert_conflict(cs, c@));
                    }
                    return Result::Err(InconsistencyError { title: c.song.title.clone() });
                }
            }
            i = i + 1;
        }
        proof {
            assert(!has_key(cs, c@.key()));
            assert(!insert_conflict(cs, c@));
        }
        self.charts.push(c.duplicate());
        proof {
            assert(chart_views(self.charts@) =~= cs.push(c@));
            assert(charts_unique(cs.push(c@)));
        }
        Result::Ok(())
    }
}

/// The mathematical images of a collection of buckets.
pub open spec fn bucket_views(bs: Seq<Bucket>) -> Seq<BucketView> {
    bs.map_values(|b: Bucket| b@)
}

/// The names of the buckets, in order.
pub open spec fn names_of(bs: Seq<BucketView>) -> Seq<Seq<char>> {
    bs.map_values(|b: BucketView| b.name)
}

/// Well-formed bucket collection: names pairwise distinct, every bucket's
/// charts unique by identity key.
pub open spec fn buckets_wf(bs: Seq<BucketView>) -> bool {
    (forall|i: int, j: int|
        0 <= i < j < bs.len() ==> (#[trigger] bs[i]).name != (#[trigger] bs[j]).name)
        && (forall|i: int| 0 <= i < bs.len() ==> charts_unique((#[trigger] bs[i]).charts))
}

/// A name sequence with later duplicates dropped: each name kept at its
/// first occurrence only.
pub open spec fn dedup_first(s: Seq<Seq<char>>) -> Seq<Seq<char>>
    decreases s.len(),
{
    if s.len() == 0 {
        Seq::empty()
    } else {
        let d = dedup_first(s.drop_last());
        if d.contains(s.last()) {
            d
        } else {
            d.push(s.last())
        }
    }
}

/// What one rating slot does to the collection: every bucket whose name
/// equals the slot's rating string takes the song's chart for that slot
/// (with deduplication); every other bucket is untouched.
pub open spec fn slot_insert(bs: Seq<BucketView>, song: SongView, slot: (Diff, Seq<char>))
    -> Seq<BucketView> {
    Seq::new(
        bs.len(),
        |i: int|
            if bs[i].name == slot.1 {
                BucketView {
                    name: bs[i].name,
                    charts: bucket_insert(bs[i].charts, chart_of(song, slot.0)),
                }
            } else {
                bs[i]
            },
    )
}

/// Does this slot's insertion hit an inconsistency somewhere?
pub open spec fn slot_conflict(bs: Seq<BucketView>, song: SongView, slot: (Diff, Seq<char>))
    -> bool {
    exists|i: int|
        0 <= i < bs.len() && (#[trigger] bs[i]).name == slot.1 && insert_conflict(
            bs[i].charts,
            chart_of(song, slot.0),
        )
}

/// The rating slots one song offers for bucketing, in difficulty order:
/// the four mandatory slots, then the remaster slot when present.
pub open spec fn song_slots(s: SongView) -> Seq<(Diff, Seq<char>)> {
    let base = seq![
        (Diff::Bas, s.level.bas),
        (Diff::Adv, s.level.adv),
        (Diff::Exp, s.level.exp),
        (Diff::Mas, s.level.mas),
    ];
    match s.level.rem {
        Option::Some(r) => base.push((Diff::Rem, r)),
        Option::None => base,
    }
}

/// What one song does to the collection: its slots are applied in order;
/// the first inconsistency aborts.
pub open spec fn song_insert_rec(
    bs: Seq<BucketView>,
    song: SongView,
    slots: Seq<(Diff, Seq<char>)>,
) -> Result<Seq<BucketView>, ()>
    decreases slots.len(),
{
    if slots.len() == 0 {
        Result::Ok(bs)
    } else if slot_conflict(bs, song, slots[0]) {
        Result::Err(())
    } else {
        song_insert_rec(slot_insert(bs, song, slots[0]), song, slots.drop_first())
    }
}

/// What one song does to the collection, over all its slots.
pub open spec fn song_insert(bs: Seq<BucketView>, song: SongView) -> Result<Seq<BucketView>, ()> {
    song_insert_rec(bs, song, song_slots(song))
}

/// What a whole catalog does to the collection: songs are taken in order,
/// songs on the deletion set are skipped entirely, the first inconsistency
/// aborts.
pub open spec fn bucket_songs_rec(
    bs: Seq<BucketView>,
    songs: Seq<SongView>,
    del: Set<Seq<char>>,
) -> Result<Seq<BucketView>, ()>
    decreases songs.len(),
{
    if songs.len() == 0 {
        Result::Ok(bs)
    } else if del.contains(songs[0].title) {
        bucket_songs_rec(bs, songs.drop_first(), del)
    } else {
        match song_insert(bs, songs[0]) {
            Result::Ok(bs2) => bucket_songs_rec(bs2, songs.drop_first(), del),
            Result::Err(e) => Result::Err(e),
        }
    }
}

/// The tracked rating buckets of one run.
#[derive(Debug)]
pub struct Buckets {
    pub buckets: Vec<Bucket>,
}

impl View for Buckets {
    type V = Seq<BucketView>;

    open spec fn view(&self) -> Seq<BucketView> {
        bucket_views(self.buckets@)
    }
}

impl Buckets {
    /// Builds the collection of empty buckets from the tracked rating names,
    /// keeping each name at its first occurrence only.
    pub fn new(names: &Vec<String>) -> (r: Buckets)
        ensures
            buckets_wf(r@),
            names_of(r@) == dedup_first(names@.map_values(|s: String| s@)),
            forall|i: int| 0 <= i < r@.len() ==> (#[trigger] r@[i]).charts.len() == 0,
    {
        let ghost nvs = names@.map_values(|s: String| s@);
        let mut out: Vec<Bucket> = Vec::new();
        let n = names.len();
        let mut i: usize = 0;
        proof {
            assert(nvs.take(0) =~= Seq::<Seq<char>>::empty());
            assert(names_of(bucket_views(out@)) =~= dedup_first(nvs.take(0)));
        }
        while i < n
            invariant
                i <= n,
                n == names@.len(),
                nvs == names@.map_values(|s: String| s@),
                buckets_wf(bucket_views(out@)),
                names_of(bucket_views(out@)) =~= dedup_first(nvs.take(i as int)),
                forall|k: int|
                    0 <= k < out@.len() ==> (#[trigger] bucket_views(out@)[k]).charts.len() == 0,
            decreases n - i,
        {
            let ghost prev = bucket_views(out@);
            let mut found = false;
            let m = out.len();
            let mut j: usize = 0;
            while j < m
                invariant
                    j <= m,
                    m == out@.len(),
                    prev == bucket_views(out@),
                    i < n,
                    n == names@.len(),
                    nvs == names@.map_values(|s: String| s@),
                    found ==> names_of(prev).contains(nvs[i as int]),
                    !found ==> forall|k: int| 0 <= k < j ==> names_of(prev)[k] != nvs[i as int],
                decreases m - j,
            {
                if out[j].name == names[i] {
                    proof {
                        assert(names_of(prev)[j as int] == nvs[i as int]);
                    }
                    found = true;
                }
                j = j + 1;
            }
            proof {
                assert(nvs.take(i + 1).drop_last() =~= nvs.take(i as int));
                assert(nvs.take(i + 1).last() == nvs[i as int]);
            }
            if !found {
                proof {
                    let nm = nvs[i as int];
                    assert(!names_of(prev).contains(nm)) by {
                        assert(forall|k: int|
                            0 <= k < names_of(prev).len() ==> names_of(prev)[k] != nm);
                    }
                }
                out.push(Bucket { name: names[i].clone(), charts: Vec::new() });
                proof {
                    let bv = bucket_views(out@);
                    let last = prev.len() as int;
                    assert(bv.len() == prev.len() + 1);
                    assert(forall|k: int| 0 <= k < prev.len() ==> bv[k] == prev[k]);
                    assert(bv[last].name == nvs[i as int]);
                    assert(bv[last].charts =~= Seq::<ChartView>::empty());
                    assert(buckets_wf(bv)) by {
                        assert forall|a: int, b: int| 0 <= a < b < bv.len() implies (
                        #[trigger] bv[a]).name != (#[trigger] bv[b]).name by {
                            if b == last {
                                assert(names_of(prev)[a] == prev[a].name);
                            }
                        }
                        assert forall|a: int| 0 <= a < bv.len() implies charts_unique(
                            (#[trigger] bv[a]).charts,
                        ) by {
                            if a < last {
                                assert(bv[a] == prev[a]);
                            }
                        }
                    }
                    assert(names_of(bv) =~= names_of(prev).push(nvs[i as int]));
                    assert(names_of(bv) =~= dedup_first(nvs.take(i + 1)));
                }
            } else {
                proof {
                    assert(names_of(bucket_views(out@)) =~= dedup_first(nvs.take(i + 1)));
                }
            }
            i = i + 1;
        }
        proof {
            assert(nvs.take(n as int) =~= nvs);
        }
        Buckets { buckets: out }
    }

    /// Applies one rating slot of a song to every bucket: the bucket whose
    /// name equals the slot's rating string takes the chart.
    fn apply_slot(&mut self, song: &Song, d: Diff, rating: &String) -> (result: Result<
        (),
        InconsistencyError,
    >)
        requires
            buckets_wf(old(self)@),
        ensures
            result is Ok <==> !slot_conflict(old(self)@, song@, (d, rating@)),
            result is Ok ==> buckets_wf(final(self)@) && final(self)@ == slot_insert(
                old(self)@,
                song@,
                (d, rating@),
            ) && names_of(final(self)@) == names_of(old(self)@),
            result is Err ==> result->Err_0.title@ == song@.title,
    {
        let ghost prev = self@;
        let ghost slot = (d, rating@);
        let chart = Chart { diff: d, song: song.duplicate() };
        proof {
            assert(chart@ == chart_of(song@, d));
        }
        let n = self.buckets.len();
        let mut i: usize = 0;
        while i < n
            invariant
                i <= n,
                n == self.buckets@.len(),
                self@.len() == prev.len(),
                buckets_wf(prev),
                chart@ == chart_of(song@, slot.0),
                slot == (d, rating@),
                chart@.song.title == song@.title,
                forall|j: int| 0 <= j < i ==> self@[j] == slot_insert(prev, song@, slot)[j],
                forall|j: int| i <= j < n ==> self@[j] == prev[j],
                forall|j: int|
                    0 <= j < i && (#[trigger] prev[j]).name == slot.1 ==> !insert_conflict(
                        prev[j].charts,
                        chart_of(song@, slot.0),
                    ),
                forall|j: int| 0 <= j < n ==> (#[trigger] self@[j]).name == prev[j].name,
                forall|j: int| 0 <= j < n ==> charts_unique((#[trigger] self@[j]).charts),
            decreases n - i,
        {
            let ghost cur = self@;
            proof {
                assert(cur[i as int] == self.buckets@[i as int]@);
                assert(cur[i as int] == prev[i as int]);
            }
            if self.buckets[i].name == *rating {
                proof {
                    assert(prev[i as int].name == slot.1);
                    assert(charts_unique(cur[i as int].charts));
                }
                let r = self.buckets[i].insert(&chart);
                proof {
                    assert(self@[i as int] == self.buckets@[i as int]@);
                    assert(forall|j: int|
                        0 <= j < n && j != i ==> (#[trigger] self@[j]) == cur[j]);
                }
                match r {
                    Result::Ok(()) => {
                        proof {
                            assert(self@[i as int].charts == bucket_insert(
                                prev[i as int].charts,
                                chart_of(song@, slot.0),
                            ));
                            assert(self@[i as int].name == prev[i as int].name);
                            assert(self@[i as int] == slot_insert(prev, song@, slot)[i as int]);
                        }
                    },
                    Result::Err(e) => {
                        proof {
                            assert(insert_conflict(prev[i as int].charts, chart_of(song@, slot.0)));
                            assert(slot_conflict(prev, song@, slot));
                        }
                        return Result::Err(e);
                    },
                }
            } else {
                proof {
                    assert(prev[i as int].name != slot.1);
                    assert(self@[i as int] == slot_insert(prev, song@, slot)[i as int]);
                }
            }
            i = i + 1;
        }
        proof {
            assert(self@ =~= slot_insert(prev, song@, slot));
            assert(!slot_conflict(prev, song@, slot));
            assert(names_of(self@) =~= names_of(prev));
        }
        Result::Ok(())
    }

    /// Places every matching rating slot of one song, in difficulty order.
    pub fn insert_song(&mut self, song: &Song) -> (result: Result<(), InconsistencyError>)
        requires
            buckets_wf(old(self)@),
        ensures
            result is Ok <==> song_insert(old(self)@, song@) is Ok,
            result is Ok ==> buckets_wf(final(self)@) && final(self)@ == song_insert(
                old(self)@,
                song@,
            )->Ok_0 && names_of(final(self)@) == names_of(old(self)@),
            result is Err ==> result->Err_0.title@ == song@.title,
    {
        let ghost s_init = self@;
        let ghost slots = song_slots(song@);
        proof {
            assert(slots.skip(0) =~= slots);
        }
        proof {
            assert(slots.skip(0)[0] == (Diff::Bas, song@.level.bas));
            assert(slots.skip(0).drop_first() =~= slots.skip(1));
        }
        match self.apply_slot(song, Diff::Bas, &song.level.bas) {
            Result::Err(e) => {
                return Result::Err(e);
            },
            Result::Ok(()) => {},
        }
        proof {
            assert(song_insert_rec(s_init, song@, slots) == song_insert_rec(
                self@,
                song@,
                slots.skip(1),
            ));
            assert(slots.skip(1)[0] == (Diff::Adv, song@.level.adv));
            assert(slots.skip(1).drop_first() =~= slots.skip(2));
        }
        let ghost s1 = self@;
        match self.apply_slot(song, Diff::Adv, &song.level.adv) {
            Result::Err(e) => {
                proof {
                    assert(song_insert_rec(s1, song@, slots.skip(1)) is Err);
                }
                return Result::Err(e);
            },
            Result::Ok(()) => {},
        }
        proof {
            assert(song_insert_rec(s_init, song@, slots) == song_insert_rec(
                self@,
                song@,
                slots.skip(2),
            ));
            assert(slots.skip(2)[0] == (Diff::Exp, song@.level.exp));
            assert(slots.skip(2).drop_first() =~= slots.skip(3));
        }
        let ghost s2 = self@;
        match self.apply_slot(song, Diff::Exp, &song.level.exp) {
            Result::Err(e) => {
                proof {
                    assert(song_insert_rec(s2, song@, slots.skip(2)) is Err);
                }
                return Result::Err(e);
            },
            Result::Ok(()) => {},
        }
        proof {
            assert(song_insert_rec(s_init, song@, slots) == song_insert_rec(
                self@,
                song@,
                slots.skip(3),
            ));
            assert(slots.skip(3)[0] == (Diff::Mas, song@.level.mas));
            assert(slots.skip(3).drop_first() =~= slots.skip(4));
        }
        let ghost s3 = self@;
        match self.apply_slot(song, Diff::Mas, &song.level.mas) {
            Result::Err(e) => {
                proof {
                    assert(song_insert_rec(s3, song@, slots.skip(3)) is Err);
                }
                return Result::Err(e);
            },
            Result::Ok(()) => {},
        }
        proof {
            assert(song_insert_rec(s_init, song@, slots) == song_insert_rec(
                self@,
                song@,
                slots.skip(4),
            ));
        }
        let ghost s4 = self@;
        match &song.level.rem {
            Option::Some(rem) => {
                proof {
                    assert(slots.len() == 5);
                    assert(slots.skip(4)[0] == (Diff::Rem, song@.level.rem->0));
                    assert(slots.skip(4).drop_first() =~= slots.skip(5));
                    assert(rem@ == song@.level.rem->0);
                }
                match self.apply_slot(song, Diff::Rem, rem) {
                    Result::Err(e) => {
                        proof {
                            assert(song_insert_rec(s4, song@, slots.skip(4)) is Err);
                        }
                        return Result::Err(e);
                    },
                    Result::Ok(()) => {},
                }
                proof {
                    assert(!slot_conflict(s4, song@, slots.skip(4)[0]));
                    assert(self@ == slot_insert(s4, song@, slots.skip(4)[0]));
                    assert(song_insert_rec(s4, song@, slots.skip(4)) == song_insert_rec(
                        self@,
                        song@,
                        slots.skip(4).drop_first(),
                    ));
                    assert(slots.skip(4).drop_first() =~= slots.skip(5));
                    assert(slots.skip(5).len() == 0);
                    assert(song_insert_rec(s_init, song@, slots) == Result::<
                        Seq<BucketView>,
                        (),
                    >::Ok(self@));
                }
            },
            Option::None => {
                proof {
                    assert(slots.len() == 4);
                    assert(slots.skip(4) =~= Seq::<(Diff, Seq<char>)>::empty());
                    assert(song_insert_rec(s_init, song@, slots) == Result::<
                        Seq<BucketView>,
                        (),
                    >::Ok(self@));
                }
            },
        }
        Result::Ok(())
    }

    /// Buckets a whole catalog: songs on the deletion set are skipped
    /// entirely, every other song's matching slots are placed in order.
    pub fn bucket_songs(&mut self, songs: &Vec<Song>, del: &DeletionSet) -> (result: Result<
        (),
        InconsistencyError,
    >)
        requires
            buckets_wf(old(self)@),
        ensures
            result is Ok <==> bucket_songs_rec(
                old(self)@,
                crate::catalog::song_views(songs@),
                del@,
            ) is Ok,
            result is Ok ==> buckets_wf(final(self)@) && final(self)@ == bucket_songs_rec(
                old(self)@,
                crate::catalog::song_views(songs@),
                del@,
            )->Ok_0 && names_of(final(self)@) == names_of(old(self)@),
            result is Err ==> exists|i: int|
                0 <= i < songs@.len() && result->Err_0.title@ == songs@[i]@.title,
    {
        let ghost s_init = self@;
        let ghost svs = crate::catalog::song_views(songs@);
        let n = songs.len();
        let mut i: usize = 0;
        proof {
            assert(svs.skip(0) =~= svs);
        }
        while i < n
            invariant
                i <= n,
                n == songs@.len(),
                svs == crate::catalog::song_views(songs@),
                buckets_wf(self@),
                names_of(self@) == names_of(s_init),
                bucket_songs_rec(s_init, svs, del@) == bucket_songs_rec(
                    self@,
                    svs.skip(i as int),
                    del@,
                ),
            decreases n - i,
        {
            proof {
                assert(svs.skip(i as int)[0] == svs[i as int]);
                assert(svs[i as int] == songs@[i as int]@);
                assert(svs.skip(i as int).drop_first() =~= svs.skip(i + 1));
            }
            if !del.contains(&songs[i].title) {
                let ghost before = self@;
                match self.insert_song(&songs[i]) {
                    Result::Err(e) => {
                        proof {
                            assert(song_insert(before, svs[i as int]) is Err);
                            assert(bucket_songs_rec(before, svs.skip(i as int), del@) is Err);
                        }
                        return Result::Err(e);
                    },
                    Result::Ok(()) => {},
                }
            }
            i = i + 1;
        }
        proof {
            assert(svs.skip(n as int) =~= Seq::<SongView>::empty());
        }
        Result::Ok(())
    }
}

/// The fixed rating names this tool tracks, one output bucket each.
pub fn standard_bucket_names() -> (r: Vec<String>)
    ensures
        r@.map_values(|s: String| s@) =~= seq![
            "12+"@,
            "13"@,
            "13+"@,
            "14"@,
            "14+"@,
            "15"@,
        ],
{
    let mut names: Vec<String> = Vec::new();
    names.push("12+".to_owned());
    names.push("13".to_owned());
    names.push("13+".to_owned());
    names.push("14".to_owned());
    names.push("14+".to_owned());
    names.push("15".to_owned());
    names
}

/// No chart anywhere in the collection carries this title.
pub open spec fn title_absent(bs: Seq<BucketView>, t: Seq<char>) -> bool {
    forall|i: int, j: int|
        0 <= i < bs.len() && 0 <= j < bs[i].charts.len()
            ==> (#[trigger] bs[i].charts[j]).song.title != t
}

/// One slot of a song with a different title cannot introduce the title.
proof fn lemma_slot_insert_title(
    bs: Seq<BucketView>,
    song: SongView,
    slot: (Diff, Seq<char>),
    t: Seq<char>,
)
    requires
        song.title != t,
        title_absent(bs, t),
    ensures
        title_absent(slot_insert(bs, song, slot), t),
{
    let out = slot_insert(bs, song, slot);
    assert forall|i: int, j: int|
        0 <= i < out.len() && 0 <= j < out[i].charts.len() implies (#[trigger] out[i].charts[
        j]).song.title != t by {
        if bs[i].name == slot.1 && !has_key(bs[i].charts, chart_of(song, slot.0).key()) {
            assert(out[i].charts == bs[i].charts.push(chart_of(song, slot.0)));
            if j < bs[i].charts.len() {
                assert(out[i].charts[j] == bs[i].charts[j]);
            } else {
                assert(out[i].charts[j] == chart_of(song, slot.0));
            }
        } else {
            assert(out[i].charts == bs[i].charts);
        }
    }
}

/// A song with a different title cannot introduce the title, whatever slots
/// it offers.
proof fn lemma_song_insert_rec_title(
    bs: Seq<BucketView>,
    song: SongView,
    slots: Seq<(Diff, Seq<char>)>,
    t: Seq<char>,
)
    requires
        song.title != t,
        title_absent(bs, t),
    ensures
        song_insert_rec(bs, song, slots) is Ok ==> title_absent(
            song_insert_rec(bs, song, slots)->Ok_0,
            t,
        ),
    decreases slots.len(),
{
    if slots.len() == 0 {
    } else if slot_conflict(bs, song, slots[0]) {
    } else {
        lemma_slot_insert_title(bs, song, slots[0], t);
        lemma_song_insert_rec_title(slot_insert(bs, song, slots[0]), song, slots.drop_first(), t);
    }
}

/// A title on the deletion set yields zero charts in every bucket: whatever
/// catalog is bucketed over a collection free of the title, the collection
/// stays free of it, because every song carrying it is skipped and no other
/// song can introduce it.
pub proof fn lemma_deleted_title_absent(
    bs: Seq<BucketView>,
    songs: Seq<SongView>,
    del: Set<Seq<char>>,
    t: Seq<char>,
)
    requires
        del.contains(t),
        title_absent(bs, t),
    ensures
        bucket_songs_rec(bs, songs, del) is Ok ==> title_absent(
            bucket_songs_rec(bs, songs, del)->Ok_0,
            t,
        ),
    decreases songs.len(),
{
    if songs.len() == 0 {
    } else if del.contains(songs[0].title) {
        lemma_deleted_title_absent(bs, songs.drop_first(), del, t);
    } else {
        assert(songs[0].title != t);
        match song_insert(bs, songs[0]) {
            Result::Ok(bs2) => {
                lemma_song_insert_rec_title(bs, songs[0], song_slots(songs[0]), t);
                lemma_deleted_title_absent(bs2, songs.drop_first(), del, t);
            },
            Result::Err(_) => {},
        }
    }
}

/// A song offers four mandatory rating slots, and a fifth exactly when its
/// remaster rating is present.
pub proof fn lemma_song_slot_count(s: SongView)
    ensures
        song_slots(s).len() == 4 + (if s.level.rem is Some {
            1int
        } else {
            0int
        }),
{
}

/// Inserting a chart whose identity key a bucket already holds leaves the
/// bucket exactly as it was: re-insertion is a no-op and the size is
/// unchanged.
pub proof fn lemma_bucket_insert_idempotent(s: Seq<ChartView>, c: ChartView)
    ensures
        bucket_insert(bucket_insert(s, c), c) == bucket_insert(s, c),
        bucket_insert(bucket_insert(s, c), c).len() == bucket_insert(s, c).len(),
{
    let s1 = bucket_insert(s, c);
    if has_key(s, c.key()) {
    } else {
        assert(s1[s.len() as int] == c);
        assert(has_key(s1, c.key()));
    }
}

} // verus!
