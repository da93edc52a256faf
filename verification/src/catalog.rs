//! The catalog builder: expands each raw record into zero, one or two songs,
//! one per chart variant indicated present. A variant indicated present but
//! missing a mandatory rating slot aborts the whole run with a
//! `SourceFormatError`; there is no partial tolerance within a variant.

use vstd::prelude::*;
use crate::model::{ChartType, LevelView, RawRecord, RawRecordView, Song, SongView,
    SourceFormatError};
use crate::normalize::{replaced, ReplacementTable};

verus! {

/// Is the standard variant indicated present? The `bas` slot is the marker.
pub open spec fn std_present(r: RawRecordView) -> bool {
    r.std_bas is Some
}

/// Is the deluxe variant indicated present? The `bas` slot is the marker.
pub open spec fn dx_present(r: RawRecordView) -> bool {
    r.dx_bas is Some
}

/// A present standard variant must carry all four mandatory slots.
pub open spec fn std_ok(r: RawRecordView) -> bool {
    std_present(r) ==> r.std_adv is Some && r.std_exp is Some && r.std_mas is Some
}

/// A present deluxe variant must carry all four mandatory slots.
pub open spec fn dx_ok(r: RawRecordView) -> bool {
    dx_present(r) ==> r.dx_adv is Some && r.dx_exp is Some && r.dx_mas is Some
}

/// A record the catalog builder accepts.
pub open spec fn record_ok(r: RawRecordView) -> bool {
    std_ok(r) && dx_ok(r)
}

/// The song a record's standard variant yields, under a replacement table.
/// Meaningful only when the variant is present and complete.
pub open spec fn std_song_of(table: Seq<(Seq<char>, Seq<char>)>, r: RawRecordView) -> SongView {
    SongView {
        title: replaced(table, r.title),
        jacket: r.jacket,
        chart_type: ChartType::Std,
        level: LevelView {
            bas: r.std_bas->0,
            adv: r.std_adv->0,
            exp: r.std_exp->0,
            mas: r.std_mas->0,
            rem: r.std_rem,
        },
    }
}

/// The song a record's deluxe variant yields, under a replacement table.
/// Meaningful only when the variant is present and complete.
pub open spec fn dx_song_of(table: Seq<(Seq<char>, Seq<char>)>, r: RawRecordView) -> SongView {
    SongView {
        title: replaced(table, r.title),
        jacket: r.jacket,
        chart_type: ChartType::Dx,
        level: LevelView {
            bas: r.dx_bas->0,
            adv: r.dx_adv->0,
            exp: r.dx_exp->0,
            mas: r.dx_mas->0,
            rem: r.dx_rem,
        },
    }
}

/// All songs one record yields: the standard variant's song first, then the
/// deluxe variant's, each only when indicated present.
pub open spec fn songs_of_record(table: Seq<(Seq<char>, Seq<char>)>, r: RawRecordView)
    -> Seq<SongView> {
    let std_part: Seq<SongView> = if std_present(r) {
        seq![std_song_of(table, r)]
    } else {
        Seq::empty()
    };
    let dx_part: Seq<SongView> = if dx_present(r) {
        seq![dx_song_of(table, r)]
    } else {
        Seq::empty()
    };
    std_part + dx_part
}

/// The whole catalog a record sequence yields, in record order.
pub open spec fn catalog_of(table: Seq<(Seq<char>, Seq<char>)>, rs: Seq<RawRecordView>)
    -> Seq<SongView>
    decreases rs.len(),
{
    if rs.len() == 0 {
        Seq::empty()
    } else {
        catalog_of(table, rs.drop_last()) + songs_of_record(table, rs.last())
    }
}

/// The mathematical images of a sequence of songs.
pub open spec fn song_views(s: Seq<Song>) -> Seq<SongView> {
    s.map_values(|x: Song| x@)
}

/// The mathematical images of a sequence of raw records.
pub open spec fn record_views(s: Seq<RawRecord>) -> Seq<RawRecordView> {
    s.map_values(|x: RawRecord| x@)
}

/// Does the catalog builder accept every record of the sequence?
pub open spec fn all_records_ok(rs: Seq<RawRecordView>) -> bool {
    forall|i: int| 0 <= i < rs.len() ==> record_ok(#[trigger] rs[i])
}

fn clone_opt(o: &Option<String>) -> (r: Option<String>)
    ensures
        crate::model::opt_view(r) == match o {
            Option::Some(s) => Option::Some(s@),
            Option::None => Option::None::<Seq<char>>,
        },
{
    match o {
        Option::Some(s) => Option::Some(s.clone()),
        Option::None => Option::None,
    }
}

/// Expands one raw record into its songs. Returns the records' songs in
/// variant order (standard before deluxe), or a `SourceFormatError` naming
/// the record when a present variant is missing a mandatory slot.
pub fn songs_from_record(table: &ReplacementTable, r: &RawRecord) -> (result: Result<
    Vec<Song>,
    SourceFormatError,
>)
    ensures
        result is Ok <==> record_ok(r@),
        result is Ok ==> song_views(result->Ok_0@) =~= songs_of_record(table@, r@),
        result is Err ==> result->Err_0.title@ == r@.title,
{
    let mut out: Vec<Song> = Vec::new();
    let title = table.normalize_title(&r.title);
    if r.std_bas.is_some() {
        let bas = match &r.std_bas {
            Option::Some(s) => s.clone(),
            Option::None => {
                return Result::Err(SourceFormatError { title: r.title.clone() });
            },
        };
        let adv = match &r.std_adv {
            Option::Some(s) => s.clone(),
            Option::None => {
                return Result::Err(SourceFormatError { title: r.title.clone() });
            },
        };
        let exp = match &r.std_exp {
            Option::Some(s) => s.clone(),
            Option::None => {
                return Result::Err(SourceFormatError { title: r.title.clone() });
            },
        };
        let mas = match &r.std_mas {
            Option::Some(s) => s.clone(),
            Option::None => {
                return Result::Err(SourceFormatError { title: r.title.clone() });
            },
        };
        let rem = clone_opt(&r.std_rem);
        out.push(Song {
            title: title.clone(),
            jacket: r.jacket.clone(),
            chart_type: ChartType::Std,
            level: crate::model::Level { bas, adv, exp, mas, rem },
        });
    }
    if r.dx_bas.is_some() {
        let bas = match &r.dx_bas {
            Option::Some(s) => s.clone(),
            Option::None => {
                return Result::Err(SourceFormatError { title: r.title.clone() });
            },
        };
        let adv = match &r.dx_adv {
            Option::Some(s) => s.clone(),
            Option::None => {
                return Result::Err(SourceFormatError { title: r.title.clone() });
            },
        };
        let exp = match &r.dx_exp {
            Option::Some(s) => s.clone(),
            Option::None => {
                return Result::Err(SourceFormatError { title: r.title.clone() });
            },
        };
        let mas = match &r.dx_mas {
            Option::Some(s) => s.clone(),
            Option::None => {
                return Result::Err(SourceFormatError { title: r.title.clone() });
            },
        };
        let rem = clone_opt(&r.dx_rem);
        out.push(Song {
            title,
            jacket: r.jacket.clone(),
            chart_type: ChartType::Dx,
            level: crate::model::Level { bas, adv, exp, mas, rem },
        });
    }
    proof {
        assert(song_views(out@) =~= songs_of_record(table@, r@));
    }
    Result::Ok(out)
}

/// Builds the catalog from every raw record in order. Succeeds exactly when
/// every record is well-formed; otherwise reports the first offending record.
pub fn build_catalog(table: &ReplacementTable, records: &Vec<RawRecord>) -> (result: Result<
    Vec<Song>,
    SourceFormatError,
>)
    ensures
        result is Ok <==> all_records_ok(record_views(records@)),
        result is Ok ==> song_views(result->Ok_0@) =~= catalog_of(
            table@,
            record_views(records@),
        ),
        result is Err ==> exists|i: int|
            0 <= i < records@.len() && !record_ok(#[trigger] records@[i]@) && (forall|j: int|
                0 <= j < i ==> record_ok(#[trigger] records@[j]@)) && result->Err_0.title@
                == records@[i]@.title,
{
    let ghost rvs = record_views(records@);
    let mut out: Vec<Song> = Vec::new();
    let n = records.len();
    let mut i: usize = 0;
    while i < n
        invariant
            i <= n,
            n == records@.len(),
            rvs == record_views(records@),
            forall|j: int| 0 <= j < i ==> record_ok(#[trigger] rvs[j]),
            song_views(out@) =~= catalog_of(table@, rvs.take(i as int)),
        decreases n - i,
    {
        match songs_from_record(table, &records[i]) {
            Result::Ok(mut songs) => {
                proof {
                    assert(rvs.take(i + 1).drop_last() =~= rvs.take(i as int));
                    assert(rvs.take(i + 1).last() == rvs[i as int]);
                }
                out.append(&mut songs);
                proof {
                    assert(song_views(out@) =~= catalog_of(table@, rvs.take(i + 1)));
                }
            },
            Result::Err(e) => {
                proof {
                    assert(rvs[i as int] == records@[i as int]@);
                    assert(!record_ok(records@[i as int]@));
                    assert forall|j: int| 0 <= j < i implies record_ok(
                        #[trigger] records@[j]@,
                    ) by {
                        assert(rvs[j] == records@[j]@);
                    }
                }
                return Result::Err(e);
            },
        }
        i = i + 1;
    }
    proof {
        assert(rvs.take(n as int) =~= rvs);
    }
    Result::Ok(out)
}

} // verus!
