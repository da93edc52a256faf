//! The data model: chart variants, difficulties, rating sets, songs and
//! charts, together with the raw record shape that source adapters hand in.

use vstd::prelude::*;

verus! {

/// The two independent chart variants a song may carry.
#[derive(Clone, Copy, Debug, PartialEq, Eq, Structural, Hash)]
pub enum ChartType {
    Dx,
    Std,
}

/// The five difficulty slots of one chart variant.
#[derive(Clone, Copy, Debug, PartialEq, Eq, Structural, Hash)]
pub enum Diff {
    Bas,
    Adv,
    Exp,
    Mas,
    Rem,
}

/// Position of a chart type in the canonical tie-break order: Dx before Std.
pub open spec fn chart_type_rank(c: ChartType) -> int {
    match c {
        ChartType::Dx => 0,
        ChartType::Std => 1,
    }
}

/// Position of a difficulty in the canonical tie-break order.
pub open spec fn diff_rank(d: Diff) -> int {
    match d {
        Diff::Bas => 0,
        Diff::Adv => 1,
        Diff::Exp => 2,
        Diff::Mas => 3,
        Diff::Rem => 4,
    }
}

/// Mathematical image of an optional rating string.
pub open spec fn opt_view(o: Option<String>) -> Option<Seq<char>> {
    match o {
        Option::Some(s) => Option::Some(s@),
        Option::None => Option::None,
    }
}

/// The rating strings one chart variant carries: four mandatory slots and an
/// optional remaster slot.
#[derive(Debug, Clone)]
pub struct Level {
    pub bas: String,
    pub adv: String,
    pub exp: String,
    pub mas: String,
    pub rem: Option<String>,
}

/// Mathematical image of a `Level`.
#[verifier::ext_equal]
pub ghost struct LevelView {
    pub bas: Seq<char>,
    pub adv: Seq<char>,
    pub exp: Seq<char>,
    pub mas: Seq<char>,
    pub rem: Option<Seq<char>>,
}

impl View for Level {
    type V = LevelView;

    open spec fn view(&self) -> LevelView {
        LevelView {
            bas: self.bas@,
            adv: self.adv@,
            exp: self.exp@,
            mas: self.mas@,
            rem: opt_view(self.rem),
        }
    }
}

/// One song under one chart variant, carrying its canonical title, its
/// jacket-art reference and its rating strings.
#[derive(Debug, Clone)]
pub struct Song {
    pub title: String,
    pub jacket: String,
    pub chart_type: ChartType,
    pub level: Level,
}

/// Mathematical image of a `Song`.
#[verifier::ext_equal]
pub ghost struct SongView {
    pub title: Seq<char>,
    pub jacket: Seq<char>,
    pub chart_type: ChartType,
    pub level: LevelView,
}

impl View for Song {
    type V = SongView;

    open spec fn view(&self) -> SongView {
        SongView {
            title: self.title@,
            jacket: self.jacket@,
            chart_type: self.chart_type,
            level: self.level@,
        }
    }
}

impl Level {
    /// A copy whose mathematical image is the same.
    pub fn duplicate(&self) -> (r: Level)
        ensures
            r@ == self@,
    {
        Level {
            bas: self.bas.clone(),
            adv: self.adv.clone(),
            exp: self.exp.clone(),
            mas: self.mas.clone(),
            rem: match &self.rem {
                Option::Some(s) => Option::Some(s.clone()),
                Option::None => Option::None,
            },
        }
    }
}

impl Song {
    /// A copy whose mathematical image is the same.
    pub fn duplicate(&self) -> (r: Song)
        ensures
            r@ == self@,
    {
        Song {
            title: self.title.clone(),
            jacket: self.jacket.clone(),
            chart_type: self.chart_type,
            level: self.level.duplicate(),
        }
    }
}

/// One playable difficulty of a song under one chart variant.
#[derive(Debug, Clone)]
pub struct Chart {
    pub diff: Diff,
    pub song: Song,
}

impl Chart {
    /// A copy whose mathematical image is the same.
    pub fn duplicate(&self) -> (r: Chart)
        ensures
            r@ == self@,
    {
        Chart { diff: self.diff, song: self.song.duplicate() }
    }
}

/// Mathematical image of a `Chart`.
#[verifier::ext_equal]
pub ghost struct ChartView {
    pub diff: Diff,
    pub song: SongView,
}

impl View for Chart {
    type V = ChartView;

    open spec fn view(&self) -> ChartView {
        ChartView { diff: self.diff, song: self.song@ }
    }
}

impl ChartView {
    /// The identity of a chart: its title, chart variant and difficulty.
    /// Buckets deduplicate by this key.
    pub open spec fn key(self) -> (Seq<char>, ChartType, Diff) {
        (self.song.title, self.song.chart_type, self.diff)
    }
}

/// One raw song record as a source adapter hands it in: a title, a jacket
/// reference, and per variant the optionally present rating strings. A
/// variant is indicated present when its `bas` slot is present.
#[derive(Debug, Clone)]
pub struct RawRecord {
    pub title: String,
    pub jacket: String,
    pub std_bas: Option<String>,
    pub std_adv: Option<String>,
    pub std_exp: Option<String>,
    pub std_mas: Option<String>,
    pub std_rem: Option<String>,
    pub dx_bas: Option<String>,
    pub dx_adv: Option<String>,
    pub dx_exp: Option<String>,
    pub dx_mas: Option<String>,
    pub dx_rem: Option<String>,
}

/// Mathematical image of a `RawRecord`.
#[verifier::ext_equal]
pub ghost struct RawRecordView {
    pub title: Seq<char>,
    pub jacket: Seq<char>,
    pub std_bas: Option<Seq<char>>,
    pub std_adv: Option<Seq<char>>,
    pub std_exp: Option<Seq<char>>,
    pub std_mas: Option<Seq<char>>,
    pub std_rem: Option<Seq<char>>,
    pub dx_bas: Option<Seq<char>>,
    pub dx_adv: Option<Seq<char>>,
    pub dx_exp: Option<Seq<char>>,
    pub dx_mas: Option<Seq<char>>,
    pub dx_rem: Option<Seq<char>>,
}

impl View for RawRecord {
    type V = RawRecordView;

    open spec fn view(&self) -> RawRecordView {
        RawRecordView {
            title: self.title@,
            jacket: self.jacket@,
            std_bas: opt_view(self.std_bas),
            std_adv: opt_view(self.std_adv),
            std_exp: opt_view(self.std_exp),
            std_mas: opt_view(self.std_mas),
            std_rem: opt_view(self.std_rem),
            dx_bas: opt_view(self.dx_bas),
            dx_adv: opt_view(self.dx_adv),
            dx_exp: opt_view(self.dx_exp),
            dx_mas: opt_view(self.dx_mas),
            dx_rem: opt_view(self.dx_rem),
        }
    }
}

/// A record whose shape the catalog or index builder refuses: a variant was
/// indicated present but a mandatory rating slot was missing. Fatal for the
/// whole run; carries the offending record's title.
#[derive(Debug, Clone)]
pub struct SourceFormatError {
    pub title: String,
}

/// Upstream data fed two charts with the same identity but different jacket
/// references into one bucket. Fatal; carries the offending title.
#[derive(Debug, Clone)]
pub struct InconsistencyError {
    pub title: String,
}

/// Everything that can abort a pipeline run.
#[derive(Debug, Clone)]
pub enum PipelineError {
    SourceFormat(SourceFormatError),
    Inconsistency(InconsistencyError),
}

/// Executable counterpart of `chart_type_rank`.
pub fn chart_type_rank_exec(c: ChartType) -> (r: u8)
    ensures
        r as int == chart_type_rank(c),
{
    match c {
        ChartType::Dx => 0,
        ChartType::Std => 1,
    }
}

/// Executable counterpart of `diff_rank`.
pub fn diff_rank_exec(d: Diff) -> (r: u8)
    ensures
        r as int == diff_rank(d),
{
    match d {
        Diff::Bas => 0,
        Diff::Adv => 1,
        Diff::Exp => 2,
        Diff::Mas => 3,
        Diff::Rem => 4,
    }
}

} // verus!
