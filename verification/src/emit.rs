//! Line formatting for emission: one tab-separated line per resolved chart,
//! with a leading apostrophe so spreadsheet tools read the title as text.

use vstd::prelude::*;
use crate::model::{ChartType, Diff};
use crate::prev::{ResolvedChart, ResolvedChartView};

verus! {

/// The label a chart variant carries in output.
pub open spec fn ct_label(c: ChartType) -> Seq<char> {
    match c {
        ChartType::Dx => "DX"@,
        ChartType::Std => "STD"@,
    }
}

/// The label a difficulty carries in output.
pub open spec fn diff_label(d: Diff) -> Seq<char> {
    match d {
        Diff::Bas => "BAS"@,
        Diff::Adv => "ADV"@,
        Diff::Exp => "EXP"@,
        Diff::Mas => "MAS"@,
        Diff::Rem => "REM"@,
    }
}

/// The output line of one resolved chart: a leading apostrophe, then title,
/// variant label, difficulty label, jacket reference and prior rating,
/// tab-separated.
pub open spec fn line_of(rc: ResolvedChartView) -> Seq<char> {
    "'"@ + rc.chart.song.title + "\t"@ + ct_label(rc.chart.song.chart_type) + "\t"@ + diff_label(
        rc.chart.diff,
    ) + "\t"@ + rc.chart.song.jacket + "\t"@ + rc.prev_level
}

/// The variant label, as text.
pub fn ct_label_exec(c: ChartType) -> (r: &'static str)
    ensures
        r@ == ct_label(c),
{
    match c {
        ChartType::Dx => "DX",
        ChartType::Std => "STD",
    }
}

/// The difficulty label, as text.
pub fn diff_label_exec(d: Diff) -> (r: &'static str)
    ensures
        r@ == diff_label(d),
{
    match d {
        Diff::Bas => "BAS",
        Diff::Adv => "ADV",
        Diff::Exp => "EXP",
        Diff::Mas => "MAS",
        Diff::Rem => "REM",
    }
}

/// Formats one resolved chart as its output line.
pub fn format_line(rc: &ResolvedChart) -> (r: String)
    ensures
        r@ == line_of(rc@),
{
    let mut s = String::new();
    s.append("'");
    s.append(rc.chart.song.title.as_str());
    s.append("\t");
    s.append(ct_label_exec(rc.chart.song.chart_type));
    s.append("\t");
    s.append(diff_label_exec(rc.chart.diff));
    s.append("\t");
    s.append(rc.chart.song.jacket.as_str());
    s.append("\t");
    s.append(rc.prev_level.as_str());
    proof {
        assert(s@ =~= line_of(rc@));
    }
    s
}

/// Formats a whole ordered bucket, line by line.
pub fn format_lines(list: &Vec<ResolvedChart>) -> (r: Vec<String>)
    ensures
        r@.map_values(|l: String| l@) == list@.map_values(|c: ResolvedChart| c@).map_values(
            |rc: ResolvedChartView| line_of(rc),
        ),
{
    let mut out: Vec<String> = Vec::new();
    let n = list.len();
    let mut i: usize = 0;
    while i < n
        invariant
            i <= n,
            n == list@.len(),
            out@.len() == i,
            forall|j: int| 0 <= j < i ==> (#[trigger] out@[j]@) == line_of(list@[j]@),
        decreases n - i,
    {
        out.push(format_line(&list[i]));
        i = i + 1;
    }
    proof {
        assert(out@.map_values(|l: String| l@) =~= list@.map_values(
            |c: ResolvedChart| c@,
        ).map_values(|rc: ResolvedChartView| line_of(rc)));
    }
    out
}

} // verus!
