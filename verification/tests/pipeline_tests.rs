use chart_buckets::bucket::standard_bucket_names;
use chart_buckets::deletion::DeletionSet;
use chart_buckets::model::RawRecord;
use chart_buckets::normalize::ReplacementTable;
use chart_buckets::order::OrderingTable;
use chart_buckets::pipeline::run_pipeline;

fn empty_record(title: &str, jacket: &str) -> RawRecord {
    RawRecord {
        title: title.to_string(),
        jacket: jacket.to_string(),
        std_bas: None,
        std_adv: None,
        std_exp: None,
        std_mas: None,
        std_rem: None,
        dx_bas: None,
        dx_adv: None,
        dx_exp: None,
        dx_mas: None,
        dx_rem: None,
    }
}

fn std_record(title: &str, jacket: &str, bas: &str, adv: &str, exp: &str, mas: &str) -> RawRecord {
    let mut r = empty_record(title, jacket);
    r.std_bas = Some(bas.to_string());
    r.std_adv = Some(adv.to_string());
    r.std_exp = Some(exp.to_string());
    r.std_mas = Some(mas.to_string());
    r
}

fn dx_record(title: &str, jacket: &str, bas: &str, adv: &str, exp: &str, mas: &str) -> RawRecord {
    let mut r = empty_record(title, jacket);
    r.dx_bas = Some(bas.to_string());
    r.dx_adv = Some(adv.to_string());
    r.dx_exp = Some(exp.to_string());
    r.dx_mas = Some(mas.to_string());
    r
}

fn run(
    records: Vec<RawRecord>,
    prev_records: Vec<RawRecord>,
    deleted: Vec<&str>,
    ordered: Vec<&str>,
) -> Vec<(String, Vec<String>)> {
    let deletion = DeletionSet::from_lines(deleted.iter().map(|s| s.to_string()).collect());
    let ordering = OrderingTable::from_lines(ordered.iter().map(|s| s.to_string()).collect());
    let replacements = ReplacementTable::standard();
    let names = standard_bucket_names();
    run_pipeline(&records, &prev_records, &deletion, &ordering, &replacements, &names)
        .expect("pipeline should succeed")
}

fn bucket<'a>(out: &'a [(String, Vec<String>)], name: &str) -> &'a Vec<String> {
    &out.iter().find(|(n, _)| n == name).expect("bucket should exist").1
}

#[test]
fn ordering_table_decides_bucket_order() {
    // OrderingTable = [B, A]; A and B both carry Std bas rating "13":
    // bucket "13" holds both, B first.
    let records = vec![
        std_record("A", "a.png", "13", "1", "1", "1"),
        std_record("B", "b.png", "13", "1", "1", "1"),
    ];
    let out = run(records, vec![], vec![], vec!["B", "A"]);
    let b13 = bucket(&out, "13");
    assert_eq!(b13.len(), 2);
    assert_eq!(b13[0], "'B\tSTD\tBAS\tb.png\tN/A");
    assert_eq!(b13[1], "'A\tSTD\tBAS\ta.png\tN/A");
}

#[test]
fn deleted_title_yields_no_charts() {
    // X carries a Dx mas rating "14+" but is on the deletion set: the
    // "14+" bucket stays empty.
    let records = vec![dx_record("X", "x.png", "1", "1", "1", "14+")];
    let out = run(records, vec![], vec!["X"], vec![]);
    assert_eq!(bucket(&out, "14+").len(), 0);
    for (_, lines) in &out {
        assert_eq!(lines.len(), 0);
    }
}

#[test]
fn prior_rating_hit_and_miss() {
    // (Y, Dx, Mas) is in the prior index at "13": its line carries "13".
    // (Z, Std, Bas) is absent: its line carries the sentinel "N/A".
    let records = vec![
        dx_record("Y", "y.png", "1", "1", "1", "13+"),
        std_record("Z", "z.png", "13", "1", "1", "1"),
    ];
    let prev = vec![dx_record("Y", "y_old.png", "1", "1", "1", "13")];
    let out = run(records, prev, vec![], vec![]);
    let b13p = bucket(&out, "13+");
    assert_eq!(b13p.len(), 1);
    assert_eq!(b13p[0], "'Y\tDX\tMAS\ty.png\t13");
    let b13 = bucket(&out, "13");
    assert_eq!(b13.len(), 1);
    assert_eq!(b13[0], "'Z\tSTD\tBAS\tz.png\tN/A");
}

#[test]
fn ranked_titles_before_unranked_and_tie_breaks() {
    // "Zed" is ranked, so it sorts before the unranked "Alpha" despite the
    // lexicographic order; "Alpha" carries both variants of the same
    // rating, Dx before Std.
    let mut alpha_both = std_record("Alpha", "al.png", "14", "1", "1", "1");
    alpha_both.dx_bas = Some("14".to_string());
    alpha_both.dx_adv = Some("1".to_string());
    alpha_both.dx_exp = Some("1".to_string());
    alpha_both.dx_mas = Some("1".to_string());
    let records = vec![alpha_both, std_record("Zed", "z.png", "14", "1", "1", "1")];
    let out = run(records, vec![], vec![], vec!["Zed"]);
    let b14 = bucket(&out, "14");
    assert_eq!(b14.len(), 3);
    assert_eq!(b14[0], "'Zed\tSTD\tBAS\tz.png\tN/A");
    assert_eq!(b14[1], "'Alpha\tDX\tBAS\tal.png\tN/A");
    assert_eq!(b14[2], "'Alpha\tSTD\tBAS\tal.png\tN/A");
}

#[test]
fn difficulty_tie_break_within_one_song() {
    // One song whose whole Std variant sits at "15": the bucket lists its
    // five charts in difficulty order.
    let mut r = std_record("Solo", "s.png", "15", "15", "15", "15");
    r.std_rem = Some("15".to_string());
    let out = run(vec![r], vec![], vec![], vec![]);
    let b15 = bucket(&out, "15");
    assert_eq!(b15.len(), 5);
    assert_eq!(b15[0], "'Solo\tSTD\tBAS\ts.png\tN/A");
    assert_eq!(b15[1], "'Solo\tSTD\tADV\ts.png\tN/A");
    assert_eq!(b15[2], "'Solo\tSTD\tEXP\ts.png\tN/A");
    assert_eq!(b15[3], "'Solo\tSTD\tMAS\ts.png\tN/A");
    assert_eq!(b15[4], "'Solo\tSTD\tREM\ts.png\tN/A");
}

#[test]
fn unranked_titles_sort_by_codepoint() {
    let records = vec![
        std_record("b", "1.png", "13", "1", "1", "1"),
        std_record("B", "2.png", "13", "1", "1", "1"),
        std_record("a", "3.png", "13", "1", "1", "1"),
    ];
    let out = run(records, vec![], vec![], vec![]);
    let b13 = bucket(&out, "13");
    assert_eq!(b13.len(), 3);
    // Codepoint order: 'B' (0x42) < 'a' (0x61) < 'b' (0x62).
    assert_eq!(b13[0], "'B\tSTD\tBAS\t2.png\tN/A");
    assert_eq!(b13[1], "'a\tSTD\tBAS\t3.png\tN/A");
    assert_eq!(b13[2], "'b\tSTD\tBAS\t1.png\tN/A");
}

#[test]
fn untracked_rating_is_dropped_per_slot() {
    // Only the mas slot matches a tracked bucket; the other slots are
    // dropped without failing the song.
    let records = vec![std_record("Part", "p.png", "3", "7", "10", "13")];
    let out = run(records, vec![], vec![], vec![]);
    let b13 = bucket(&out, "13");
    assert_eq!(b13.len(), 1);
    assert_eq!(b13[0], "'Part\tSTD\tMAS\tp.png\tN/A");
    assert_eq!(bucket(&out, "12+").len(), 0);
}

#[test]
fn replacement_table_canonicalizes_title() {
    // The known encoding artifact is corrected before bucketing; the
    // corrected title is the join key in output.
    let records = vec![std_record("GIGANT\u{d8}MAKHIA", "g.png", "14+", "1", "1", "1")];
    let out = run(records, vec![], vec![], vec![]);
    let b = bucket(&out, "14+");
    assert_eq!(b.len(), 1);
    assert_eq!(b[0], "'GIGANTOMAKHIA\tSTD\tBAS\tg.png\tN/A");
}

#[test]
fn secondary_titles_bypass_replacement_table() {
    // The secondary feed's titles are matched as-is: a prior rating filed
    // under the artifact spelling does not resolve for the canonical one.
    let records = vec![std_record("GIGANT\u{d8}MAKHIA", "g.png", "14+", "1", "1", "1")];
    let prev = vec![std_record("GIGANT\u{d8}MAKHIA", "g.png", "14", "1", "1", "1")];
    let out = run(records, prev, vec![], vec![]);
    let b = bucket(&out, "14+");
    assert_eq!(b.len(), 1);
    assert_eq!(b[0], "'GIGANTOMAKHIA\tSTD\tBAS\tg.png\tN/A");
}

#[test]
fn last_write_wins_in_prior_index() {
    let records = vec![std_record("Y", "y.png", "13", "1", "1", "1")];
    let prev = vec![
        std_record("Y", "y.png", "12", "1", "1", "1"),
        std_record("Y", "y.png", "12+", "1", "1", "1"),
    ];
    let out = run(records, prev, vec![], vec![]);
    let b13 = bucket(&out, "13");
    assert_eq!(b13.len(), 1);
    assert_eq!(b13[0], "'Y\tSTD\tBAS\ty.png\t12+");
}

#[test]
fn malformed_primary_record_aborts_run() {
    let mut r = empty_record("Broken", "b.png");
    r.std_bas = Some("13".to_string());
    // adv/exp/mas missing while the variant is indicated present.
    let deletion = DeletionSet::from_lines(vec![]);
    let ordering = OrderingTable::from_lines(vec![]);
    let replacements = ReplacementTable::standard();
    let names = standard_bucket_names();
    let result = run_pipeline(&vec![r], &vec![], &deletion, &ordering, &replacements, &names);
    match result {
        Err(chart_buckets::model::PipelineError::SourceFormat(e)) => {
            assert_eq!(e.title, "Broken");
        }
        _ => panic!("expected a source-format error"),
    }
}

#[test]
fn malformed_secondary_record_aborts_run() {
    let mut r = empty_record("BrokenPrev", "b.png");
    r.dx_bas = Some("13".to_string());
    let deletion = DeletionSet::from_lines(vec![]);
    let ordering = OrderingTable::from_lines(vec![]);
    let replacements = ReplacementTable::standard();
    let names = standard_bucket_names();
    let result = run_pipeline(&vec![], &vec![r], &deletion, &ordering, &replacements, &names);
    match result {
        Err(chart_buckets::model::PipelineError::SourceFormat(e)) => {
            assert_eq!(e.title, "BrokenPrev");
        }
        _ => panic!("expected a source-format error"),
    }
}

#[test]
fn conflicting_jackets_abort_run() {
    // Two records feed the same (title, variant, difficulty) identity with
    // different jacket references: inconsistent upstream data.
    let records = vec![
        std_record("Dup", "one.png", "13", "1", "1", "1"),
        std_record("Dup", "two.png", "13", "1", "1", "1"),
    ];
    let deletion = DeletionSet::from_lines(vec![]);
    let ordering = OrderingTable::from_lines(vec![]);
    let replacements = ReplacementTable::standard();
    let names = standard_bucket_names();
    let result = run_pipeline(&records, &vec![], &deletion, &ordering, &replacements, &names);
    match result {
        Err(chart_buckets::model::PipelineError::Inconsistency(e)) => {
            assert_eq!(e.title, "Dup");
        }
        _ => panic!("expected an inconsistency error"),
    }
}

#[test]
fn reinserted_identity_is_dropped() {
    // The same record twice: every chart identity repeats with the same
    // jacket, so re-insertion is a no-op and each bucket stays deduplicated.
    let records = vec![
        std_record("Twice", "t.png", "13", "1", "1", "1"),
        std_record("Twice", "t.png", "13", "1", "1", "1"),
    ];
    let out = run(records, vec![], vec![], vec![]);
    assert_eq!(bucket(&out, "13").len(), 1);
}

#[test]
fn buckets_come_out_in_name_order() {
    let out = run(vec![], vec![], vec![], vec![]);
    let names: Vec<&str> = out.iter().map(|(n, _)| n.as_str()).collect();
    assert_eq!(names, vec!["12+", "13", "13+", "14", "14+", "15"]);
}
