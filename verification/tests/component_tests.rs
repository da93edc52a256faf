use chart_buckets::bucket::{Bucket, Buckets};
use chart_buckets::catalog::songs_from_record;
use chart_buckets::model::{Chart, ChartType, Diff, Level, RawRecord, Song};
use chart_buckets::normalize::{decode_entities, ReplacementTable};
use chart_buckets::order::{sort_charts, OrderingTable};
use chart_buckets::prev::{PrevLevelIndex, ResolvedChart};
use chart_buckets::emit::format_line;

fn level(bas: &str, adv: &str, exp: &str, mas: &str, rem: Option<&str>) -> Level {
    Level {
        bas: bas.to_string(),
        adv: adv.to_string(),
        exp: exp.to_string(),
        mas: mas.to_string(),
        rem: rem.map(|s| s.to_string()),
    }
}

fn song(title: &str, jacket: &str, chart_type: ChartType, lv: Level) -> Song {
    Song { title: title.to_string(), jacket: jacket.to_string(), chart_type, level: lv }
}

fn record_with_variants(title: &str, std_rem: Option<&str>, dx: bool) -> RawRecord {
    RawRecord {
        title: title.to_string(),
        jacket: "j.png".to_string(),
        std_bas: Some("1".to_string()),
        std_adv: Some("2".to_string()),
        std_exp: Some("3".to_string()),
        std_mas: Some("4".to_string()),
        std_rem: std_rem.map(|s| s.to_string()),
        dx_bas: if dx { Some("5".to_string()) } else { None },
        dx_adv: if dx { Some("6".to_string()) } else { None },
        dx_exp: if dx { Some("7".to_string()) } else { None },
        dx_mas: if dx { Some("8".to_string()) } else { None },
        dx_rem: None,
    }
}

#[test]
fn one_song_per_present_variant() {
    let table = ReplacementTable::empty();
    let both = songs_from_record(&table, &record_with_variants("S", None, true)).unwrap();
    assert_eq!(both.len(), 2);
    assert_eq!(both[0].chart_type, ChartType::Std);
    assert_eq!(both[1].chart_type, ChartType::Dx);

    let std_only = songs_from_record(&table, &record_with_variants("S", None, false)).unwrap();
    assert_eq!(std_only.len(), 1);

    let mut none = record_with_variants("S", None, false);
    none.std_bas = None;
    none.std_adv = None;
    none.std_exp = None;
    none.std_mas = None;
    let empty = songs_from_record(&table, &none).unwrap();
    assert_eq!(empty.len(), 0);
}

#[test]
fn chart_count_per_variant_follows_remaster_presence() {
    // A variant yields four mandatory charts, plus one exactly when the
    // remaster rating is present. Count them through the bucketer with
    // every rating tracked.
    let names: Vec<String> =
        vec!["1", "2", "3", "4", "9"].into_iter().map(|s| s.to_string()).collect();
    let table = ReplacementTable::empty();

    let with_rem = songs_from_record(&table, &record_with_variants("R", Some("9"), false))
        .unwrap();
    let mut buckets = Buckets::new(&names);
    for s in &with_rem {
        buckets.insert_song(s).unwrap();
    }
    let total: usize = buckets.buckets.iter().map(|b| b.charts.len()).sum();
    assert_eq!(total, 5);

    let without_rem = songs_from_record(&table, &record_with_variants("R", None, false))
        .unwrap();
    let mut buckets2 = Buckets::new(&names);
    for s in &without_rem {
        buckets2.insert_song(s).unwrap();
    }
    let total2: usize = buckets2.buckets.iter().map(|b| b.charts.len()).sum();
    assert_eq!(total2, 4);
}

#[test]
fn missing_mandatory_slot_is_refused() {
    let table = ReplacementTable::empty();
    let mut r = record_with_variants("Bad", None, false);
    r.std_exp = None;
    let err = songs_from_record(&table, &r).unwrap_err();
    assert_eq!(err.title, "Bad");
}

#[test]
fn reinserting_a_chart_keeps_bucket_size() {
    let mut b = Bucket { name: "13".to_string(), charts: Vec::new() };
    let c = Chart {
        diff: Diff::Mas,
        song: song("T", "t.png", ChartType::Dx, level("1", "2", "3", "13", None)),
    };
    b.insert(&c).unwrap();
    assert_eq!(b.charts.len(), 1);
    b.insert(&c).unwrap();
    assert_eq!(b.charts.len(), 1);
}

#[test]
fn same_identity_different_jacket_is_refused() {
    let mut b = Bucket { name: "13".to_string(), charts: Vec::new() };
    let c1 = Chart {
        diff: Diff::Mas,
        song: song("T", "one.png", ChartType::Dx, level("1", "2", "3", "13", None)),
    };
    let c2 = Chart {
        diff: Diff::Mas,
        song: song("T", "two.png", ChartType::Dx, level("1", "2", "3", "13", None)),
    };
    b.insert(&c1).unwrap();
    let err = b.insert(&c2).unwrap_err();
    assert_eq!(err.title, "T");
    assert_eq!(b.charts.len(), 1);
}

#[test]
fn empty_index_resolves_to_sentinel() {
    let index = PrevLevelIndex::new();
    let c = Chart {
        diff: Diff::Bas,
        song: song("Anything", "a.png", ChartType::Std, level("1", "2", "3", "4", None)),
    };
    assert_eq!(index.resolve(&c), "N/A");
}

#[test]
fn resolver_hit_returns_prior_rating() {
    let mut index = PrevLevelIndex::new();
    index.insert(&"Y".to_string(), ChartType::Dx, Diff::Mas, &"13".to_string());
    let hit = Chart {
        diff: Diff::Mas,
        song: song("Y", "y.png", ChartType::Dx, level("1", "2", "3", "13+", None)),
    };
    assert_eq!(index.resolve(&hit), "13");
    let miss = Chart {
        diff: Diff::Bas,
        song: song("Y", "y.png", ChartType::Dx, level("1", "2", "3", "13+", None)),
    };
    assert_eq!(index.resolve(&miss), "N/A");
}

#[test]
fn overwriting_a_key_keeps_one_entry() {
    let mut index = PrevLevelIndex::new();
    let t = "Y".to_string();
    index.insert(&t, ChartType::Std, Diff::Bas, &"12".to_string());
    index.insert(&t, ChartType::Std, Diff::Bas, &"12+".to_string());
    assert_eq!(index.entries.len(), 1);
    let c = Chart {
        diff: Diff::Bas,
        song: song("Y", "y.png", ChartType::Std, level("12+", "2", "3", "4", None)),
    };
    assert_eq!(index.resolve(&c), "12+");
}

#[test]
fn decode_entities_whitelist() {
    assert_eq!(decode_entities(&"A&amp;B".to_string()), "A&B");
    assert_eq!(decode_entities(&"&lt;tag&gt;".to_string()), "<tag>");
    assert_eq!(decode_entities(&"say &quot;hi&quot;".to_string()), "say \"hi\"");
    // An unknown entity is copied unchanged; a decoded ampersand does not
    // start a second decode.
    assert_eq!(decode_entities(&"&copy;".to_string()), "&copy;");
    assert_eq!(decode_entities(&"&amp;lt;".to_string()), "&lt;");
    assert_eq!(decode_entities(&"".to_string()), "");
}

#[test]
fn normalize_title_is_exact_match_only() {
    let table = ReplacementTable::standard();
    assert_eq!(
        table.normalize_title(&"GIGANT\u{d8}MAKHIA".to_string()),
        "GIGANTOMAKHIA"
    );
    assert_eq!(table.normalize_title(&"Other".to_string()), "Other");
    assert_eq!(
        table.normalize_title(&"GIGANT\u{d8}MAKHIA!".to_string()),
        "GIGANT\u{d8}MAKHIA!"
    );
}

#[test]
fn format_line_shape() {
    let rc = ResolvedChart {
        chart: Chart {
            diff: Diff::Rem,
            song: song("Tune", "art.png", ChartType::Std, level("1", "2", "3", "4", Some("14"))),
        },
        prev_level: "14".to_string(),
    };
    assert_eq!(format_line(&rc), "'Tune\tSTD\tREM\tart.png\t14");
}

#[test]
fn duplicate_bucket_names_keep_first() {
    let names: Vec<String> = vec!["13", "13", "14"].into_iter().map(|s| s.to_string()).collect();
    let buckets = Buckets::new(&names);
    let kept: Vec<&str> = buckets.buckets.iter().map(|b| b.name.as_str()).collect();
    assert_eq!(kept, vec!["13", "14"]);
}

#[test]
fn sort_is_a_permutation_in_canonical_order() {
    let table = OrderingTable::from_lines(vec![]);
    let mk = |title: &str, ct: ChartType, d: Diff| ResolvedChart {
        chart: Chart {
            diff: d,
            song: song(title, "j.png", ct, level("1", "2", "3", "4", None)),
        },
        prev_level: "N/A".to_string(),
    };
    let input = vec![
        mk("b", ChartType::Std, Diff::Bas),
        mk("a", ChartType::Std, Diff::Exp),
        mk("a", ChartType::Std, Diff::Adv),
        mk("a", ChartType::Dx, Diff::Mas),
    ];
    let sorted = sort_charts(&table, &input);
    assert_eq!(sorted.len(), 4);
    let keys: Vec<(String, ChartType, Diff)> = sorted
        .iter()
        .map(|rc| (rc.chart.song.title.clone(), rc.chart.song.chart_type, rc.chart.diff))
        .collect();
    assert_eq!(
        keys,
        vec![
            ("a".to_string(), ChartType::Dx, Diff::Mas),
            ("a".to_string(), ChartType::Std, Diff::Adv),
            ("a".to_string(), ChartType::Std, Diff::Exp),
            ("b".to_string(), ChartType::Std, Diff::Bas),
        ]
    );
}
