use nicehist::frecency::{age_ranks, frecency_score, record_access, select_frecent, FrecentRow};

const NOW: i64 = 1_700_000_000;

fn row(path: &str, rank: u64, last_access: i64) -> FrecentRow {
    FrecentRow { path: path.to_string(), path_type: "d".to_string(), rank, last_access }
}

/// Applies `times` plain accesses to a path, the way the store records them.
fn bumped(times: usize) -> (u64, i64, u64) {
    let mut state = record_access(None, None, NOW);
    for _ in 1..times {
        state = record_access(Some(state), None, NOW);
    }
    state
}

#[test]
fn test_frecency_score_function() {
    let now = 1700000000i64;
    let recent_score = frecency_score(10_000_000, now - 100, now);
    let day_old_score = frecency_score(10_000_000, now - 50000, now);
    let week_old_score = frecency_score(10_000_000, now - 400000, now);
    let old_score = frecency_score(10_000_000, now - 1000000, now);
    assert!(recent_score > day_old_score);
    assert!(day_old_score > week_old_score);
    assert!(week_old_score > old_score);
    assert_eq!(recent_score, 60_000_000);
    assert_eq!(old_score, 10_000_000);
    assert_eq!(frecency_score(u64::MAX, now, now), u64::MAX);
    assert_eq!(frecency_score(1, now + 10, now), 6);
}

#[test]
fn bumps_follow_the_rank_formula() {
    assert_eq!(record_access(None, None, 5), (1_000_000, 5, 1));
    assert_eq!(record_access(Some((1_000_000, 5, 1)), None, 9), (2_000_000, 9, 2));
    assert_eq!(record_access(Some((2_000_000, 9, 2)), None, 9), (2_500_000, 9, 3));
    assert_eq!(record_access(Some((5_000, 1, 1)), None, 2), (100_005_000, 2, 2));
    assert_eq!(bumped(5).0, 3_244_827);
}

#[test]
fn imports_keep_the_larger_rank_and_later_time() {
    assert_eq!(record_access(None, Some(42_500_000), 1_700_000_000), (42_500_000, 1_700_000_000, 1));
    assert_eq!(record_access(Some((3_000_000, 100, 2)), Some(42_500_000), 50), (42_500_000, 100, 3));
    assert_eq!(record_access(Some((50_000_000, 10, 2)), Some(42_500_000), 50), (50_000_000, 50, 3));
}

#[test]
fn export_then_import_preserves_rows() {
    let rows = vec![row("/a", 7_250_000, NOW - 5000), row("/b", 1_000_000, NOW - 10)];
    let exported = select_frecent(&rows, &vec![], NOW, 10, true);
    for (i, res) in exported.iter().enumerate() {
        let (rank, last, _) = record_access(None, res.rank, res.last_access.unwrap());
        let stored = rows.iter().find(|r| r.path == res.path).unwrap();
        assert_eq!((rank, last), (stored.rank, stored.last_access), "row {}", i);
        assert_eq!(res.path_type, stored.path_type);
    }
    assert_eq!(exported.len(), 2);
}

#[test]
fn aging_fires_above_the_threshold() {
    assert_eq!(age_ranks(&vec![1_000_000_000, 1_000_000_000]), None);
    assert_eq!(
        age_ranks(&vec![1_500_000_000, 600_000_000, 1_000_000]),
        Some(vec![Some(1_350_000_000), Some(540_000_000), None])
    );
    let aged = age_ranks(&vec![2_000_000_001]).unwrap();
    assert_eq!(aged, vec![Some(1_800_000_000)]);
}

#[test]
fn most_bumped_directory_comes_first() {
    let src = bumped(5);
    let other = bumped(1);
    let rows = vec![row("/home/u/other", other.0, other.1), row("/home/u/project/src", src.0, src.1)];
    let out = select_frecent(&rows, &vec![], NOW, 10, false);
    assert_eq!(out[0].path, "/home/u/project/src");
    assert_eq!(out[0].rank, None);
    assert_eq!(out.len(), 2);
}

#[test]
fn ordered_terms_select_one_path() {
    let rows = vec![row("/home/u/project/src", 1_000_000, NOW), row("/home/u/other", 1_000_000, NOW)];
    let terms = vec!["proj".to_string(), "src".to_string()];
    let out = select_frecent(&rows, &terms, NOW, 10, false);
    assert_eq!(out.len(), 1);
    assert_eq!(out[0].path, "/home/u/project/src");
}

#[test]
fn earlier_tiers_shadow_later_ones() {
    let rows = vec![
        row("/Work/Proj", 9_000_000, NOW),
        row("/work/proj", 1_000_000, NOW),
        row("/w/o/r/k", 5_000_000, NOW),
    ];
    let t1 = select_frecent(&rows, &vec!["work".to_string()], NOW, 10, false);
    assert_eq!(t1.len(), 1);
    assert_eq!(t1[0].path, "/work/proj");
    let t2 = select_frecent(&rows, &vec!["WORK".to_string()], NOW, 10, false);
    assert_eq!(t2.len(), 2);
    assert_eq!(t2[0].path, "/Work/Proj");
    let t3 = select_frecent(&rows, &vec!["wrk".to_string()], NOW, 10, false);
    assert_eq!(t3.len(), 3);
    assert_eq!(t3[2].path, "/work/proj");
    assert!(select_frecent(&rows, &vec!["zz".to_string()], NOW, 10, false).is_empty());
}

#[test]
fn query_limit_and_raw_fields() {
    let rows = vec![row("/a", 2_000_000, NOW), row("/b", 3_000_000, NOW - 90_000)];
    let out = select_frecent(&rows, &vec![], NOW, 1, true);
    assert_eq!(out.len(), 1);
    assert_eq!(out[0].path, "/a");
    assert_eq!(out[0].score, 12_000_000);
    assert_eq!(out[0].rank, Some(2_000_000));
    assert_eq!(out[0].last_access, Some(NOW));
}
