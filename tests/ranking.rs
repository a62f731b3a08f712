use nicehist::fixed::{decay_fine, ln_micro};
use nicehist::protocol::PredictParams;
use nicehist::ranking::{
    arg_patterns_of_deleted, arg_suggestions, expects_argument, frecent_boost, ngram_bonus,
    predict_from, rank_candidates, rank_search, score_candidate, select_candidates, ArgCount,
    Candidate, CandidateRow, NgramStats, PredictInputs, RankingWeights, SearchRow,
};

const NOW: i64 = 1_700_000_300;

fn cand(cmd: &str, freq: u64, last_used: i64) -> Candidate {
    Candidate {
        cmd: cmd.to_string(),
        freq,
        last_used,
        exact_dir_freq: freq,
        hierarchy: 1_000_000,
        failures: 0,
    }
}

fn hit(cmd: &str, frequency: i64) -> NgramStats {
    NgramStats { command: cmd.to_string(), frequency, last_used: NOW }
}

#[test]
fn fixed_point_log_and_decay() {
    assert_eq!(ln_micro(0), 0);
    assert_eq!(ln_micro(1), 0);
    assert_eq!(ln_micro(2), 693_147);
    assert_eq!(ln_micro(10), 2_302_585);
    assert_eq!(ln_micro(16), 2_772_588);
    assert_eq!(decay_fine(0), 1_000_000_000_000_000_000);
    assert_eq!(decay_fine(-5), 1_000_001_847_808_205_553);
    assert_eq!(decay_fine(-500 * 86_400), 1_000_000_000_000_000_000_000_000);
    assert_eq!(decay_fine(1), 999_999_630_439_041_767);
    assert_eq!(decay_fine(2), 999_999_260_878_083_534);
    assert_eq!(decay_fine(224_580), 917_004_000_000_000_000);
    assert_eq!(decay_fine(8 * 224_580), 500_000_000_000_000_000);
    assert_eq!(decay_fine(86_400), 968_069_933_208_656_159);
    assert_eq!(decay_fine(500 * 86_400), 57_828_343_173);
    assert_eq!(decay_fine(1226 * 86_400), 1);
    assert_eq!(decay_fine(1228 * 86_400), 0);
    let month = decay_fine(30 * 86_400);
    assert!(month > 360_000_000_000_000_000 && month < 375_000_000_000_000_000);
}

#[test]
fn composite_score_exact_values() {
    let w = RankingWeights::default();
    let mut c = Candidate {
        cmd: "ls".to_string(),
        freq: 1,
        last_used: NOW,
        exact_dir_freq: 1,
        hierarchy: 0,
        failures: 0,
    };
    assert_eq!(score_candidate(&c, &w, NOW, 0, 0), 650_000_000_000_000_000);
    c.failures = 1;
    assert_eq!(score_candidate(&c, &w, NOW, 0, 0), 325_000_000_000_000_000);
    c.failures = 0;
    c.freq = 10;
    c.exact_dir_freq = 0;
    c.hierarchy = 500_000;
    // 230258 * 0.35 + 300000 + 75000
    assert_eq!(score_candidate(&c, &w, NOW, 0, 0), 455_590_300_000_000_000);
    assert_eq!(score_candidate(&c, &w, NOW, 600_000, 0), 1_000_000_000_000_000_000);
}

#[test]
fn recency_law_on_values() {
    let w = RankingWeights::default();
    let recent = Candidate { exact_dir_freq: 0, hierarchy: 0, ..cand("a", 3, NOW - 86_400) };
    let older = Candidate { last_used: NOW - 40 * 86_400, ..recent.clone() };
    assert!(score_candidate(&recent, &w, NOW, 0, 0) > score_candidate(&older, &w, NOW, 0, 0));
    let one_second = Candidate { last_used: NOW - 1, ..recent.clone() };
    let two_seconds = Candidate { last_used: NOW - 2, ..recent.clone() };
    assert_eq!(score_candidate(&one_second, &w, NOW, 0, 0), 338_451_239_131_712_530);
    assert_eq!(score_candidate(&two_seconds, &w, NOW, 0, 0), 338_451_128_263_425_060);
}

#[test]
fn recency_still_orders_old_commands() {
    let w = RankingWeights::default();
    let base = Candidate {
        cmd: "a".to_string(),
        freq: 1,
        last_used: NOW - 579 * 86_400,
        exact_dir_freq: 0,
        hierarchy: 0,
        failures: 0,
    };
    let older = Candidate { last_used: NOW - 694 * 86_400, ..base.clone() };
    assert_eq!(score_candidate(&base, &w, NOW, 0, 0), 1_246_115_201);
    assert_eq!(score_candidate(&older, &w, NOW, 0, 0), 26_944_206);
    assert_eq!(score_candidate(&older, &w, NOW + 1, 0, 0), 26_944_195);
}

#[test]
fn directory_law_on_values() {
    let w = RankingWeights::default();
    let exact = Candidate { exact_dir_freq: 2, hierarchy: 0, ..cand("a", 2, NOW - 10 * 86_400) };
    let ancestor = Candidate { exact_dir_freq: 0, hierarchy: 800_000, ..exact.clone() };
    let none = Candidate { exact_dir_freq: 0, hierarchy: 0, ..exact.clone() };
    let (e, a, n) = (
        score_candidate(&exact, &w, NOW, 0, 0),
        score_candidate(&ancestor, &w, NOW, 0, 0),
        score_candidate(&none, &w, NOW, 0, 0),
    );
    assert!(e > a && a > n);
}

#[test]
fn trigram_bonus_beats_bigram_bonus() {
    let tri = vec![hit("git push", 8)];
    let bi = vec![hit("git push", 8), hit("git pull", 8)];
    let push = ngram_bonus("git push", &tri, &bi);
    let pull = ngram_bonus("git pull", &tri, &bi);
    assert_eq!(pull, 207_944);
    assert_eq!(push, 311_916);
    assert_eq!(ngram_bonus("git status", &tri, &bi), 0);
    assert_eq!(ngram_bonus("x", &vec![hit("x", 1_000_000_000)], &vec![]), 1_000_000);
    // the higher bonus wins: a trigram hit of frequency 1 does not hide a bigram hit
    assert_eq!(ngram_bonus("y", &vec![hit("y", 1)], &vec![hit("y", 3)]), 109_861);
}

#[test]
fn successor_ranks_first_with_bigram() {
    let w = RankingWeights::default();
    let cands = vec![
        cand("make build", 10, 1_700_000_090),
        cand("make test", 10, 1_700_000_095),
        cand("make clean", 3, 1_700_000_220),
    ];
    let bigrams = vec![hit("make test", 10)];
    let out = rank_candidates(&cands, &vec![], &bigrams, 0, &w, 2_000_000_000, 5);
    assert_eq!(out.len(), 3);
    assert_eq!(out[0].cmd, "make test");
    assert!(out[0].score > 100_000_000_000_000_000);
    assert!(out[0].score > out[1].score);
    let plain = rank_candidates(&cands, &vec![], &vec![], 0, &w, 2_000_000_000, 5);
    let names: Vec<&str> = plain.iter().map(|s| s.cmd.as_str()).collect();
    assert!(names.contains(&"make build"));
    assert!(names.contains(&"make test"));
    assert!(names.contains(&"make clean"));
}

#[test]
fn trigram_successor_outscores_bigram_only() {
    let w = RankingWeights::default();
    let cands = vec![
        cand("git push", 8, 1_700_000_230),
        cand("git pull", 3, 1_700_000_320),
        cand("git add -A", 8, 1_700_000_210),
    ];
    let tri = vec![hit("git push", 8)];
    let bi = vec![hit("git push", 8), hit("git pull", 3)];
    let out = rank_candidates(&cands, &tri, &bi, 0, &w, 2_000_000_000, 5);
    let push = out.iter().find(|s| s.cmd == "git push").unwrap();
    let pull = out.iter().find(|s| s.cmd == "git pull").unwrap();
    assert!(push.score > pull.score);
}

#[test]
fn ranking_truncates_and_keeps_ties_in_order() {
    let w = RankingWeights::default();
    let cands = vec![cand("a", 1, NOW), cand("b", 1, NOW), cand("c", 1, NOW)];
    let out = rank_candidates(&cands, &vec![], &vec![], 0, &w, NOW, 2);
    assert_eq!(out.len(), 2);
    assert_eq!(out[0].cmd, "a");
    assert_eq!(out[1].cmd, "b");
    assert!(rank_candidates(&cands, &vec![], &vec![], 0, &w, NOW, 0).is_empty());
}

#[test]
fn argument_suggestions() {
    assert!(expects_argument("git checkout "));
    assert!(!expects_argument("git checkout"));
    assert!(!expects_argument("   "));
    let rows = vec![
        ArgCount { arg_value: "main".to_string(), total_freq: 10, dir_freq: 3 },
        ArgCount { arg_value: "dev".to_string(), total_freq: 1, dir_freq: 0 },
    ];
    let out = arg_suggestions("git checkout ", &rows);
    assert_eq!(out[0].cmd, "git checkout main");
    assert_eq!(out[0].score, 530_258_000_000_000_000);
    assert_eq!(out[1].cmd, "git checkout dev");
    assert_eq!(out[1].score, 0);
}

#[test]
fn predict_prefers_argument_suggestions() {
    let params = PredictParams {
        prefix: "git checkout ".to_string(),
        cwd: "/p".to_string(),
        last_cmds: vec![],
        limit: 1,
        frecent_boost: true,
        weights: None,
    };
    let inputs = PredictInputs {
        arg_rows: vec![
            ArgCount { arg_value: "main".to_string(), total_freq: 4, dir_freq: 1 },
            ArgCount { arg_value: "dev".to_string(), total_freq: 2, dir_freq: 0 },
        ],
        trigrams: vec![],
        bigrams: vec![],
        candidates: vec![CandidateRow {
            cmd: "git checkout main".to_string(),
            freq: 4,
            last_used: NOW,
            exact_dir_freq: 4,
            level_counts: vec![4],
            failures: 0,
        }],
        cwd_rank: None,
    };
    let out = predict_from(&params, &inputs, NOW);
    assert_eq!(out.len(), 1);
    assert_eq!(out[0].cmd, "git checkout main");
    let no_args = PredictInputs { arg_rows: vec![], ..inputs.clone() };
    let out = predict_from(&PredictParams { limit: 5, ..params.clone() }, &no_args, NOW);
    assert_eq!(out.len(), 1);
    assert_eq!(out[0].cmd, "git checkout main");
}

#[test]
fn frecent_boost_values() {
    let w = RankingWeights::default();
    assert_eq!(frecent_boost(false, Some(50_000_000), &w), 0);
    assert_eq!(frecent_boost(true, None, &w), 0);
    assert_eq!(frecent_boost(true, Some(1_000_000), &w), 6_931);
    assert_eq!(frecent_boost(true, Some(500_000), &w), 4_049);
    assert_eq!(frecent_boost(true, Some(u64::MAX), &w), 100_000);
    let capped = RankingWeights { frecent_boost_max: 5_000, ..w };
    assert_eq!(frecent_boost(true, Some(1_000_000), &capped), 5_000);
}

#[test]
fn search_orders_by_score() {
    let rows = vec![
        SearchRow {
            cmd: "git status".to_string(),
            cwd: "/p".to_string(),
            timestamp: NOW - 100 * 86_400,
            exit_status: Some(0),
            duration_ms: Some(100),
            freq: 1,
            failures: 0,
        },
        SearchRow {
            cmd: "git log".to_string(),
            cwd: "/q".to_string(),
            timestamp: NOW,
            exit_status: Some(1),
            duration_ms: None,
            freq: 4,
            failures: 1,
        },
    ];
    let out = rank_search(&rows, NOW);
    assert_eq!(out.len(), 2);
    assert_eq!(out[0].cmd, "git log");
    assert_eq!(out[0].cwd, "/q");
    assert_eq!(out[1].cmd, "git status");
    assert_eq!(out[1].duration_ms, Some(100));
    assert!(out[0].score.unwrap() > out[1].score.unwrap());
}

#[test]
fn deleting_drops_patterns_of_program_and_subcommand() {
    assert_eq!(
        arg_patterns_of_deleted("git checkout main"),
        Some(("git".to_string(), "checkout".to_string()))
    );
    assert_eq!(arg_patterns_of_deleted("ls -la"), None);
    assert_eq!(arg_patterns_of_deleted(""), None);
}

fn row(cmd: &str, exact: u64, levels: Vec<u64>, last_used: i64) -> CandidateRow {
    CandidateRow { cmd: cmd.to_string(), freq: 3, last_used, exact_dir_freq: exact, level_counts: levels, failures: 0 }
}

#[test]
fn candidates_selected_by_directory_then_recency() {
    let dirs: Vec<String> = vec!["/home/user/project".to_string(), "/home/user".to_string(), "/home".to_string()];
    let rows = vec![
        row("far", 0, vec![0, 0, 1], NOW),
        row("near", 0, vec![0, 2, 1], NOW - 500),
        row("here-old", 1, vec![1, 0, 0], NOW - 900),
        row("here-new", 1, vec![1, 0, 0], NOW - 100),
        row("none", 0, vec![0, 0, 0], NOW + 50),
    ];
    let out = select_candidates(&rows, "/home/user/project", &dirs, 2);
    let names: Vec<&str> = out.iter().map(|c| c.cmd.as_str()).collect();
    assert_eq!(names, vec!["here-new", "here-old", "near", "far"]);
    assert_eq!(out[2].hierarchy, 1_545_892);
    assert_eq!(out[3].hierarchy, 434_782);
    assert_eq!(out[0].hierarchy, 1_000_000);
    assert_eq!(select_candidates(&rows, "/home/user/project", &dirs, 1).len(), 2);
}
