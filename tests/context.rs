use nicehist::context::{
    branch_from_output, detect_git, detect_hg, detect_in_dir, detect_project_type, detect_vcs,
    find_repo_root, git_branch_from_head, ContextRanker, ProjectType, RankingContext,
};

fn names(list: &[&str]) -> Vec<String> {
    list.iter().map(|s| s.to_string()).collect()
}

#[test]
fn test_project_type_display() {
    assert_eq!(ProjectType::Rust.to_string(), "rust");
    assert_eq!(ProjectType::Node.to_string(), "node");
    assert_eq!(ProjectType::Python.to_string(), "python");
}

#[test]
fn test_detect_nonexistent() {
    let pt = detect_project_type(&vec![vec![]]);
    let _ = pt;
}

#[test]
fn test_detect_vcs_nonexistent() {
    let info = detect_vcs(detect_git(None, None), detect_hg(None, None));
    match info {
        None => {}
        Some(ref i) => {
            assert!(i.vcs_type == "git" || i.vcs_type == "hg");
        }
    }
}

#[test]
fn test_matches_project_type_rust() {
    assert!(ContextRanker::matches_project_type("cargo build", "rust"));
    assert!(ContextRanker::matches_project_type("cargo test", "rust"));
    assert!(!ContextRanker::matches_project_type("npm install", "rust"));
}

#[test]
fn test_matches_project_type_node() {
    assert!(ContextRanker::matches_project_type("npm install", "node"));
    assert!(ContextRanker::matches_project_type("yarn add", "node"));
    assert!(!ContextRanker::matches_project_type("cargo build", "node"));
}

#[test]
fn test_combined_score() {
    let score = ContextRanker::combined_score(800_000, 600_000, 1_000_000);
    assert!(score > 500_000);
    assert!(score <= 1_000_000);
    let higher = ContextRanker::combined_score(1_000_000, 1_000_000, 1_000_000);
    assert!(higher > score);
    assert_eq!(score, 780_000);
}

#[test]
fn test_context_score() {
    let ctx = RankingContext::new("/home/user/project".to_string())
        .with_project(Some("rust".to_string()));
    let score = ContextRanker::context_score("cargo build", &ctx, 10, 20);
    assert!(score > 0);
    let score2 = ContextRanker::context_score("npm install", &ctx, 0, 20);
    assert!(score2 < score);
    assert_eq!(score, 350_000);
    assert_eq!(score2, 0);
}

#[test]
fn project_markers_in_order() {
    assert_eq!(detect_in_dir(&names(&["README.md", "Cargo.toml"])), Some(ProjectType::Rust));
    assert_eq!(detect_in_dir(&names(&["package.json", "Cargo.toml"])), Some(ProjectType::Rust));
    assert_eq!(detect_in_dir(&names(&["app.csproj"])), Some(ProjectType::CSharp));
    assert_eq!(detect_in_dir(&names(&["x.cabal", "Makefile"])), Some(ProjectType::C));
    assert_eq!(detect_in_dir(&names(&["build.gradle.kts"])), Some(ProjectType::Kotlin));
    assert_eq!(detect_in_dir(&names(&["notes.txt"])), None);
}

#[test]
fn project_found_in_nearest_ancestor() {
    let listings = vec![names(&["main.rs"]), names(&["go.mod"]), names(&["Cargo.toml"])];
    assert_eq!(detect_project_type(&listings), Some(ProjectType::Go));
    assert_eq!(ProjectType::CSharp.to_string(), "csharp");
}

#[test]
fn repo_root_and_branches() {
    let dirs = names(&["/r/a/b", "/r/a", "/r"]);
    assert_eq!(find_repo_root(&dirs, &vec![false, false, true]), Some("/r".to_string()));
    assert_eq!(find_repo_root(&dirs, &vec![false, false, false]), None);
    assert_eq!(git_branch_from_head("ref: refs/heads/main\n"), Some("main".to_string()));
    assert_eq!(git_branch_from_head("0123456789abcdef"), Some("0123456".to_string()));
    assert_eq!(git_branch_from_head("abc"), None);
    assert_eq!(branch_from_output(" dev \n", Some("HEAD")), Some("dev".to_string()));
    assert_eq!(branch_from_output("HEAD\n", Some("HEAD")), None);
    assert_eq!(branch_from_output("  ", None), None);
    let hg = detect_hg(Some("/r".to_string()), None).unwrap();
    assert_eq!(hg.vcs_type, "hg");
    assert_eq!(hg.branch, Some("default".to_string()));
    let git = detect_git(Some("/g".to_string()), Some("main".to_string()));
    let both = detect_vcs(git, Some(hg)).unwrap();
    assert_eq!(both.vcs_type, "git");
    assert_eq!(both.root, "/g");
}

#[test]
fn branch_patterns() {
    assert!(ContextRanker::matches_branch_pattern("cargo test", "Feature/login"));
    assert!(!ContextRanker::matches_branch_pattern("git push", "feature/login"));
    assert!(ContextRanker::matches_branch_pattern("npm run deploy", "main"));
    assert!(ContextRanker::matches_branch_pattern("gdb --DEBUG", "bugfix/x"));
    assert!(!ContextRanker::matches_branch_pattern("cargo test", "develop"));
}

#[test]
fn ranking_context_builders() {
    let ctx = RankingContext::new("/p".to_string())
        .with_branch(Some("main".to_string()))
        .with_hour(9);
    assert_eq!(ctx.cwd, "/p");
    assert_eq!(ctx.vcs_branch, Some("main".to_string()));
    assert_eq!(ctx.hour, Some(9));
    assert_eq!(ctx.project_type, None);
    let score = ContextRanker::context_score("git push", &ctx, 20, 10);
    assert_eq!(score, 450_000);
}
