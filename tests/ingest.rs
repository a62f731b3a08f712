use nicehist::ingest::{candidate_paths, get_directory_hierarchy, paths_to_bump, plan_ingestion, PathKind};
use nicehist::parser::parse_command;
use nicehist::protocol::{
    default_frecent_limit, default_limit, default_path_type, default_search_limit, default_true,
    path_type_filter, Method, StoreParams,
};

fn store(cmd: &str, prev: Option<&str>, prev2: Option<&str>) -> StoreParams {
    StoreParams {
        cmd: cmd.to_string(),
        cwd: "/p".to_string(),
        exit_status: Some(0),
        duration_ms: Some(100),
        start_time: Some(1_700_000_000),
        session_id: Some(1),
        prev_cmd: prev.map(|s| s.to_string()),
        prev2_cmd: prev2.map(|s| s.to_string()),
    }
}

#[test]
fn hierarchy_lists_up_to_three_ancestors() {
    assert_eq!(
        get_directory_hierarchy("/home/user/project/src", 3),
        vec!["/home/user/project/src", "/home/user/project", "/home/user", "/home"]
    );
    assert_eq!(get_directory_hierarchy("/a/b", 3), vec!["/a/b", "/a"]);
    assert_eq!(get_directory_hierarchy("/", 3), vec!["/"]);
    assert_eq!(get_directory_hierarchy("rel", 3), vec!["rel"]);
    assert_eq!(get_directory_hierarchy("/a/b/c", 0), vec!["/a/b/c"]);
}

#[test]
fn plan_records_bigram_and_trigram() {
    let plan = plan_ingestion(&store("git commit -m 'x'", Some("git add -A"), None), 5);
    assert_eq!(plan.bigram, Some(("git add -A".to_string(), "git commit -m 'x'".to_string())));
    assert_eq!(plan.trigram, None);
    assert_eq!(plan.start_time, 1_700_000_000);
    assert_eq!(plan.time_bucket, 22);
    assert!(plan.record_parse);
    assert_eq!(plan.parsed.subcommand, Some("commit".to_string()));
    assert_eq!(plan.args_digest, "-m 'x'");
    assert!(plan.arg_values.is_empty());

    let plan = plan_ingestion(&store("git push", Some("git commit"), Some("git add")), 5);
    assert_eq!(
        plan.trigram,
        Some(("git add".to_string(), "git commit".to_string(), "git push".to_string()))
    );
    let plan = plan_ingestion(&store("git push", None, Some("git add")), 5);
    assert_eq!(plan.bigram, None);
    assert_eq!(plan.trigram, None);
    let mut p = store("  ", None, None);
    p.start_time = None;
    let plan = plan_ingestion(&p, 7200);
    assert_eq!(plan.start_time, 7200);
    assert_eq!(plan.time_bucket, 2);
    assert!(!plan.record_parse);
}

#[test]
fn plan_learns_checkout_targets() {
    let plan = plan_ingestion(&store("git checkout -b feature/x", None, None), 0);
    assert_eq!(plan.arg_values, vec!["feature/x"]);
}

#[test]
fn argument_paths_resolve_against_cwd_and_home() {
    let parsed = parse_command("vim ~/notes ./src -n /etc/hosts");
    let home = Some("/home/u".to_string());
    assert_eq!(
        candidate_paths(&parsed, "/p", &home),
        vec!["/home/u/notes", "/p/./src", "/etc/hosts"]
    );
    assert_eq!(candidate_paths(&parsed, "/p/", &None), vec!["/p/./src", "/etc/hosts"]);
    let long = "x".repeat(51);
    let parsed = parse_command(&format!("cat {} a.txt", long));
    assert_eq!(candidate_paths(&parsed, "", &None), vec![long.as_str(), "a.txt"]);
}

#[test]
fn only_the_first_five_non_flag_arguments_are_examined() {
    let parsed = parse_command("cp -r a b -v c d e f");
    assert_eq!(candidate_paths(&parsed, "/w", &None), vec!["/w/a", "/w/b", "/w/c", "/w/d", "/w/e"]);
    let parsed = parse_command("ls ~/x b c d e f");
    assert_eq!(candidate_paths(&parsed, "/w", &None), vec!["/w/b", "/w/c", "/w/d", "/w/e"]);
}

#[test]
fn existing_directories_and_files_are_bumped() {
    let paths: Vec<String> = (0..6).map(|i| format!("/d{}", i)).collect();
    let kinds = vec![
        PathKind::Missing,
        PathKind::Dir,
        PathKind::File,
        PathKind::Other,
        PathKind::Dir,
        PathKind::File,
    ];
    let bumps = paths_to_bump(&paths, &kinds);
    assert_eq!(
        bumps,
        vec![
            ("/d1".to_string(), 'd'),
            ("/d2".to_string(), 'f'),
            ("/d4".to_string(), 'd'),
            ("/d5".to_string(), 'f'),
        ]
    );
}

#[test]
fn protocol_defaults_and_dispatch() {
    assert!(default_true());
    assert_eq!(default_limit(), 5);
    assert_eq!(default_search_limit(), 20);
    assert_eq!(default_frecent_limit(), 20);
    assert_eq!(default_path_type(), "d");
    assert_eq!(Method::from_name("frecent_query"), Some(Method::FrecentQuery));
    assert_eq!(Method::from_name("ping"), Some(Method::Ping));
    assert_eq!(Method::from_name("shutdown"), None);
    assert_eq!(path_type_filter(&Some("f".to_string())), Some("f".to_string()));
    assert_eq!(path_type_filter(&Some("x".to_string())), Some("d".to_string()));
    assert_eq!(path_type_filter(&None), None);
}
