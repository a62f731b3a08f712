use nicehist::lines::{history_command, split_fasd_line};
use nicehist::migrate::{migration_plan, MigrationStep, CURRENT_VERSION};
use nicehist::ingest::{args_digest, pattern_values, time_bucket};
use nicehist::parser::{extract_learnable_args, parse_command, tokenize};
use nicehist::text::trim_bounds;

#[test]
fn test_parse_simple_command() {
    let parsed = parse_command("ls -la");
    assert_eq!(parsed.program, "ls");
    assert_eq!(parsed.subcommand, None);
    assert_eq!(parsed.args, vec!["-la"]);
}

#[test]
fn test_parse_git_command() {
    let parsed = parse_command("git commit -m 'test message'");
    assert_eq!(parsed.program, "git");
    assert_eq!(parsed.subcommand, Some("commit".to_string()));
    assert_eq!(parsed.args, vec!["-m", "'test message'"]);
}

#[test]
fn test_parse_git_checkout() {
    let parsed = parse_command("git checkout feature/login");
    assert_eq!(parsed.program, "git");
    assert_eq!(parsed.subcommand, Some("checkout".to_string()));
    assert_eq!(parsed.args, vec!["feature/login"]);
}

#[test]
fn test_parse_docker_command() {
    let parsed = parse_command("docker run -it ubuntu bash");
    assert_eq!(parsed.program, "docker");
    assert_eq!(parsed.subcommand, Some("run".to_string()));
    assert_eq!(parsed.args, vec!["-it", "ubuntu", "bash"]);
}

#[test]
fn test_parse_with_flags_first() {
    let parsed = parse_command("git -C /path status");
    assert_eq!(parsed.program, "git");
    assert_eq!(parsed.subcommand, None);
}

#[test]
fn test_partial_command() {
    let parsed = parse_command("git checkout ");
    assert!(parsed.is_partial());
    assert_eq!(parsed.arg_lookup_key(), "git checkout");
}

#[test]
fn test_tokenize_quoted() {
    let tokens = tokenize("echo 'hello world' foo");
    assert_eq!(tokens, vec!["echo", "'hello world'", "foo"]);
}

#[test]
fn test_extract_learnable_args() {
    let parsed = parse_command("git checkout -b feature/new-thing");
    let learnable = extract_learnable_args(&parsed);
    assert!(learnable.contains(&"feature/new-thing".to_string()));
}

#[test]
fn test_cargo_command() {
    let parsed = parse_command("cargo build --release");
    assert_eq!(parsed.program, "cargo");
    assert_eq!(parsed.subcommand, Some("build".to_string()));
    assert_eq!(parsed.args, vec!["--release"]);
}

#[test]
fn parse_empty_and_blank_commands() {
    let parsed = parse_command("   ");
    assert_eq!(parsed.program, "");
    assert_eq!(parsed.subcommand, None);
    assert!(parsed.args.is_empty());
    assert!(parsed.is_partial());
    assert_eq!(parsed.full, "   ");
    assert_eq!(parse_command("").program, "");
}

#[test]
fn parse_trims_and_keeps_full_text() {
    let parsed = parse_command("  make   build\n");
    assert_eq!(parsed.program, "make");
    assert_eq!(parsed.subcommand, Some("build".to_string()));
    assert!(parsed.args.is_empty());
    assert_eq!(parsed.full, "  make   build\n");
    assert!(parsed.is_partial());
}

#[test]
fn subcommand_programs_ignore_ascii_case() {
    let parsed = parse_command("GIT Push origin");
    assert_eq!(parsed.subcommand, Some("Push".to_string()));
    assert_eq!(parsed.args, vec!["origin"]);
    let plain = parse_command("ls build");
    assert_eq!(plain.subcommand, None);
    assert_eq!(plain.args, vec!["build"]);
}

#[test]
fn tokenize_double_quotes_and_tabs() {
    assert_eq!(tokenize("a\t\"b c\" 'd\"e' f"), vec!["a", "\"b c\"", "'d\"e'", "f"]);
    assert_eq!(tokenize("x'y z'w"), vec!["x'y z'w"]);
    assert!(tokenize("  ").is_empty());
    assert_eq!(tokenize("'open quote"), vec!["'open quote"]);
}

#[test]
fn learnable_args_skip_flags_and_messages() {
    let parsed = parse_command("git commit -m wip --file notes.txt -v target");
    let learned = extract_learnable_args(&parsed);
    assert_eq!(learned, vec!["notes.txt", "target"]);
    let long = "x".repeat(101);
    let parsed = parse_command(&format!("ls {} y", long));
    assert_eq!(extract_learnable_args(&parsed), vec!["y"]);
}

#[test]
fn pattern_values_keep_two_to_hundred_chars() {
    let parsed = parse_command("git checkout a main");
    assert_eq!(pattern_values(&parsed), vec!["main"]);
}

#[test]
fn arg_digest_is_first_fifty_chars() {
    let parsed = parse_command("echo one two");
    assert_eq!(args_digest(&parsed.args), "one two");
    let words: Vec<String> = (0..20).map(|i| format!("w{:02}", i)).collect();
    let digest = args_digest(&words);
    assert_eq!(digest.chars().count(), 50);
    assert!(digest.starts_with("w00 w01 w02"));
}

#[test]
fn time_bucket_is_hour_of_day() {
    assert_eq!(time_bucket(1700000000), 22);
    assert_eq!(time_bucket(0), 0);
    assert_eq!(time_bucket(3599), 0);
    assert_eq!(time_bucket(3600), 1);
    assert_eq!(time_bucket(-1), 23);
}

#[test]
fn trim_bounds_strip_unicode_space() {
    assert_eq!(trim_bounds("\u{a0} ab \n"), (2, 4));
    assert_eq!(trim_bounds("   "), (3, 3));
}

#[test]
fn history_lines() {
    assert_eq!(history_command(": 1700000000:0;git status"), Some("git status".to_string()));
    assert_eq!(history_command("ls -la"), Some("ls -la".to_string()));
    assert_eq!(history_command(": 17:0 no command"), None);
    assert_eq!(history_command(": 17:0;   "), None);
    assert_eq!(history_command("   "), None);
}

#[test]
fn fasd_lines() {
    assert_eq!(
        split_fasd_line(" /a|b/c|42.5|1700000000 \n"),
        Some(("/a|b/c".to_string(), "42.5".to_string(), "1700000000".to_string()))
    );
    assert_eq!(split_fasd_line("/a|1"), None);
}

#[test]
fn migrations_plan_and_idempotence() {
    assert_eq!(migration_plan(0), vec![MigrationStep::InstallSchema]);
    assert_eq!(migration_plan(1), vec![MigrationStep::Upgrade(2), MigrationStep::Upgrade(3)]);
    assert!(migration_plan(CURRENT_VERSION).is_empty());
}
