use nicehist::matcher::{contains_text, matches_fuzzy, matches_ordered_substring};

#[test]
fn test_matches_ordered_substring_fn() {
    assert!(matches_ordered_substring("/home/user/project/src", &["proj".to_string(), "src".to_string()], false));
    assert!(!matches_ordered_substring("/home/user/project/src", &["src".to_string(), "proj".to_string()], false));
    assert!(matches_ordered_substring("/Home/User/Project", &["project".to_string()], true));
    assert!(!matches_ordered_substring("/Home/User/Project", &["project".to_string()], false));
}

#[test]
fn test_matches_fuzzy_fn() {
    assert!(matches_fuzzy("/home/user/project", &["prj".to_string()]));
    assert!(!matches_fuzzy("/home/user/project", &["xyz".to_string()]));
}

#[test]
fn ordered_matches_do_not_overlap() {
    assert!(!matches_ordered_substring("/abc", &["ab".to_string(), "bc".to_string()], false));
    assert!(matches_ordered_substring("/abcbc", &["ab".to_string(), "bc".to_string()], false));
    assert!(matches_ordered_substring("/x", &[], false));
    assert!(matches_ordered_substring("/x", &["".to_string()], true));
}

#[test]
fn fuzzy_does_not_reset_between_terms() {
    assert!(matches_fuzzy("/a/b/c", &["ab".to_string(), "c".to_string()]));
    assert!(!matches_fuzzy("/a/b/c", &["c".to_string(), "a".to_string()]));
    assert!(matches_fuzzy("/Home/Docs", &["HD".to_string()]));
}

#[test]
fn lowercase_is_full_unicode() {
    assert!(matches_ordered_substring("/ÉTÉ/Ünï", &["été".to_string(), "ünï".to_string()], true));
    assert!(!matches_ordered_substring("/ÉTÉ", &["été".to_string()], false));
}

#[test]
fn contains_text_finds_substrings() {
    assert!(contains_text("cargo test --all", "test"));
    assert!(!contains_text("cargo", "cargo build"));
    assert!(contains_text("x", ""));
}
