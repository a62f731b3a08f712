use nicehist::cache::{PredictionCache, PredictionEngine};
use nicehist::ranking::Suggestion;

#[test]
fn test_prediction_cache() {
    let mut engine = PredictionEngine::new();
    let suggestions = vec![
        Suggestion { cmd: "git status".to_string(), score: 900_000_000_000_000_000 },
        Suggestion { cmd: "git add".to_string(), score: 800_000_000_000_000_000 },
    ];
    assert!(engine.get_cached("git", "/home/user", None).is_none());
    engine.cache_predictions("git", "/home/user", None, suggestions.clone());
    let cached = engine.get_cached("git", "/home/user", None);
    assert!(cached.is_some());
    assert_eq!(cached.unwrap().len(), 2);
    assert!(engine.get_cached("git", "/other/dir", None).is_none());
}

#[test]
fn test_cache_eviction() {
    let mut cache = PredictionCache::new(2);
    cache.insert("a".to_string(), vec![]);
    cache.insert("b".to_string(), vec![]);
    assert_eq!(cache.len(), 2);
    cache.insert("c".to_string(), vec![]);
    assert_eq!(cache.len(), 2);
    assert!(cache.contains_key("c"));
    assert!(!cache.contains_key("a"));
}

#[test]
fn cache_keys_replace_and_invalidate() {
    assert_eq!(PredictionEngine::cache_key("git", "/p", Some("ls")), "git:/p:ls");
    assert_eq!(PredictionEngine::cache_key("git", "/p", None), "git:/p:");
    let mut engine = PredictionEngine::new();
    engine.cache_predictions("git", "/p", None, vec![]);
    engine.cache_predictions("git", "/p", None, vec![Suggestion { cmd: "git log".to_string(), score: 1 }]);
    engine.cache_predictions("make", "/p", None, vec![]);
    assert_eq!(engine.cache.len(), 2);
    assert_eq!(engine.get_cached("git", "/p", None).unwrap()[0].cmd, "git log");
    engine.invalidate_cache("gi");
    assert!(engine.get_cached("git", "/p", None).is_none());
    assert!(engine.get_cached("make", "/p", None).is_some());
}
