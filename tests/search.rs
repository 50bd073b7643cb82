use rippkgs::error::Error;
use rippkgs::fuzzy::Scorer;
use rippkgs::package::{resolve_store_path, Package};
use rippkgs::rank::{rank, search};

fn package(name: &str, store_path: Option<&str>) -> Package {
    Package {
        attribute: name.to_string(),
        name: name.to_string(),
        version: "1.0".to_string(),
        store_path: store_path.map(|s| s.to_string()),
        description: None,
        long_description: None,
        score: None,
    }
}

fn scored(name: &str, score: Option<i64>) -> Package {
    let mut p = package(name, Some("/nix/store/x"));
    p.score = score;
    p
}

fn names(v: &[Package]) -> Vec<String> {
    v.iter().map(|p| p.name.clone()).collect()
}

#[test]
fn subsequence_matches_and_non_subsequence_does_not() {
    let s = Scorer::new();
    assert!(s.score("firefox", "ffx").is_some());
    assert!(s.score("firefox", "xyz").is_none());
}

#[test]
fn closer_matches_score_higher() {
    let s = Scorer::new();
    let full = s.score("firefox", "firefox").unwrap();
    let ffx = s.score("firefox", "ffx").unwrap();
    let fx = s.score("firefox", "fx").unwrap();
    assert!(full >= ffx);
    assert!(ffx >= fx);
    assert!(fx > 0);
    assert_eq!(s.score("firefox", "z"), None);
    assert_eq!(s.scalar_fuzzy_score("firefox", "z"), 0);
    assert_eq!(s.scalar_fuzzy_score("firefox", "firefox"), full);
}

#[test]
fn empty_query_scores_zero() {
    let s = Scorer::new();
    assert_eq!(s.score("firefox", ""), Some(0));
}

#[test]
fn matching_names_rank_first() {
    let s = Scorer::new();
    let rows = vec![
        (package("firefox", Some("/nix/store/a")), false),
        (package("chromium", Some("/nix/store/b")), false),
        (package("fox", Some("/nix/store/c")), false),
    ];
    let first = search(&s, "fox", &rows, 10, false);
    let n = names(&first);
    assert_eq!(n.len(), 3);
    assert_eq!(n[2], "chromium");
    assert!(n[..2].contains(&"fox".to_string()));
    assert!(n[..2].contains(&"firefox".to_string()));
    assert!(first[0].score.is_some());
    assert_eq!(first[2].score, None);
    let second = search(&s, "fox", &rows, 10, false);
    assert_eq!(names(&second), n);
}

#[test]
fn result_count_is_limited() {
    let s = Scorer::new();
    let rows = vec![
        (package("firefox", Some("/nix/store/a")), true),
        (package("chromium", Some("/nix/store/b")), true),
        (package("fox", Some("/nix/store/c")), true),
    ];
    assert_eq!(search(&s, "fox", &rows, 0, false).len(), 0);
    assert_eq!(search(&s, "fox", &rows, 1, false).len(), 1);
    assert_eq!(search(&s, "fox", &rows, 2, false).len(), 2);
    assert_eq!(search(&s, "fox", &rows, 5, false).len(), 3);
}

#[test]
fn rank_orders_by_score_stably() {
    let records = vec![
        scored("a", Some(5)),
        scored("b", None),
        scored("c", Some(9)),
        scored("d", Some(5)),
        scored("e", Some(-3)),
    ];
    assert_eq!(names(&rank(&records, 10)), vec!["c", "a", "d", "b", "e"]);
    assert_eq!(names(&rank(&records, 2)), vec!["c", "a"]);
    assert!(rank(&records, 0).is_empty());
    assert!(rank(&Vec::new(), 3).is_empty());
}

#[test]
fn rows_without_store_path_are_dropped() {
    let s = Scorer::new();
    let rows = vec![
        (package("stdenv", None), true),
        (package("hello", Some("/nix/store/h")), false),
    ];
    assert_eq!(names(&search(&s, "", &rows, 10, false)), vec!["hello"]);
}

#[test]
fn existence_filter_keeps_built_rows_only() {
    let s = Scorer::new();
    let rows = vec![
        (package("git", Some("/nix/store/g")), true),
        (package("gitg", Some("/nix/store/gg")), false),
        (package("gitui", Some("/nix/store/gu")), true),
    ];
    let once = search(&s, "git", &rows, 10, true);
    let mut n = names(&once);
    n.sort();
    assert_eq!(n, vec!["git", "gitui"]);
    let again = search(&s, "git", &rows, 10, true);
    assert_eq!(names(&again), names(&once));
    let survivors: Vec<(Package, bool)> = rows
        .iter()
        .filter(|(p, b)| p.name != "gitg" || *b)
        .map(|(p, b)| (p.clone(), *b))
        .collect();
    assert_eq!(names(&search(&s, "git", &survivors, 10, true)), names(&once));
    assert_eq!(search(&s, "git", &rows, 10, false).len(), 3);
}

#[test]
fn store_paths_resolve_under_the_store_root() {
    assert_eq!(resolve_store_path("/nix/store/abc-hello"), "/nix/store/abc-hello");
    assert_eq!(resolve_store_path("abc-hello"), "/nix/store/abc-hello");
    assert_eq!(resolve_store_path(""), "/nix/store/");
}

#[test]
fn rows_decode_or_fail() {
    let ok = Package::from_columns(
        Some("hello".to_string()),
        Some("hello".to_string()),
        Some("2.12".to_string()),
        Some("/nix/store/h".to_string()),
        None,
        Some("long".to_string()),
    );
    match ok {
        Ok(p) => {
            assert_eq!(p.attribute, "hello");
            assert_eq!(p.version, "2.12");
            assert_eq!(p.long_description.as_deref(), Some("long"));
            assert_eq!(p.score, None);
        }
        Err(_) => panic!("row should decode"),
    }
    let bad = Package::from_columns(Some("x".to_string()), Some("x".to_string()), None, None, None, None);
    assert!(matches!(bad, Err(Error::SearchReadFailure { .. })));
}
