use std::cmp::Ordering;

use prism_core::AppState;
use prism_core::CommandEntity;
use prism_core::Entity;
use prism_core::SearchEngine;
use prism_core::search::sort_entities;

fn command(name: &str, description: Option<&str>) -> Entity {
    Entity::Command(CommandEntity {
        id: 0,
        name: name.to_string(),
        alias: None,
        description: description.map(|d| d.to_string()),
        image: None,
        needs_argument: false,
    })
}

#[test]
fn empty_query_matches_everything() {
    let e = command("Firefox", None);
    assert!(SearchEngine::matches(&e, ""));
    let f = command("", None);
    assert!(SearchEngine::matches(&f, ""));
}

#[test]
fn match_is_case_insensitive_on_name() {
    let e = command("FireFox", None);
    assert!(SearchEngine::matches(&e, "fire"));
    assert!(SearchEngine::matches(&e, "FOX"));
    assert!(!SearchEngine::matches(&e, "chrome"));
}

#[test]
fn match_looks_into_description() {
    let e = command("Files", Some("Nautilus File Manager"));
    assert!(SearchEngine::matches(&e, "manager"));
    assert!(SearchEngine::matches(&e, "NAUTILUS"));
    assert!(!SearchEngine::matches(&e, "terminal"));
}

#[test]
fn match_needs_a_substring_not_subsequence() {
    let e = command("Firefox", None);
    assert!(!SearchEngine::matches(&e, "ffx"));
    assert!(SearchEngine::matches(&e, "refo"));
}

#[test]
fn higher_score_sorts_first() {
    let mut st = AppState::new();
    st.record_usage_at("Zed", 10);
    let a = command("Zed", None);
    let b = command("Alacritty", None);
    // Zed has score 1, Alacritty 0: Zed comes strictly first despite its name.
    assert_eq!(SearchEngine::compare(&a, &b, &st), Ordering::Less);
    assert_eq!(SearchEngine::compare(&b, &a, &st), Ordering::Greater);
}

#[test]
fn equal_scores_fall_back_to_name_order() {
    let st = AppState::new();
    let a = command("chrome", None);
    let b = command("Firefox", None);
    assert_eq!(SearchEngine::compare(&a, &b, &st), Ordering::Less);
    assert_eq!(SearchEngine::compare(&b, &a, &st), Ordering::Greater);
    let c = command("FIREFOX", None);
    assert_eq!(SearchEngine::compare(&b, &c, &st), Ordering::Equal);
}

#[test]
fn sorting_twice_changes_nothing() {
    let mut st = AppState::new();
    st.record_usage_at("Vivaldi", 5);
    st.record_usage_at("Vivaldi", 6);
    st.record_usage_at("Chrome", 7);
    let catalog = vec![
        command("Firefox", None),
        command("Chrome", None),
        command("Vivaldi", None),
    ];
    let once = sort_entities(catalog, &st);
    let names_once: Vec<String> = once.iter().map(|e| e.name().to_string()).collect();
    let twice = sort_entities(once, &st);
    let names_twice: Vec<String> = twice.iter().map(|e| e.name().to_string()).collect();
    assert_eq!(names_once, names_twice);
    assert_eq!(names_once, vec!["Vivaldi", "Chrome", "Firefox"]);
}

#[test]
fn sort_is_stable_for_equal_keys() {
    let st = AppState::new();
    // Two distinct entities with the same name keep their arrival order.
    let first = Entity::Command(CommandEntity {
        id: 1,
        name: "Same".to_string(),
        alias: None,
        description: Some("first".to_string()),
        image: None,
        needs_argument: false,
    });
    let second = Entity::Command(CommandEntity {
        id: 2,
        name: "Same".to_string(),
        alias: None,
        description: Some("second".to_string()),
        image: None,
        needs_argument: false,
    });
    let sorted = sort_entities(vec![first, second], &st);
    let descs: Vec<&str> = sorted.iter().map(|e| e.description().unwrap()).collect();
    assert_eq!(descs, vec!["first", "second"]);
}
