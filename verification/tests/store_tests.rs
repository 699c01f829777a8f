use prism_core::AppState;
use prism_core::CommandEntity;
use prism_core::Entity;

fn command(name: &str) -> Entity {
    Entity::Command(CommandEntity {
        id: 0,
        name: name.to_string(),
        alias: None,
        description: None,
        image: None,
        needs_argument: false,
    })
}

fn lookup(st: &AppState, name: &str) -> Option<(u32, u64)> {
    st.usage_stats
        .iter()
        .find(|(k, _)| k == name)
        .map(|(_, info)| (info.count, info.last_used))
}

#[test]
fn first_use_yields_count_one() {
    let mut st = AppState::new();
    st.record_usage_at("Firefox", 1000);
    assert_eq!(lookup(&st, "Firefox"), Some((1, 1000)));
}

#[test]
fn three_records_yield_count_three_and_last_stamp() {
    let mut st = AppState::new();
    st.record_usage_at("Firefox", 10);
    st.record_usage_at("Firefox", 20);
    st.record_usage_at("Firefox", 30);
    assert_eq!(lookup(&st, "Firefox"), Some((3, 30)));
}

#[test]
fn names_count_independently() {
    let mut st = AppState::new();
    st.record_usage_at("a", 1);
    st.record_usage_at("b", 2);
    st.record_usage_at("a", 3);
    assert_eq!(lookup(&st, "a"), Some((2, 3)));
    assert_eq!(lookup(&st, "b"), Some((1, 2)));
}

#[test]
fn score_is_count_or_zero() {
    let mut st = AppState::new();
    st.record_usage_at("Firefox", 10);
    st.record_usage_at("Firefox", 11);
    assert_eq!(st.get_score(&command("Firefox")), 2);
    assert_eq!(st.get_score(&command("Chrome")), 0);
}

#[test]
fn record_usage_stamps_the_wall_clock() {
    let mut st = AppState::new();
    st.record_usage(&command("Firefox"));
    let (count, _stamp) = lookup(&st, "Firefox").unwrap();
    assert_eq!(count, 1);
}

#[test]
fn serialize_one_entry_exact_text() {
    let mut st = AppState::new();
    st.record_usage_at("Firefox", 100);
    st.record_usage_at("Firefox", 123);
    assert_eq!(st.serialize(), "2 123 7 Firefox\n");
}

#[test]
fn serialize_empty_store_is_empty_text() {
    let st = AppState::new();
    assert_eq!(st.serialize(), "");
}

#[test]
fn round_trip_preserves_every_record() {
    let mut st = AppState::new();
    st.record_usage_at("Firefox", 100);
    st.record_usage_at("two words here", 200);
    st.record_usage_at("with\nnewline", 300);
    st.record_usage_at("Firefox", 400);
    let text = st.serialize();
    let back = AppState::deserialize(&text).expect("own text must read back");
    assert_eq!(lookup(&back, "Firefox"), Some((2, 400)));
    assert_eq!(lookup(&back, "two words here"), Some((1, 200)));
    assert_eq!(lookup(&back, "with\nnewline"), Some((1, 300)));
    assert_eq!(back.usage_stats.len(), 3);
}

#[test]
fn deserialize_empty_text_is_empty_store() {
    let st = AppState::deserialize("").unwrap();
    assert_eq!(st.usage_stats.len(), 0);
}

#[test]
fn deserialize_rejects_malformed_text() {
    assert!(AppState::deserialize("not a store").is_none());
    assert!(AppState::deserialize("1 2").is_none());
    assert!(AppState::deserialize("1 2 3 abcd").is_none());
    assert!(AppState::deserialize("x 2 1 a\n").is_none());
    // A count beyond what a launch counter can hold is refused.
    assert!(AppState::deserialize("4294967296 1 1 a\n").is_none());
}

#[test]
fn deserialize_rejects_repeated_names() {
    assert!(AppState::deserialize("1 10 1 a\n2 20 1 a\n").is_none());
}

#[test]
fn loading_missing_or_corrupt_text_gives_empty_store() {
    assert_eq!(AppState::load_from_text(None).usage_stats.len(), 0);
    assert_eq!(AppState::load_from_text(Some("garbage")).usage_stats.len(), 0);
    let loaded = AppState::load_from_text(Some("3 7 2 ab\n"));
    assert_eq!(lookup(&loaded, "ab"), Some((3, 7)));
}

#[test]
fn deserialize_reads_exact_records() {
    let st = AppState::deserialize("7 99 3 abc\n").unwrap();
    assert_eq!(lookup(&st, "abc"), Some((7, 99)));
}
