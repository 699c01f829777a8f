use prism_core::AppState;
use prism_core::CommandEntity;
use prism_core::Entity;
use prism_core::Prism;
use prism_core::PrismAction;
use prism_core::PrismEvent;
use prism_core::session::launch_decision;

fn command(name: &str, needs_argument: bool) -> Entity {
    Entity::Command(CommandEntity {
        id: 0,
        name: name.to_string(),
        alias: None,
        description: None,
        image: None,
        needs_argument,
    })
}

fn loaded_session(names: &[&str], st: &AppState) -> Prism {
    let entities: Vec<Entity> = names.iter().map(|n| command(n, false)).collect();
    let mut session = Prism::new();
    let action = session.update(PrismEvent::EntriesLoaded(entities), st);
    assert!(matches!(action, PrismAction::Idle));
    session
}

fn entry_names(session: &Prism) -> Vec<String> {
    session.entries.iter().map(|e| e.name().to_string()).collect()
}

#[test]
fn navigation_on_empty_list_stays_at_zero() {
    let st = AppState::new();
    let mut session = Prism::new();
    session.update(PrismEvent::SelectNext, &st);
    assert_eq!(session.selected_index, 0);
    session.update(PrismEvent::SelectPrevious, &st);
    assert_eq!(session.selected_index, 0);
    session.update(PrismEvent::SelectNext, &st);
    session.update(PrismEvent::SelectNext, &st);
    assert_eq!(session.selected_index, 0);
}

#[test]
fn navigation_clamps_at_both_ends() {
    let st = AppState::new();
    let mut session = loaded_session(&["a", "b", "c"], &st);
    assert_eq!(session.selected_index, 0);
    session.update(PrismEvent::SelectPrevious, &st);
    assert_eq!(session.selected_index, 0);
    session.update(PrismEvent::SelectNext, &st);
    assert_eq!(session.selected_index, 1);
    session.update(PrismEvent::SelectNext, &st);
    session.update(PrismEvent::SelectNext, &st);
    session.update(PrismEvent::SelectNext, &st);
    assert_eq!(session.selected_index, 2);
    session.update(PrismEvent::SelectPrevious, &st);
    assert_eq!(session.selected_index, 1);
}

#[test]
fn query_change_resets_selection_and_filters() {
    let st = AppState::new();
    let mut session = loaded_session(&["alpha", "beta", "gamma"], &st);
    session.update(PrismEvent::SelectNext, &st);
    session.update(PrismEvent::SelectNext, &st);
    assert_eq!(session.selected_index, 2);
    session.update(PrismEvent::SearchInput("a".to_string()), &st);
    assert_eq!(session.selected_index, 0);
    assert_eq!(session.query, "a");
    // The filtered view is a subsequence of the full catalog, in its order.
    assert_eq!(entry_names(&session), vec!["alpha", "beta", "gamma"]);
    session.update(PrismEvent::SearchInput("am".to_string()), &st);
    assert_eq!(entry_names(&session), vec!["gamma"]);
    assert_eq!(session.all_entries.len(), 3);
}

#[test]
fn load_sorts_by_score_then_name() {
    // Catalog: Firefox score 2, Chrome score 2, Vivaldi score 5.
    let mut st = AppState::new();
    st.record_usage_at("Firefox", 1);
    st.record_usage_at("Firefox", 2);
    st.record_usage_at("Chrome", 3);
    st.record_usage_at("Chrome", 4);
    for t in 5..10 {
        st.record_usage_at("Vivaldi", t);
    }
    let mut session = loaded_session(&["Firefox", "Chrome", "Vivaldi"], &st);
    assert_eq!(entry_names(&session), vec!["Vivaldi", "Chrome", "Firefox"]);
    // Query "fi" keeps Firefox alone, with the cursor on it.
    session.update(PrismEvent::SearchInput("fi".to_string()), &st);
    assert_eq!(entry_names(&session), vec!["Firefox"]);
    assert_eq!(session.selected_index, 0);
}

#[test]
fn activation_without_needed_argument_opens_prompt() {
    let st = AppState::new();
    let entities = vec![command("plain", false), command("asks", true)];
    let mut session = Prism::new();
    session.update(PrismEvent::EntriesLoaded(entities), &st);
    // "asks" sorts after "plain"? Names order: asks < plain, so asks is first.
    assert_eq!(entry_names(&session), vec!["asks", "plain"]);
    let action = session.update(PrismEvent::EntrySelected(0), &st);
    assert!(matches!(action, PrismAction::FocusArgument));
    assert!(session.show_argument_input);
    assert!(session.is_argument_input_active);
    // Nothing executed yet; now type an argument and submit.
    session.update(PrismEvent::ArgumentInput("hello".to_string()), &st);
    let action = session.update(PrismEvent::Submit, &st);
    assert!(matches!(action, PrismAction::Run));
    assert_eq!(session.get_argument().as_deref(), Some("hello"));
    // The application executes and, on success, asks the process to exit.
    assert!(matches!(launch_decision(true), PrismAction::Exit));
}

#[test]
fn activation_without_argument_need_runs_directly() {
    let st = AppState::new();
    let mut session = loaded_session(&["plain"], &st);
    let action = session.update(PrismEvent::EntrySelected(0), &st);
    assert!(matches!(action, PrismAction::Run));
    assert!(!session.is_argument_input_active);
}

#[test]
fn failed_execution_leaves_session_unchanged_and_no_exit() {
    let st = AppState::new();
    let mut session = loaded_session(&["a", "b"], &st);
    session.update(PrismEvent::SearchInput("a".to_string()), &st);
    session.update(PrismEvent::SelectNext, &st);
    let names_before = entry_names(&session);
    let query_before = session.query.clone();
    let selected_before = session.selected_index;
    let action = session.update(PrismEvent::Submit, &st);
    assert!(matches!(action, PrismAction::Run));
    // The execute action fails: no exit signal, and the session stands as
    // it was, ready for a retry.
    assert!(matches!(launch_decision(false), PrismAction::Idle));
    assert_eq!(entry_names(&session), names_before);
    assert_eq!(session.query, query_before);
    assert_eq!(session.selected_index, selected_before);
}

#[test]
fn escape_leaves_argument_prompt_then_exits() {
    let st = AppState::new();
    let mut session = loaded_session(&["asks"], &st);
    let mut asks = Prism::new();
    let entities = vec![command("asks", true)];
    asks.update(PrismEvent::EntriesLoaded(entities), &st);
    asks.update(PrismEvent::EntrySelected(0), &st);
    asks.update(PrismEvent::ArgumentInput("x".to_string()), &st);
    assert!(asks.is_argument_input_active);
    let action = asks.update(PrismEvent::EscapePressed, &st);
    assert!(matches!(action, PrismAction::FocusSearch));
    assert!(asks.get_argument().is_none());
    assert!(!asks.show_argument_input);
    // A second escape, outside the prompt, ends the launcher.
    let action = asks.update(PrismEvent::EscapePressed, &st);
    assert!(matches!(action, PrismAction::Exit));
    // An escape in plain browsing exits directly.
    let action = session.update(PrismEvent::EscapePressed, &st);
    assert!(matches!(action, PrismAction::Exit));
}

#[test]
fn submit_on_empty_view_does_nothing() {
    let st = AppState::new();
    let mut session = Prism::new();
    let action = session.update(PrismEvent::Submit, &st);
    assert!(matches!(action, PrismAction::Idle));
}

#[test]
fn query_change_clears_pending_argument() {
    let st = AppState::new();
    let entities = vec![command("asks", true)];
    let mut session = Prism::new();
    session.update(PrismEvent::EntriesLoaded(entities), &st);
    session.update(PrismEvent::EntrySelected(0), &st);
    session.update(PrismEvent::ArgumentInput("pending".to_string()), &st);
    session.update(PrismEvent::SearchInput("a".to_string()), &st);
    assert!(session.get_argument().is_none());
    assert!(!session.show_argument_input);
}

#[test]
fn selected_entry_follows_the_cursor() {
    let st = AppState::new();
    let mut session = loaded_session(&["a", "b"], &st);
    assert_eq!(session.get_selected_entry().unwrap().name(), "a");
    session.update(PrismEvent::SelectNext, &st);
    assert_eq!(session.get_selected_entry().unwrap().name(), "b");
    let empty = Prism::new();
    assert!(empty.get_selected_entry().is_none());
}
