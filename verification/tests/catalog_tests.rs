use prism_core::DesktopEntryData;
use prism_core::Entity;
use prism_core::Key;
use prism_core::KeyAction;
use prism_core::LinuxApplication;
use prism_core::get_apps;
use prism_core::get_entities;
use prism_core::keybindings::map_key_to_action;
use prism_core::launch::build_invocation;
use prism_core::parse_exec;
use prism_core::icons::file_stem;
use prism_core::icons::icon_candidates;

fn entry(exec_line: Option<&str>, no_display: bool) -> DesktopEntryData {
    DesktopEntryData {
        name: Some("App".to_string()),
        exec_line: exec_line.map(|s| s.to_string()),
        icon: None,
        no_display,
        terminal: false,
    }
}

#[test]
fn parse_exec_splits_on_whitespace() {
    assert_eq!(parse_exec("/usr/bin/foo --bar baz"), vec!["/usr/bin/foo", "--bar", "baz"]);
    assert_eq!(parse_exec("  spaced \t out \n"), vec!["spaced", "out"]);
    assert_eq!(parse_exec(""), Vec::<String>::new());
}

#[test]
fn parse_exec_strips_placeholder_codes() {
    assert_eq!(parse_exec("firefox %u"), vec!["firefox"]);
    assert_eq!(parse_exec("viewer %F --slow"), vec!["viewer", "--slow"]);
    assert_eq!(parse_exec("cmd a%fb"), vec!["cmd", "ab"]);
    assert_eq!(parse_exec("cmd %f%U%i%c%k"), vec!["cmd"]);
    // An unknown code stays.
    assert_eq!(parse_exec("cmd %x"), vec!["cmd", "%x"]);
}

#[test]
fn parse_exec_drops_tokens_left_empty() {
    assert_eq!(parse_exec("%f"), Vec::<String>::new());
    assert_eq!(parse_exec("%f prog %u"), vec!["prog"]);
}

#[test]
fn entries_hidden_or_unlaunchable_are_dropped() {
    let apps = get_apps(vec![
        entry(Some("prog one"), false),
        entry(Some("prog"), true),
        entry(None, false),
        entry(Some("%f"), false),
        entry(Some("other"), false),
    ]);
    assert_eq!(apps.len(), 2);
    assert_eq!(apps[0].invocation, vec!["prog", "one"]);
    assert_eq!(apps[1].invocation, vec!["other"]);
}

#[test]
fn entry_without_name_falls_back() {
    let apps = get_apps(vec![DesktopEntryData {
        name: None,
        exec_line: Some("prog".to_string()),
        icon: None,
        no_display: false,
        terminal: true,
    }]);
    assert_eq!(apps.len(), 1);
    assert_eq!(apps[0].name, "Unknown");
    assert!(apps[0].is_terminal);
}

#[test]
fn get_entities_appends_the_fixture_commands() {
    let app = LinuxApplication {
        name: "Editor".to_string(),
        invocation: vec!["editor".to_string()],
        icon_path: None,
        is_terminal: false,
    };
    let entities = get_entities(vec![app]);
    assert_eq!(entities.len(), 4);
    assert_eq!(entities[0].name(), "Editor");
    assert_eq!(entities[1].name(), "Fake Command One");
    assert_eq!(entities[2].name(), "Fake Command Two");
    assert_eq!(entities[3].name(), "Fake Command Three");
    assert!(!entities[1].needs_argument());
    assert!(!entities[2].needs_argument());
    assert!(entities[3].needs_argument());
    match &entities[2] {
        Entity::Command(c) => {
            assert_eq!(c.id, 1);
            assert_eq!(c.alias.as_deref(), Some("fct"));
        }
        _ => panic!("expected a command"),
    }
}

#[test]
fn build_invocation_wraps_terminal_entries() {
    let app = LinuxApplication {
        name: "Top".to_string(),
        invocation: vec!["htop".to_string(), "-d".to_string()],
        icon_path: None,
        is_terminal: true,
    };
    let profile = ("kitty".to_string(), "-e".to_string());
    let wrapped = build_invocation(&app, Some(&profile));
    assert_eq!(wrapped, vec!["kitty", "-e", "htop", "-d"]);
    // No terminal available: launch the target directly.
    let bare = build_invocation(&app, None);
    assert_eq!(bare, vec!["htop", "-d"]);
}

#[test]
fn build_invocation_leaves_plain_entries_alone() {
    let app = LinuxApplication {
        name: "Editor".to_string(),
        invocation: vec!["editor".to_string()],
        icon_path: None,
        is_terminal: false,
    };
    let profile = ("kitty".to_string(), "-e".to_string());
    assert_eq!(build_invocation(&app, Some(&profile)), vec!["editor"]);
    let empty = LinuxApplication {
        name: "Ghost".to_string(),
        invocation: vec![],
        icon_path: None,
        is_terminal: true,
    };
    assert_eq!(build_invocation(&empty, Some(&profile)), Vec::<String>::new());
}

#[test]
fn keys_map_to_their_intents() {
    assert!(matches!(map_key_to_action(Key::ArrowUp), Some(KeyAction::SelectPrevious)));
    assert!(matches!(map_key_to_action(Key::ArrowDown), Some(KeyAction::SelectNext)));
    assert!(matches!(map_key_to_action(Key::Enter), Some(KeyAction::Submit)));
    assert!(matches!(map_key_to_action(Key::Escape), Some(KeyAction::EscapePressed)));
    assert!(map_key_to_action(Key::Other).is_none());
}

#[test]
fn file_stem_cuts_extension_of_base_name() {
    assert_eq!(file_stem("/usr/share/icons/firefox.png"), "firefox");
    assert_eq!(file_stem("plain"), "plain");
    assert_eq!(file_stem("a.b.c"), "a.b");
    assert_eq!(file_stem("/path/.hidden"), ".hidden");
    assert_eq!(file_stem("dir/name.svg"), "name");
}

#[test]
fn icon_candidates_probe_dirs_by_extension() {
    let c = icon_candidates("foo");
    assert_eq!(c.len(), 20);
    assert_eq!(c[0], "/usr/share/pixmaps/foo");
    assert_eq!(c[1], "/usr/share/pixmaps/foo.png");
    assert_eq!(c[4], "/usr/share/pixmaps/foo.ico");
    assert_eq!(c[5], "/usr/share/icons/foo");
    assert_eq!(c[19], "/usr/share/icons/hicolor/scalable/apps/foo.ico");
}

#[test]
fn entity_accessors_expose_the_command_fields() {
    let entities = get_entities(vec![]);
    let e = &entities[0];
    assert_eq!(e.name(), "Fake Command One");
    assert_eq!(e.description(), Some("This is the first fake command."));
    assert!(e.icon().is_none());
    let copy = e.duplicate();
    assert_eq!(copy.name(), "Fake Command One");
}
