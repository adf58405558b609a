use tpane::commands::Command;
use tpane::config::{parse_layout_flag, ConfigRecorder, LayoutAction};
use tpane::keys::{KeyCode, KeyEvent, KeyModifiers};

fn split_of(a: &LayoutAction) -> Option<(Command, Option<u16>)> {
    match a {
        LayoutAction::Split { cmd, ratio } => Some((*cmd, *ratio)),
        LayoutAction::RunInPane(_) => None,
    }
}

fn run_of(a: &LayoutAction) -> Option<&str> {
    match a {
        LayoutAction::RunInPane(p) => Some(p.as_str()),
        LayoutAction::Split { .. } => None,
    }
}

#[test]
fn recorder_custom_bind_overrides_default() {
    let mut r = ConfigRecorder::new();
    r.bind("w", "quit");
    let config = r.finish(true);
    let event = KeyEvent::new(KeyCode::Char('w'), KeyModifiers::empty());
    assert_eq!(config.keymap.lookup_prefix(&event), Some(&Command::Quit));
}

#[test]
fn recorder_ignores_unknown_commands_and_bad_chords() {
    let mut r = ConfigRecorder::new();
    r.bind("ctrl+shift+z", "badcmd");
    r.bind("not+a+chord", "quit");
    r.bind_direct("alt+r", "not_a_command");
    r.bind_direct("not+a+chord", "resize_right");
    let config = r.finish(true);
    let z = KeyEvent::new(KeyCode::Char('z'), KeyModifiers::control().union(KeyModifiers::shift()));
    assert!(config.keymap.lookup_prefix(&z).is_none());
    let alt_r = KeyEvent::new(KeyCode::Char('r'), KeyModifiers::alt());
    assert!(config.keymap.lookup_direct(&alt_r).is_none());
}

#[test]
fn recorder_duplicate_bind_last_wins() {
    let mut r = ConfigRecorder::new();
    r.bind("d", "focus_next");
    r.bind("d", "focus_prev");
    let config = r.finish(true);
    let event = KeyEvent::new(KeyCode::Char('d'), KeyModifiers::empty());
    assert_eq!(config.keymap.lookup_prefix(&event), Some(&Command::FocusPrev));
}

#[test]
fn recorder_bind_direct_is_not_a_prefix_binding() {
    let mut r = ConfigRecorder::new();
    r.bind_direct("alt+r", "resize_right");
    let config = r.finish(true);
    let event = KeyEvent::new(KeyCode::Char('r'), KeyModifiers::alt());
    assert_eq!(config.keymap.lookup_direct(&event), Some(&Command::ResizeRight));
    assert!(config.keymap.lookup_prefix(&event).is_none());
}

#[test]
fn recorder_startup_steps_in_order() {
    let mut r = ConfigRecorder::new();
    r.command("split_right", Some(7000));
    r.command("split_down", None);
    r.run("nvim .");
    r.command("no_such_helper", None);
    let config = r.finish(false);
    assert!(!config.show_cheatsheet);
    assert_eq!(config.startup_commands.len(), 3);
    assert_eq!(split_of(&config.startup_commands[0]), Some((Command::SplitRight, Some(7000))));
    assert_eq!(split_of(&config.startup_commands[1]), Some((Command::SplitDown, None)));
    assert_eq!(run_of(&config.startup_commands[2]), Some("nvim ."));
}

#[test]
fn recorder_named_layouts_are_separate_from_startup() {
    let mut r = ConfigRecorder::new();
    r.begin_layout();
    r.command("split_right", None);
    r.run("lazygit");
    r.end_layout(1);
    r.begin_layout();
    r.command("split_down", Some(3000));
    r.end_layout(2);
    r.command("split_left", None);
    let config = r.finish(true);
    assert_eq!(config.startup_commands.len(), 1);
    assert_eq!(config.named_layouts.len(), 2);
    let one = config.named_layout(1).unwrap();
    assert_eq!(one.len(), 2);
    assert_eq!(split_of(&one[0]), Some((Command::SplitRight, None)));
    assert_eq!(run_of(&one[1]), Some("lazygit"));
    let two = config.named_layout(2).unwrap();
    assert_eq!(split_of(&two[0]), Some((Command::SplitDown, Some(3000))));
    assert!(config.named_layout(3).is_none());
}

#[test]
fn recorder_redefining_a_layout_replaces_it() {
    let mut r = ConfigRecorder::new();
    r.begin_layout();
    r.command("split_right", None);
    r.end_layout(4);
    r.begin_layout();
    r.end_layout(4);
    let config = r.finish(true);
    assert_eq!(config.named_layouts.len(), 1);
    assert!(config.named_layout(4).unwrap().is_empty());
}

#[test]
fn define_layout_auto_binds_ctrl_n() {
    let mut r = ConfigRecorder::new();
    r.begin_layout();
    r.command("split_right", None);
    r.end_layout(1);
    let config = r.finish(true);
    let ctrl_1 = KeyEvent::new(KeyCode::Char('1'), KeyModifiers::control());
    assert_eq!(config.keymap.lookup_prefix(&ctrl_1), Some(&Command::LoadLayout(1)));
}

#[test]
fn startup_steps_prefer_requested_layout() {
    let mut r = ConfigRecorder::new();
    r.begin_layout();
    r.command("split_up", None);
    r.end_layout(3);
    r.command("split_left", None);
    let config = r.finish(true);
    assert_eq!(split_of(&config.startup_steps(Some(3))[0]), Some((Command::SplitUp, None)));
    assert_eq!(split_of(&config.startup_steps(Some(5))[0]), Some((Command::SplitLeft, None)));
    assert_eq!(split_of(&config.startup_steps(None)[0]), Some((Command::SplitLeft, None)));
}

#[test]
fn layout_flags() {
    assert_eq!(parse_layout_flag("-3"), Some(3));
    assert_eq!(parse_layout_flag("-0"), None);
    assert_eq!(parse_layout_flag("-12"), None);
    assert_eq!(parse_layout_flag("3"), None);
}

#[test]
fn recorder_defaults_keep_default_bindings() {
    let config = ConfigRecorder::new().finish(true);
    let event = KeyEvent::new(KeyCode::Char('q'), KeyModifiers::empty());
    assert_eq!(config.keymap.lookup_prefix(&event), Some(&Command::Quit));
    assert!(config.startup_commands.is_empty());
    assert!(config.show_cheatsheet);
}
