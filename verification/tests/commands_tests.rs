use tpane::commands::Command;

#[test]
fn all_named_commands_parse() {
    let cases = [
        ("split_vertical", Command::SplitVertical),
        ("split_horizontal", Command::SplitHorizontal),
        ("split", Command::SplitVertical),
        ("split_left", Command::SplitLeft),
        ("split_right", Command::SplitRight),
        ("split_up", Command::SplitUp),
        ("split_down", Command::SplitDown),
        ("close", Command::ClosePane),
        ("close_pane", Command::ClosePane),
        ("focus_next", Command::FocusNext),
        ("focus_prev", Command::FocusPrev),
        ("focus_left", Command::FocusLeft),
        ("focus_right", Command::FocusRight),
        ("focus_up", Command::FocusUp),
        ("focus_down", Command::FocusDown),
        ("resize_left", Command::ResizeLeft),
        ("resize_right", Command::ResizeRight),
        ("resize_up", Command::ResizeUp),
        ("resize_down", Command::ResizeDown),
        ("quit", Command::Quit),
    ];
    for (name, expected) in cases {
        assert_eq!(Command::from_name(name), Some(expected), "failed for '{name}'");
    }
}

#[test]
fn unknown_command_returns_none() {
    assert!(Command::from_name("").is_none());
    assert!(Command::from_name("QUIT").is_none());
    assert!(Command::from_name("noop").is_none());
}

#[test]
fn layout_loading_names_name_their_layout() {
    assert_eq!(Command::from_name("load_layout_1"), Some(Command::LoadLayout(1)));
    assert_eq!(Command::from_name("load_layout_255"), Some(Command::LoadLayout(255)));
    assert_eq!(Command::from_name("load_layout_256"), None);
    assert_eq!(Command::from_name("load_layout_01"), None);
    assert_eq!(Command::from_name("load_layout_"), None);
}
