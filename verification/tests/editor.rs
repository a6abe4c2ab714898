use gitlauncher::editor::{App, Command, InputMode};
use gitlauncher::Key;

#[test]
fn editor_starts_in_normal_mode() {
    let app = App::default();
    assert_eq!(app.input, "");
    assert_eq!(app.input_mode, InputMode::Normal);
    assert!(app.messages.is_empty());
}

#[test]
fn normal_mode_keys() {
    let mut app = App::default();
    assert_eq!(app.handle_key(Key::Char('x')), Command::Nothing);
    assert_eq!(app.handle_key(Key::Esc), Command::Nothing);
    assert_eq!(app.input_mode, InputMode::Normal);
    assert_eq!(app.handle_key(Key::Char('q')), Command::Quit);
    assert_eq!(app.input_mode, InputMode::Normal);
    assert_eq!(app.handle_key(Key::Char('e')), Command::DisableExitKey);
    assert_eq!(app.input_mode, InputMode::Editing);
}

#[test]
fn editing_records_messages() {
    let mut app = App::default();
    app.handle_key(Key::Char('e'));
    for c in "hi!".chars() {
        assert_eq!(app.handle_key(Key::Char(c)), Command::Nothing);
    }
    app.handle_key(Key::Backspace);
    assert_eq!(app.input, "hi");
    assert_eq!(app.handle_key(Key::Char('q')), Command::Nothing);
    assert_eq!(app.input, "hiq");
    app.handle_key(Key::Char('\n'));
    assert_eq!(app.input, "");
    assert_eq!(app.messages, vec!["hiq".to_string()]);
    app.handle_key(Key::Char('\n'));
    assert_eq!(app.messages, vec!["hiq".to_string(), String::new()]);
    assert_eq!(app.handle_key(Key::Esc), Command::EnableExitKey);
    assert_eq!(app.input_mode, InputMode::Normal);
}

#[test]
fn backspace_on_empty_input_does_nothing() {
    let mut app = App::default();
    app.handle_key(Key::Char('e'));
    assert_eq!(app.handle_key(Key::Backspace), Command::Nothing);
    assert_eq!(app.input, "");
    assert_eq!(app.input_mode, InputMode::Editing);
}

#[test]
fn edit_then_escape_keeps_state() {
    let mut app = App::default();
    app.messages.push("m".into());
    assert_eq!(app.handle_key(Key::Char('e')), Command::DisableExitKey);
    assert_eq!(app.handle_key(Key::Esc), Command::EnableExitKey);
    assert_eq!(app.input_mode, InputMode::Normal);
    assert_eq!(app.messages, vec!["m".to_string()]);
}

#[test]
fn message_lines_are_numbered() {
    let mut app = App::default();
    for i in 0..12 {
        app.messages.push(format!("m{}", i));
    }
    let lines = app.message_lines();
    assert_eq!(lines.len(), 12);
    assert_eq!(lines[0], "0: m0");
    assert_eq!(lines[9], "9: m9");
    assert_eq!(lines[10], "10: m10");
    assert_eq!(lines[11], "11: m11");
    assert!(App::default().message_lines().is_empty());
}
