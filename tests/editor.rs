use line_editor::buffer::Buffer;
use line_editor::editor::{Action, EventLoop, Key};

fn text(e: &EventLoop) -> String {
    e.buffer().contents()
}

#[test]
fn character_inserts_and_redraws() {
    let mut e = EventLoop::new(Buffer::new_from_file("ab".to_string(), "f".to_string()));
    assert_eq!(e.dispatch(Key::Char { c: 'x', ctrl: false }), Action::Redraw);
    assert_eq!(text(&e), "xab");
    assert_eq!(e.buffer().cursor(), (1, 0));
}

#[test]
fn control_s_saves_without_change() {
    let mut e = EventLoop::new(Buffer::new_from_file("ab".to_string(), "f".to_string()));
    assert_eq!(e.dispatch(Key::Char { c: 's', ctrl: true }), Action::Save);
    assert_eq!(text(&e), "ab");
    assert_eq!(e.dispatch(Key::Char { c: 's', ctrl: false }), Action::Redraw);
    assert_eq!(text(&e), "sab");
    assert_eq!(e.dispatch(Key::Char { c: 'q', ctrl: true }), Action::Redraw);
    assert_eq!(text(&e), "sqab");
}

#[test]
fn backspace_on_empty_buffer_is_ignored() {
    let mut e = EventLoop::new(Buffer::new_empty());
    assert_eq!(e.dispatch(Key::Backspace), Action::Nothing);
    assert_eq!(e.buffer().line_count(), 0);
}

#[test]
fn enter_and_backspace_redraw() {
    let mut e = EventLoop::new(Buffer::new_from_file("ab".to_string(), "f".to_string()));
    assert_eq!(e.dispatch(Key::Right), Action::Nothing);
    assert_eq!(e.dispatch(Key::Enter), Action::Redraw);
    assert_eq!(text(&e), "a\r\nb");
    assert_eq!(e.dispatch(Key::Backspace), Action::Redraw);
    assert_eq!(text(&e), "ab");
}

#[test]
fn arrows_move_without_redraw() {
    let mut e = EventLoop::new(Buffer::new_from_file("ab\ncd".to_string(), "f".to_string()));
    assert_eq!(e.dispatch(Key::Down), Action::Nothing);
    assert_eq!(e.dispatch(Key::Right), Action::Nothing);
    assert_eq!(e.buffer().cursor(), (1, 1));
    assert_eq!(e.dispatch(Key::Up), Action::Nothing);
    assert_eq!(e.dispatch(Key::Left), Action::Nothing);
    assert_eq!(e.buffer().cursor(), (0, 0));
    assert_eq!(e.dispatch(Key::Other), Action::Nothing);
}

#[test]
fn escape_quits_and_later_keys_are_ignored() {
    let mut e = EventLoop::new(Buffer::new_from_file("ab".to_string(), "f".to_string()));
    assert!(e.is_running());
    assert_eq!(e.dispatch(Key::Esc), Action::Quit);
    assert!(!e.is_running());
    assert_eq!(e.dispatch(Key::Char { c: 'x', ctrl: false }), Action::Nothing);
    assert_eq!(e.dispatch(Key::Esc), Action::Nothing);
    assert_eq!(text(&e), "ab");
}

#[test]
fn line_feed_character_is_ignored() {
    let mut e = EventLoop::new(Buffer::new_from_file("ab".to_string(), "f".to_string()));
    assert_eq!(e.dispatch(Key::Char { c: '\n', ctrl: false }), Action::Nothing);
    assert_eq!(e.buffer().line_count(), 1);
    assert_eq!(text(&e), "ab");
}

#[test]
fn typing_into_empty_session() {
    let mut e = EventLoop::new(Buffer::new_empty());
    e.dispatch(Key::Char { c: 'h', ctrl: false });
    e.dispatch(Key::Char { c: 'i', ctrl: false });
    assert_eq!(e.buffer().line(0), "hi");
    assert_eq!(e.buffer().cursor(), (2, 0));
}
