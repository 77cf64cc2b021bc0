use rcode::app::{App, Message};
use rcode::event::{handle_key, EventResult, KeyCode, KeyEvent};
use rcode::handler::{record_chat_outcome, record_user_message};

fn key(code: KeyCode) -> KeyEvent {
    KeyEvent { code }
}

#[test]
fn default_app_is_empty() {
    let app = App::default();
    assert_eq!(app.input(), "");
    assert!(app.messages().is_empty());
    assert_eq!(app.scroll_pos(), 0);
    assert_eq!(app.width(), 80);
    assert_eq!(app.messages_area_height(), 60);
    assert_eq!(app.max_scroll(), 0);
}

#[test]
fn typing_and_erasing() {
    let mut app = App::default();
    app.push_input_char('h');
    app.push_input_char('é');
    assert_eq!(app.input(), "hé");
    app.pop_input();
    assert_eq!(app.input(), "h");
    app.pop_input();
    app.pop_input();
    assert_eq!(app.input(), "");
}

#[test]
fn erase_undoes_type() {
    // law: erasing right after typing gives back the line as it was.
    let mut app = App::default();
    app.push_input_char('a');
    app.push_input_char('b');
    app.push_input_char('x');
    app.pop_input();
    assert_eq!(app.input(), "ab");
}

#[test]
fn take_input_hands_out_and_clears() {
    let mut app = App::default();
    assert_eq!(app.take_input(), None);
    app.push_input_char('o');
    app.push_input_char('k');
    assert_eq!(app.take_input(), Some("ok".to_string()));
    assert_eq!(app.input(), "");
    assert_eq!(app.take_input(), None);
}

#[test]
fn scrolling_is_bounded() {
    let mut app = App::default();
    app.scroll_up();
    assert_eq!(app.scroll_pos(), 0);
    app.scroll_down();
    assert_eq!(app.scroll_pos(), 0);
    app.set_messages_area(2, 5);
    assert_eq!(app.max_scroll(), 3);
    for _ in 0..10 {
        app.scroll_down();
    }
    assert_eq!(app.scroll_pos(), 3);
    app.scroll_up();
    assert_eq!(app.scroll_pos(), 2);
    app.scroll_down();
    assert_eq!(app.scroll_pos(), 3);
}

#[test]
fn transcript_shorter_than_area_cannot_scroll() {
    let mut app = App::default();
    app.set_messages_area(10, 4);
    assert_eq!(app.messages_area_height(), 10);
    assert_eq!(app.max_scroll(), 0);
}

#[test]
fn transcript_rows_are_kept_as_u16() {
    let mut app = App::default();
    app.set_messages_area(1, 65536 + 5);
    assert_eq!(app.max_scroll(), 4);
}

#[test]
fn messages_are_appended() {
    let mut app = App::default();
    app.push_message(Message::User("a".into()));
    app.push_message(Message::Assistant("b".into()));
    assert_eq!(app.messages().len(), 2);
    assert!(matches!(&app.messages()[1], Message::Assistant(s) if s == "b"));
}

#[test]
fn keys_edit_and_send() {
    let mut app = App::default();
    assert_eq!(handle_key(&mut app, key(KeyCode::Enter)), EventResult::Continue);
    assert_eq!(handle_key(&mut app, key(KeyCode::Char('l'))), EventResult::Continue);
    assert_eq!(handle_key(&mut app, key(KeyCode::Char('s'))), EventResult::Continue);
    assert_eq!(handle_key(&mut app, key(KeyCode::Char('x'))), EventResult::Continue);
    assert_eq!(handle_key(&mut app, key(KeyCode::Backspace)), EventResult::Continue);
    assert_eq!(app.input(), "ls");
    assert_eq!(
        handle_key(&mut app, key(KeyCode::Enter)),
        EventResult::SendMessage("ls".to_string())
    );
    assert_eq!(app.input(), "");
}

#[test]
fn keys_scroll_and_quit() {
    let mut app = App::default();
    app.set_messages_area(1, 3);
    assert_eq!(handle_key(&mut app, key(KeyCode::Down)), EventResult::Continue);
    assert_eq!(app.scroll_pos(), 1);
    assert_eq!(handle_key(&mut app, key(KeyCode::Up)), EventResult::Continue);
    assert_eq!(app.scroll_pos(), 0);
    assert_eq!(handle_key(&mut app, key(KeyCode::Other)), EventResult::Continue);
    app.push_input_char('q');
    assert_eq!(handle_key(&mut app, key(KeyCode::Esc)), EventResult::Exit);
    assert_eq!(app.input(), "q");
}

#[test]
fn chat_outcomes_are_recorded() {
    let mut app = App::default();
    record_user_message(&mut app, &"hi".to_string());
    record_chat_outcome(&mut app, Ok("hello".to_string()));
    record_chat_outcome(&mut app, Err("boom".to_string()));
    let ms = app.messages();
    assert_eq!(ms.len(), 3);
    assert!(matches!(&ms[0], Message::User(s) if s == "hi"));
    assert!(matches!(&ms[1], Message::Assistant(s) if s == "hello"));
    assert!(matches!(&ms[2], Message::Error(s) if s == "Error: boom"));
}
