use rcode::app::Message;
use rcode::render::text::{count_lines_in_terminal, count_visual_lines, format_messages};

#[test]
fn empty_string_returns_zero() {
    assert_eq!(count_lines_in_terminal("", 80).unwrap(), 0);
}

#[test]
fn single_line_no_newline() {
    assert_eq!(count_lines_in_terminal("hello", 80).unwrap(), 1);
}

#[test]
fn trailing_newline_counts_as_extra_line() {
    assert_eq!(count_lines_in_terminal("hello\n", 80).unwrap(), 2);
}

#[test]
fn multiple_physical_lines() {
    assert_eq!(count_lines_in_terminal("a\nb\nc", 80).unwrap(), 3);
}

#[test]
fn many_newlines() {
    assert_eq!(count_lines_in_terminal("\n\n\n\n", 80).unwrap(), 5);
}

#[test]
fn long_line_wraps() {
    let text = "a".repeat(100) + "\n";
    assert_eq!(count_lines_in_terminal(&text, 80).unwrap(), 3);
}

#[test]
fn cjk_wrap() {
    assert_eq!(
        count_lines_in_terminal("天地玄黄\n\n宇宙洪荒", 2).unwrap(),
        9
    );
    assert_eq!(count_lines_in_terminal("天地玄黄宇宙洪荒", 3).unwrap(), 8);
}

#[test]
fn format_user_and_assistant() {
    let msgs = vec![
        Message::User("hello".into()),
        Message::Assistant("world".into()),
    ];
    assert_eq!(format_messages(&msgs), "[User] hello\n[Assistant] world\n");
}

#[test]
fn format_error() {
    let msgs = vec![Message::Error("oops".into())];
    assert_eq!(format_messages(&msgs), "[Error] oops\n");
}

#[test]
fn format_empty_transcript() {
    let msgs: Vec<Message> = Vec::new();
    assert_eq!(format_messages(&msgs), "");
}

#[test]
fn format_concatenates_runs() {
    let a = vec![Message::User("x".into())];
    let b = vec![Message::Error("y".into()), Message::Assistant("z".into())];
    let mut all = a.clone();
    all.extend(b.clone());
    assert_eq!(format_messages(&all), format_messages(&a) + &format_messages(&b));
}

#[test]
fn crlf_line_endings_are_stripped() {
    // "a\r\nb": two lines "a" and "b"; the carriage return takes no room.
    assert_eq!(count_lines_in_terminal("a\r\nb", 1).unwrap(), 2);
}

#[test]
fn lone_carriage_return_stays_in_line() {
    // A '\r' not followed by '\n' does not split a line.
    assert_eq!(count_lines_in_terminal("ab\rcd", 2).unwrap(), 2);
}

#[test]
fn control_characters_take_no_room() {
    assert_eq!(count_visual_lines("a\tb", 2), 1);
}

#[test]
fn empty_line_takes_one_row() {
    assert_eq!(count_visual_lines("", 10), 1);
}

#[test]
fn narrow_line_rounds_up() {
    // law: a line of n one-column characters takes ceil(n / width) rows.
    assert_eq!(count_visual_lines(&"x".repeat(7), 3), 3);
    assert_eq!(count_visual_lines(&"x".repeat(6), 3), 2);
}

#[test]
fn zero_width_terminal_breaks_before_every_character() {
    // No character fits on a row of zero columns, so each one starts a new
    // row after the (empty) one before it.
    assert_eq!(count_visual_lines("abc", 0), 4);
}

#[test]
fn wide_character_in_narrow_terminal() {
    // Each two-column character overflows a one-column terminal and starts a
    // new row.
    assert_eq!(count_visual_lines("天地", 1), 3);
}

#[test]
fn trailing_newline_adds_one_row() {
    // law: a newline after a non-empty text adds one row.
    for s in ["abc", "abc\n", "x\ny", "天地玄黄"] {
        let with = format!("{}\n", s);
        assert_eq!(
            count_lines_in_terminal(&with, 3).unwrap(),
            count_lines_in_terminal(s, 3).unwrap() + 1
        );
    }
}

#[test]
fn basic_text_is_as_wide_as_its_characters() {
    assert_eq!(rcode::width::str_width("hello"), 5);
    assert_eq!(rcode::width::str_width("a\r\nb"), 3);
    assert_eq!(rcode::width::str_width("\r\r\n"), 2);
    assert_eq!(rcode::width::str_width(""), 0);
    assert_eq!(count_lines_in_terminal("hello", 80).unwrap(), 1);
    assert_eq!(count_lines_in_terminal("hello", 2).unwrap(), 3);
}

#[test]
fn rows_add_up_over_joined_texts() {
    // law: after a text ending with a newline, a text takes its own rows in
    // place of the empty row after the newline.
    let s = "first line\nsecond\n";
    let t = "0123456789abc\nend";
    let joined = format!("{}{}", s, t);
    for width in [1usize, 4, 10, 80] {
        let a = count_lines_in_terminal(s, width).unwrap();
        let b = count_lines_in_terminal(t, width).unwrap();
        let ab = count_lines_in_terminal(&joined, width).unwrap();
        assert_eq!(ab + 1, a + b);
    }
    assert_eq!(count_lines_in_terminal(s, 80).unwrap(), 3);
    assert_eq!(count_lines_in_terminal(t, 10).unwrap(), 3);
    assert_eq!(count_lines_in_terminal(&joined, 10).unwrap(), 5);
}

#[test]
fn rows_add_up_over_joined_wide_texts() {
    // law: widths add up after a newline, so the row law holds for wide text.
    let s = "日本\n";
    let t = "語x";
    let joined = format!("{}{}", s, t);
    assert_eq!(
        rcode::width::str_width(&joined),
        rcode::width::str_width(s) + rcode::width::str_width(t)
    );
    for width in [1usize, 3, 4, 80] {
        let a = count_lines_in_terminal(s, width).unwrap();
        let b = count_lines_in_terminal(t, width).unwrap();
        let ab = count_lines_in_terminal(&joined, width).unwrap();
        assert_eq!(ab + 1, a + b);
    }
    assert_eq!(count_lines_in_terminal(s, 3).unwrap(), 3);
    assert_eq!(count_lines_in_terminal(&joined, 3).unwrap(), 3);
}
