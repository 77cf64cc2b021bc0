use ratatui::layout::{Constraint, Layout, Rect};
use rcode::config::{resolve_config_path, ConfigPathError};
use rcode::render::tui::{layout_frame, plan_frame, Area};
use rcode::app::{App, Message};
use rcode::tools::command_output;

#[test]
fn successful_command_gives_its_output() {
    assert_eq!(command_output(true, Some(0), "hello\n", "ignored"), "hello\n");
}

#[test]
fn failed_command_names_its_exit_code() {
    assert_eq!(
        command_output(false, Some(127), "", "sh: 1: x: not found\n"),
        "Command failed with exit code Some(127):\nsh: 1: x: not found\n"
    );
    assert_eq!(command_output(false, Some(-3), "", "e"), "Command failed with exit code Some(-3):\ne");
    assert_eq!(command_output(false, None, "", ""), "Command failed with exit code None:\n");
    assert_eq!(
        command_output(false, Some(i32::MIN), "", ""),
        format!("Command failed with exit code {:?}:\n", Some(i32::MIN))
    );
}

#[test]
fn clear_sequences() {
    assert_eq!(rcode::render::clear_lines_above(3), "\n\x1B[3A\x1B[G\x1B[0J");
    assert_eq!(rcode::render::cli::clear_lines_above(12), "\n\x1B[12F\x1B[0J");
    assert_eq!(rcode::render::cli::clear_lines_above(0), "\n\x1B[0F\x1B[0J");
    assert_eq!(
        rcode::render::clear_lines_above(1234567890),
        format!("\n\x1B[{}A\x1B[G\x1B[0J", 1234567890)
    );
}

#[test]
fn config_in_working_directory_comes_first() {
    let r = resolve_config_path(Some("/home/u"), |_p: &str| true);
    assert_eq!(r, Ok(".rcode/config.toml".to_string()));
}

#[test]
fn config_in_home_directory() {
    let r = resolve_config_path(Some("/home/u"), |p: &str| p == "/home/u/.rcode/config.toml");
    assert_eq!(r, Ok("/home/u/.rcode/config.toml".to_string()));
}

#[test]
fn config_errors() {
    assert_eq!(resolve_config_path(None, |_p: &str| false), Err(ConfigPathError::HomeNotSet));
    assert_eq!(resolve_config_path(Some("/h"), |_p: &str| false), Err(ConfigPathError::NotFound));
    assert_eq!(ConfigPathError::HomeNotSet.message(), "environment variable not found");
    assert!(ConfigPathError::NotFound.message().starts_with("Failed to find .rcode/config.toml"));
}

fn area(x: u16, y: u16, width: u16, height: u16) -> Area {
    Area { x, y, width, height }
}

#[test]
fn plan_needs_three_parts() {
    let mut app = App::default();
    let r = plan_frame(&mut app, area(0, 0, 30, 10), &vec![area(0, 0, 30, 10)]);
    assert!(r.is_none());
    assert_eq!(app.width(), 30);
    assert_eq!(app.messages_area_height(), 60);
}

#[test]
fn plan_lays_out_the_interface() {
    let mut app = App::default();
    app.push_message(Message::User("hi".into()));
    app.push_input_char('x');
    let parts = vec![area(0, 0, 20, 7), area(0, 7, 20, 1), area(0, 8, 20, 3)];
    let plan = plan_frame(&mut app, area(0, 0, 20, 11), &parts).unwrap();
    assert_eq!(plan.messages_area, parts[0]);
    assert_eq!(plan.status_area, parts[1]);
    assert_eq!(plan.input_area, parts[2]);
    assert_eq!(plan.transcript, "[User] hi\n");
    assert_eq!(plan.status, "Ready");
    assert_eq!(plan.input_line, "> x");
    assert_eq!(plan.scroll, 0);
    assert_eq!(app.width(), 20);
    assert_eq!(app.messages_area_height(), 7);
    assert_eq!(app.max_scroll(), 0);
}

#[test]
fn long_transcript_can_scroll() {
    let mut app = App::default();
    for i in 0..10 {
        app.push_message(Message::Assistant(format!("line {}", i)));
    }
    let parts = vec![area(0, 0, 40, 4), area(0, 4, 40, 1), area(0, 5, 40, 3)];
    plan_frame(&mut app, area(0, 0, 40, 8), &parts).unwrap();
    assert_eq!(app.max_scroll(), 6);
}

#[test]
fn layout_frame_splits_the_terminal() {
    let mut app = App::default();
    let plan = layout_frame(&mut app, area(0, 0, 80, 20)).unwrap();
    assert_eq!(plan.messages_area.height + plan.status_area.height + plan.input_area.height, 20);
    assert_eq!(plan.status_area.height, 1);
    assert!(plan.input_area.height >= 3);
    assert_eq!(app.messages_area_height(), plan.messages_area.height);
}

#[test]
fn layout_frame_parts_are_bands_of_the_frame() {
    let mut app = App::default();
    let frame = area(3, 2, 50, 12);
    let plan = layout_frame(&mut app, frame).unwrap();
    for part in [plan.messages_area, plan.status_area, plan.input_area] {
        assert_eq!(part.x, 3);
        assert_eq!(part.width, 50);
        assert!(part.y >= 2);
        assert!(part.y + part.height <= 14);
    }
    assert!(plan.messages_area.y + plan.messages_area.height <= plan.status_area.y);
    assert!(plan.status_area.y + plan.status_area.height <= plan.input_area.y);
    assert_eq!(app.width(), 50);
}

#[test]
fn layout_frame_uses_the_frame_constraints_in_order() {
    let mut app = App::default();
    let plan = layout_frame(&mut app, area(0, 0, 60, 30)).unwrap();
    let parts = Layout::vertical([Constraint::Percentage(70), Constraint::Length(1), Constraint::Min(3)])
        .split(Rect::new(0, 0, 60, 30));
    let got = [plan.messages_area, plan.status_area, plan.input_area];
    for (g, p) in got.iter().zip(parts.iter()) {
        assert_eq!((g.x, g.y, g.width, g.height), (p.x, p.y, p.width, p.height));
    }
    assert_eq!(app.messages_area_height(), parts[0].height);
}
