use life_viewer::grid::{as_html, next_tick, Grid};
use life_viewer::session::State;
use life_viewer::command::Frame;
use life_viewer::session::handle_input;

fn args(a: &[&str]) -> Option<Vec<String>> {
    Some(a.iter().map(|s| s.to_string()).collect())
}

fn blinker() -> Grid {
    let mut g = Grid::dead();
    g.set(10, 9, true);
    g.set(10, 10, true);
    g.set(10, 11, true);
    g
}

#[test]
fn new_session_defaults() {
    let s = State::new();
    assert_eq!(s.speed, 1);
    assert!(!s.pause);
    assert_eq!(s.tick_period_ms(), 1000);
}

#[test]
fn speed_commands() {
    let mut s = State::new();
    s.apply("speed", &args(&["-"]));
    assert_eq!(s.speed, 2);
    assert_eq!(s.tick_period_ms(), 500);
    s.apply("speed", &args(&["-"]));
    assert_eq!(s.speed, 3);
    assert_eq!(s.tick_period_ms(), 333);
    s.apply("speed", &args(&["+"]));
    assert_eq!(s.speed, 2);
    s.apply("speed", &None);
    assert_eq!(s.speed, 1);
}

#[test]
fn speed_reaches_zero_and_period_is_guarded() {
    let mut s = State::new();
    s.apply("speed", &args(&["x"]));
    assert_eq!(s.speed, 0);
    assert_eq!(s.tick_period_ms(), 1000);
    s.apply("speed", &args(&["x"]));
    assert_eq!(s.speed, 0);
}

#[test]
fn speed_saturates_at_max() {
    let mut s = State::new();
    s.speed = u8::MAX;
    s.apply("speed", &args(&["-"]));
    assert_eq!(s.speed, u8::MAX);
    assert_eq!(s.tick_period_ms(), 3);
}

#[test]
fn pause_freezes_renders() {
    let mut s = State::new();
    s.grid = blinker();
    s.apply("pause", &None);
    assert!(s.pause);
    let first = as_html(&s.grid);
    for _ in 0..5 {
        s.advance();
        assert_eq!(as_html(&s.grid), first);
    }
}

#[test]
fn play_resumes_changes_unless_fixed() {
    let mut s = State::new();
    s.grid = blinker();
    s.apply("pause", &None);
    s.advance();
    let before = as_html(&s.grid);
    s.apply("play", &None);
    assert!(!s.pause);
    s.advance();
    assert_ne!(as_html(&s.grid), before);
    assert_eq!(as_html(&s.grid), as_html(&next_tick(&blinker())));

    let mut t = State::new();
    t.grid = Grid::dead();
    t.apply("pause", &None);
    let before = as_html(&t.grid);
    t.apply("play", &None);
    t.advance();
    assert_eq!(as_html(&t.grid), before);
}

#[test]
fn reset_keeps_speed_and_pause() {
    let mut s = State::new();
    s.apply("speed", &args(&["-"]));
    s.apply("pause", &None);
    s.grid = Grid::dead();
    s.apply("reset", &None);
    assert_eq!(s.speed, 2);
    assert!(s.pause);
}

#[test]
fn unknown_command_changes_nothing() {
    let mut s = State::new();
    s.grid = blinker();
    let before = as_html(&s.grid);
    s.apply("jump", &args(&["-"]));
    assert_eq!(s.speed, 1);
    assert!(!s.pause);
    assert_eq!(as_html(&s.grid), before);
}

#[test]
fn handle_input_applies_decoded_command() {
    let mut s = State::new();
    let text = |t: &str| Frame::Text(t.to_string());
    handle_input(text("{\"HEADERS\":{\"HX-Trigger-Name\":\"speed:-\",\"HX-Target\":\"c\"}}"), &mut s);
    assert_eq!(s.speed, 2);
    handle_input(text("{\"HEADERS\":{\"HX-Trigger-Name\":\"pause\",\"HX-Target\":\"c\"}}"), &mut s);
    assert!(s.pause);
    handle_input(text("garbage"), &mut s);
    assert_eq!(s.speed, 2);
    assert!(s.pause);
}

#[test]
fn handle_input_ignores_other_frames() {
    let mut s = State::new();
    handle_input(Frame::Other, &mut s);
    assert!(!s.pause);
    handle_input(Frame::Text("{x{HX-Trigger-Name:pause".to_string()), &mut s);
    assert!(s.pause);
}

#[test]
fn advance_moves_running_grid() {
    let mut s = State::new();
    s.grid = blinker();
    s.advance();
    assert_eq!(as_html(&s.grid), as_html(&next_tick(&blinker())));
}

#[test]
fn handle_input_reset_keeps_speed_and_pause() {
    let mut s = State::new();
    s.speed = 3;
    s.pause = true;
    s.grid = Grid::dead();
    handle_input(Frame::Text("{\"HEADERS\":{\"HX-Trigger-Name\":\"reset\",\"HX-Target\":\"grid\"}}".to_string()), &mut s);
    assert_eq!(s.speed, 3);
    assert!(s.pause);
}

#[test]
fn handle_input_speed_x_reaches_zero() {
    let mut s = State::new();
    s.grid = Grid::dead();
    let before = as_html(&s.grid);
    handle_input(Frame::Text("{\"HEADERS\":{\"HX-Trigger-Name\":\"speed:x\",\"HX-Target\":\"grid\"}}".to_string()), &mut s);
    assert_eq!(s.speed, 0);
    assert!(!s.pause);
    assert_eq!(as_html(&s.grid), before);
}

#[test]
fn handle_input_speed_without_argument() {
    let mut s = State::new();
    s.speed = 5;
    s.pause = true;
    handle_input(Frame::Text("{\"HEADERS\":{\"HX-Trigger-Name\":\"speed\",\"HX-Target\":\"grid\"}}".to_string()), &mut s);
    assert_eq!(s.speed, 1);
    assert!(s.pause);
}
