use serial_term::console::{escape_byte, find_number, Action, App, Grapher, UiEvent};
use serial_term::wraptext::{Movement, WrapText, WrapTextState};

fn new_text() -> WrapText<'static> {
    WrapText { lines: vec![String::new()], block: None }
}

fn feed(app: &mut App, text: &mut WrapText, bytes: &[u8]) -> Vec<u8> {
    let mut out = Vec::new();
    for b in bytes {
        out.extend(escape_byte(*b));
        app.parse_byte(*b, text);
    }
    out
}

#[test]
fn escape_keeps_ascii_and_hex_escapes_the_rest() {
    assert_eq!(escape_byte(b'A'), b"A".to_vec());
    assert_eq!(escape_byte(b'\n'), b"\n".to_vec());
    assert_eq!(escape_byte(0xFF), b"0xFF".to_vec());
    assert_eq!(escape_byte(0x80), b"0x80".to_vec());
    assert_eq!(escape_byte(0xA5), b"0xA5".to_vec());
}

#[test]
fn invalid_byte_is_escaped_in_file_and_lines() {
    let mut app = App::new();
    let mut text = new_text();
    let out = feed(&mut app, &mut text, b"A\xFFB\n");
    assert_eq!(out, b"A0xFFB\n".to_vec());
    assert_eq!(text.lines, vec!["A0xFFB".to_string(), String::new()]);
}

#[test]
fn transcript_equals_joined_lines() {
    let mut app = App::new();
    let mut text = new_text();
    let input = b"hello\n\x01\x9a\nworld\n\nend";
    let out = feed(&mut app, &mut text, input);
    let expected = b"hello\n\x010x9A\nworld\n\nend".to_vec();
    assert_eq!(out, expected);
    assert_eq!(text.lines.join("\n").into_bytes(), expected);
    assert_eq!(app.cur_line, "end");
}

#[test]
fn graph_takes_first_number_of_each_line() {
    let mut app = App::new();
    app.grapher = Some(Grapher::new(60));
    let mut text = new_text();
    feed(&mut app, &mut text, b"3.14\n-2\nfoo\n");
    let g = app.grapher.as_ref().unwrap();
    assert_eq!(g.data, vec!["3.14".to_string(), "-2".to_string()]);
    let series: Vec<(f64, f64)> =
        g.data.iter().enumerate().map(|(i, t)| (i as f64, t.parse::<f64>().unwrap())).collect();
    assert_eq!(series, vec![(0.0, 3.14), (1.0, -2.0)]);
    assert_eq!(g.window, (0, 60));
}

#[test]
fn graph_without_grapher_only_builds_lines() {
    let mut app = App::new();
    let mut text = new_text();
    feed(&mut app, &mut text, b"12\n");
    assert!(app.grapher.is_none());
    assert_eq!(text.lines, vec!["12".to_string(), String::new()]);
}

#[test]
fn find_number_takes_leftmost_match() {
    assert_eq!(find_number(&"t=-12.5C 7".to_string()), Some("-12.5".to_string()));
    assert_eq!(find_number(&"a-b 42. x".to_string()), Some("42.".to_string()));
    assert_eq!(find_number(&"v 3.x".to_string()), Some("3.".to_string()));
    assert_eq!(find_number(&"--7".to_string()), Some("-7".to_string()));
    assert_eq!(find_number(&"foo".to_string()), None);
    assert_eq!(find_number(&String::new()), None);
}

#[test]
fn grapher_window_slides_one_per_sample_once_full() {
    let mut g = Grapher::new(10);
    let mut windows = Vec::new();
    for i in 0..14 {
        g.ingest(format!("{i}"));
        windows.push(g.window);
    }
    // 10 * len + 10 > 10 * upper first holds with 10 samples before the new one
    assert_eq!(windows[8], (0, 10));
    assert_eq!(windows[9], (0, 10));
    assert_eq!(windows[10], (1, 11));
    assert_eq!(windows[11], (2, 12));
    assert_eq!(windows[13], (4, 14));
    for w in &windows {
        assert_eq!(w.1 - w.0, 10);
    }
}

#[test]
fn grapher_shows_last_window_len_samples() {
    let mut g = Grapher::new(3);
    assert_eq!(g.visible_start(), 0);
    g.ingest("1".to_string());
    g.ingest("2".to_string());
    assert_eq!(g.visible_start(), 0);
    g.ingest("3".to_string());
    g.ingest("4".to_string());
    g.ingest("5".to_string());
    assert_eq!(g.visible_start(), 2);
    assert_eq!(g.data.len() - g.visible_start(), 3);
}

#[test]
fn enter_sends_line_with_newline_and_records_history() {
    let mut app = App::new();
    let mut state = WrapTextState::new();
    match app.handle_event(UiEvent::Enter("ping".to_string()), &mut state) {
        Action::Send(bytes) => assert_eq!(bytes, b"ping\n".to_vec()),
        _ => panic!("expected a send"),
    }
    assert_eq!(app.history, vec!["ping\n".to_string()]);
    assert!(state.movement_queue.is_empty());
}

#[test]
fn submit_line_encodes_utf8() {
    let mut app = App::new();
    let bytes = app.submit_line("é".to_string());
    assert_eq!(bytes, "é\n".as_bytes().to_vec());
}

#[test]
fn events_queue_movements_and_pick_actions() {
    let mut app = App::new();
    let mut state = WrapTextState::new();
    assert!(matches!(app.handle_event(UiEvent::ScrollUp, &mut state), Action::Redraw));
    assert!(matches!(app.handle_event(UiEvent::ScrollDown, &mut state), Action::Redraw));
    assert!(matches!(app.handle_event(UiEvent::FollowKey, &mut state), Action::Redraw));
    assert_eq!(state.movement_queue, vec![Movement::ScrollUp, Movement::ScrollDown, Movement::Follow]);
    assert!(matches!(app.handle_event(UiEvent::KeyInput, &mut state), Action::EditInput));
    assert!(matches!(app.handle_event(UiEvent::Resize(80, 24), &mut state), Action::Resize(80, 24)));
    assert!(matches!(app.handle_event(UiEvent::Other, &mut state), Action::Nothing));
    assert!(matches!(app.handle_event(UiEvent::Escape, &mut state), Action::Quit));
    assert_eq!(state.movement_queue.len(), 3);
    assert!(app.history.is_empty());
}
