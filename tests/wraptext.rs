use serial_term::wraptext::{layout_rows, wrapped_height, Movement, Position, WrapText, WrapTextState};

fn lines_of(texts: &[&str]) -> Vec<String> {
    texts.iter().map(|t| t.to_string()).collect()
}

fn row_strings(rows: &[(bool, Vec<char>)]) -> Vec<String> {
    rows.iter().map(|(_, r)| r.iter().collect()).collect()
}

#[test]
fn wrapped_height_counts_gutter() {
    assert_eq!(wrapped_height(&String::new(), 10), 1);
    assert_eq!(wrapped_height(&"abcdef".to_string(), 10), 1);
    assert_eq!(wrapped_height(&"abcdefg".to_string(), 10), 2);
    assert_eq!(wrapped_height(&"abcdef".to_string(), 1), 10);
}

#[test]
fn wrapped_height_halves_when_width_doubles() {
    let line = "x".repeat(96);
    assert_eq!(wrapped_height(&line, 10), 10);
    assert_eq!(wrapped_height(&line, 20), 5);
    let odd = "x".repeat(97);
    assert_eq!(wrapped_height(&odd, 10), 11);
    assert_eq!(wrapped_height(&odd, 20), 6);
}

#[test]
fn follow_start_of_short_buffer_is_top() {
    let lines = lines_of(&["a", "b"]);
    assert_eq!(Position::follow_get_start_pos(10, 5, &lines), (0, 0));
}

#[test]
fn follow_start_takes_overflow_of_first_visible_line() {
    // heights at width 5: "a" -> 1, "abcdefgh" (12 columns) -> 3, "b" -> 1
    let lines = lines_of(&["a", "abcdefgh", "b"]);
    assert_eq!(Position::follow_get_start_pos(5, 2, &lines), (1, 2));
    assert_eq!(Position::follow_get_start_pos(5, 4, &lines), (1, 0));
    assert_eq!(Position::follow_get_start_pos(5, 5, &lines), (0, 0));
}

#[test]
fn layout_wraps_gutter_and_text() {
    let lines = lines_of(&["abcdefgh", "xy"]);
    let rows = layout_rows(&lines, 0, 0, 5, 10);
    assert_eq!(row_strings(&rows), vec![" 00 a", "bcdef", "gh", " 01 x", "y"]);
    let starts: Vec<bool> = rows.iter().map(|(s, _)| *s).collect();
    assert_eq!(starts, vec![true, false, false, true, false]);
}

#[test]
fn layout_skips_offset_and_stops_at_height() {
    let lines = lines_of(&["abcdefgh", "xy"]);
    let rows = layout_rows(&lines, 0, 1, 5, 3);
    assert_eq!(row_strings(&rows), vec!["bcdef", "gh", " 01 x"]);
}

#[test]
fn gutter_shows_index_modulo_hundred() {
    let mut texts = vec![String::new(); 105];
    texts[103] = "z".to_string();
    let rows = layout_rows(&texts, 103, 0, 10, 1);
    assert_eq!(row_strings(&rows), vec![" 03 z"]);
}

#[test]
fn follow_render_ends_with_last_character() {
    let lines = lines_of(&["first line", "second", "the very last line"]);
    let mut state = WrapTextState::new();
    let rows = state.render(7, 4, &lines);
    assert_eq!(rows.len(), 4);
    let bottom: String = rows[3].1.iter().collect();
    assert!(bottom.ends_with('e'));
    assert_eq!(row_strings(&rows), vec![" 02 the", " very l", "ast lin", "e"]);
    let all = layout_rows(&lines, 0, 0, 7, 100);
    assert_eq!(row_strings(&rows), row_strings(&all[all.len() - 4..]));
}

#[test]
fn scroll_up_from_follow_moves_one_row_above_tail() {
    let lines = lines_of(&["a", "abcdefgh", "b"]);
    let mut p = Position::Follow;
    p.do_movement(Movement::ScrollUp, 5, 2, &lines);
    assert_eq!(p, Position::At(1, 1));
}

#[test]
fn scroll_down_from_follow_stops_at_tail() {
    let lines = lines_of(&["a", "abcdefgh", "b"]);
    let mut p = Position::Follow;
    p.do_movement(Movement::ScrollDown, 5, 2, &lines);
    assert_eq!(p, Position::At(1, 2));
}

#[test]
fn scroll_up_crosses_to_last_row_of_previous_line() {
    let lines = lines_of(&["a", "abcdefgh", "b"]);
    let mut p = Position::At(2, 0);
    p.do_movement(Movement::ScrollUp, 5, 2, &lines);
    assert_eq!(p, Position::At(1, 2));
    let mut top = Position::At(0, 0);
    top.do_movement(Movement::ScrollUp, 5, 2, &lines);
    assert_eq!(top, Position::At(0, 0));
}

#[test]
fn scroll_down_is_clamped_at_last_row() {
    let lines = lines_of(&["a", "abcdefgh", "b"]);
    let mut p = Position::At(1, 2);
    p.do_movement(Movement::ScrollDown, 5, 2, &lines);
    assert_eq!(p, Position::At(2, 0));
    p.do_movement(Movement::ScrollDown, 5, 2, &lines);
    assert_eq!(p, Position::At(2, 0));
}

#[test]
fn follow_movement_returns_to_follow() {
    let lines = lines_of(&["a"]);
    let mut p = Position::At(0, 0);
    p.do_movement(Movement::Follow, 5, 2, &lines);
    assert_eq!(p, Position::Follow);
}

#[test]
fn scroll_up_then_down_returns_to_start() {
    let lines = lines_of(&["one", "two two two two", "three", "four four"]);
    let start = Position::At(2, 0);
    let mut state = WrapTextState { position: start, movement_queue: Vec::new() };
    for _ in 0..3 {
        state.scroll_up();
    }
    for _ in 0..3 {
        state.scroll_down();
    }
    state.apply_movements(6, 3, &lines);
    assert_eq!(state.position, start);
    assert!(state.movement_queue.is_empty());

    for _ in 0..2 {
        state.scroll_down();
    }
    for _ in 0..2 {
        state.scroll_up();
    }
    state.apply_movements(6, 3, &lines);
    assert_eq!(state.position, start);
}

#[test]
fn scroll_round_trip_is_clamped_at_top() {
    let lines = lines_of(&["one", "two"]);
    let mut state = WrapTextState { position: Position::At(0, 0), movement_queue: Vec::new() };
    state.scroll_up();
    state.scroll_down();
    state.apply_movements(20, 3, &lines);
    assert_eq!(state.position, Position::At(1, 0));
}

#[test]
fn queue_methods_push_in_order() {
    let mut state = WrapTextState::new();
    state.scroll_up();
    state.scroll_down();
    state.follow();
    assert_eq!(state.movement_queue, vec![Movement::ScrollUp, Movement::ScrollDown, Movement::Follow]);
    assert_eq!(state.position, Position::Follow);
}

#[test]
fn clamp_brings_position_back_after_resize() {
    let lines = lines_of(&["abcdefgh", "b"]);
    assert_eq!(Position::At(0, 5).clamp(5, &lines), Position::At(0, 2));
    assert_eq!(Position::At(0, 5).clamp(20, &lines), Position::At(0, 0));
    assert_eq!(Position::At(7, 0).clamp(20, &lines), Position::At(1, 0));
    assert_eq!(Position::At(-3, -1).clamp(20, &lines), Position::At(0, 0));
    assert_eq!(Position::Follow.clamp(20, &lines), Position::Follow);
}

#[test]
fn widget_takes_the_block() {
    let mut text = WrapText { lines: lines_of(&["a"]), block: None };
    text.set_block(tui::widgets::Block::default());
    assert!(text.block.is_some());
    let w = text.widget();
    assert!(w.block.is_some());
    assert_eq!(w.lines.len(), 1);
    assert!(text.block.is_none());
}
