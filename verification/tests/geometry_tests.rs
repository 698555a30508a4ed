use rtils::commands::{
    begin_command_buffer, buffer_bounds, buffer_purge_outside, buffer_shift, check_collision_recs, queue_draw_box,
    queue_draw_circle, queue_draw_line, queue_draw_pixel, queue_draw_text, BufferedCommand, Rect,
};
use rtils::screen::Col;

fn rect(x: i64, y: i64, width: i64, height: i64) -> Rect {
    Rect { x, y, width, height }
}

#[test]
fn bounds_of_each_kind() {
    let px = BufferedCommand::DrawPixel { x: 3, y: 4, color: Col::Red };
    assert_eq!(px.bounds(), rect(3, 4, 1, 1));
    let ch = BufferedCommand::DrawCharacter { x: 1, y: 2, color: Col::Red, c: 'a' };
    assert_eq!(ch.bounds(), rect(1, 2, 10, 10));
    let circle = BufferedCommand::DrawCircle { x: 5, y: 6, rx10: 7, color: Col::Red };
    assert_eq!(circle.bounds(), rect(5, 6, 14, 14));
    let text = BufferedCommand::DrawString { text: "hello world".to_string(), x: 0, y: 0, w: 30, color: Col::Red, wrap: true };
    // 30 pixels hold 4 characters a line: 11 characters take 2 more lines.
    assert_eq!(text.bounds(), rect(0, 0, 60, 30));
    let tex = BufferedCommand::DrawBox { x: -1, y: -2, w: 3, h: 4, color: Col::Red };
    assert_eq!(tex.bounds(), rect(-1, -2, 3, 4));
}

#[test]
fn line_bounds_run_between_its_ends() {
    let l = BufferedCommand::DrawLine { start_x: 10, end_x: 2, start_y: 1, end_y: 5, color: Col::Blue };
    assert_eq!(l.bounds(), rect(2, 1, 8, 4));
    assert_eq!(l.min_max(), ((2, 1), (10, 5)));
    // An extent past i32::MAX wraps as the cast to i32 does.
    let wide = BufferedCommand::DrawLine { start_x: i32::MIN, end_x: i32::MAX, start_y: 0, end_y: 0, color: Col::Blue };
    assert_eq!(wide.bounds(), rect(i32::MIN as i64, 0, -1, 0));
}

#[test]
fn buffer_bounds_holds_every_command() {
    let empty = begin_command_buffer();
    assert_eq!(buffer_bounds(&empty), rect(0, 0, 0, 0));
    let mut b = begin_command_buffer();
    queue_draw_pixel(&mut b, 5, 5, Col::Red);
    queue_draw_box(&mut b, -2, 3, 4, 10, Col::Red);
    queue_draw_circle(&mut b, 0, 0, 1, Col::Red);
    assert_eq!(buffer_bounds(&b), rect(-2, 0, 8, 13));
    buffer_shift(&mut b, 10, -1);
    assert_eq!(buffer_bounds(&b), rect(8, -1, 8, 13));
}

#[test]
fn collision_needs_overlap() {
    assert!(check_collision_recs(rect(0, 0, 2, 2), rect(1, 1, 2, 2)));
    assert!(!check_collision_recs(rect(0, 0, 2, 2), rect(2, 0, 1, 1)));
    assert!(!check_collision_recs(rect(0, 0, 2, 2), rect(0, 2, 1, 1)));
    assert!(check_collision_recs(rect(i64::MAX - 1, 0, 1, 1), rect(i64::MAX - 1, 0, 1, 1)));
}

#[test]
fn purge_keeps_commands_that_overlap() {
    let mut b = begin_command_buffer();
    queue_draw_pixel(&mut b, 1, 1, Col::Red);
    queue_draw_pixel(&mut b, 50, 50, Col::Red);
    queue_draw_line(&mut b, -5, 5, 0, 0, Col::Red);
    queue_draw_text(&mut b, "x", 8, 8, 10, Col::Red, false);
    let kept = buffer_purge_outside(b, rect(0, 0, 10, 10));
    assert_eq!(kept.commands.len(), 2);
    assert!(matches!(kept.commands[0], BufferedCommand::DrawPixel { x: 1, y: 1, .. }));
    assert!(matches!(kept.commands[1], BufferedCommand::DrawString { x: 8, y: 8, .. }));
}

#[test]
fn shifting_moves_bounds_and_keeps_size() {
    let mut l = BufferedCommand::DrawLine { start_x: 10, end_x: 2, start_y: 1, end_y: 5, color: Col::Blue };
    let before = l.bounds();
    l.shift(-3, 7);
    assert_eq!(l.bounds(), rect(before.x - 3, before.y + 7, before.width, before.height));
    let mut t = BufferedCommand::DrawString { text: "abc".to_string(), x: 0, y: 0, w: 30, color: Col::Red, wrap: true };
    let tb = t.bounds();
    t.shift(4, 4);
    assert_eq!(t.bounds(), rect(4, 4, tb.width, tb.height));
}
