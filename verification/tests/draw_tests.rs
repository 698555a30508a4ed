use rtils::draw::{draw_ops, run_draw_cmd, DrawOp};
use std::collections::VecDeque;
use rtils::screen::{Cmd, Col};

fn codepoints(ops: &[DrawOp]) -> Vec<(char, i32, i32)> {
    ops.iter()
        .map(|op| match op {
            DrawOp::Codepoint { code, x, y, .. } => (char::from_u32(*code).unwrap(), *x, *y),
            _ => panic!("not a character"),
        })
        .collect()
}

#[test]
fn box_becomes_four_lines() {
    let (ops, ends) = draw_ops(Cmd::DrawBox { x: 1, y: 2, w: 10, h: 5, color: Col::Red }, 10, 10);
    assert!(!ends);
    assert_eq!(ops.len(), 4);
    assert!(matches!(ops[0], DrawOp::Line { start_x: 1, start_y: 2, end_x: 11, end_y: 2, color: Col::Red }));
    assert!(matches!(ops[1], DrawOp::Line { start_x: 1, start_y: 2, end_x: 1, end_y: 7, .. }));
    assert!(matches!(ops[2], DrawOp::Line { start_x: 11, start_y: 2, end_x: 11, end_y: 7, .. }));
    assert!(matches!(ops[3], DrawOp::Line { start_x: 1, start_y: 7, end_x: 11, end_y: 7, .. }));
}

#[test]
fn string_wraps_inside_its_box() {
    let cmd = Cmd::DrawString { text: "abcd".to_string(), x: 5, y: 0, w: 20, color: Col::White, wrap: true };
    let (ops, _) = draw_ops(cmd, 10, 8);
    assert_eq!(codepoints(&ops), vec![('a', 5, 0), ('b', 15, 0), ('c', 25, 0), ('d', 5, 8)]);
    let cmd = Cmd::DrawString { text: "abc".to_string(), x: 5, y: 0, w: 20, color: Col::White, wrap: false };
    let (ops, _) = draw_ops(cmd, 10, 8);
    assert_eq!(codepoints(&ops), vec![('a', 5, 0), ('b', 15, 0), ('c', 25, 0)]);
    let cmd = Cmd::DrawString { text: "xyz".to_string(), x: 625, y: 3, w: 100, color: Col::White, wrap: true };
    let (ops, _) = draw_ops(cmd, 10, 8);
    assert_eq!(codepoints(&ops), vec![('x', 625, 3), ('y', 635, 3), ('z', 625, 11)]);
}

#[test]
fn clip_commands_and_frame_markers() {
    let (ops, ends) = draw_ops(Cmd::BeginScissor { x: 0, y: 0, w: 4, h: 4 }, 10, 10);
    assert!(!ends && matches!(ops[0], DrawOp::BeginClip { w: 4, .. }));
    let (ops, ends) = draw_ops(Cmd::EndScissor { x: 0, y: 0, w: 4, h: 4 }, 10, 10);
    assert!(ends && matches!(ops[0], DrawOp::EndClip));
    assert!(matches!(draw_ops(Cmd::BeginDrawing, 10, 10).0[0], DrawOp::Clear));
    assert!(matches!(draw_ops(Cmd::DrawCharacter { x: 1, y: 1, color: Col::Blue, c: 'q' }, 10, 10).0[0], DrawOp::Codepoint { code: 113, .. }));
    assert!(matches!(draw_ops(Cmd::DrawCircle { x: 3, y: 4, rx10: 25, color: Col::Green }, 10, 10).0[0], DrawOp::Circle { rx10: 25, .. }));
}

#[test]
fn stream_takes_one_command_or_a_whole_clip() {
    let mut empty: VecDeque<Cmd> = VecDeque::new();
    let (ops, ended) = run_draw_cmd(&mut empty, 10, 10);
    assert!(ops.is_empty() && ended);
    let mut s: VecDeque<Cmd> = VecDeque::new();
    s.push_back(Cmd::BeginScissor { x: 0, y: 0, w: 9, h: 9 });
    s.push_back(Cmd::DrawPixel { x: 1, y: 1, color: Col::Red });
    s.push_back(Cmd::BeginScissor { x: 2, y: 2, w: 3, h: 3 });
    s.push_back(Cmd::EndScissor { x: 2, y: 2, w: 3, h: 3 });
    s.push_back(Cmd::EndScissor { x: 0, y: 0, w: 9, h: 9 });
    s.push_back(Cmd::DrawPixel { x: 5, y: 5, color: Col::Blue });
    s.push_back(Cmd::EndScissor { x: 0, y: 0, w: 0, h: 0 });
    let (ops, ended) = run_draw_cmd(&mut s, 10, 10);
    assert!(!ended);
    assert_eq!(ops.len(), 5);
    assert!(matches!(ops[0], DrawOp::BeginClip { w: 9, .. }));
    assert!(matches!(ops[1], DrawOp::Pixel { x: 1, .. }));
    assert!(matches!(ops[2], DrawOp::BeginClip { w: 3, .. }));
    assert!(matches!(ops[3], DrawOp::EndClip));
    assert!(matches!(ops[4], DrawOp::EndClip));
    assert_eq!(s.len(), 2);
    let (ops, ended) = run_draw_cmd(&mut s, 10, 10);
    assert!(!ended && matches!(ops[0], DrawOp::Pixel { x: 5, .. }));
    let (ops, ended) = run_draw_cmd(&mut s, 10, 10);
    assert!(ended && ops.is_empty() && s.is_empty());
    let mut open: VecDeque<Cmd> = VecDeque::new();
    open.push_back(Cmd::BeginScissor { x: 0, y: 0, w: 1, h: 1 });
    open.push_back(Cmd::BeginScissor { x: 0, y: 0, w: 1, h: 1 });
    let (ops, ended) = run_draw_cmd(&mut open, 10, 10);
    assert!(!ended && ops.len() == 4 && open.is_empty());
    assert!(matches!(ops[2], DrawOp::EndClip) && matches!(ops[3], DrawOp::EndClip));
}
