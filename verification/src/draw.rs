//! What the drawing device does for each command: the primitive draws that
//! a command turns into, with text laid out character by character.
use vstd::prelude::*;
use crate::screen::{Cmd, Col, LargeSprite, Sprite, Texture};
use crate::text::chars_of;
use std::collections::VecDeque;

verus! {

/// Width of the device's screen, in pixels.
pub const SCREEN_WIDTH: i32 = 640;

/// One primitive draw of the device.
pub enum DrawOp {
    Pixel { x: i32, y: i32, color: Col },
    /// The character of code point `code`, with its top left corner at
    /// `x`, `y`.
    Codepoint { code: u32, x: i32, y: i32, color: Col },
    Rect { x: i32, y: i32, w: i32, h: i32, color: Col },
    Line { start_x: i32, start_y: i32, end_x: i32, end_y: i32, color: Col },
    /// A circle of radius `rx10` tenths of a pixel.
    Circle { x: i32, y: i32, rx10: i32, color: Col },
    Sprite { x: i32, y: i32, h: i32, w: i32, sprite: Sprite },
    LargeSprite { x: i32, y: i32, h: i32, w: i32, sprite: LargeSprite },
    Texture { x: i32, y: i32, h: i32, w: i32, texture: Texture },
    /// Later draws are clipped to this rectangle until the clip ends.
    BeginClip { x: i32, y: i32, w: i32, h: i32 },
    EndClip,
    /// The screen is cleared to black.
    Clear,
    /// The delay of the frame is written on the screen.
    ShowDelay,
}

/// Whether `v` fits in an `i32`.
pub open spec fn fits(v: int) -> bool {
    i32::MIN <= v <= i32::MAX
}

/// The code points of the characters of `cs` laid out from `dx`, `dy` in a box that starts at
/// `x` and is `w` wide: each character goes where the pen is, the pen moves
/// `off` to the right, and where wrapping is on and the pen has passed the
/// box or the screen, it goes back to `x` one line of `th` lower. `None`
/// where a position leaves the range of `i32`.
pub open spec fn lay_out(
    cs: Seq<char>,
    x: int,
    w: int,
    wrap: bool,
    off: int,
    th: int,
    dx: int,
    dy: int,
) -> Option<Seq<(u32, int, int)>>
    decreases cs.len(),
{
    if cs.len() == 0 {
        Some(Seq::empty())
    } else {
        let pen = dx + off;
        if !fits(pen) || !fits(x + w) {
            None
        } else {
            let wraps = (pen > x + w || pen > SCREEN_WIDTH) && wrap;
            let nx = if wraps { x } else { pen };
            let ny = if wraps { dy + th } else { dy };
            if !fits(ny) {
                None
            } else {
                match lay_out(cs.drop_first(), x, w, wrap, off, th, nx, ny) {
                    Some(rest) => Some(seq![(cs[0] as u32, dx, dy)] + rest),
                    None => None,
                }
            }
        }
    }
}

/// The character and position that a draw of a character puts.
pub open spec fn laid_of(op: DrawOp) -> (u32, int, int) {
    match op {
        DrawOp::Codepoint { code, x, y, color: _ } => (code, x as int, y as int),
        _ => (0, 0, 0),
    }
}

/// The characters and positions that `ops` put, in order.
pub open spec fn laid(ops: Seq<DrawOp>) -> Seq<(u32, int, int)> {
    ops.map_values(|op: DrawOp| laid_of(op))
}

/// Whether `ops` draws the characters `laid` in `color`, in order.
pub open spec fn draws_text(ops: Seq<DrawOp>, laid: Seq<(u32, int, int)>, color: Col) -> bool {
    &&& ops.len() == laid.len()
    &&& forall|i: int|
        0 <= i < ops.len() ==> #[trigger] ops[i] == DrawOp::Codepoint {
            code: laid[i].0,
            x: laid[i].1 as i32,
            y: laid[i].2 as i32,
            color,
        }
}

/// Whether `cmd` can be drawn: a box's far corner and the positions of a
/// string's characters stay in the range of `i32`.
pub open spec fn drawable(cmd: Cmd, text_offset: i32, text_height: i32) -> bool {
    match cmd {
        Cmd::DrawBox { x, y, w, h, color: _ } => fits(x + w) && fits(y + h),
        Cmd::DrawString { text, x, y, w, color: _, wrap } => lay_out(
            text@,
            x as int,
            w as int,
            wrap,
            text_offset as int,
            text_height as int,
            x as int,
            y as int,
        ) is Some,
        _ => true,
    }
}

/// The draws of the characters `laid`, in `color`, in order.
pub open spec fn text_ops(laid: Seq<(u32, int, int)>, color: Col) -> Seq<DrawOp> {
    Seq::new(
        laid.len(),
        |i: int| DrawOp::Codepoint { code: laid[i].0, x: laid[i].1 as i32, y: laid[i].2 as i32, color },
    )
}

/// The draws of the command `cmd` taken alone: a box is its four sides, a
/// string its characters laid out as `lay_out` says, a clip's start and end
/// the start and end of the clip, a report nothing.
pub open spec fn cmd_ops(cmd: Cmd, text_offset: i32, text_height: i32) -> Seq<DrawOp> {
    match cmd {
        Cmd::DrawPixel { x, y, color } => seq![DrawOp::Pixel { x, y, color }],
        Cmd::DrawCharacter { x, y, color, c } => seq![DrawOp::Codepoint { code: c as u32, x, y, color }],
        Cmd::DrawRect { x, y, w, h, color } => seq![DrawOp::Rect { x, y, w, h, color }],
        Cmd::DrawBox { x, y, w, h, color } => seq![
            DrawOp::Line { start_x: x, start_y: y, end_x: (x + w) as i32, end_y: y, color },
            DrawOp::Line { start_x: x, start_y: y, end_x: x, end_y: (y + h) as i32, color },
            DrawOp::Line { start_x: (x + w) as i32, start_y: y, end_x: (x + w) as i32, end_y: (y + h) as i32, color },
            DrawOp::Line { start_x: x, start_y: (y + h) as i32, end_x: (x + w) as i32, end_y: (y + h) as i32, color },
        ],
        Cmd::DrawCircle { x, y, rx10, color } => seq![DrawOp::Circle { x, y, rx10, color }],
        Cmd::DrawString { text, x, y, w, color, wrap } => text_ops(
            lay_out(text@, x as int, w as int, wrap, text_offset as int, text_height as int, x as int, y as int)->0,
            color,
        ),
        Cmd::DrawSprite { x, y, h, w, sprite } => seq![DrawOp::Sprite { x, y, h, w, sprite }],
        Cmd::DrawLargeSprite { x, y, h, w, sprite } => seq![DrawOp::LargeSprite { x, y, h, w, sprite }],
        Cmd::DrawTexture { x, y, h, w, texture } => seq![DrawOp::Texture { x, y, h, w, texture }],
        Cmd::DrawLine { start_x, end_x, start_y, end_y, color } => seq![
            DrawOp::Line { start_x, start_y, end_x, end_y, color },
        ],
        Cmd::BeginScissor { x, y, w, h } => seq![DrawOp::BeginClip { x, y, w, h }],
        Cmd::EndScissor { .. } => seq![DrawOp::EndClip],
        Cmd::BeginDrawing => seq![DrawOp::Clear],
        Cmd::EndDrawing => seq![DrawOp::ShowDelay],
        Cmd::Update(_) => Seq::empty(),
    }
}

/// The draws of the commands of `cmds` from position `i` on, inside `depth`
/// open clips, up to the end that closes the outermost of them, and the
/// position after it. Each clip start opens one more clip and each clip end
/// closes one; where the commands run out first, every open clip is closed.
pub open spec fn clip_scan(cmds: Seq<Cmd>, i: int, depth: nat, text_offset: i32, text_height: i32) -> (Seq<DrawOp>, int)
    decreases cmds.len() - i,
{
    if i >= cmds.len() || i < 0 {
        (Seq::new(depth, |k: int| DrawOp::EndClip), cmds.len() as int)
    } else {
        match cmds[i] {
            Cmd::EndScissor { .. } => if depth <= 1 {
                (seq![DrawOp::EndClip], i + 1)
            } else {
                let rest = clip_scan(cmds, i + 1, (depth - 1) as nat, text_offset, text_height);
                (seq![DrawOp::EndClip] + rest.0, rest.1)
            },
            Cmd::BeginScissor { x, y, w, h } => {
                let rest = clip_scan(cmds, i + 1, depth + 1, text_offset, text_height);
                (seq![DrawOp::BeginClip { x, y, w, h }] + rest.0, rest.1)
            },
            c => {
                let rest = clip_scan(cmds, i + 1, depth, text_offset, text_height);
                (cmd_ops(c, text_offset, text_height) + rest.0, rest.1)
            },
        }
    }
}

/// What the device does with the next command of the stream `cmds`: the
/// draws, how many commands it takes, and whether it stopped at the end of
/// the stream or at the end of a clip. An empty stream or a clip end gives
/// no draws and `true`; a clip start takes the commands through its
/// matching end, or to the end of the stream, drawing them inside the clip;
/// any other command takes itself alone and gives `false`.
pub open spec fn next_draws(cmds: Seq<Cmd>, text_offset: i32, text_height: i32) -> (Seq<DrawOp>, int, bool) {
    if cmds.len() == 0 {
        (Seq::empty(), 0, true)
    } else {
        match cmds[0] {
            Cmd::EndScissor { .. } => (Seq::empty(), 1, true),
            Cmd::BeginScissor { x, y, w, h } => {
                let inner = clip_scan(cmds, 1, 1, text_offset, text_height);
                (seq![DrawOp::BeginClip { x, y, w, h }] + inner.0, inner.1, false)
            },
            c => (cmd_ops(c, text_offset, text_height), 1, false),
        }
    }
}

/// The draws of the characters `cs` laid out from `x`, `y` as `lay_out`
/// says, in `color`.
fn draw_text(cs: &Vec<char>, x: i32, y: i32, w: i32, wrap: bool, text_offset: i32, text_height: i32, color: Col) -> (out: Vec<DrawOp>)
    requires
        lay_out(cs@, x as int, w as int, wrap, text_offset as int, text_height as int, x as int, y as int) is Some,
    ensures
        draws_text(out@, lay_out(cs@, x as int, w as int, wrap, text_offset as int, text_height as int, x as int, y as int)->0, color),
{
    let mut out: Vec<DrawOp> = Vec::new();
    let ghost full = lay_out(cs@, x as int, w as int, wrap, text_offset as int, text_height as int, x as int, y as int)->0;
    let mut dx: i32 = x;
    let mut dy: i32 = y;
    let mut i: usize = 0;
    assert(cs@.skip(0) =~= cs@);
    assert(laid(out@) =~= Seq::<(u32, int, int)>::empty());
    while i < cs.len()
        invariant
            i <= cs@.len(),
            lay_out(cs@.skip(i as int), x as int, w as int, wrap, text_offset as int, text_height as int, dx as int, dy as int) is Some,
            full == laid(out@) + lay_out(cs@.skip(i as int), x as int, w as int, wrap, text_offset as int, text_height as int, dx as int, dy as int)->0,
            forall|k: int| 0 <= k < out@.len() ==> (#[trigger] out@[k]) is Codepoint && out@[k]->Codepoint_color == color,
            out@.len() == i,
        decreases cs@.len() - i,
    {
        let ghost rest = cs@.skip(i as int);
        let ghost before = out@;
        let ghost odx = dx as int;
        let ghost ody = dy as int;
        assert(rest[0] == cs@[i as int]);
        assert(rest.drop_first() =~= cs@.skip(i + 1));
        let ch: char = cs[i];
        let op = DrawOp::Codepoint { code: ch as u32, x: dx, y: dy, color };
        out.push(op);
        proof {
            let e = (cs@[i as int] as u32, odx, ody);
            assert forall|k: int| 0 <= k < out@.len() implies #[trigger] laid(out@)[k] == laid(before).push(e)[k] by {
                if k < before.len() {
                    assert(out@[k] == before[k]);
                }
            }
            assert(laid(out@) =~= laid(before).push(e));
            assert forall|k: int| 0 <= k < out@.len() implies (#[trigger] out@[k]) is Codepoint && out@[k]->Codepoint_color == color by {
                if k < before.len() {
                    assert(out@[k] == before[k]);
                }
            }
        }
        let pen = dx + text_offset;
        if (pen > x + w || pen > SCREEN_WIDTH) && wrap {
            dx = x;
            dy = dy + text_height;
        } else {
            dx = pen;
        }
        i += 1;
        proof {
            let e = (cs@[i - 1] as u32, odx, ody);
            let n = lay_out(cs@.skip(i as int), x as int, w as int, wrap, text_offset as int, text_height as int, dx as int, dy as int)->0;
            assert(lay_out(rest, x as int, w as int, wrap, text_offset as int, text_height as int, odx, ody)->0 == seq![e] + n);
            assert(laid(before) + (seq![e] + n) =~= laid(before).push(e) + n);
        }
    }
    proof {
        assert(cs@.skip(i as int) =~= Seq::<char>::empty());
        assert(full =~= laid(out@));
        assert forall|k: int| 0 <= k < out@.len() implies #[trigger] out@[k] == DrawOp::Codepoint {
            code: full[k].0,
            x: full[k].1 as i32,
            y: full[k].2 as i32,
            color,
        } by {
            assert(full[k] == laid_of(out@[k]));
        }
    }
    out
}

/// The draws for command `cmd`, and whether it ends the clip that a
/// `BeginScissor` started. A string's characters are drawn `text_offset`
/// apart and wrap, where asked, `text_height` lower.
pub fn draw_ops(cmd: Cmd, text_offset: i32, text_height: i32) -> (r: (Vec<DrawOp>, bool))
    requires
        drawable(cmd, text_offset, text_height),
    ensures
        r.1 == (cmd is EndScissor),
        r.0@ == cmd_ops(cmd, text_offset, text_height),
{
    let mut out: Vec<DrawOp> = Vec::new();
    let ends = match cmd {
        Cmd::DrawPixel { x, y, color } => {
            out.push(DrawOp::Pixel { x, y, color });
            false
        },
        Cmd::DrawCharacter { x, y, color, c } => {
            out.push(DrawOp::Codepoint { code: c as u32, x, y, color });
            false
        },
        Cmd::DrawRect { x, y, w, h, color } => {
            out.push(DrawOp::Rect { x, y, w, h, color });
            false
        },
        Cmd::DrawBox { x, y, w, h, color } => {
            out.push(DrawOp::Line { start_x: x, start_y: y, end_x: x + w, end_y: y, color });
            out.push(DrawOp::Line { start_x: x, start_y: y, end_x: x, end_y: y + h, color });
            out.push(DrawOp::Line { start_x: x + w, start_y: y, end_x: x + w, end_y: y + h, color });
            out.push(DrawOp::Line { start_x: x, start_y: y + h, end_x: x + w, end_y: y + h, color });
            false
        },
        Cmd::DrawCircle { x, y, rx10, color } => {
            out.push(DrawOp::Circle { x, y, rx10, color });
            false
        },
        Cmd::DrawString { text, x, y, w, color, wrap } => {
            let cs = chars_of(text.as_str());
            out = draw_text(&cs, x, y, w, wrap, text_offset, text_height, color);
            proof {
                let laid = lay_out(text@, x as int, w as int, wrap, text_offset as int, text_height as int, x as int, y as int)->0;
                assert(out@ =~= text_ops(laid, color));
            }
            false
        },
        Cmd::DrawSprite { x, y, h, w, sprite } => {
            out.push(DrawOp::Sprite { x, y, h, w, sprite });
            false
        },
        Cmd::DrawLargeSprite { x, y, h, w, sprite } => {
            out.push(DrawOp::LargeSprite { x, y, h, w, sprite });
            false
        },
        Cmd::DrawTexture { x, y, h, w, texture } => {
            out.push(DrawOp::Texture { x, y, h, w, texture });
            false
        },
        Cmd::DrawLine { start_x, end_x, start_y, end_y, color } => {
            out.push(DrawOp::Line { start_x, start_y, end_x, end_y, color });
            false
        },
        Cmd::BeginScissor { x, y, w, h } => {
            out.push(DrawOp::BeginClip { x, y, w, h });
            false
        },
        Cmd::EndScissor { .. } => {
            out.push(DrawOp::EndClip);
            true
        },
        Cmd::BeginDrawing => {
            out.push(DrawOp::Clear);
            false
        },
        Cmd::EndDrawing => {
            out.push(DrawOp::ShowDelay);
            false
        },
        Cmd::Update(_) => false,
    };
    (out, ends)
}

/// A scan from a position inside the commands ends after that position and
/// no later than the end of the commands.
proof fn lemma_scan_bounds(cmds: Seq<Cmd>, i: int, depth: nat, text_offset: i32, text_height: i32)
    requires
        0 <= i <= cmds.len(),
    ensures
        i <= clip_scan(cmds, i, depth, text_offset, text_height).1 <= cmds.len(),
        i < cmds.len() ==> i < clip_scan(cmds, i, depth, text_offset, text_height).1,
    decreases cmds.len() - i,
{
    if i < cmds.len() {
        lemma_scan_bounds(cmds, i + 1, (depth - 1) as nat, text_offset, text_height);
        lemma_scan_bounds(cmds, i + 1, depth + 1, text_offset, text_height);
        lemma_scan_bounds(cmds, i + 1, depth, text_offset, text_height);
    }
}

/// Takes the next command off the stream `cmds` and draws it as
/// `next_draws` says: a clip start takes the commands through its matching
/// end, or to the end of the stream. Hands back the draws and whether the
/// stream had ended or a clip end was met.
pub fn run_draw_cmd(cmds: &mut VecDeque<Cmd>, text_offset: i32, text_height: i32) -> (r: (Vec<DrawOp>, bool))
    requires
        forall|k: int|
            0 <= k < next_draws(old(cmds)@, text_offset, text_height).1 ==> drawable(
                #[trigger] old(cmds)@[k],
                text_offset,
                text_height,
            ),
    ensures
        r.0@ == next_draws(old(cmds)@, text_offset, text_height).0,
        r.1 == next_draws(old(cmds)@, text_offset, text_height).2,
        final(cmds)@ == old(cmds)@.skip(next_draws(old(cmds)@, text_offset, text_height).1),
{
    let ghost s = cmds@;
    let n = cmds.len();
    let first = cmds.pop_front();
    let c = match first {
        None => {
            assert(cmds@ =~= s.skip(0));
            return (Vec::new(), true);
        },
        Some(c) => c,
    };
    assert(c == s[0]);
    assert(cmds@ =~= s.skip(1));
    let (x, y, w, h) = match c {
        Cmd::EndScissor { .. } => {
            return (Vec::new(), true);
        },
        Cmd::BeginScissor { x, y, w, h } => (x, y, w, h),
        other => {
            let (ops, _) = draw_ops(other, text_offset, text_height);
            return (ops, false);
        },
    };
    let mut out: Vec<DrawOp> = Vec::new();
    out.push(DrawOp::BeginClip { x, y, w, h });
    let mut depth: usize = 1;
    let ghost whole = clip_scan(s, 1, 1, text_offset, text_height);
    let ghost mut i: int = 1;
    proof {
        assert(seq![DrawOp::BeginClip { x, y, w, h }] + whole.0 =~= out@ + whole.0);
    }
    loop
        invariant_except_break
            n == s.len(),
            1 <= i <= s.len(),
            1 <= depth <= i,
            cmds@ == s.skip(i),
            s[0] == (Cmd::BeginScissor { x, y, w, h }),
            whole == clip_scan(s, 1, 1, text_offset, text_height),
            seq![DrawOp::BeginClip { x, y, w, h }] + whole.0 == out@ + clip_scan(s, i, depth as nat, text_offset, text_height).0,
            whole.1 == clip_scan(s, i, depth as nat, text_offset, text_height).1,
            forall|k: int| 0 <= k < whole.1 ==> drawable(#[trigger] s[k], text_offset, text_height),
        ensures
            out@ == seq![DrawOp::BeginClip { x, y, w, h }] + whole.0,
            cmds@ == s.skip(whole.1),
        decreases s.len() - i,
    {
        let ghost before = out@;
        let ghost d = depth as nat;
        let next = cmds.pop_front();
        match next {
            None => {
                let mut k: usize = 0;
                while k < depth
                    invariant
                        k <= depth,
                        out@ == before + Seq::new(k as nat, |j: int| DrawOp::EndClip),
                    decreases depth - k,
                {
                    out.push(DrawOp::EndClip);
                    assert(out@ =~= before + Seq::new((k + 1) as nat, |j: int| DrawOp::EndClip));
                    k += 1;
                }
                proof {
                    assert(i == s.len());
                    assert(cmds@ =~= s.skip(s.len() as int));
                }
                break;
            },
            Some(c2) => {
                proof {
                    assert(c2 == s[i]);
                    assert(cmds@ =~= s.skip(i + 1));
                    lemma_scan_bounds(s, i, d, text_offset, text_height);
                }
                match c2 {
                    Cmd::EndScissor { .. } => {
                        out.push(DrawOp::EndClip);
                        if depth == 1 {
                            proof {
                                assert(out@ =~= before + seq![DrawOp::EndClip]);
                                assert(seq![DrawOp::BeginClip { x, y, w, h }] + whole.0 =~= out@);
                            }
                            break;
                        }
                        depth -= 1;
                        proof {
                            let rest = clip_scan(s, i + 1, (d - 1) as nat, text_offset, text_height);
                            assert(before + (seq![DrawOp::EndClip] + rest.0) =~= out@ + rest.0);
                        }
                    },
                    Cmd::BeginScissor { x: x2, y: y2, w: w2, h: h2 } => {
                        out.push(DrawOp::BeginClip { x: x2, y: y2, w: w2, h: h2 });
                        depth += 1;
                        proof {
                            let rest = clip_scan(s, i + 1, d + 1, text_offset, text_height);
                            assert(before + (seq![DrawOp::BeginClip { x: x2, y: y2, w: w2, h: h2 }] + rest.0) =~= out@ + rest.0);
                        }
                    },
                    other => {
                        proof {
                            assert(drawable(s[i], text_offset, text_height));
                        }
                        let (mut ops, _) = draw_ops(other, text_offset, text_height);
                        let ghost o = ops@;
                        out.append(&mut ops);
                        proof {
                            let rest = clip_scan(s, i + 1, d, text_offset, text_height);
                            assert(before + (o + rest.0) =~= out@ + rest.0);
                        }
                    },
                }
                proof {
                    i = i + 1;
                }
            },
        }
    }
    (out, false)
}

} // verus!
