//! Drawing commands gathered into a buffer, moved as a whole, and sent to
//! the drawing device at the end of a frame.
use vstd::prelude::*;
use crate::screen::{text_height, Cmd, Col, Handle, LargeSprite, Sprite, Texture};

verus! {

/// A drawing command waiting in a [`CommandBuffer`]. A button is a rectangle
/// that reports its `id` when it is clicked.
pub enum BufferedCommand {
    DrawPixel { x: i32, y: i32, color: Col },
    DrawCharacter { x: i32, y: i32, color: Col, c: char },
    DrawRect { x: i32, y: i32, w: i32, h: i32, color: Col },
    DrawBox { x: i32, y: i32, w: i32, h: i32, color: Col },
    DrawCircle { x: i32, y: i32, rx10: i32, color: Col },
    DrawString { text: String, x: i32, y: i32, w: i32, color: Col, wrap: bool },
    DrawLine { start_x: i32, end_x: i32, start_y: i32, end_y: i32, color: Col },
    BeginScissor { x: i32, y: i32, w: i32, h: i32 },
    EndScissor { x: i32, y: i32, w: i32, h: i32 },
    DrawButton { x: i32, y: i32, w: i32, h: i32, id: u64 },
    DrawSprite { x: i32, y: i32, w: i32, h: i32, sprite: Sprite },
    DrawLargeSprite { x: i32, y: i32, w: i32, h: i32, sprite: LargeSprite },
    DrawTexture { x: i32, y: i32, h: i32, w: i32, texture: Texture },
}

/// Whether `v + d` fits in an `i32`.
pub open spec fn fits(v: i32, d: i32) -> bool {
    i32::MIN <= v + d <= i32::MAX
}

/// Whether every position of `c` can be moved by `(dx, dy)`.
pub open spec fn can_shift(c: BufferedCommand, dx: i32, dy: i32) -> bool {
    match c {
        BufferedCommand::DrawLine { start_x, end_x, start_y, end_y, .. } => fits(start_x, dx)
            && fits(end_x, dx) && fits(start_y, dy) && fits(end_y, dy),
        BufferedCommand::DrawPixel { x, y, .. } => fits(x, dx) && fits(y, dy),
        BufferedCommand::DrawCharacter { x, y, .. } => fits(x, dx) && fits(y, dy),
        BufferedCommand::DrawRect { x, y, .. } => fits(x, dx) && fits(y, dy),
        BufferedCommand::DrawBox { x, y, .. } => fits(x, dx) && fits(y, dy),
        BufferedCommand::DrawCircle { x, y, .. } => fits(x, dx) && fits(y, dy),
        BufferedCommand::DrawString { x, y, .. } => fits(x, dx) && fits(y, dy),
        BufferedCommand::BeginScissor { x, y, .. } => fits(x, dx) && fits(y, dy),
        BufferedCommand::EndScissor { x, y, .. } => fits(x, dx) && fits(y, dy),
        BufferedCommand::DrawButton { x, y, .. } => fits(x, dx) && fits(y, dy),
        BufferedCommand::DrawSprite { x, y, .. } => fits(x, dx) && fits(y, dy),
        BufferedCommand::DrawLargeSprite { x, y, .. } => fits(x, dx) && fits(y, dy),
        BufferedCommand::DrawTexture { x, y, .. } => fits(x, dx) && fits(y, dy),
    }
}

/// `c` moved by `(dx, dy)`: every position moves, everything else stays.
pub open spec fn shifted(c: BufferedCommand, dx: i32, dy: i32) -> BufferedCommand {
    match c {
        BufferedCommand::DrawLine { start_x, end_x, start_y, end_y, color } =>
            BufferedCommand::DrawLine {
            start_x: (start_x + dx) as i32,
            end_x: (end_x + dx) as i32,
            start_y: (start_y + dy) as i32,
            end_y: (end_y + dy) as i32,
            color,
        },
        BufferedCommand::DrawPixel { x, y, color } => BufferedCommand::DrawPixel {
            x: (x + dx) as i32,
            y: (y + dy) as i32,
            color,
        },
        BufferedCommand::DrawCharacter { x, y, color, c } => BufferedCommand::DrawCharacter {
            x: (x + dx) as i32,
            y: (y + dy) as i32,
            color,
            c,
        },
        BufferedCommand::DrawRect { x, y, w, h, color } => BufferedCommand::DrawRect {
            x: (x + dx) as i32,
            y: (y + dy) as i32,
            w,
            h,
            color,
        },
        BufferedCommand::DrawBox { x, y, w, h, color } => BufferedCommand::DrawBox {
            x: (x + dx) as i32,
            y: (y + dy) as i32,
            w,
            h,
            color,
        },
        BufferedCommand::DrawCircle { x, y, rx10, color } => BufferedCommand::DrawCircle {
            x: (x + dx) as i32,
            y: (y + dy) as i32,
            rx10,
            color,
        },
        BufferedCommand::DrawString { text, x, y, w, color, wrap } => BufferedCommand::DrawString {
            text,
            x: (x + dx) as i32,
            y: (y + dy) as i32,
            w,
            color,
            wrap,
        },
        BufferedCommand::BeginScissor { x, y, w, h } => BufferedCommand::BeginScissor {
            x: (x + dx) as i32,
            y: (y + dy) as i32,
            w,
            h,
        },
        BufferedCommand::EndScissor { x, y, w, h } => BufferedCommand::EndScissor {
            x: (x + dx) as i32,
            y: (y + dy) as i32,
            w,
            h,
        },
        BufferedCommand::DrawButton { x, y, w, h, id } => BufferedCommand::DrawButton {
            x: (x + dx) as i32,
            y: (y + dy) as i32,
            w,
            h,
            id,
        },
        BufferedCommand::DrawSprite { x, y, w, h, sprite } => BufferedCommand::DrawSprite {
            x: (x + dx) as i32,
            y: (y + dy) as i32,
            w,
            h,
            sprite,
        },
        BufferedCommand::DrawLargeSprite { x, y, w, h, sprite } =>
            BufferedCommand::DrawLargeSprite {
            x: (x + dx) as i32,
            y: (y + dy) as i32,
            w,
            h,
            sprite,
        },
        BufferedCommand::DrawTexture { x, y, h, w, texture } => BufferedCommand::DrawTexture {
            x: (x + dx) as i32,
            y: (y + dy) as i32,
            h,
            w,
            texture,
        },
    }
}

impl BufferedCommand {
    /// Moves every position of the command by `(dx, dy)`.
    pub fn shift(&mut self, dx: i32, dy: i32)
        requires
            can_shift(*old(self), dx, dy),
        ensures
            *final(self) == shifted(*old(self), dx, dy),
    {
        match self {
            BufferedCommand::DrawLine { start_x, end_x, start_y, end_y, color: _ } => {
                *start_x += dx;
                *start_y += dy;
                *end_x += dx;
                *end_y += dy;
            },
            BufferedCommand::DrawPixel { x, y, color: _ } => {
                *x += dx;
                *y += dy;
            },
            BufferedCommand::DrawCharacter { x, y, color: _, c: _ } => {
                *x += dx;
                *y += dy;
            },
            BufferedCommand::DrawRect { x, y, w: _, h: _, color: _ } => {
                *x += dx;
                *y += dy;
            },
            BufferedCommand::DrawBox { x, y, w: _, h: _, color: _ } => {
                *x += dx;
                *y += dy;
            },
            BufferedCommand::DrawCircle { x, y, rx10: _, color: _ } => {
                *x += dx;
                *y += dy;
            },
            BufferedCommand::DrawString { text: _, x, y, w: _, color: _, wrap: _ } => {
                *x += dx;
                *y += dy;
            },
            BufferedCommand::BeginScissor { x, y, w: _, h: _ } => {
                *x += dx;
                *y += dy;
            },
            BufferedCommand::EndScissor { x, y, w: _, h: _ } => {
                *x += dx;
                *y += dy;
            },
            BufferedCommand::DrawButton { x, y, w: _, h: _, id: _ } => {
                *x += dx;
                *y += dy;
            },
            BufferedCommand::DrawSprite { x, y, w: _, h: _, sprite: _ } => {
                *x += dx;
                *y += dy;
            },
            BufferedCommand::DrawLargeSprite { x, y, w: _, h: _, sprite: _ } => {
                *x += dx;
                *y += dy;
            },
            BufferedCommand::DrawTexture { x, y, h: _, w: _, texture: _ } => {
                *x += dx;
                *y += dy;
            },
        }
    }
}

/// The device command that a buffered command becomes; a button sends none.
pub open spec fn as_cmd(c: BufferedCommand) -> Option<Cmd> {
    match c {
        BufferedCommand::DrawPixel { x, y, color } => Some(Cmd::DrawPixel { x, y, color }),
        BufferedCommand::DrawCharacter { x, y, color, c } => Some(
            Cmd::DrawCharacter { x, y, color, c },
        ),
        BufferedCommand::DrawRect { x, y, w, h, color } => Some(Cmd::DrawRect { x, y, w, h, color }),
        BufferedCommand::DrawBox { x, y, w, h, color } => Some(Cmd::DrawBox { x, y, w, h, color }),
        BufferedCommand::DrawCircle { x, y, rx10, color } => Some(
            Cmd::DrawCircle { x, y, rx10, color },
        ),
        BufferedCommand::DrawString { text, x, y, w, color, wrap } => Some(
            Cmd::DrawString { text, x, y, w, color, wrap },
        ),
        BufferedCommand::DrawLine { start_x, end_x, start_y, end_y, color } => Some(
            Cmd::DrawLine { start_x, end_x, start_y, end_y, color },
        ),
        BufferedCommand::BeginScissor { x, y, w, h } => Some(Cmd::BeginScissor { x, y, w, h }),
        BufferedCommand::EndScissor { x, y, w, h } => Some(Cmd::EndScissor { x, y, w, h }),
        BufferedCommand::DrawButton { .. } => None,
        BufferedCommand::DrawSprite { x, y, w, h, sprite } => Some(
            Cmd::DrawSprite { x, y, h, w, sprite },
        ),
        BufferedCommand::DrawLargeSprite { x, y, w, h, sprite } => Some(
            Cmd::DrawLargeSprite { x, y, h, w, sprite },
        ),
        BufferedCommand::DrawTexture { x, y, h, w, texture } => Some(
            Cmd::DrawTexture { x, y, h, w, texture },
        ),
    }
}

/// Whether the point `(px, py)` lies in the rectangle at `(x, y)` of size
/// `w` by `h`, its left and top edges included.
pub open spec fn in_rect(px: int, py: int, x: int, y: int, w: int, h: int) -> bool {
    x <= px < x + w && y <= py < y + h
}

/// The id of a button that the mouse, at `(mx, my)`, released on.
pub open spec fn click_of(c: BufferedCommand, mx: i32, my: i32, released: bool) -> Option<u64> {
    match c {
        BufferedCommand::DrawButton { x, y, w, h, id } => if released && in_rect(
            mx as int,
            my as int,
            x as int,
            y as int,
            w as int,
            h as int,
        ) {
            Some(id)
        } else {
            None
        },
        _ => None,
    }
}

/// The device commands of `cs`, in order.
pub open spec fn sent_cmds(cs: Seq<BufferedCommand>) -> Seq<Cmd>
    decreases cs.len(),
{
    if cs.len() == 0 {
        Seq::empty()
    } else {
        sent_cmds(cs.drop_last()) + match as_cmd(cs.last()) {
            Some(c) => seq![c],
            None => Seq::empty(),
        }
    }
}

/// The ids of the buttons of `cs` that were clicked, in order.
pub open spec fn clicked_ids(cs: Seq<BufferedCommand>, mx: i32, my: i32, released: bool) -> Seq<u64>
    decreases cs.len(),
{
    if cs.len() == 0 {
        Seq::empty()
    } else {
        clicked_ids(cs.drop_last(), mx, my, released) + match click_of(cs.last(), mx, my, released) {
            Some(id) => seq![id],
            None => Seq::empty(),
        }
    }
}

/// Drawing commands gathered for one frame, in order.
pub struct CommandBuffer {
    pub commands: Vec<BufferedCommand>,
}

/// An empty buffer.
pub fn begin_command_buffer() -> (r: CommandBuffer)
    ensures
        r.commands@ == Seq::<BufferedCommand>::empty(),
{
    CommandBuffer { commands: Vec::new() }
}

/// Sends the device command of each buffered command, in order, and gives
/// the ids of the buttons that the mouse was released on, in order.
pub fn end_command_buffer(buffer: CommandBuffer, hd: &mut Handle, left_released: bool) -> (r: Vec<
    u64,
>)
    ensures
        final(hd).outbox@ == old(hd).outbox@ + sent_cmds(buffer.commands@),
        r@ == clicked_ids(buffer.commands@, old(hd).mouse_x, old(hd).mouse_y, left_released),
        final(hd).mouse_x == old(hd).mouse_x && final(hd).mouse_y == old(hd).mouse_y
            && final(hd).pressed_key == old(hd).pressed_key && final(hd).should_close == old(
            hd,
        ).should_close,
{
    let mut clicked: Vec<u64> = Vec::new();
    let ghost cs = buffer.commands@;
    let ghost start = hd.outbox@;
    let mx = hd.mouse_x;
    let my = hd.mouse_y;
    for c in it: buffer.commands.into_iter()
        invariant
            it.seq() == cs,
            mx == old(hd).mouse_x && my == old(hd).mouse_y,
            hd.outbox@ == start + sent_cmds(cs.take(it.index())),
            clicked@ == clicked_ids(cs.take(it.index()), mx, my, left_released),
            start == old(hd).outbox@,
            hd.mouse_x == old(hd).mouse_x && hd.mouse_y == old(hd).mouse_y && hd.pressed_key == old(
                hd,
            ).pressed_key && hd.should_close == old(hd).should_close,
    {
        let ghost k = it.index();
        let ghost gc = c;
        proof {
            assert(cs.take(k + 1).drop_last() =~= cs.take(k));
            assert(cs.take(k + 1).last() == gc);
        }
        match c {
            BufferedCommand::DrawButton { x, y, w, h, id } => {
                let inside = x as i64 <= mx as i64 && (mx as i64) < x as i64 + w as i64 && y as i64
                    <= my as i64 && (my as i64) < y as i64 + h as i64;
                if left_released && inside {
                    clicked.push(id);
                }
            },
            other => {
                let cmd = buffered_to_cmd(other);
                hd.outbox.push(cmd);
            },
        }
        proof {
            assert(hd.outbox@ =~= start + sent_cmds(cs.take(k + 1)));
            assert(clicked@ =~= clicked_ids(cs.take(k + 1), mx, my, left_released));
        }
    }
    proof {
        assert(cs.take(cs.len() as int) =~= cs);
    }
    clicked
}

/// The device command of a buffered command that is not a button.
fn buffered_to_cmd(c: BufferedCommand) -> (r: Cmd)
    requires
        !(c is DrawButton),
    ensures
        as_cmd(c) == Some(r),
{
    match c {
        BufferedCommand::DrawPixel { x, y, color } => Cmd::DrawPixel { x, y, color },
        BufferedCommand::DrawCharacter { x, y, color, c } => Cmd::DrawCharacter { x, y, color, c },
        BufferedCommand::DrawRect { x, y, w, h, color } => Cmd::DrawRect { x, y, w, h, color },
        BufferedCommand::DrawBox { x, y, w, h, color } => Cmd::DrawBox { x, y, w, h, color },
        BufferedCommand::DrawCircle { x, y, rx10, color } => Cmd::DrawCircle { x, y, rx10, color },
        BufferedCommand::DrawString { text, x, y, w, color, wrap } => Cmd::DrawString {
            text,
            x,
            y,
            w,
            color,
            wrap,
        },
        BufferedCommand::DrawLine { start_x, end_x, start_y, end_y, color } => Cmd::DrawLine {
            start_x,
            end_x,
            start_y,
            end_y,
            color,
        },
        BufferedCommand::BeginScissor { x, y, w, h } => Cmd::BeginScissor { x, y, w, h },
        BufferedCommand::EndScissor { x, y, w, h } => Cmd::EndScissor { x, y, w, h },
        BufferedCommand::DrawButton { .. } => vstd::pervasive::unreached(),
        BufferedCommand::DrawSprite { x, y, w, h, sprite } => Cmd::DrawSprite { x, y, h, w, sprite },
        BufferedCommand::DrawLargeSprite { x, y, w, h, sprite } => Cmd::DrawLargeSprite {
            x,
            y,
            h,
            w,
            sprite,
        },
        BufferedCommand::DrawTexture { x, y, h, w, texture } => Cmd::DrawTexture {
            x,
            y,
            h,
            w,
            texture,
        },
    }
}

/// Appends `cmd`.
fn queue(buffer: &mut CommandBuffer, cmd: BufferedCommand)
    ensures
        final(buffer).commands@ == old(buffer).commands@.push(cmd),
{
    buffer.commands.push(cmd);
}

pub fn queue_draw_pixel(buffer: &mut CommandBuffer, x: i32, y: i32, color: Col)
    ensures
        final(buffer).commands@ == old(buffer).commands@.push(
            BufferedCommand::DrawPixel { x, y, color },
        ),
{
    queue(buffer, BufferedCommand::DrawPixel { x, y, color });
}

pub fn queue_draw_char(buffer: &mut CommandBuffer, c: char, x: i32, y: i32, color: Col)
    ensures
        final(buffer).commands@ == old(buffer).commands@.push(
            BufferedCommand::DrawCharacter { x, y, color, c },
        ),
{
    queue(buffer, BufferedCommand::DrawCharacter { x, y, color, c });
}

pub fn queue_draw_rect(buffer: &mut CommandBuffer, x: i32, y: i32, w: i32, h: i32, color: Col)
    ensures
        final(buffer).commands@ == old(buffer).commands@.push(
            BufferedCommand::DrawRect { x, y, w, h, color },
        ),
{
    queue(buffer, BufferedCommand::DrawRect { x, y, w, h, color });
}

pub fn queue_draw_box(buffer: &mut CommandBuffer, x: i32, y: i32, w: i32, h: i32, color: Col)
    ensures
        final(buffer).commands@ == old(buffer).commands@.push(
            BufferedCommand::DrawBox { x, y, w, h, color },
        ),
{
    queue(buffer, BufferedCommand::DrawBox { x, y, w, h, color });
}

pub fn queue_begin_scissor(buffer: &mut CommandBuffer, x: i32, y: i32, w: i32, h: i32)
    ensures
        final(buffer).commands@ == old(buffer).commands@.push(
            BufferedCommand::BeginScissor { x, y, w, h },
        ),
{
    queue(buffer, BufferedCommand::BeginScissor { x, y, w, h });
}

pub fn queue_end_scissor(buffer: &mut CommandBuffer, x: i32, y: i32, w: i32, h: i32)
    ensures
        final(buffer).commands@ == old(buffer).commands@.push(
            BufferedCommand::EndScissor { x, y, w, h },
        ),
{
    queue(buffer, BufferedCommand::EndScissor { x, y, w, h });
}

pub fn queue_draw_circle(buffer: &mut CommandBuffer, x: i32, y: i32, rx10: i32, color: Col)
    ensures
        final(buffer).commands@ == old(buffer).commands@.push(
            BufferedCommand::DrawCircle { x, y, rx10, color },
        ),
{
    queue(buffer, BufferedCommand::DrawCircle { x, y, rx10, color });
}

pub fn queue_draw_text(
    buffer: &mut CommandBuffer,
    text: &str,
    x: i32,
    y: i32,
    w: i32,
    color: Col,
    wrap: bool,
)
    ensures
        final(buffer).commands@.len() == old(buffer).commands@.len() + 1,
        final(buffer).commands@.drop_last() == old(buffer).commands@,
        final(buffer).commands@.last() matches BufferedCommand::DrawString {
            text: t,
            x: x1,
            y: y1,
            w: w1,
            color: c1,
            wrap: wr,
        } && t@ == text@ && x1 == x && y1 == y && w1 == w && c1 == color && wr == wrap,
{
    let t = text.to_owned();
    queue(buffer, BufferedCommand::DrawString { text: t, x, y, w, color, wrap });
}

pub fn queue_draw_line(buffer: &mut CommandBuffer, x0: i32, x1: i32, y0: i32, y1: i32, color: Col)
    ensures
        final(buffer).commands@ == old(buffer).commands@.push(
            BufferedCommand::DrawLine { start_x: x0, end_x: x1, start_y: y0, end_y: y1, color },
        ),
{
    queue(buffer, BufferedCommand::DrawLine { start_x: x0, end_x: x1, start_y: y0, end_y: y1, color });
}

/// Queues a box, its label and a button over the box that reports `id`.
pub fn queue_draw_button(
    buffer: &mut CommandBuffer,
    text: &str,
    x: i32,
    y: i32,
    w: i32,
    h: i32,
    color: Col,
    text_color: Col,
    id: u64,
)
    ensures
        final(buffer).commands@.len() == old(buffer).commands@.len() + 3,
        final(buffer).commands@.take(old(buffer).commands@.len() as int) == old(buffer).commands@,
        final(buffer).commands@[old(buffer).commands@.len() as int] == (BufferedCommand::DrawBox {
            x,
            y,
            w,
            h,
            color,
        }),
        final(buffer).commands@[old(buffer).commands@.len() + 1int] matches BufferedCommand::DrawString {
            text: t,
            x: x1,
            y: y1,
            w: w1,
            color: c1,
            wrap: wr,
        } && t@ == text@ && x1 == x && y1 == y && w1 == w && c1 == text_color && wr,
        final(buffer).commands@.last() == (BufferedCommand::DrawButton { x, y, w, h, id }),
{
    let ghost start = buffer.commands@;
    queue_draw_box(buffer, x, y, w, h, color);
    let ghost with_box = buffer.commands@;
    queue_draw_text(buffer, text, x, y, w, text_color, true);
    let ghost with_text = buffer.commands@;
    queue(buffer, BufferedCommand::DrawButton { x, y, w, h, id });
    assert(with_text.drop_last() == with_box);
    assert(buffer.commands@[start.len() as int] == with_box[start.len() as int]);
    assert(buffer.commands@[start.len() + 1int] == with_text[start.len() + 1int]);
    assert forall|j: int| 0 <= j < start.len() implies #[trigger] buffer.commands@[j] == start[j] by {
        assert(with_text.drop_last()[j] == with_box[j]);
        assert(with_box[j] == start[j]);
    }
    assert(buffer.commands@.take(start.len() as int) =~= start);
}

pub fn queue_draw_sprite(buffer: &mut CommandBuffer, x: i32, y: i32, w: i32, h: i32, sprite: Sprite)
    ensures
        final(buffer).commands@ == old(buffer).commands@.push(
            BufferedCommand::DrawSprite { x, y, w, h, sprite },
        ),
{
    queue(buffer, BufferedCommand::DrawSprite { x, y, w, h, sprite });
}

pub fn queue_draw_large_sprite(
    buffer: &mut CommandBuffer,
    x: i32,
    y: i32,
    w: i32,
    h: i32,
    sprite: LargeSprite,
)
    ensures
        final(buffer).commands@ == old(buffer).commands@.push(
            BufferedCommand::DrawLargeSprite { x, y, w, h, sprite },
        ),
{
    queue(buffer, BufferedCommand::DrawLargeSprite { x, y, w, h, sprite });
}

pub fn queue_draw_texture(buffer: &mut CommandBuffer, x: i32, y: i32, w: i32, h: i32, texture: Texture)
    ensures
        final(buffer).commands@ == old(buffer).commands@.push(
            BufferedCommand::DrawTexture { x, y, h, w, texture },
        ),
{
    queue(buffer, BufferedCommand::DrawTexture { x, y, h, w, texture });
}

/// Appends the commands of `cmds`, in order.
pub fn queue_draw_queue(buffer: &mut CommandBuffer, cmds: CommandBuffer)
    ensures
        final(buffer).commands@ == old(buffer).commands@ + cmds.commands@,
{
    let mut more = cmds.commands;
    buffer.commands.append(&mut more);
}

/// Moves every command of the buffer by `(dx, dy)`.
pub fn buffer_shift(buffer: &mut CommandBuffer, shift_x: i32, shift_y: i32)
    requires
        forall|i: int|
            0 <= i < old(buffer).commands@.len() ==> can_shift(
                #[trigger] old(buffer).commands@[i],
                shift_x,
                shift_y,
            ),
    ensures
        final(buffer).commands@.len() == old(buffer).commands@.len(),
        forall|i: int|
            0 <= i < old(buffer).commands@.len() ==> #[trigger] final(buffer).commands@[i]
                == shifted(old(buffer).commands@[i], shift_x, shift_y),
{
    let n = buffer.commands.len();
    let mut i: usize = 0;
    while i < n
        invariant
            n == buffer.commands@.len(),
            n == old(buffer).commands@.len(),
            i <= n,
            forall|j: int| 0 <= j < i ==> #[trigger] buffer.commands@[j] == shifted(
                old(buffer).commands@[j],
                shift_x,
                shift_y,
            ),
            forall|j: int| i <= j < n ==> #[trigger] buffer.commands@[j] == old(buffer).commands@[j],
            forall|j: int|
                0 <= j < n ==> can_shift(#[trigger] old(buffer).commands@[j], shift_x, shift_y),
        decreases n - i,
    {
        buffer.commands[i].shift(shift_x, shift_y);
        i += 1;
    }
}

/// Moving a command and then moving it back by the opposite amounts gives
/// the command back.
pub proof fn law_shift_back(c: BufferedCommand, dx: i32, dy: i32)
    requires
        can_shift(c, dx, dy),
        dx != i32::MIN,
        dy != i32::MIN,
    ensures
        can_shift(shifted(c, dx, dy), (-dx) as i32, (-dy) as i32),
        shifted(shifted(c, dx, dy), (-dx) as i32, (-dy) as i32) == c,
{
}

/// Every buffered command but a button is sent: the commands sent and the
/// buttons together are as many as the commands buffered.
pub proof fn law_every_command_is_sent_or_a_button(cs: Seq<BufferedCommand>)
    ensures
        sent_cmds(cs).len() + buttons(cs) == cs.len(),
    decreases cs.len(),
{
    if cs.len() > 0 {
        law_every_command_is_sent_or_a_button(cs.drop_last());
    }
}

/// How many of `cs` are buttons.
pub open spec fn buttons(cs: Seq<BufferedCommand>) -> nat
    decreases cs.len(),
{
    if cs.len() == 0 {
        0
    } else {
        buttons(cs.drop_last()) + if cs.last() is DrawButton {
            1nat
        } else {
            0nat
        }
    }
}

/// An axis-aligned rectangle in whole pixels: its top-left corner and its
/// size.
#[derive(Clone, Copy, Debug, PartialEq, Eq, Structural)]
pub struct Rect {
    pub x: i64,
    pub y: i64,
    pub width: i64,
    pub height: i64,
}

/// `d` read as an `i32` the way a cast does: values past `i32::MAX` wrap.
pub open spec fn wrap_i32(d: int) -> int {
    if d <= i32::MAX {
        d
    } else {
        d - 0x1_0000_0000
    }
}

/// Whether the bounds of `c` can be measured: the text of a string command
/// is short enough for its height to fit in an `i32`.
pub open spec fn measurable(c: BufferedCommand) -> bool {
    match c {
        BufferedCommand::DrawString { text, .. } => 10 * (text@.len() + 1) <= i32::MAX,
        _ => true,
    }
}

/// The rectangle that `c` covers: a pixel is 1 by 1, a character 10 by 10,
/// a circle twice its radius field each way, a string twice its width wide
/// and as high as its wrapped text, a line the box between its ends (its
/// extent read as an `i32`), everything else its own rectangle.
pub open spec fn bounds_of(c: BufferedCommand) -> Rect {
    match c {
        BufferedCommand::DrawPixel { x, y, .. } => Rect { x: x as i64, y: y as i64, width: 1, height: 1 },
        BufferedCommand::DrawCharacter { x, y, .. } => Rect {
            x: x as i64,
            y: y as i64,
            width: 10,
            height: 10,
        },
        BufferedCommand::DrawRect { x, y, w, h, .. } => Rect {
            x: x as i64,
            y: y as i64,
            width: w as i64,
            height: h as i64,
        },
        BufferedCommand::DrawBox { x, y, w, h, .. } => Rect {
            x: x as i64,
            y: y as i64,
            width: w as i64,
            height: h as i64,
        },
        BufferedCommand::DrawCircle { x, y, rx10, .. } => Rect {
            x: x as i64,
            y: y as i64,
            width: (rx10 * 2) as i64,
            height: (rx10 * 2) as i64,
        },
        BufferedCommand::DrawString { text, x, y, w, .. } => Rect {
            x: x as i64,
            y: y as i64,
            width: (w * 2) as i64,
            height: text_height(text@.len() as int, w as int) as i64,
        },
        BufferedCommand::DrawLine { start_x, end_x, start_y, end_y, .. } => Rect {
            x: (if start_x > end_x { end_x } else { start_x }) as i64,
            y: (if start_y > end_y { end_y } else { start_y }) as i64,
            width: wrap_i32(if start_x > end_x { start_x - end_x } else { end_x - start_x }) as i64,
            height: wrap_i32(if start_y > end_y { start_y - end_y } else { end_y - start_y }) as i64,
        },
        BufferedCommand::DrawButton { x, y, w, h, .. } => Rect {
            x: x as i64,
            y: y as i64,
            width: w as i64,
            height: h as i64,
        },
        BufferedCommand::BeginScissor { x, y, w, h } => Rect {
            x: x as i64,
            y: y as i64,
            width: w as i64,
            height: h as i64,
        },
        BufferedCommand::EndScissor { x, y, w, h } => Rect {
            x: x as i64,
            y: y as i64,
            width: w as i64,
            height: h as i64,
        },
        BufferedCommand::DrawSprite { x, y, w, h, .. } => Rect {
            x: x as i64,
            y: y as i64,
            width: w as i64,
            height: h as i64,
        },
        BufferedCommand::DrawLargeSprite { x, y, w, h, .. } => Rect {
            x: x as i64,
            y: y as i64,
            width: w as i64,
            height: h as i64,
        },
        BufferedCommand::DrawTexture { x, y, h, w, .. } => Rect {
            x: x as i64,
            y: y as i64,
            width: w as i64,
            height: h as i64,
        },
    }
}

/// The extent of `a - b` (or `b - a`) read as an `i32`.
fn wrapped_extent(a: i32, b: i32) -> (r: i64)
    ensures
        r == wrap_i32(if a > b { a - b } else { b - a }),
{
    let d: i64 = if a > b {
        a as i64 - b as i64
    } else {
        b as i64 - a as i64
    };
    if d <= i32::MAX as i64 {
        d
    } else {
        d - 0x1_0000_0000
    }
}

impl BufferedCommand {
    /// The rectangle the command covers.
    pub fn bounds(&self) -> (r: Rect)
        requires
            measurable(*self),
        ensures
            r == bounds_of(*self),
    {
        match self {
            BufferedCommand::DrawPixel { x, y, .. } => Rect { x: *x as i64, y: *y as i64, width: 1, height: 1 },
            BufferedCommand::DrawCharacter { x, y, .. } => Rect {
                x: *x as i64,
                y: *y as i64,
                width: 10,
                height: 10,
            },
            BufferedCommand::DrawRect { x, y, w, h, .. } => Rect {
                x: *x as i64,
                y: *y as i64,
                width: *w as i64,
                height: *h as i64,
            },
            BufferedCommand::DrawBox { x, y, w, h, .. } => Rect {
                x: *x as i64,
                y: *y as i64,
                width: *w as i64,
                height: *h as i64,
            },
            BufferedCommand::DrawCircle { x, y, rx10, .. } => Rect {
                x: *x as i64,
                y: *y as i64,
                width: *rx10 as i64 * 2,
                height: *rx10 as i64 * 2,
            },
            BufferedCommand::DrawString { text, x, y, w, .. } => {
                let h = crate::screen::measure_text_height(text.as_str(), *w);
                Rect { x: *x as i64, y: *y as i64, width: *w as i64 * 2, height: h as i64 }
            },
            BufferedCommand::DrawLine { start_x, end_x, start_y, end_y, .. } => Rect {
                x: if *start_x > *end_x {
                    *end_x as i64
                } else {
                    *start_x as i64
                },
                y: if *start_y > *end_y {
                    *end_y as i64
                } else {
                    *start_y as i64
                },
                width: wrapped_extent(*start_x, *end_x),
                height: wrapped_extent(*start_y, *end_y),
            },
            BufferedCommand::DrawButton { x, y, w, h, .. } => Rect {
                x: *x as i64,
                y: *y as i64,
                width: *w as i64,
                height: *h as i64,
            },
            BufferedCommand::BeginScissor { x, y, w, h } => Rect {
                x: *x as i64,
                y: *y as i64,
                width: *w as i64,
                height: *h as i64,
            },
            BufferedCommand::EndScissor { x, y, w, h } => Rect {
                x: *x as i64,
                y: *y as i64,
                width: *w as i64,
                height: *h as i64,
            },
            BufferedCommand::DrawSprite { x, y, w, h, .. } => Rect {
                x: *x as i64,
                y: *y as i64,
                width: *w as i64,
                height: *h as i64,
            },
            BufferedCommand::DrawLargeSprite { x, y, w, h, .. } => Rect {
                x: *x as i64,
                y: *y as i64,
                width: *w as i64,
                height: *h as i64,
            },
            BufferedCommand::DrawTexture { x, y, h, w, .. } => Rect {
                x: *x as i64,
                y: *y as i64,
                width: *w as i64,
                height: *h as i64,
            },
        }
    }

    /// The top-left and bottom-right corners of the command's rectangle.
    pub fn min_max(&self) -> (r: ((i64, i64), (i64, i64)))
        requires
            measurable(*self),
        ensures
            r == corners(bounds_of(*self)),
    {
        let b = self.bounds();
        proof {
            lemma_bounds_small(*self);
        }
        ((b.x, b.y), (b.x + b.width, b.y + b.height))
    }
}

/// The top-left and bottom-right corners of `r`.
pub open spec fn corners(r: Rect) -> ((i64, i64), (i64, i64)) {
    ((r.x, r.y), ((r.x + r.width) as i64, (r.y + r.height) as i64))
}

/// Every coordinate and extent of a command's rectangle lies within four
/// times the range of `i32`, so sums and differences of them fit in `i64`.
pub proof fn lemma_bounds_small(c: BufferedCommand)
    requires
        measurable(c),
    ensures
        -0x2_0000_0000 <= bounds_of(c).x <= 0x2_0000_0000,
        -0x2_0000_0000 <= bounds_of(c).y <= 0x2_0000_0000,
        -0x2_0000_0000 <= bounds_of(c).width <= 0x2_0000_0000,
        -0x2_0000_0000 <= bounds_of(c).height <= 0x2_0000_0000,
{
    match c {
        BufferedCommand::DrawString { text, w, .. } => {
            lemma_text_height_bounds(text@.len() as int, w as int);
        },
        _ => {},
    }
}

/// A wrapped text is at least one line high and no higher than one line per
/// character past the first.
pub proof fn lemma_text_height_bounds(n: int, width: int)
    requires
        0 <= n,
    ensures
        10 <= text_height(n, width) <= 10 + 10 * n,
{
    let p = crate::screen::chars_per_line(width);
    assert(p >= 1);
    assert(0 <= n / p <= n) by (nonlinear_arith)
        requires
            p >= 1,
            n >= 0,
    ;
}

/// The corners of the smallest rectangle holding the rectangles of all of
/// `cs` (which must not be empty), the way a scan from the first command
/// finds them.
pub open spec fn hull(cs: Seq<BufferedCommand>) -> ((i64, i64), (i64, i64))
    decreases cs.len(),
{
    if cs.len() <= 1 {
        corners(bounds_of(cs[0]))
    } else {
        let (mn, mx) = hull(cs.drop_last());
        let (a, b) = corners(bounds_of(cs.last()));
        (
            (if a.0 < mn.0 { a.0 } else { mn.0 }, if a.1 < mn.1 { a.1 } else { mn.1 }),
            (if b.0 > mx.0 { b.0 } else { mx.0 }, if b.1 > mx.1 { b.1 } else { mx.1 }),
        )
    }
}

/// The rectangle that holds every command of `cs`: all zero where there is
/// none.
pub open spec fn buffer_bounds_of(cs: Seq<BufferedCommand>) -> Rect {
    if cs.len() == 0 {
        Rect { x: 0, y: 0, width: 0, height: 0 }
    } else {
        let (mn, mx) = hull(cs);
        Rect { x: mn.0, y: mn.1, width: (mx.0 - mn.0) as i64, height: (mx.1 - mn.1) as i64 }
    }
}

/// Every corner that `hull` finds is a corner of one of the commands.
proof fn lemma_hull_small(cs: Seq<BufferedCommand>)
    requires
        cs.len() >= 1,
        forall|i: int| 0 <= i < cs.len() ==> measurable(#[trigger] cs[i]),
    ensures
        -0x2_0000_0000 <= hull(cs).0.0 <= 0x2_0000_0000,
        -0x2_0000_0000 <= hull(cs).0.1 <= 0x2_0000_0000,
        -0x4_0000_0000 <= hull(cs).1.0 <= 0x4_0000_0000,
        -0x4_0000_0000 <= hull(cs).1.1 <= 0x4_0000_0000,
    decreases cs.len(),
{
    lemma_bounds_small(cs.last());
    if cs.len() > 1 {
        let init = cs.drop_last();
        assert forall|i: int| 0 <= i < init.len() implies measurable(#[trigger] init[i]) by {
            assert(init[i] == cs[i]);
        }
        lemma_hull_small(init);
    } else {
        assert(cs[0] == cs.last());
    }
}

/// The rectangle that holds every command of the buffer.
pub fn buffer_bounds(buffer: &CommandBuffer) -> (r: Rect)
    requires
        forall|i: int| 0 <= i < buffer.commands@.len() ==> measurable(#[trigger] buffer.commands@[i]),
    ensures
        r == buffer_bounds_of(buffer.commands@),
{
    let cs = &buffer.commands;
    if cs.len() == 0 {
        return Rect { x: 0, y: 0, width: 0, height: 0 };
    }
    let ghost s = cs@;
    let first = cs[0].min_max();
    let mut min = first.0;
    let mut max = first.1;
    proof {
        assert(s.subrange(0, 1).len() == 1);
        assert(s.subrange(0, 1)[0] == s[0]);
    }
    let mut i: usize = 1;
    while i < cs.len()
        invariant
            s == cs@,
            1 <= i <= s.len(),
            forall|k: int| 0 <= k < s.len() ==> measurable(#[trigger] s[k]),
            (min, max) == hull(s.subrange(0, i as int)),
        decreases s.len() - i,
    {
        let (mn, mx) = cs[i].min_max();
        proof {
            let next = s.subrange(0, i + 1);
            assert(next.drop_last() =~= s.subrange(0, i as int));
            assert(next.last() == s[i as int]);
        }
        if mn.0 < min.0 {
            min.0 = mn.0;
        }
        if mn.1 < min.1 {
            min.1 = mn.1;
        }
        if mx.0 > max.0 {
            max.0 = mx.0;
        }
        if mx.1 > max.1 {
            max.1 = mx.1;
        }
        i = i + 1;
    }
    proof {
        assert(s.subrange(0, i as int) =~= s);
        lemma_hull_small(s);
    }
    Rect { x: min.0, y: min.1, width: max.0 - min.0, height: max.1 - min.1 }
}

/// Whether the rectangles `a` and `b` overlap: on each axis each one starts
/// before the other ends.
pub open spec fn collide(a: Rect, b: Rect) -> bool {
    &&& a.x < b.x + b.width
    &&& a.x + a.width > b.x
    &&& a.y < b.y + b.height
    &&& a.y + a.height > b.y
}

/// Overlap does not depend on the order of the two rectangles.
pub proof fn law_collide_symmetric(a: Rect, b: Rect)
    ensures
        collide(a, b) == collide(b, a),
{
}

/// Two rectangles of positive size overlap exactly when some point lies in
/// both; in particular they overlap only where they overlap on both axes.
pub proof fn law_collide_shares_point(a: Rect, b: Rect)
    requires
        a.width > 0,
        a.height > 0,
        b.width > 0,
        b.height > 0,
    ensures
        collide(a, b) <==> exists|px: int, py: int|
            #![trigger in_rect(px, py, a.x as int, a.y as int, a.width as int, a.height as int)]
            in_rect(px, py, a.x as int, a.y as int, a.width as int, a.height as int) && in_rect(
                px,
                py,
                b.x as int,
                b.y as int,
                b.width as int,
                b.height as int,
            ),
        collide(a, b) ==> a.y < b.y + b.height && b.y < a.y + a.height && a.x < b.x + b.width && b.x
            < a.x + a.width,
{
    if collide(a, b) {
        let px: int = if a.x < b.x {
            b.x as int
        } else {
            a.x as int
        };
        let py: int = if a.y < b.y {
            b.y as int
        } else {
            a.y as int
        };
        assert(in_rect(px, py, a.x as int, a.y as int, a.width as int, a.height as int));
        assert(in_rect(px, py, b.x as int, b.y as int, b.width as int, b.height as int));
    }
}

/// Whether the rectangles `a` and `b` overlap.
pub fn check_collision_recs(a: Rect, b: Rect) -> (r: bool)
    ensures
        r == collide(a, b),
{
    (a.x as i128) < (b.x as i128) + (b.width as i128) && (a.x as i128) + (a.width as i128) > (b.x as i128)
        && (a.y as i128) < (b.y as i128) + (b.height as i128) && (a.y as i128) + (a.height as i128) > (
    b.y as i128)
}

/// The commands of `cs` whose rectangle overlaps `rect`, in order.
pub open spec fn inside(cs: Seq<BufferedCommand>, rect: Rect) -> Seq<BufferedCommand>
    decreases cs.len(),
{
    if cs.len() == 0 {
        Seq::empty()
    } else if collide(bounds_of(cs.last()), rect) {
        inside(cs.drop_last(), rect).push(cs.last())
    } else {
        inside(cs.drop_last(), rect)
    }
}

/// The buffer without the commands that lie wholly outside `rect`.
pub fn buffer_purge_outside(buffer: CommandBuffer, rect: Rect) -> (r: CommandBuffer)
    requires
        forall|i: int| 0 <= i < buffer.commands@.len() ==> measurable(#[trigger] buffer.commands@[i]),
    ensures
        r.commands@ == inside(buffer.commands@, rect),
{
    let ghost s = buffer.commands@;
    let mut rest = buffer.commands;
    let mut kept: Vec<BufferedCommand> = Vec::new();
    let mut n: usize = 0;
    let total: usize = rest.len();
    proof {
        assert(s.subrange(0, 0) =~= Seq::<BufferedCommand>::empty());
        assert(s.subrange(0, s.len() as int) =~= s);
    }
    while rest.len() > 0
        invariant
            n + rest.len() == s.len(),
            s.len() == total,
            rest@ == s.subrange(n as int, s.len() as int),
            forall|i: int| 0 <= i < s.len() ==> measurable(#[trigger] s[i]),
            kept@ == inside(s.subrange(0, n as int), rect),
        decreases rest.len(),
    {
        let c = rest.remove(0);
        proof {
            assert(c == s[n as int]);
            assert(s.subrange(0, n + 1).drop_last() =~= s.subrange(0, n as int));
        }
        let b = c.bounds();
        if check_collision_recs(b, rect) {
            kept.push(c);
        }
        n = n + 1;
        assert(rest@ =~= s.subrange(n as int, s.len() as int));
    }
    proof {
        assert(s.subrange(0, n as int) =~= s);
    }
    CommandBuffer { commands: kept }
}

/// Moving a command moves its rectangle by the same amount and keeps its
/// size; a command whose rectangle can be measured still can after the
/// move, so that `bounds` gives these rectangles on both.
pub proof fn law_shift_moves_bounds(c: BufferedCommand, dx: i32, dy: i32)
    requires
        can_shift(c, dx, dy),
    ensures
        measurable(shifted(c, dx, dy)) == measurable(c),
        bounds_of(shifted(c, dx, dy)) == (Rect {
            x: (bounds_of(c).x + dx) as i64,
            y: (bounds_of(c).y + dy) as i64,
            width: bounds_of(c).width,
            height: bounds_of(c).height,
        }),
{
}

/// A line whose ends lie within 2^24 of the origin covers the box from its
/// least to its greatest coordinates: its extent each way is the distance
/// between its ends.
pub proof fn law_line_bounds(start_x: i32, end_x: i32, start_y: i32, end_y: i32, color: Col)
    requires
        -0x100_0000 <= start_x <= 0x100_0000,
        -0x100_0000 <= end_x <= 0x100_0000,
        -0x100_0000 <= start_y <= 0x100_0000,
        -0x100_0000 <= end_y <= 0x100_0000,
    ensures
        ({
            let c = BufferedCommand::DrawLine { start_x, end_x, start_y, end_y, color };
            &&& measurable(c)
            &&& bounds_of(c) == (Rect {
                x: if start_x < end_x { start_x as i64 } else { end_x as i64 },
                y: if start_y < end_y { start_y as i64 } else { end_y as i64 },
                width: (if start_x > end_x { start_x - end_x } else { end_x - start_x }) as i64,
                height: (if start_y > end_y { start_y - end_y } else { end_y - start_y }) as i64,
            })
        }),
{
}

} // verus!
