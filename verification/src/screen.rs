//! The drawing front end: text measurement, and the state a program keeps
//! between frames: the input last reported and the commands queued for the
//! drawing device.
use vstd::prelude::*;
use vstd::arithmetic::div_mod::{lemma_fundamental_div_mod, lemma_fundamental_div_mod_converse};
use crate::text::chars_of;
use std::collections::HashMap;

verus! {

broadcast use vstd::std_specs::hash::group_hash_axioms;

/// Height of a line of text, in pixels.
pub const TEXT_HEIGHT: i32 = 10;

/// Width of a character, in pixels.
pub const TEXT_OFFSET: i32 = 10;

/// How many characters fit on a line of `width` pixels before the text wraps.
pub open spec fn chars_per_line(width: int) -> int {
    if width < 10 {
        1
    } else {
        width / 10 + 1
    }
}

/// Height, in pixels, of `n` characters laid out in lines of `width` pixels.
pub open spec fn text_height(n: int, width: int) -> int {
    10 + 10 * (n / chars_per_line(width))
}

/// The height that `text` takes when it wraps at `width` pixels.
pub fn measure_text_height(text: &str, width: i32) -> (r: i32)
    requires
        10 * (text@.len() + 1) <= i32::MAX,
    ensures
        r == text_height(text@.len() as int, width as int),
{
    let cs = chars_of(text);
    let ghost p = chars_per_line(width as int);
    let mut dx: i32 = 0;
    let mut dy: i32 = TEXT_HEIGHT;
    let mut k: usize = 0;
    proof {
        lemma_fundamental_div_mod_converse(0, p, 0, 0);
    }
    while k < cs.len()
        invariant
            k <= cs@.len(),
            cs@ == text@,
            10 * (text@.len() + 1) <= i32::MAX,
            p == chars_per_line(width as int),
            p >= 1,
            dx == 10 * (k as int % p),
            dy == 10 + 10 * (k as int / p),
            k as int / p <= k,
        decreases cs@.len() - k,
    {
        let ghost q = k as int / p;
        let ghost m = k as int % p;
        proof {
            lemma_fundamental_div_mod(k as int, p);
            if m + 1 < p {
                lemma_fundamental_div_mod_converse(k + 1, p, q, m + 1);
            } else {
                assert(k + 1 == (q + 1) * p + 0) by (nonlinear_arith)
                    requires
                        k == p * q + m,
                        m + 1 == p,
                ;
                lemma_fundamental_div_mod_converse(k + 1, p, q + 1, 0);
            }
            assert(m < p);
            assert(10 * (m + 1) > width as int <==> m + 1 == p) by (nonlinear_arith)
                requires
                    p == chars_per_line(width as int),
                    0 <= m < p,
                    p == if width < 10 {
                        1
                    } else {
                        width / 10 + 1
                    },
            {
                if width >= 10 {
                    assert(10 * (width / 10) <= width);
                    assert(width < 10 * (width / 10) + 10);
                }
            }
        }
        dx += TEXT_OFFSET;
        if dx > width {
            dx = 0;
            dy += TEXT_HEIGHT;
        }
        k += 1;
    }
    dy
}

/// The colors of the drawing device's palette.
#[derive(PartialEq, Eq, Structural, Clone, Copy, Debug)]
pub enum Col {
    Empty,
    Black,
    White,
    Blue,
    Red,
    Green,
    Yellow,
    Violet,
    DarkBlue,
    DarkRed,
    DarkGreen,
    DarkYellow,
    DarkViolet,
    Gray,
    DarkGray,
    LightBlack,
    Cyan,
    DarkCyan,
    Orchid,
    DarkOrchid,
    ColorCount,
}

/// The palette position of each color.
pub open spec fn col_index(c: Col) -> int {
    match c {
        Col::Empty => 0,
        Col::Black => 1,
        Col::White => 2,
        Col::Blue => 3,
        Col::Red => 4,
        Col::Green => 5,
        Col::Yellow => 6,
        Col::Violet => 7,
        Col::DarkBlue => 8,
        Col::DarkRed => 9,
        Col::DarkGreen => 10,
        Col::DarkYellow => 11,
        Col::DarkViolet => 12,
        Col::Gray => 13,
        Col::DarkGray => 14,
        Col::LightBlack => 15,
        Col::Cyan => 16,
        Col::DarkCyan => 17,
        Col::Orchid => 18,
        Col::DarkOrchid => 19,
        Col::ColorCount => 20,
    }
}

impl Col {
    /// The color at palette position `i`, which must be below 20.
    pub fn from_index(i: i8) -> (r: Self)
        requires
            0 <= i < 20,
        ensures
            col_index(r) == i,
    {
        match i {
            0 => Col::Empty,
            1 => Col::Black,
            2 => Col::White,
            3 => Col::Blue,
            4 => Col::Red,
            5 => Col::Green,
            6 => Col::Yellow,
            7 => Col::Violet,
            8 => Col::DarkBlue,
            9 => Col::DarkRed,
            10 => Col::DarkGreen,
            11 => Col::DarkYellow,
            12 => Col::DarkViolet,
            13 => Col::Gray,
            14 => Col::DarkGray,
            15 => Col::LightBlack,
            16 => Col::Cyan,
            17 => Col::DarkCyan,
            18 => Col::Orchid,
            _ => Col::DarkOrchid,
        }
    }
}

/// What the drawing device reports each frame: the mouse position, the
/// state of each key and of each mouse button by its code, the key pressed,
/// and whether the program should stop.
pub struct HandleUpdate {
    pub mouse_x: i32,
    pub mouse_y: i32,
    pub codes: HashMap<i32, InputState>,
    pub mouse: HashMap<i32, InputState>,
    pub pressed_key: Option<char>,
    pub should_close: bool,
}

/// A command to the drawing device, or a report from it.
pub enum Cmd {
    DrawPixel { x: i32, y: i32, color: Col },
    Update(HandleUpdate),
    DrawCharacter { x: i32, y: i32, color: Col, c: char },
    DrawRect { x: i32, y: i32, w: i32, h: i32, color: Col },
    DrawBox { x: i32, y: i32, w: i32, h: i32, color: Col },
    DrawCircle { x: i32, y: i32, rx10: i32, color: Col },
    DrawString { text: String, x: i32, y: i32, w: i32, color: Col, wrap: bool },
    DrawSprite { x: i32, y: i32, h: i32, w: i32, sprite: Sprite },
    DrawLargeSprite { x: i32, y: i32, h: i32, w: i32, sprite: LargeSprite },
    DrawTexture { x: i32, y: i32, h: i32, w: i32, texture: Texture },
    DrawLine { start_x: i32, end_x: i32, start_y: i32, end_y: i32, color: Col },
    BeginScissor { x: i32, y: i32, w: i32, h: i32 },
    EndScissor { x: i32, y: i32, w: i32, h: i32 },
    BeginDrawing,
    EndDrawing,
}

/// A 16 by 16 picture, row by row.
#[derive(Clone, Debug)]
pub struct Sprite {
    pub colors: Vec<Col>,
}

/// A 32 by 32 picture, row by row.
#[derive(Clone, Debug)]
pub struct LargeSprite {
    pub colors: Vec<Col>,
}

/// A picture of any size, row by row.
#[derive(Clone, Debug)]
pub struct Texture {
    pub data: Vec<Col>,
    pub w: i32,
    pub h: i32,
}

/// A program's side of the drawing device: the input last reported and the
/// commands waiting to be sent.
pub struct Handle {
    pub mouse_x: i32,
    pub mouse_y: i32,
    pub codes: HashMap<i32, InputState>,
    pub mouse: HashMap<i32, InputState>,
    pub pressed_key: Option<char>,
    pub should_close: bool,
    pub outbox: Vec<Cmd>,
}

impl Handle {
    /// No input yet and nothing queued.
    pub fn new() -> (r: Self)
        ensures
            r.mouse_x == 0 && r.mouse_y == 0 && r.pressed_key is None && !r.should_close,
            r.codes@ == Map::<i32, InputState>::empty(),
            r.mouse@ == Map::<i32, InputState>::empty(),
            r.outbox@.len() == 0,
    {
        Handle {
            mouse_x: 0,
            mouse_y: 0,
            codes: HashMap::new(),
            mouse: HashMap::new(),
            pressed_key: None,
            should_close: false,
            outbox: Vec::new(),
        }
    }
}

pub fn get_mouse_x(h: &Handle) -> (r: i32)
    ensures
        r == h.mouse_x,
{
    h.mouse_x
}

pub fn get_mouse_y(h: &Handle) -> (r: i32)
    ensures
        r == h.mouse_y,
{
    h.mouse_y
}

pub fn get_mouse_pos(h: &Handle) -> (r: (i32, i32))
    ensures
        r == (h.mouse_x, h.mouse_y),
{
    (h.mouse_x, h.mouse_y)
}

/// The key pressed in the last frame, if any.
pub fn get_pressed_key(h: &Handle) -> (r: Option<char>)
    ensures
        r == h.pressed_key,
{
    h.pressed_key
}

/// Whether the device asked the program to stop.
pub fn should_close(h: &Handle) -> (r: bool)
    ensures
        r == h.should_close,
{
    h.should_close
}

/// Whether key `key_code` is held down; the device reports every key it
/// knows, and `key_code` must be one of them.
pub fn is_key_down(h: &Handle, key_code: i32) -> (r: bool)
    requires
        h.codes@.contains_key(key_code),
    ensures
        r == h.codes@[key_code].down,
{
    key_state(&h.codes, key_code).down
}

/// Whether key `key_code` went down in the last frame.
pub fn is_key_pressed(h: &Handle, key_code: i32) -> (r: bool)
    requires
        h.codes@.contains_key(key_code),
    ensures
        r == h.codes@[key_code].pressed,
{
    key_state(&h.codes, key_code).pressed
}

/// Whether key `key_code` went up in the last frame.
pub fn is_key_released(h: &Handle, key_code: i32) -> (r: bool)
    requires
        h.codes@.contains_key(key_code),
    ensures
        r == h.codes@[key_code].released,
{
    key_state(&h.codes, key_code).released
}

/// Whether mouse button `button` is held down; `button` must be one that
/// the device reports.
pub fn is_mouse_button_down(h: &Handle, button: i32) -> (r: bool)
    requires
        h.mouse@.contains_key(button),
    ensures
        r == h.mouse@[button].down,
{
    key_state(&h.mouse, button).down
}

/// Whether mouse button `button` went down in the last frame.
pub fn is_mouse_button_pressed(h: &Handle, button: i32) -> (r: bool)
    requires
        h.mouse@.contains_key(button),
    ensures
        r == h.mouse@[button].pressed,
{
    key_state(&h.mouse, button).pressed
}

/// Whether mouse button `button` went up in the last frame.
pub fn is_mouse_button_released(h: &Handle, button: i32) -> (r: bool)
    requires
        h.mouse@.contains_key(button),
    ensures
        r == h.mouse@[button].released,
{
    key_state(&h.mouse, button).released
}

/// The state that `states` holds for `code`, which it must hold.
fn key_state(states: &HashMap<i32, InputState>, code: i32) -> (r: InputState)
    requires
        states@.contains_key(code),
    ensures
        r == states@[code],
{
    match states.get(&code) {
        Some(s) => *s,
        None => {
            assert(false);
            InputState { down: false, pressed: false, released: false }
        },
    }
}

/// Starts a frame with what the device sent: nothing (the device is gone)
/// makes the program stop; a report updates the input; then a `BeginDrawing`
/// is queued. Where the device is gone nothing is queued.
pub fn begin_drawing(h: &mut Handle, received: Option<Cmd>)
    ensures
        received is None ==> final(h).should_close && final(h).outbox@ == old(h).outbox@
            && final(h).mouse_x == old(h).mouse_x && final(h).mouse_y == old(h).mouse_y
            && final(h).pressed_key == old(h).pressed_key,
        received is Some ==> final(h).outbox@.len() == old(h).outbox@.len() + 1
            && final(h).outbox@.drop_last() == old(h).outbox@ && final(h).outbox@.last() is BeginDrawing,
        received matches Some(Cmd::Update(u)) ==> final(h).mouse_x == u.mouse_x && final(h).mouse_y
            == u.mouse_y && final(h).codes@ == u.codes@ && final(h).mouse@ == u.mouse@
            && final(h).pressed_key == u.pressed_key && final(h).should_close == u.should_close,
        !(received matches Some(Cmd::Update(_))) ==> final(h).codes@ == old(h).codes@ && final(h).mouse@
            == old(h).mouse@,
        (received is Some && !(received matches Some(Cmd::Update(_)))) ==> final(h).mouse_x == old(h).mouse_x
            && final(h).mouse_y == old(h).mouse_y && final(h).pressed_key == old(h).pressed_key
            && final(h).should_close == old(h).should_close,
{
    let x = match received {
        Some(x) => x,
        None => {
            h.should_close = true;
            return ;
        },
    };
    match x {
        Cmd::Update(u) => {
            h.mouse_x = u.mouse_x;
            h.mouse_y = u.mouse_y;
            h.codes = u.codes;
            h.mouse = u.mouse;
            h.pressed_key = u.pressed_key;
            h.should_close = u.should_close;
        },
        _ => {},
    }
    h.outbox.push(Cmd::BeginDrawing);
}

/// Ends a frame: queues an `EndDrawing`.
pub fn end_drawing(h: &mut Handle)
    ensures
        final(h).outbox@ == old(h).outbox@.push(Cmd::EndDrawing),
        final(h).mouse_x == old(h).mouse_x && final(h).mouse_y == old(h).mouse_y
            && final(h).pressed_key == old(h).pressed_key && final(h).should_close == old(h).should_close,
{
    h.outbox.push(Cmd::EndDrawing);
}

/// Queues a command that limits drawing to a rectangle.
pub fn begin_scissor(hd: &mut Handle, x: i32, y: i32, w: i32, h: i32)
    ensures
        final(hd).outbox@ == old(hd).outbox@.push(Cmd::BeginScissor { x, y, w, h }),
        final(hd).mouse_x == old(hd).mouse_x && final(hd).mouse_y == old(hd).mouse_y
            && final(hd).pressed_key == old(hd).pressed_key && final(hd).should_close == old(hd).should_close,
{
    hd.outbox.push(Cmd::BeginScissor { x, y, w, h });
}

/// Queues a command that lifts the limit to a rectangle.
pub fn end_scissor(hd: &mut Handle, x: i32, y: i32, w: i32, h: i32)
    ensures
        final(hd).outbox@ == old(hd).outbox@.push(Cmd::EndScissor { x, y, w, h }),
        final(hd).mouse_x == old(hd).mouse_x && final(hd).mouse_y == old(hd).mouse_y
            && final(hd).pressed_key == old(hd).pressed_key && final(hd).should_close == old(hd).should_close,
{
    hd.outbox.push(Cmd::EndScissor { x, y, w, h });
}

/// Whether a program draws on the device or runs as a terminal.
#[derive(PartialEq, Eq, Structural, Clone, Copy, Debug)]
pub enum ProcessMode {
    Draw,
    Terminal,
}

/// The state of one key or button in a frame.
#[derive(PartialEq, Eq, Structural, Clone, Copy, Debug)]
pub struct InputState {
    pub down: bool,
    pub pressed: bool,
    pub released: bool,
}

} // verus!
