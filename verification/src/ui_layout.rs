//! Where the immediate-mode interface places the next widget: a stack of
//! nested areas ("divs"), a placement mode, and a cursor that moves past
//! each widget drawn.
use vstd::prelude::*;

verus! {

/// The size of thumbnails in an area that sets none.
pub const DEFAULT_THUMBNAIL_SIZE: i32 = 80;

/// How a widget's position is read: as is, from the corner of the current
/// area, or from the cursor.
#[derive(Clone, Copy, Debug, PartialEq, Eq, Structural)]
pub enum SysUiMode {
    Relative,
    Sequential,
    Absolute,
}

/// A point in pixels.
#[derive(Clone, Copy, Debug, PartialEq, Eq, Structural)]
pub struct Pos2 {
    pub x: i32,
    pub y: i32,
}

/// A rectangle in pixels: its top-left corner and its size.
#[derive(Clone, Copy, Debug, PartialEq, Eq, Structural)]
pub struct Rect {
    pub x: i32,
    pub y: i32,
    pub w: i32,
    pub h: i32,
}

/// Whether the right and bottom edges of `r` fit in an `i32`.
pub open spec fn edges_fit(r: Rect) -> bool {
    r.x + r.w <= i32::MAX && r.y + r.h <= i32::MAX && r.x + r.w >= i32::MIN && r.y + r.h
        >= i32::MIN
}

/// Whether `pos` lies in `r`: on or after its top-left corner and before its
/// far edges.
pub open spec fn contains_point(r: Rect, pos: Pos2) -> bool {
    pos.x >= r.x && pos.y >= r.y && pos.y < r.y + r.h && pos.x < r.x + r.w
}

impl Rect {
    /// Whether `pos` lies in the rectangle.
    pub fn check_collision(&self, pos: Pos2) -> (r: bool)
        requires
            edges_fit(*self),
        ensures
            r == contains_point(*self, pos),
    {
        pos.x >= self.x && pos.y >= self.y && pos.y < self.y + self.h && pos.x < self.x + self.w
    }
}

/// An area of the screen that widgets are placed in.
#[derive(Clone, Copy, Debug, PartialEq, Eq, Structural)]
pub struct Div {
    pub x: i32,
    pub y: i32,
    pub w: i32,
    pub h: i32,
    pub vertical: bool,
    pub thumbnail_size: i32,
    pub mode: SysUiMode,
}

/// The placement state: the cursor, the screen's size, the padding of a
/// widget placed by default, the placement mode and the open areas,
/// innermost last.
pub struct SysLayout {
    pub cx: i32,
    pub cy: i32,
    pub w: i32,
    pub h: i32,
    pub padding_x: i32,
    pub padding_y: i32,
    pub ui_mode: SysUiMode,
    pub div_stack: Vec<Div>,
}

/// The area that widgets are placed in: the innermost open one, or the
/// whole screen of size `w` by `h`.
pub open spec fn current_div(stack: Seq<Div>, w: i32, h: i32) -> Div {
    if stack.len() > 0 {
        stack.last()
    } else {
        Div {
            x: 0,
            y: 0,
            w,
            h,
            vertical: false,
            thumbnail_size: DEFAULT_THUMBNAIL_SIZE,
            mode: SysUiMode::Sequential,
        }
    }
}

/// Where a widget asked for at `pos` goes under the mode `mode`.
pub open spec fn absolute_pos(mode: SysUiMode, div: Div, cx: i32, cy: i32, pos: Pos2) -> (int, int) {
    match mode {
        SysUiMode::Absolute => (pos.x as int, pos.y as int),
        SysUiMode::Relative => (div.x + pos.x, div.y + pos.y),
        SysUiMode::Sequential => (cx + pos.x, cy + pos.y),
    }
}

/// Whether both coordinates fit in an `i32`.
pub open spec fn fits_pos(p: (int, int)) -> bool {
    i32::MIN <= p.0 <= i32::MAX && i32::MIN <= p.1 <= i32::MAX
}

/// The cursor after a widget with bounds `prev` in the area `div`: in a
/// vertical area, at the area's left edge, 5 pixels below the widget;
/// otherwise at the area's top, 5 pixels right of the widget.
pub open spec fn cursor_after(div: Div, prev: Rect) -> (int, int) {
    if div.vertical {
        (div.x as int, prev.y + prev.h + 5)
    } else {
        (prev.x + prev.w + 5, div.y as int)
    }
}

/// Whether moving the cursor past `prev` in `div` stays within `i32` at
/// every step.
pub open spec fn cursor_fits(div: Div, prev: Rect) -> bool {
    if div.vertical {
        i32::MIN <= prev.y + prev.h && prev.y + prev.h + 5 <= i32::MAX
    } else {
        i32::MIN <= prev.x + prev.w && prev.x + prev.w + 5 <= i32::MAX
    }
}

impl SysLayout {
    /// Whether the placement state describes the same screen with the same
    /// open areas.
    pub open spec fn same_frame(&self, other: &SysLayout) -> bool {
        &&& self.w == other.w
        &&& self.h == other.h
        &&& self.padding_x == other.padding_x
        &&& self.padding_y == other.padding_y
    }

    /// A screen of `w` by `h` with no area open, the cursor at the corner,
    /// widgets placed in sequence with a padding of 4.
    pub fn new(w: i32, h: i32) -> (r: Self)
        ensures
            r.cx == 0 && r.cy == 0 && r.w == w && r.h == h,
            r.padding_x == 4 && r.padding_y == 4,
            r.ui_mode == SysUiMode::Sequential,
            r.div_stack@ == Seq::<Div>::empty(),
    {
        SysLayout {
            cx: 0,
            cy: 0,
            w,
            h,
            padding_x: 4,
            padding_y: 4,
            ui_mode: SysUiMode::Sequential,
            div_stack: Vec::new(),
        }
    }

    /// The area that widgets are placed in now.
    pub fn get_div(&self) -> (r: Div)
        ensures
            r == current_div(self.div_stack@, self.w, self.h),
    {
        if self.div_stack.len() > 0 {
            self.div_stack[self.div_stack.len() - 1]
        } else {
            Div {
                x: 0,
                y: 0,
                w: self.w,
                h: self.h,
                vertical: false,
                thumbnail_size: DEFAULT_THUMBNAIL_SIZE,
                mode: SysUiMode::Sequential,
            }
        }
    }

    /// The size of thumbnails in the current area.
    pub fn get_thumbnail_size(&self) -> (r: i32)
        ensures
            r == current_div(self.div_stack@, self.w, self.h).thumbnail_size,
    {
        self.get_div().thumbnail_size
    }

    /// Sets the size of thumbnails in the innermost open area, if any.
    pub fn set_thumbail_size(&mut self, size: i32)
        ensures
            old(self).div_stack@.len() == 0 ==> final(self).div_stack@ == old(self).div_stack@,
            old(self).div_stack@.len() > 0 ==> final(self).div_stack@ == old(self).div_stack@.update(
                old(self).div_stack@.len() - 1,
                Div { thumbnail_size: size, ..old(self).div_stack@.last() },
            ),
            final(self).cx == old(self).cx && final(self).cy == old(self).cy,
            final(self).ui_mode == old(self).ui_mode,
            final(self).same_frame(old(self)),
    {
        if let Some(mut div) = self.div_stack.pop() {
            div.thumbnail_size = size;
            self.div_stack.push(div);
        }
    }

    /// Where a widget asked for at `pos` goes.
    pub fn get_absolute_pos(&self, pos: Pos2) -> (r: Pos2)
        requires
            fits_pos(
                absolute_pos(self.ui_mode, current_div(self.div_stack@, self.w, self.h), self.cx, self.cy, pos),
            ),
        ensures
            (r.x as int, r.y as int) == absolute_pos(
                self.ui_mode,
                current_div(self.div_stack@, self.w, self.h),
                self.cx,
                self.cy,
                pos,
            ),
    {
        match self.ui_mode {
            SysUiMode::Absolute => pos,
            SysUiMode::Relative => {
                let div = self.get_div();
                Pos2 { x: div.x + pos.x, y: div.y + pos.y }
            },
            SysUiMode::Sequential => Pos2 { x: self.cx + pos.x, y: self.cy + pos.y },
        }
    }

    /// Moves the cursor past a widget with bounds `prev_bounds`, where
    /// widgets are placed in sequence.
    pub fn update_cursor(&mut self, prev_bounds: Rect)
        requires
            old(self).ui_mode == SysUiMode::Sequential ==> cursor_fits(
                current_div(old(self).div_stack@, old(self).w, old(self).h),
                prev_bounds,
            ),
        ensures
            final(self).div_stack@ == old(self).div_stack@,
            final(self).ui_mode == old(self).ui_mode,
            final(self).same_frame(old(self)),
            old(self).ui_mode != SysUiMode::Sequential ==> final(self).cx == old(self).cx
                && final(self).cy == old(self).cy,
            old(self).ui_mode == SysUiMode::Sequential ==> (final(self).cx as int, final(self).cy as int)
                == cursor_after(current_div(old(self).div_stack@, old(self).w, old(self).h), prev_bounds),
    {
        match self.ui_mode {
            SysUiMode::Sequential => {},
            SysUiMode::Absolute | SysUiMode::Relative => {
                return;
            },
        }
        let div = self.get_div();
        if div.vertical {
            self.cx = div.x;
            self.cy = prev_bounds.y + prev_bounds.h + 5;
        } else {
            self.cy = div.y;
            self.cx = prev_bounds.x + prev_bounds.w + 5;
        }
    }

    /// Opens an area of `w` by `h` at `(x, y)`, read under the current mode,
    /// with its own mode; under sequential placement the cursor moves to the
    /// area's corner.
    pub fn begin_div_exp(&mut self, x: i32, y: i32, w: i32, h: i32, vertical: bool, mode: SysUiMode)
        requires
            fits_pos(
                absolute_pos(
                    old(self).ui_mode,
                    current_div(old(self).div_stack@, old(self).w, old(self).h),
                    old(self).cx,
                    old(self).cy,
                    Pos2 { x, y },
                ),
            ),
        ensures
            ({
                let p = absolute_pos(
                    old(self).ui_mode,
                    current_div(old(self).div_stack@, old(self).w, old(self).h),
                    old(self).cx,
                    old(self).cy,
                    Pos2 { x, y },
                );
                &&& final(self).div_stack@ == old(self).div_stack@.push(
                    Div {
                        x: p.0 as i32,
                        y: p.1 as i32,
                        w,
                        h,
                        vertical,
                        mode,
                        thumbnail_size: DEFAULT_THUMBNAIL_SIZE,
                    },
                )
                &&& final(self).ui_mode == mode
                &&& mode == SysUiMode::Sequential ==> final(self).cx == p.0 && final(self).cy == p.1
                &&& mode != SysUiMode::Sequential ==> final(self).cx == old(self).cx && final(self).cy
                    == old(self).cy
            }),
            final(self).same_frame(old(self)),
    {
        let pos = self.get_absolute_pos(Pos2 { x, y });
        self.div_stack.push(
            Div { x: pos.x, y: pos.y, w, h, vertical, mode, thumbnail_size: DEFAULT_THUMBNAIL_SIZE },
        );
        self.ui_mode = mode;
        match self.ui_mode {
            SysUiMode::Absolute | SysUiMode::Relative => {},
            SysUiMode::Sequential => {
                self.cx = pos.x;
                self.cy = pos.y;
            },
        }
    }

    /// Opens a vertical area of `w` by `h` at the padding, placed in
    /// sequence.
    pub fn begin_div(&mut self, w: i32, h: i32)
        requires
            fits_pos(
                absolute_pos(
                    old(self).ui_mode,
                    current_div(old(self).div_stack@, old(self).w, old(self).h),
                    old(self).cx,
                    old(self).cy,
                    Pos2 { x: old(self).padding_x, y: old(self).padding_y },
                ),
            ),
        ensures
            ({
                let p = absolute_pos(
                    old(self).ui_mode,
                    current_div(old(self).div_stack@, old(self).w, old(self).h),
                    old(self).cx,
                    old(self).cy,
                    Pos2 { x: old(self).padding_x, y: old(self).padding_y },
                );
                &&& final(self).div_stack@ == old(self).div_stack@.push(
                    Div {
                        x: p.0 as i32,
                        y: p.1 as i32,
                        w,
                        h,
                        vertical: true,
                        mode: SysUiMode::Sequential,
                        thumbnail_size: DEFAULT_THUMBNAIL_SIZE,
                    },
                )
                &&& final(self).ui_mode == SysUiMode::Sequential
                &&& final(self).cx == p.0 && final(self).cy == p.1
            }),
            final(self).same_frame(old(self)),
    {
        let (px, py) = (self.padding_x, self.padding_y);
        self.begin_div_exp(px, py, w, h, true, SysUiMode::Sequential);
    }

    /// Closes the innermost area: the mode becomes that of the area around
    /// it, and the cursor moves past the closed area. An area must be open.
    pub fn end_div(&mut self)
        requires
            old(self).div_stack@.len() > 0,
            current_div(old(self).div_stack@.drop_last(), old(self).w, old(self).h).mode
                == SysUiMode::Sequential ==> cursor_fits(
                current_div(old(self).div_stack@.drop_last(), old(self).w, old(self).h),
                Rect {
                    x: old(self).div_stack@.last().x,
                    y: old(self).div_stack@.last().y,
                    w: old(self).div_stack@.last().w,
                    h: old(self).div_stack@.last().h,
                },
            ),
        ensures
            ({
                let outer = current_div(old(self).div_stack@.drop_last(), old(self).w, old(self).h);
                let closed = old(self).div_stack@.last();
                &&& final(self).div_stack@ == old(self).div_stack@.drop_last()
                &&& final(self).ui_mode == outer.mode
                &&& outer.mode == SysUiMode::Sequential ==> (final(self).cx as int, final(self).cy as int)
                    == cursor_after(outer, Rect { x: closed.x, y: closed.y, w: closed.w, h: closed.h })
                &&& outer.mode != SysUiMode::Sequential ==> final(self).cx == old(self).cx
                    && final(self).cy == old(self).cy
            }),
            final(self).same_frame(old(self)),
    {
        let x = self.div_stack.pop().unwrap();
        self.ui_mode = self.get_div().mode;
        self.update_cursor(Rect { x: x.x, y: x.y, w: x.w, h: x.h });
    }

    /// Moves the cursor to `(x, y)`.
    pub fn set_cursor(&mut self, x: i32, y: i32)
        ensures
            final(self).cx == x && final(self).cy == y,
            final(self).div_stack@ == old(self).div_stack@,
            final(self).ui_mode == old(self).ui_mode,
            final(self).same_frame(old(self)),
    {
        self.cx = x;
        self.cy = y;
    }

    /// Starts a new frame's placement: no area open, the cursor at the
    /// corner, widgets placed in sequence.
    pub fn reset(&mut self)
        ensures
            final(self).div_stack@ == Seq::<Div>::empty(),
            final(self).cx == 0 && final(self).cy == 0,
            final(self).ui_mode == SysUiMode::Sequential,
            final(self).same_frame(old(self)),
    {
        self.div_stack.clear();
        self.cx = 0;
        self.cy = 0;
        self.ui_mode = SysUiMode::Sequential;
    }
}

/// Closing an area just opened gives back the areas that were open before.
pub proof fn law_end_div_undoes_begin_div(stack: Seq<Div>, d: Div)
    ensures
        stack.push(d).drop_last() == stack,
        stack.push(d).last() == d,
{
    assert(stack.push(d).drop_last() =~= stack);
}

} // verus!
