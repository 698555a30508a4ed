use rtils::ui_layout::{Div, Pos2, Rect, SysLayout, SysUiMode, DEFAULT_THUMBNAIL_SIZE};

#[test]
fn rect_contains_its_corner_but_not_its_far_edges() {
    let r = Rect { x: 10, y: 20, w: 5, h: 5 };
    assert!(r.check_collision(Pos2 { x: 10, y: 20 }));
    assert!(r.check_collision(Pos2 { x: 14, y: 24 }));
    assert!(!r.check_collision(Pos2 { x: 15, y: 24 }));
    assert!(!r.check_collision(Pos2 { x: 14, y: 25 }));
    assert!(!r.check_collision(Pos2 { x: 9, y: 20 }));
}

#[test]
fn screen_is_the_default_area() {
    let l = SysLayout::new(640, 480);
    let d = l.get_div();
    assert_eq!((d.x, d.y, d.w, d.h), (0, 0, 640, 480));
    assert!(!d.vertical);
    assert_eq!(d.mode, SysUiMode::Sequential);
    assert_eq!(l.get_thumbnail_size(), DEFAULT_THUMBNAIL_SIZE);
}

#[test]
fn sequential_divs_move_the_cursor() {
    let mut l = SysLayout::new(640, 480);
    l.set_cursor(100, 50);
    l.begin_div(200, 100);
    // The area opens at the cursor plus the padding, and the cursor moves there.
    assert_eq!(l.get_div(), Div { x: 104, y: 54, w: 200, h: 100, vertical: true, thumbnail_size: 80, mode: SysUiMode::Sequential });
    assert_eq!((l.cx, l.cy), (104, 54));
    assert_eq!(l.get_absolute_pos(Pos2 { x: 1, y: 2 }), Pos2 { x: 105, y: 56 });
    // A widget in a vertical area puts the cursor below it, at the area's left.
    l.update_cursor(Rect { x: 104, y: 54, w: 30, h: 10 });
    assert_eq!((l.cx, l.cy), (104, 69));
    l.set_thumbail_size(40);
    assert_eq!(l.get_thumbnail_size(), 40);
    // Closing the area moves the cursor right of it, at the screen's top.
    l.end_div();
    assert!(l.div_stack.is_empty());
    assert_eq!((l.cx, l.cy), (104 + 200 + 5, 0));
}

#[test]
fn relative_and_absolute_modes() {
    let mut l = SysLayout::new(640, 480);
    l.begin_div_exp(10, 10, 100, 100, false, SysUiMode::Relative);
    assert_eq!(l.ui_mode, SysUiMode::Relative);
    assert_eq!((l.cx, l.cy), (0, 0));
    assert_eq!(l.get_absolute_pos(Pos2 { x: 3, y: 4 }), Pos2 { x: 13, y: 14 });
    l.update_cursor(Rect { x: 0, y: 0, w: 1, h: 1 });
    assert_eq!((l.cx, l.cy), (0, 0));
    l.begin_div_exp(7, 8, 5, 5, false, SysUiMode::Absolute);
    assert_eq!(l.get_div().x, 17);
    assert_eq!(l.get_absolute_pos(Pos2 { x: 3, y: 4 }), Pos2 { x: 3, y: 4 });
    l.end_div();
    assert_eq!(l.ui_mode, SysUiMode::Relative);
    l.end_div();
    assert_eq!(l.ui_mode, SysUiMode::Sequential);
    assert_eq!((l.cx, l.cy), (10 + 100 + 5, 0));
    l.reset();
    assert_eq!((l.cx, l.cy, l.div_stack.len()), (0, 0, 0));
}
