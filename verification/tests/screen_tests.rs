use rtils::screen::{
    begin_drawing, get_pressed_key, is_key_down, is_key_pressed, is_key_released, is_mouse_button_down,
    is_mouse_button_pressed, is_mouse_button_released, should_close, Cmd, Handle, HandleUpdate, InputState,
};
use std::collections::HashMap;

fn state(down: bool, pressed: bool, released: bool) -> InputState {
    InputState { down, pressed, released }
}

#[test]
fn a_report_replaces_the_input_and_starts_a_frame() {
    let mut h = Handle::new();
    let mut codes = HashMap::new();
    codes.insert(65, state(true, true, false));
    codes.insert(66, state(false, false, true));
    let mut mouse = HashMap::new();
    mouse.insert(0, state(true, false, false));
    let update = HandleUpdate { mouse_x: 4, mouse_y: 9, codes, mouse, pressed_key: Some('a'), should_close: false };
    begin_drawing(&mut h, Some(Cmd::Update(update)));
    assert_eq!((h.mouse_x, h.mouse_y), (4, 9));
    assert!(is_key_down(&h, 65) && is_key_pressed(&h, 65) && !is_key_released(&h, 65));
    assert!(!is_key_down(&h, 66) && is_key_released(&h, 66));
    assert!(is_mouse_button_down(&h, 0) && !is_mouse_button_pressed(&h, 0) && !is_mouse_button_released(&h, 0));
    assert_eq!(get_pressed_key(&h), Some('a'));
    assert_eq!(h.outbox.len(), 1);
    assert!(matches!(h.outbox[0], Cmd::BeginDrawing));
    begin_drawing(&mut h, Some(Cmd::EndDrawing));
    assert!(is_key_down(&h, 65));
    assert_eq!(h.outbox.len(), 2);
    begin_drawing(&mut h, None);
    assert!(should_close(&h));
    assert_eq!(h.outbox.len(), 2);
}
