use rtils::device::{frame_length, ProcessTable, MAX_PROCESSES};
use rtils::screen::{Cmd, Col};

#[test]
fn programs_get_least_free_number() {
    let mut t: ProcessTable<&str> = ProcessTable::new(1);
    assert_eq!(t.spawn_process("shell"), 1);
    assert_eq!(t.spawn_process("paint"), 2);
    assert_eq!(t.ids(), vec![1, 2]);
    *t.process_mut(1).unwrap() = "editor";
    assert_eq!(t.process_mut(1).map(|p| *p), Some("editor"));
    assert!(t.process_mut(3).is_none());
    t.clear();
    assert!(t.ids().is_empty());
    assert_eq!(t.spawn_process("again"), 1);
}

#[test]
fn a_full_table_refuses_programs() {
    let mut t: ProcessTable<u32> = ProcessTable::new(1);
    for k in 0..=MAX_PROCESSES as u32 {
        assert_eq!(t.spawn_process(k), k as u64 + 1);
    }
    assert_eq!(t.ids().len(), MAX_PROCESSES + 1);
    assert_eq!(t.spawn_process(99), 0);
    assert_eq!(t.ids().len(), MAX_PROCESSES + 1);
}

#[test]
fn switch_keys_need_control_and_an_attached_program() {
    let mut t: ProcessTable<u8> = ProcessTable::new(1);
    t.spawn_process(0);
    t.spawn_process(0);
    t.spawn_process(0);
    let mut keys = [false; 10];
    keys[2] = true;
    t.switch_active(false, keys);
    assert_eq!(t.active_process(), 1);
    t.switch_active(true, keys);
    assert_eq!(t.active_process(), 3);
    let mut far = [false; 10];
    far[8] = true;
    t.switch_active(true, far);
    assert_eq!(t.active_process(), 3);
    let mut both = [false; 10];
    both[0] = true;
    both[1] = true;
    t.switch_active(true, both);
    assert_eq!(t.active_process(), 2);
}

#[test]
fn frames_end_at_end_drawing() {
    let cmds = vec![
        Cmd::BeginDrawing,
        Cmd::DrawPixel { x: 0, y: 0, color: Col::Red },
        Cmd::EndDrawing,
        Cmd::BeginDrawing,
    ];
    assert_eq!(frame_length(&cmds), Some(3));
    assert_eq!(frame_length(&cmds[3..]), None);
    assert_eq!(frame_length(&[]), None);
}
