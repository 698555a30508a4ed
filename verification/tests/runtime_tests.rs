use rtils::commands::{begin_command_buffer, buffer_shift, end_command_buffer, queue_draw_button, queue_draw_line, queue_draw_pixel, queue_draw_queue, BufferedCommand};
use rtils::erl::{process_answer, Message, Runtime, RuntimeHandle, RuntimeHandleInner, SpawnRequest};
use rtils::ids::ProcessId;
use rtils::screen::{Cmd, Col, Handle};
use rtils::sync::SharedList;

#[test]
fn shared_list_operations() {
    let l: SharedList<u32> = SharedList::new();
    let m = l.share();
    assert!(l.is_empty());
    l.push(1);
    m.push(2);
    assert_eq!(l.len(), 2);
    assert!(l.consume_mutation());
    assert!(!m.consume_mutation());
    assert_eq!(l.insert(5, 9), Some(9));
    assert_eq!(l.insert(0, 0), None);
    assert_eq!(l.get(0), Some(0));
    assert_eq!(l.replace(1, 10), Ok(1));
    assert_eq!(l.replace(7, 3), Err(3));
    assert_eq!(l.set(0, 4), None);
    assert_eq!(l.set(9, 4), Some(4));
    assert_eq!(l.remove(0), Some(4));
    assert_eq!(l.remove(9), None);
    assert_eq!(l.pop(), Some(2));
    assert!(!l.has_lock());
    l.lock();
    assert!(l.has_lock());
    l.unlock();
    assert!(!l.has_lock());
}

#[test]
fn command_buffer_sends_commands_and_reports_clicks() {
    let mut b = begin_command_buffer();
    queue_draw_pixel(&mut b, 1, 2, Col::Red);
    queue_draw_button(&mut b, "ok", 10, 10, 20, 10, Col::Blue, Col::White, 7);
    let mut more = begin_command_buffer();
    queue_draw_line(&mut more, 0, 5, 0, 5, Col::Green);
    queue_draw_queue(&mut b, more);
    buffer_shift(&mut b, 1, 1);
    assert!(matches!(b.commands[0], BufferedCommand::DrawPixel { x: 2, y: 3, .. }));
    let mut h = Handle::new();
    h.mouse_x = 15;
    h.mouse_y = 15;
    let clicked = end_command_buffer(b, &mut h, true);
    assert_eq!(clicked, vec![7]);
    assert_eq!(h.outbox.len(), 4);
    assert!(matches!(h.outbox[0], Cmd::DrawPixel { x: 2, y: 3, color: Col::Red }));
    assert!(matches!(h.outbox[3], Cmd::DrawLine { start_x: 1, end_x: 6, .. }));
    let mut b2 = begin_command_buffer();
    queue_draw_button(&mut b2, "ok", 10, 10, 20, 10, Col::Blue, Col::White, 7);
    assert!(end_command_buffer(b2, &mut h, false).is_empty());
}

#[test]
fn handles_link_both_ways() {
    let (a, b) = RuntimeHandleInner::new();
    a.send(Message::ProcessExit);
    assert!(matches!(b.receive(), Some(Message::ProcessExit)));
    assert!(b.receive_wait().is_none());
    a.send_request_immediate(Message::GetNamedProcess("x".to_string()));
    assert!(a.recieve_response().is_none());
    assert!(matches!(b.recieve_request(), Some(Message::GetNamedProcess(_))));
    b.respond(Message::ProcessDoesNotExist);
    assert!(b.recieve_request().is_none());
    assert!(matches!(a.recieve_response(), Some(Message::ProcessDoesNotExist)));
    assert_eq!(RuntimeHandle::invalid().this_id().get(), 0);
}

#[test]
fn runtime_routes_requests_and_messages() {
    let mut rt = Runtime::new();
    assert!(rt.is_empty());
    let (p1, h1) = rt.spawn_ll();
    let (p2, h2) = rt.spawn_ll();
    assert_eq!((p1.get(), p2.get()), (1, 2));
    h1.inner().send_request_immediate(Message::SpawnProcessNamed(42, "child".to_string()));
    let spawned = rt.step();
    assert_eq!(spawned.len(), 1);
    assert_eq!(spawned[0].token, 42);
    assert_eq!(spawned[0].id.get(), 3);
    assert!(matches!(h1.inner().recieve_response(), Some(Message::ReturnedId(id)) if id.get() == 3));
    h2.inner().send_request_immediate(Message::GetNamedProcess("child".to_string()));
    rt.step();
    assert!(matches!(h2.inner().recieve_response(), Some(Message::ReturnedId(id)) if id.get() == 3));
    h1.inner().send(Message::Message { to: p2, from: p1, data: vec![1, 2] });
    rt.step();
    assert!(matches!(h2.inner().receive(), Some(Message::Message { data, .. }) if data == vec![1, 2]));
    h2.inner().send_request_immediate(Message::DoesProcessExist(ProcessId::from_value(9)));
    rt.step();
    assert!(matches!(h2.inner().recieve_response(), Some(Message::ProcessDoesNotExist)));
    h1.inner().send(Message::ProcessExit);
    rt.step();
    assert!(!rt.contains(p1));
    rt.finished(p2);
    rt.finished(spawned[0].id);
    rt.step();
    assert!(rt.is_empty());
}

#[test]
fn process_answers_are_read() {
    let id = ProcessId::from_value(3);
    assert_eq!(process_answer(&Message::ReturnedId(id)), Some(Some(id)));
    assert_eq!(process_answer(&Message::ProcessDoesNotExist), Some(None));
    assert_eq!(process_answer(&Message::ProcessExit), None);
    assert_eq!(process_answer(&Message::KillProcess(id)), None);
}

#[test]
fn latest_registration_of_a_name_wins() {
    let mut rt = Runtime::new();
    let (p1, h1) = rt.spawn_ll();
    h1.inner().send_request_immediate(Message::SpawnProcessNamed(1, "svc".to_string()));
    let first = rt.step();
    assert_eq!(first[0].id.get(), 2);
    assert!(h1.inner().recieve_response().is_some());
    h1.inner().send_request_immediate(Message::SpawnProcessNamed(2, "svc".to_string()));
    let second = rt.step();
    assert_eq!(second[0].id.get(), 3);
    assert!(h1.inner().recieve_response().is_some());
    assert_eq!(rt.named(&"svc".to_string()).map(|p| p.get()), Some(3));
    assert_eq!(rt.named(&"other".to_string()), None);
    assert!(rt.contains(p1));
}

#[test]
fn each_request_changes_the_tables_as_its_action_says() {
    let mut rt = Runtime::new();
    let (p1, _h1) = rt.spawn_ll();
    let (p2, _h2) = rt.spawn_ll();
    let mut spawns: Vec<SpawnRequest> = Vec::new();
    let r = rt.apply_request(p1, Message::Message { to: p2, from: p1, data: vec![7] }, &mut spawns);
    assert!(r.is_none());
    let r = rt.apply_request(p1, Message::DoesProcessExist(p2), &mut spawns);
    assert_eq!(r.as_ref().and_then(process_answer), Some(Some(p2)));
    let r = rt.apply_request(p1, Message::GetNamedProcess("none".to_string()), &mut spawns);
    assert_eq!(r.as_ref().and_then(process_answer), Some(None));
    let r = rt.apply_request(p2, Message::SpawnProcess(9), &mut spawns);
    assert!(r.is_none());
    assert_eq!(spawns.len(), 1);
    assert_eq!((spawns[0].requester.get(), spawns[0].token), (2, 9));
    let r = rt.apply_request(p1, Message::KillProcess(p2), &mut spawns);
    assert!(r.is_none());
    assert!(rt.apply_request(p1, Message::ProcessExit, &mut spawns).is_none());
    let req = spawns.pop().unwrap();
    let s = rt.spawn_requested(req).unwrap();
    assert_eq!((s.id.get(), s.token), (3, 9));
    assert!(rt.contains(s.id));
    let gone = SpawnRequest { requester: ProcessId::from_value(40), token: 1, name: None };
    assert!(rt.spawn_requested(gone).is_none());
    rt.handle_cleanup();
    assert!(!rt.contains(p2));
    assert!(rt.contains(p1));
}

#[test]
fn messages_to_the_runtime_are_routed() {
    let mut rt = Runtime::new();
    let (p1, _h1) = rt.spawn_ll();
    let (p2, _h2) = rt.spawn_ll();
    let r = rt.route_message(p1, Message::Message { to: p2, from: p1, data: vec![4] });
    assert!(matches!(r, Some((to, Message::Message { data, .. })) if to == p2 && data == vec![4]));
    assert!(rt.route_message(p1, Message::Message { to: p1, from: p1, data: vec![] }).is_none());
    assert!(rt.route_message(p1, Message::Message { to: ProcessId::from_value(9), from: p1, data: vec![] }).is_none());
    assert!(rt.route_message(p1, Message::GetNamedProcess("x".to_string())).is_none());
    assert!(rt.route_message(p1, Message::KillProcess(p2)).is_none());
    assert!(rt.route_message(p1, Message::ProcessExit).is_none());
    rt.handle_cleanup();
    assert!(rt.is_empty());
}

#[test]
fn cleanup_removes_what_the_drained_messages_ask_for() {
    let mut rt = Runtime::new();
    let (p1, _h1) = rt.spawn_ll();
    let (p2, h2) = rt.spawn_ll();
    let (p3, _h3) = rt.spawn_ll();
    let forwards = rt.route_messages(p1, vec![
        Message::Message { to: p2, from: p1, data: vec![1] },
        Message::KillProcess(p3),
        Message::Message { to: p1, from: p1, data: vec![] },
    ]);
    assert_eq!(forwards.len(), 1);
    assert_eq!(forwards[0].0, p2);
    rt.finish_cleanup(vec![(p2, vec![Message::ProcessExit])]);
    assert!(rt.contains(p1));
    assert!(!rt.contains(p2));
    assert!(!rt.contains(p3));
    assert!(h2.inner().receive().is_none());
}
