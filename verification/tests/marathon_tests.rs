use rtils::ids::{ArachneId, RequestId, ResponseId};
use rtils::marathon::{ArachneControl, Message};
use rtils::wire::{frame, header_length, length_header};

#[test]
fn plain_messages_come_out_in_order() {
    let mut c: ArachneControl<&str> = ArachneControl::new();
    c.file(Message::plain("a"));
    c.file(Message::plain("b"));
    assert_eq!(c.pop_buffered(), Some("a"));
    assert_eq!(c.pop_buffered(), Some("b"));
    assert_eq!(c.pop_buffered(), None);
}

#[test]
fn file_all_keeps_arrival_order() {
    let mut c: ArachneControl<u32> = ArachneControl::new();
    c.file_all(vec![Message::plain(1), Message::plain(2), Message::plain(3)]);
    assert_eq!(c.pop_buffered(), Some(1));
    assert_eq!(c.pop_buffered(), Some(2));
    assert_eq!(c.pop_buffered(), Some(3));
    assert_eq!(c.pop_buffered(), None);
}

#[test]
fn request_ids_are_least_free() {
    let mut c: ArachneControl<u32> = ArachneControl::new();
    let first = c.choose_response_id();
    assert_eq!(first.get(), 1);
    c.register_request(first);
    let second = c.choose_response_id();
    assert_eq!(second.get(), 2);
    c.register_request(second);
    // The answer to the first arrives: its id stays taken until it is taken.
    c.file(Message { is_response: true, id: 1, payload: 10 });
    assert!(!c.is_waiting_for(first));
    assert_eq!(c.choose_response_id().get(), 3);
    assert_eq!(c.take_response(first), Some(10));
    assert_eq!(c.choose_response_id().get(), 1);
}

#[test]
fn awaited_answer_is_kept() {
    let mut c: ArachneControl<&str> = ArachneControl::new();
    let id = c.choose_response_id();
    c.register_request(id);
    assert!(c.is_waiting_for(id));
    let m = Message::request(id, "question");
    assert_eq!(m.id, id.get());
    assert!(!m.is_response);
    c.file(Message { is_response: true, id: id.get(), payload: "answer" });
    assert_eq!(c.take_response(id), Some("answer"));
    assert_eq!(c.take_response(id), None);
}

#[test]
fn unawaited_answer_is_dropped() {
    let mut c: ArachneControl<u32> = ArachneControl::new();
    c.file(Message { is_response: true, id: 5, payload: 1 });
    assert_eq!(c.take_response(ResponseId::create(5)), None);
    assert!(c.pop_response().is_none());
    assert!(c.pop_buffered().is_none());
}

#[test]
fn requests_come_out_least_id_first_and_owe_an_answer() {
    let mut c: ArachneControl<&str> = ArachneControl::new();
    c.file(Message { is_response: false, id: 7, payload: "seven" });
    c.file(Message { is_response: false, id: 3, payload: "three" });
    let (id, p) = c.pop_request().unwrap();
    assert_eq!((id.get(), p), (3, "three"));
    let (id7, p7) = c.pop_request().unwrap();
    assert_eq!((id7.get(), p7), (7, "seven"));
    assert!(c.pop_request().is_none());
    assert!(c.is_answering(id));
    let reply = c.answer(id, "done");
    assert!(reply.is_response);
    assert_eq!(reply.id, 3);
    assert_eq!(reply.payload, "done");
    assert!(!c.is_answering(id));
    assert!(c.is_answering(RequestId::create(7)));
}

#[test]
fn responses_come_out_least_id_first() {
    let mut c: ArachneControl<u32> = ArachneControl::new();
    c.register_request(ResponseId::create(9));
    c.register_request(ResponseId::create(4));
    c.file(Message { is_response: true, id: 9, payload: 90 });
    c.file(Message { is_response: true, id: 4, payload: 40 });
    let (a, pa) = c.pop_response().unwrap();
    assert_eq!((a.get(), pa), (4, 40));
    let (b, pb) = c.pop_response().unwrap();
    assert_eq!((b.get(), pb), (9, 90));
    assert!(c.pop_response().is_none());
}

#[test]
fn response_message_answers_its_request() {
    let m = Message::response(RequestId::create(12), 5u8);
    assert!(m.is_response);
    assert_eq!(m.id, 12);
    assert_eq!(m.payload, 5);
}

#[test]
fn length_header_is_little_endian() {
    assert_eq!(length_header(258), vec![2, 1, 0, 0, 0, 0, 0, 0]);
    assert_eq!(length_header(0), vec![0; 8]);
    assert_eq!(length_header(u64::MAX), vec![255; 8]);
}

#[test]
fn header_length_reads_little_endian() {
    assert_eq!(header_length([2, 1, 0, 0, 0, 0, 0, 0]), 258);
    assert_eq!(header_length([0, 0, 0, 0, 0, 0, 0, 1]), 1u64 << 56);
    assert_eq!(header_length([255; 8]), u64::MAX);
}

#[test]
fn header_round_trip() {
    for x in [0u64, 1, 255, 256, 65535, 123456789, u64::MAX - 1, u64::MAX] {
        let h = length_header(x);
        let mut a = [0u8; 8];
        a.copy_from_slice(&h);
        assert_eq!(header_length(a), x);
        assert_eq!(a, x.to_le_bytes());
    }
}

#[test]
fn frame_prefixes_length() {
    assert_eq!(frame(&[9, 8, 7]), vec![3, 0, 0, 0, 0, 0, 0, 0, 9, 8, 7]);
    assert_eq!(frame(&[]), vec![0; 8]);
}
