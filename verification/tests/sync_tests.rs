use rtils::error::{BadOption, ErrorValue, Exception, Throw};
use rtils::sync::{BPipe, Shared, SpinLock, WriteOnce};

#[test]
fn write_once_hands_value_to_other_handle() {
    let (a, b) = WriteOnce::create();
    assert_eq!(b.try_read(), None);
    let pending = b.read();
    assert_eq!(pending.poll(), None);
    a.write(5u32);
    assert_eq!(pending.poll(), Some(5));
    assert_eq!(b.try_read(), None);
}

#[test]
fn write_once_try_read_takes_value() {
    let (a, b) = WriteOnce::create();
    a.write("x".to_string());
    assert_eq!(b.try_read(), Some("x".to_string()));
    assert_eq!(b.try_read(), None);
}

#[test]
fn pipe_delivers_in_order_both_ways() {
    let (a, b) = BPipe::create();
    a.send(1u32).unwrap();
    a.send(2).unwrap();
    b.send(10).unwrap();
    assert_eq!(b.recieve().unwrap(), Some(1));
    assert_eq!(b.receive_buffer().unwrap(), vec![2]);
    assert_eq!(b.recieve().unwrap(), None);
    assert_eq!(a.recieve().unwrap(), Some(10));
    let pending = a.recieve_async();
    assert!(pending.poll().is_none());
    b.send(11).unwrap();
    assert!(matches!(pending.poll(), Some(Ok(11))));
}

#[test]
fn closed_pipe_refuses() {
    let (a, b) = BPipe::<u8>::create();
    b.close();
    let e = a.send(1).unwrap_err();
    assert!(matches!(e.get_error(), ErrorValue::Message(m) if m == "done"));
    assert!(a.recieve().is_err());
    assert!(a.receive_buffer().is_err());
    assert!(matches!(a.recieve_async().poll(), Some(Err(_))));
}

#[test]
fn shared_value_is_replaced() {
    let s = Shared::new(3u32);
    assert_eq!(s.shared_get_copy(), 3);
    s.shared_store_copy(4);
    assert_eq!(s.shared_get_copy(), 4);
}

#[test]
fn spin_lock_operations() {
    let l = SpinLock::new(5u32);
    assert_eq!(l.get(), 5);
    l.store(6);
    assert_eq!(l.try_get(), Some(6));
    assert_eq!(l.try_store(7), None);
    assert_eq!(l.take(), 7);
    assert_eq!(l.get(), 0);
    l.store(8);
    assert_eq!(l.try_take(), Some(8));
    let mut g = l.lock();
    assert_eq!(*g.get(), 0);
    g.set(9);
    g.release();
    assert_eq!(l.get(), 9);
}

#[test]
fn exceptions_carry_their_error() {
    let e = Exception::message("bad".to_string());
    assert!(matches!(e.clone().error_as::<String>(), Ok(m) if m == "bad"));
    assert!(matches!(e.error_as::<BadOption>(), Err(ErrorValue::Message(_))));
    let none: Option<u8> = None;
    let t = none.throw().unwrap_err();
    assert!(matches!(t.get_error(), ErrorValue::BadOption(_)));
    assert_eq!(Some(3u8).throw().unwrap(), 3);
    let r: Result<u8, ErrorValue> = Err(ErrorValue::Message("m".to_string()));
    assert!(matches!(r.throw(), Err(x) if matches!(x.error, ErrorValue::Message(_))));
    assert!(Exception::new(ErrorValue::BadOption(BadOption {})).error_as::<BadOption>().is_ok());
}

#[test]
fn a_held_lock_turns_try_operations_away() {
    let l = SpinLock::new(1u32);
    let g = l.lock();
    assert_eq!(*g.get(), 1);
    assert_eq!(l.try_store(7), Some(7));
    assert_eq!(l.try_get(), None);
    assert_eq!(l.try_take(), None);
    assert!(l.try_lock().is_none());
    g.release();
    let mut g2 = l.try_lock().unwrap();
    g2.set(3);
    assert!(l.try_lock().is_none());
    g2.release();
    assert_eq!(l.try_get(), Some(3));
    assert_eq!(l.try_store(4), None);
    assert_eq!(l.get(), 4);
}
