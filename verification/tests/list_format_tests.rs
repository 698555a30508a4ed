use rtils::format::{dyn_sprintf, BString};
use rtils::list::{List, ListMut};

#[test]
fn list_shares_tails() {
    let a = List::new(1u32);
    let b = a.cons(2);
    let c = b.cons(3);
    assert_eq!(c.len(), 3);
    assert_eq!(*c.car(), 3);
    assert_eq!(c.get(0), Some(&3));
    assert_eq!(c.get(2), Some(&1));
    assert_eq!(c.get(3), None);
    let d = c.cdr();
    assert_eq!(d.len(), 2);
    assert_eq!(*d.car(), 2);
    assert_eq!(b.len(), 2);
    let r = c.reverse();
    assert_eq!((r.get(0), r.get(1), r.get(2)), (Some(&1), Some(&2), Some(&3)));
    assert!(List::<u8>::empty().is_empty());
    assert!(List::<u8>::empty().cdr().is_empty());
    assert!(!a.is_empty());
}

#[test]
fn list_mut_changes_in_place() {
    let mut l = ListMut::new(1u32).cons(2).cons(3);
    assert_eq!(l.len(), 3);
    *l.car() = 30;
    if let Some(x) = l.get_mut(2) {
        *x = 10;
    }
    assert_eq!((l.get(0), l.get(1), l.get(2)), (Some(&30), Some(&2), Some(&10)));
    assert_eq!(l.get_mut(3), None);
    assert_eq!(*l.get_node(1).unwrap().value(), 2);
    assert!(l.get_node_mut(5).is_none());
    let r = l.reverse();
    assert_eq!(r.get(0), Some(&10));
    let c = l.as_const();
    assert_eq!(c.get(0), Some(&30));
    let t = l.cdr();
    assert_eq!(t.len(), 2);
    assert!(!t.is_empty());
}

#[test]
fn bstring_grows_by_doubling() {
    let mut b = BString::new();
    b.concat("hello");
    b.push('!');
    assert_eq!(b.get_str(), "hello!");
    let t = b.take();
    assert_eq!(t.len(), 16);
    assert!(t.starts_with("hello!"));
    assert!(t[6..].chars().all(|c| c == '\0'));
    let mut g = BString::new();
    g.concat("0123456789abcdef");
    assert_eq!(g.take().len(), 32);
    let mut w = BString::new();
    w.concat_writeable("7");
    w.concat_debug("\"x\"");
    assert_eq!(w.get_str(), "7\"x\"");
}

#[test]
fn sprintf_substitutes_arguments() {
    let args = vec!["3".to_string(), "abc".to_string(), "1.5".to_string()];
    let s = dyn_sprintf("n=%d s=%s f=%f 100%%", &args);
    assert_eq!(s.get_str(), "n=3 s=abc f=1.5 100%");
    let e = dyn_sprintf("end%", &[]);
    assert_eq!(e.get_str(), "end");
    let u = dyn_sprintf("%u/%*", &["1".to_string(), "2".to_string()]);
    assert_eq!(u.get_str(), "1/2");
}

#[test]
fn reversing_twice_gives_the_list_back() {
    let l = List::new(1u32).cons(2).cons(3).cons(4);
    let back = l.reverse().reverse();
    assert_eq!(back.len(), 4);
    for i in 0..4 {
        assert_eq!(back.get(i), l.get(i));
    }
    let e = List::<u8>::empty().reverse().reverse();
    assert!(e.is_empty());
}
