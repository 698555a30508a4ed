use rtils::scan::{dyn_scanf, parse_bool, parse_i64, parse_u64, CopyFromStr, ScanArg};
use rtils::tokens::{tokenize, Token, TokenStream};
use rtils::screen::{measure_text_height, Col};

#[test]
fn parses_numbers_like_from_str() {
    assert_eq!(parse_u64("42"), Some(42));
    assert_eq!(parse_u64("+7"), Some(7));
    assert_eq!(parse_u64("18446744073709551615"), Some(u64::MAX));
    assert_eq!(parse_u64("18446744073709551616"), None);
    assert_eq!(parse_u64(""), None);
    assert_eq!(parse_u64("-1"), None);
    assert_eq!(parse_u64("1a"), None);
    assert_eq!(parse_i64("-9223372036854775808"), Some(i64::MIN));
    assert_eq!(parse_i64("9223372036854775808"), None);
    assert_eq!(parse_i64("-12"), Some(-12));
    assert_eq!(parse_bool("true"), Some(true));
    assert_eq!(parse_bool("false"), Some(false));
    assert_eq!(parse_bool("True"), None);
}

#[test]
fn parse_reads_back_decimal_writing() {
    for n in [0u64, 9, 10, 12345, u64::MAX] {
        assert_eq!(parse_u64(&n.to_string()), Some(n));
    }
}

#[test]
fn copy_from_str_keeps_value_on_failure() {
    let mut x: u64 = 5;
    assert!(!x.copy_from_str("z"));
    assert_eq!(x, 5);
    assert!(x.copy_from_str("6"));
    assert_eq!(x, 6);
    let mut s = String::new();
    assert!(s.copy_from_str("hello"));
    assert_eq!(s, "hello");
    let mut c = 'a';
    assert!(!c.copy_from_str("bc"));
    assert!(c.copy_from_str("b"));
    assert_eq!(c, 'b');
}

#[test]
fn scanf_reads_fields() {
    let mut args = vec![ScanArg::UInt(0), ScanArg::Text(String::new())];
    assert!(dyn_scanf("x=12, name=bob", "x={}, name={}", &mut args));
    assert!(matches!(args[0], ScanArg::UInt(12)));
    assert!(matches!(&args[1], ScanArg::Text(t) if t == "bob"));
}

#[test]
fn scanf_handles_braces_and_failures() {
    let mut args = vec![ScanArg::Int(0)];
    assert!(dyn_scanf("{-3}", "{{{}}}", &mut args));
    assert!(matches!(args[0], ScanArg::Int(-3)));
    let mut args = vec![ScanArg::UInt(1), ScanArg::UInt(2)];
    assert!(!dyn_scanf("5 x", "{} {}", &mut args));
    assert!(matches!(args[0], ScanArg::UInt(5)));
    assert!(matches!(args[1], ScanArg::UInt(2)));
    let mut args: Vec<ScanArg> = vec![];
    assert!(dyn_scanf("abc", "abc", &mut args));
    assert!(!dyn_scanf("abcd", "abc", &mut args));
    let mut args = vec![ScanArg::Bool(false)];
    assert!(!dyn_scanf("1 2", "{} {}", &mut args));
    let mut args = vec![ScanArg::Char('a')];
    assert!(dyn_scanf("c", "{}", &mut args));
    assert!(matches!(args[0], ScanArg::Char('c')));
}

fn texts(ts: &[Token]) -> Vec<(String, usize)> {
    ts.iter().map(|t| (t.text.clone(), t.line)).collect()
}

#[test]
fn tokenizes_lisp_like_text() {
    let ts = tokenize("(defn f (x) \"a b\") ; note\n(+ x 1)".to_string(), "f.l".to_string());
    assert_eq!(
        texts(&ts),
        vec![
            ("(".to_string(), 1),
            ("defn".to_string(), 1),
            ("f".to_string(), 1),
            ("(".to_string(), 1),
            ("x".to_string(), 1),
            (")".to_string(), 1),
            ("\"a b\"".to_string(), 1),
            (")".to_string(), 1),
            ("(".to_string(), 2),
            ("+".to_string(), 2),
            ("x".to_string(), 2),
            ("1".to_string(), 2),
            (")".to_string(), 2),
        ]
    );
    assert!(ts.iter().all(|t| t.file == "f.l"));
}

#[test]
fn tokenizer_keeps_escapes_and_trailing_ident() {
    let ts = tokenize("\"a\\\"b\"\nend".to_string(), String::new());
    assert_eq!(texts(&ts), vec![("\"a\"b\"".to_string(), 1), ("end".to_string(), 2)]);
    assert!(tokenize("  \t\n ; only a comment".to_string(), String::new()).is_empty());
}

#[test]
fn token_stream_reads_in_order() {
    let mut s = TokenStream::from_string("a b".to_string(), "x".to_string());
    assert_eq!(s.peek().map(|t| t.text), Some("a".to_string()));
    let t = Token { text: "z".to_string(), file: "x".to_string(), line: 1 };
    s.insert_next(t);
    assert_eq!(s.next().map(|t| t.text), Some("z".to_string()));
    assert_eq!(s.next().map(|t| t.text), Some("a".to_string()));
    assert_eq!(s.next().map(|t| t.text), Some("b".to_string()));
    assert!(s.next().is_none());
    assert!(s.peek().is_none());
}

#[test]
fn text_height_wraps_lines() {
    assert_eq!(measure_text_height("", 100), 10);
    assert_eq!(measure_text_height("abc", 100), 10);
    assert_eq!(measure_text_height("abcdefghijk", 100), 20);
    assert_eq!(measure_text_height("abcdefghijk", 5), 120);
}

#[test]
fn colors_by_index() {
    assert_eq!(Col::from_index(0), Col::Empty);
    assert_eq!(Col::from_index(4), Col::Red);
    assert_eq!(Col::from_index(19), Col::DarkOrchid);
}
