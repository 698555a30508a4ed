use rtils::text_box::{edit_text_box, TextBoxData};

fn data(text: &str, cursor: usize, selected: bool) -> TextBoxData {
    TextBoxData { selected, text: text.to_string(), cursor, selected_section: None }
}

#[test]
fn keys_edit_at_the_cursor() {
    let (ret, d) = edit_text_box(data("ac", 1, true), vec!['b'], false, false, None);
    assert!(ret.is_none());
    assert_eq!((d.text.as_str(), d.cursor), ("abc", 2));
    let (_, d) = edit_text_box(data("abc", 2, true), vec![127 as char], false, false, None);
    assert_eq!((d.text.as_str(), d.cursor), ("ac", 1));
    let (_, d) = edit_text_box(data("abc", 3, true), vec![127 as char], false, false, None);
    assert_eq!((d.text.as_str(), d.cursor), ("ab", 2));
    let (_, d) = edit_text_box(data("abc", 0, true), vec![127 as char], false, false, None);
    assert_eq!((d.text.as_str(), d.cursor), ("abc", 0));
    let (_, d) = edit_text_box(data("ab", 7, true), vec!['x'], false, false, None);
    assert_eq!((d.text.as_str(), d.cursor), ("abx", 4));
}

#[test]
fn newline_hands_the_text_over() {
    let (ret, d) = edit_text_box(data("hi", 2, true), vec!['!', '\n', 'n'], false, false, None);
    assert_eq!(ret.as_deref(), Some("hi!"));
    assert_eq!((d.text.as_str(), d.cursor), ("n", 2));
}

#[test]
fn arrows_and_clicks() {
    let (_, d) = edit_text_box(data("abc", 2, true), vec![], true, false, None);
    assert_eq!(d.cursor, 1);
    let (_, d) = edit_text_box(data("abc", 3, true), vec![], false, true, None);
    assert_eq!(d.cursor, 4);
    let (_, d) = edit_text_box(data("abc", 9, true), vec![], false, false, None);
    assert_eq!(d.cursor, 4);
    let (ret, d) = edit_text_box(data("abc", 1, true), vec!['z'], false, false, Some(false));
    assert!(ret.is_none() && !d.selected);
    assert_eq!((d.text.as_str(), d.cursor), ("abc", 1));
    let (_, d) = edit_text_box(data("", 0, false), vec!['q'], false, false, Some(true));
    assert!(d.selected);
    assert_eq!(d.text, "q");
    let fresh = TextBoxData::new();
    assert!(!fresh.selected && fresh.text.is_empty() && fresh.cursor == 0);
}
