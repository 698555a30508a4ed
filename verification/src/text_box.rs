//! Editing the text of a text box by the keys typed into it: characters go
//! in at the cursor, delete takes out the character before it, a newline
//! hands the text over and starts afresh, and the arrows move the cursor.
use vstd::prelude::*;
use crate::text::{chars_of, string_from_chars};

verus! {

/// The state of a text box: whether it takes keys, its text, and the
/// cursor, as the number of characters before it.
pub struct TextBoxData {
    pub selected: bool,
    pub text: String,
    pub cursor: usize,
    pub selected_section: Option<(usize, usize)>,
}

impl TextBoxData {
    /// An empty text box that takes no keys.
    pub fn new() -> (r: Self)
        ensures
            !r.selected,
            r.text@ == Seq::<char>::empty(),
            r.cursor == 0,
            r.selected_section is None,
    {
        TextBoxData { selected: false, text: String::new(), cursor: 0, selected_section: None }
    }
}

/// The code of the delete key.
pub open spec fn is_delete(k: char) -> bool {
    k as u32 == 127
}

/// The text, the cursor and the text handed over so far after key `k`: a
/// newline hands the text over and empties it; delete takes out the
/// character before the cursor, or the last character where the cursor is
/// at or past the end, and moves the cursor back; any other key goes in at
/// the cursor, or at the end where the cursor is at or past it, and moves
/// the cursor on.
pub open spec fn key_step(state: (Seq<char>, nat, Option<Seq<char>>), k: char) -> (Seq<char>, nat, Option<Seq<char>>) {
    let (t, c, handed) = state;
    if k == '\n' {
        (Seq::empty(), c, Some(t))
    } else if is_delete(k) {
        if 0 < c < t.len() {
            (t.remove(c - 1), (c - 1) as nat, handed)
        } else if c != 0 {
            (if t.len() > 0 { t.drop_last() } else { t }, (c - 1) as nat, handed)
        } else {
            (t, c, handed)
        }
    } else {
        (if c >= t.len() { t.push(k) } else { t.insert(c as int, k) }, c + 1, handed)
    }
}

/// The state after the keys `keys`, one by one, from `state`.
pub open spec fn keys_step(state: (Seq<char>, nat, Option<Seq<char>>), keys: Seq<char>) -> (Seq<char>, nat, Option<Seq<char>>)
    decreases keys.len(),
{
    if keys.len() == 0 {
        state
    } else {
        key_step(keys_step(state, keys.drop_last()), keys.last())
    }
}

/// The cursor after the arrows: left moves it back where it can, right
/// moves it on where it is not past the end, and it then stays at most one
/// past the end of `t`.
pub open spec fn arrow_step(c: nat, t: Seq<char>, left: bool, right: bool) -> nat {
    let c1: nat = if left && c > 0 { (c - 1) as nat } else { c };
    let c2: nat = if right && c1 <= t.len() { c1 + 1 } else { c1 };
    if c2 > t.len() + 1 { t.len() + 1 } else { c2 }
}

/// Whether every character of `s` is ASCII.
pub open spec fn all_ascii(s: Seq<char>) -> bool {
    forall|i: int| 0 <= i < s.len() ==> (s[i] as u32) < 128
}

/// Edits the text box `data` by one frame's input. A click, where there is
/// one, selects the box where it was inside the box and unselects it where
/// it was not. A selected box takes the keys `keys` in order, as
/// `keys_step` says, then the arrows, as `arrow_step` says; the text that
/// the last newline handed over comes back. A box that is not selected
/// keeps its text and cursor. The text and the keys are ASCII, so that a
/// position in the text is as many characters as bytes.
pub fn edit_text_box(data: TextBoxData, keys: Vec<char>, left: bool, right: bool, click: Option<bool>) -> (r: (
    Option<String>,
    TextBoxData,
))
    requires
        all_ascii(data.text@),
        all_ascii(keys@),
        data.cursor + 2 * keys@.len() + data.text@.len() + 2 <= usize::MAX,
    ensures
        ({
            let selected = match click {
                Some(inside) => inside,
                None => data.selected,
            };
            let after = keys_step((data.text@, data.cursor as nat, None), keys@);
            &&& r.1.selected == selected
            &&& r.1.selected_section is None
            &&& selected ==> {
                &&& r.1.text@ == after.0
                &&& r.1.cursor == arrow_step(after.1, after.0, left, right)
                &&& match after.2 {
                    Some(h) => r.0 matches Some(s) && s@ == h,
                    None => r.0 is None,
                }
            }
            &&& !selected ==> r.0 is None && r.1.text@ == data.text@ && r.1.cursor == data.cursor
        }),
{
    let selected = match click {
        Some(inside) => inside,
        None => data.selected,
    };
    if !selected {
        return (None, TextBoxData { selected, text: data.text, cursor: data.cursor, selected_section: None });
    }
    let mut text = chars_of(data.text.as_str());
    let mut cursor: usize = data.cursor;
    let mut handed: Option<Vec<char>> = None;
    let ghost start = (data.text@, data.cursor as nat, None::<Seq<char>>);
    let mut i: usize = 0;
    assert(keys@.take(0) =~= Seq::<char>::empty());
    while i < keys.len()
        invariant
            i <= keys@.len(),
            start == (data.text@, data.cursor as nat, None::<Seq<char>>),
            keys_step(start, keys@.take(i as int)) == (text@, cursor as nat, match handed {
                Some(h) => Some(h@),
                None => None::<Seq<char>>,
            }),
            text@.len() + cursor <= data.text@.len() + data.cursor + 2 * i,
            data.cursor + 2 * keys@.len() + data.text@.len() + 2 <= usize::MAX,
        decreases keys@.len() - i,
    {
        let k = keys[i];
        proof {
            assert(keys@.take(i + 1).drop_last() =~= keys@.take(i as int));
            assert(keys@.take(i + 1).last() == k);
        }
        if k == '\n' {
            let mut fresh: Vec<char> = Vec::new();
            std::mem::swap(&mut fresh, &mut text);
            handed = Some(fresh);
        } else if k as u32 == 127 {
            if cursor < text.len() && cursor > 0 {
                text.remove(cursor - 1);
                cursor = cursor - 1;
            } else if cursor != 0 {
                cursor = cursor - 1;
                let _ = text.pop();
            }
        } else {
            if cursor >= text.len() {
                text.push(k);
            } else {
                text.insert(cursor, k);
            }
            cursor = cursor + 1;
        }
        i += 1;
    }
    proof {
        assert(keys@.take(i as int) =~= keys@);
    }
    if left && cursor > 0 {
        cursor = cursor - 1;
    }
    if right && cursor <= text.len() {
        cursor = cursor + 1;
    }
    if cursor > text.len() + 1 {
        cursor = text.len() + 1;
    }
    let out = string_from_chars(text.as_slice());
    let returned = match handed {
        Some(h) => Some(string_from_chars(h.as_slice())),
        None => None,
    };
    (returned, TextBoxData { selected, text: out, cursor, selected_section: None })
}

} // verus!
