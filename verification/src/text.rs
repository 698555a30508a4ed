//! Conversions between strings and character vectors, shared by the text
//! processing modules.
use vstd::prelude::*;
use vstd::string::StrSliceExecFns;

verus! {

/// The characters of `s`, in order.
pub fn chars_of(s: &str) -> (r: Vec<char>)
    ensures
        r@ == s@,
{
    let mut v: Vec<char> = Vec::new();
    for c in it: s.chars()
        invariant
            v@ == it.seq().take(it.index()),
    {
        v.push(c);
    }
    v
}

} // verus!
verus! {

/// Builds a `String` from characters with `Iterator::collect`; the string
/// holds exactly the given characters, in order.
#[verifier::external_body]
pub(crate) fn string_from_chars(chars: &[char]) -> (r: String)
    ensures
        r@ == chars@,
{
    chars.iter().collect()
}

/// The characters of `v` from position `a` up to, not including, `b`.
pub fn char_range(v: &Vec<char>, a: usize, b: usize) -> (r: Vec<char>)
    requires
        a <= b <= v@.len(),
    ensures
        r@ == v@.subrange(a as int, b as int),
{
    let mut out: Vec<char> = Vec::new();
    let mut k = a;
    while k < b
        invariant
            a <= k <= b <= v@.len(),
            out@ == v@.subrange(a as int, k as int),
        decreases b - k,
    {
        out.push(v[k]);
        k += 1;
        assert(out@ =~= v@.subrange(a as int, k as int));
    }
    out
}

/// First position at or after `from` where `s` holds `e`.
pub open spec fn find_from(s: Seq<char>, from: int, e: char) -> Option<int>
    decreases s.len() - from,
{
    if from < 0 || from >= s.len() {
        None
    } else if s[from] == e {
        Some(from)
    } else {
        find_from(s, from + 1, e)
    }
}

/// Looking from `from` in a suffix is looking from `from + k` in the whole.
pub proof fn lemma_find_from_skip(s: Seq<char>, k: int, from: int, e: char)
    requires
        0 <= k <= s.len(),
        0 <= from,
    ensures
        find_from(s.skip(k), from, e) == match find_from(s, from + k, e) {
            Some(p) => Some(p - k),
            None => None::<int>,
        },
    decreases s.len() - k - from,
{
    if from < s.len() - k {
        if s[from + k] != e {
            lemma_find_from_skip(s, k, from + 1, e);
        }
    }
}

/// First position at or after `from` where `v` holds `e`.
pub fn find_char_from(v: &Vec<char>, from: usize, e: char) -> (r: Option<usize>)
    ensures
        r matches Some(p) ==> find_from(v@, from as int, e) == Some(p as int) && from <= p
            < v@.len(),
        r is None ==> find_from(v@, from as int, e) is None,
{
    let mut k = from;
    while k < v.len()
        invariant
            from <= k,
            find_from(v@, from as int, e) == find_from(v@, k as int, e),
        decreases v@.len() - k,
    {
        if v[k] == e {
            return Some(k);
        }
        k += 1;
    }
    None
}

/// The last position where `s` holds `e`.
pub open spec fn last_index_of(s: Seq<char>, e: char) -> Option<int>
    decreases s.len(),
{
    if s.len() == 0 {
        None
    } else if s.last() == e {
        Some(s.len() - 1)
    } else {
        last_index_of(s.drop_last(), e)
    }
}

/// What follows the last `.` of a file name, or the whole name where it has no `.`.
pub open spec fn spec_extension(s: Seq<char>) -> Seq<char> {
    match last_index_of(s, '.') {
        Some(p) => s.skip(p + 1),
        None => s,
    }
}

/// The extension of a file name: the text after its last `.`, or the whole
/// name where it has none.
pub fn get_extension(s: &str) -> (r: &str)
    ensures
        r@ == spec_extension(s@),
{
    let cs = chars_of(s);
    let mut k: usize = cs.len();
    assert(cs@.take(cs@.len() as int) =~= cs@);
    while k > 0
        invariant
            k <= cs@.len(),
            cs@ == s@,
            last_index_of(cs@, '.') == last_index_of(cs@.take(k as int), '.'),
        decreases k,
    {
        if cs[k - 1] == '.' {
            assert(cs@.take(k as int).last() == '.');
            return s.substring_char(k, cs.len());
        }
        assert(cs@.take(k as int).drop_last() =~= cs@.take(k - 1));
        k -= 1;
    }
    assert(cs@.take(0) =~= Seq::<char>::empty());
    assert(cs@.take(cs@.len() as int) =~= cs@);
    s
}

/// `last_index_of` finds `e` at its position and nowhere after it, and gives
/// `None` only where `e` does not occur.
pub proof fn lemma_last_index_of(s: Seq<char>, e: char)
    ensures
        last_index_of(s, e) matches Some(p) ==> 0 <= p < s.len() && s[p] == e && forall|q: int|
            p < q < s.len() ==> s[q] != e,
        last_index_of(s, e) is None ==> forall|q: int| 0 <= q < s.len() ==> s[q] != e,
    decreases s.len(),
{
    if s.len() > 0 && s.last() != e {
        lemma_last_index_of(s.drop_last(), e);
        assert forall|q: int| 0 <= q < s.len() - 1 implies s[q] == s.drop_last()[q] by {}
    }
}

/// The extension of a name holds no `.` and ends the name; where the name
/// has a `.`, the name is the text before its last `.`, that `.`, and the
/// extension.
pub proof fn law_extension_is_last_part(s: Seq<char>)
    ensures
        forall|q: int|
            0 <= q < spec_extension(s).len() ==> #[trigger] spec_extension(s)[q] != '.',
        spec_extension(s) == s.skip(s.len() - spec_extension(s).len()),
        last_index_of(s, '.') matches Some(p) ==> s == s.take(p) + seq!['.'] + spec_extension(s),
{
    lemma_last_index_of(s, '.');
    match last_index_of(s, '.') {
        Some(p) => {
            assert(s.skip(p + 1) =~= s.skip(s.len() - s.skip(p + 1).len()));
            assert(s =~= s.take(p) + seq!['.'] + s.skip(p + 1));
        },
        None => {
            assert(s.skip(0) =~= s);
        },
    }
}

} // verus!
