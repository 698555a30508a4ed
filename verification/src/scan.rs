//! Reading values out of text laid out by a format string, in the manner of
//! `scanf`: `{}` stands for a value, `{{` and `}}` for literal braces.
use vstd::prelude::*;
use crate::text::{chars_of, char_range, find_char_from, find_from, lemma_find_from_skip, string_from_chars};

verus! {

// ----------------------------------------------------------------------
// Decimal numbers
// ----------------------------------------------------------------------

pub open spec fn is_digit(c: char) -> bool {
    '0' <= c && c <= '9'
}

pub open spec fn digit_value(c: char) -> nat {
    (c as int - '0' as int) as nat
}

pub open spec fn all_digits(s: Seq<char>) -> bool {
    forall|i: int| 0 <= i < s.len() ==> is_digit(#[trigger] s[i])
}

/// The number that a string of decimal digits denotes.
pub open spec fn digits_value(s: Seq<char>) -> nat
    decreases s.len(),
{
    if s.len() == 0 {
        0
    } else {
        digits_value(s.drop_last()) * 10 + digit_value(s.last())
    }
}

/// What `u64::from_str` gives: an optional `+`, then one digit or more,
/// denoting a number that fits.
pub open spec fn spec_parse_u64(s: Seq<char>) -> Option<u64> {
    let d = if s.len() > 0 && s[0] == '+' {
        s.drop_first()
    } else {
        s
    };
    if d.len() > 0 && all_digits(d) && digits_value(d) <= u64::MAX {
        Some(digits_value(d) as u64)
    } else {
        None
    }
}

/// What `i64::from_str` gives: an optional sign, then one digit or more,
/// denoting a number that fits.
pub open spec fn spec_parse_i64(s: Seq<char>) -> Option<i64> {
    let neg = s.len() > 0 && s[0] == '-';
    let d = if s.len() > 0 && (s[0] == '+' || s[0] == '-') {
        s.drop_first()
    } else {
        s
    };
    if d.len() > 0 && all_digits(d) {
        if neg && digits_value(d) <= i64::MAX + 1 {
            Some((-digits_value(d)) as i64)
        } else if !neg && digits_value(d) <= i64::MAX {
            Some(digits_value(d) as i64)
        } else {
            None
        }
    } else {
        None
    }
}

/// A longer string of digits denotes at least as much as any of its prefixes.
pub proof fn lemma_digits_value_prefix(s: Seq<char>, k: int)
    requires
        0 <= k <= s.len(),
    ensures
        digits_value(s.take(k)) <= digits_value(s),
    decreases s.len(),
{
    if k < s.len() {
        assert(s.drop_last().take(k) =~= s.take(k));
        lemma_digits_value_prefix(s.drop_last(), k);
    } else {
        assert(s.take(k) =~= s);
    }
}

/// The value of the digits `d`, when it is at most `bound`.
fn digits_to_u64(d: &[char], start: usize, bound: u64) -> (r: Option<u64>)
    requires
        start <= d@.len(),
    ensures
        all_digits(d@.skip(start as int)) && d@.len() > start && digits_value(d@.skip(start as int))
            <= bound ==> r == Some(digits_value(d@.skip(start as int)) as u64),
        !(all_digits(d@.skip(start as int)) && d@.len() > start && digits_value(
            d@.skip(start as int),
        ) <= bound) ==> r is None,
{
    let ghost ds = d@.skip(start as int);
    if start >= d.len() {
        return None;
    }
    let mut acc: u64 = 0;
    let mut i: usize = start;
    while i < d.len()
        invariant
            start <= i <= d@.len(),
            ds == d@.skip(start as int),
            all_digits(ds.take(i - start)),
            acc == digits_value(ds.take(i - start)),
            acc <= bound,
        decreases d@.len() - i,
    {
        let c = d[i];
        assert(ds.take(i - start + 1).drop_last() =~= ds.take(i - start));
        if !(c >= '0' && c <= '9') {
            assert(!is_digit(ds[i - start]));
            return None;
        }
        let v = (c as u32 - '0' as u32) as u64;
        assert(v == digit_value(c));
        if v > bound || acc > (bound - v) / 10 {
            proof {
                assert(acc * 10 + v > bound) by (nonlinear_arith)
                    requires
                        v > bound || acc > (bound - v) / 10,
                        v <= 9,
                ;
                lemma_digits_value_prefix(ds, i - start + 1);
            }
            return None;
        }
        proof {
            assert(acc * 10 + v <= bound) by (nonlinear_arith)
                requires
                    acc <= (bound - v) / 10,
                    v <= bound,
            ;
        }
        acc = acc * 10 + v;
        i += 1;
        assert(all_digits(ds.take(i - start)));
    }
    assert(ds.take(i - start) =~= ds);
    Some(acc)
}

/// Reads an unsigned number the way `u64::from_str` does.
pub fn parse_u64(s: &str) -> (r: Option<u64>)
    ensures
        r == spec_parse_u64(s@),
{
    let d = chars_of(s);
    let start: usize = if d.len() > 0 && d[0] == '+' {
        1
    } else {
        0
    };
    proof {
        if start == 1 {
            assert(d@.skip(1) =~= s@.drop_first());
        } else {
            assert(d@.skip(0) =~= s@);
        }
    }
    digits_to_u64(d.as_slice(), start, u64::MAX)
}

/// Reads a signed number the way `i64::from_str` does.
pub fn parse_i64(s: &str) -> (r: Option<i64>)
    ensures
        r == spec_parse_i64(s@),
{
    let d = chars_of(s);
    let neg = d.len() > 0 && d[0] == '-';
    let start: usize = if d.len() > 0 && (d[0] == '+' || d[0] == '-') {
        1
    } else {
        0
    };
    proof {
        if start == 1 {
            assert(d@.skip(1) =~= s@.drop_first());
        } else {
            assert(d@.skip(0) =~= s@);
        }
    }
    if neg {
        match digits_to_u64(d.as_slice(), start, 9223372036854775808u64) {
            Some(v) => {
                if v == 9223372036854775808u64 {
                    Some(-9223372036854775807i64 - 1)
                } else {
                    Some(-(v as i64))
                }
            },
            None => None,
        }
    } else {
        match digits_to_u64(d.as_slice(), start, 9223372036854775807u64) {
            Some(v) => Some(v as i64),
            None => None,
        }
    }
}

/// What `bool::from_str` gives.
pub open spec fn spec_parse_bool(s: Seq<char>) -> Option<bool> {
    if s == seq!['t', 'r', 'u', 'e'] {
        Some(true)
    } else if s == seq!['f', 'a', 'l', 's', 'e'] {
        Some(false)
    } else {
        None
    }
}

/// What `char::from_str` gives: the only character of a one-character string.
pub open spec fn spec_parse_char(s: Seq<char>) -> Option<char> {
    if s.len() == 1 {
        Some(s[0])
    } else {
        None
    }
}

/// A value that can be set from text.
pub trait CopyFromStr: View + Sized {
    /// The value that `s` denotes for this kind of value, where it denotes one.
    spec fn parsed_from(&self, s: Seq<char>) -> Option<Self::V>;

    /// Sets `self` to the value that `string` denotes and returns `true`; where
    /// `string` denotes none, leaves `self` as it is and returns `false`.
    fn copy_from_str(&mut self, string: &str) -> (ok: bool)
        ensures
            ok == old(self).parsed_from(string@) is Some,
            ok ==> final(self)@ == old(self).parsed_from(string@)->0,
            !ok ==> final(self)@ == old(self)@,
    ;
}

impl CopyFromStr for u64 {
    open spec fn parsed_from(&self, s: Seq<char>) -> Option<u64> {
        spec_parse_u64(s)
    }

    fn copy_from_str(&mut self, string: &str) -> (ok: bool) {
        match parse_u64(string) {
            Some(v) => {
                *self = v;
                true
            },
            None => false,
        }
    }
}

impl CopyFromStr for i64 {
    open spec fn parsed_from(&self, s: Seq<char>) -> Option<i64> {
        spec_parse_i64(s)
    }

    fn copy_from_str(&mut self, string: &str) -> (ok: bool) {
        match parse_i64(string) {
            Some(v) => {
                *self = v;
                true
            },
            None => false,
        }
    }
}

impl CopyFromStr for bool {
    open spec fn parsed_from(&self, s: Seq<char>) -> Option<bool> {
        spec_parse_bool(s)
    }

    fn copy_from_str(&mut self, string: &str) -> (ok: bool) {
        match parse_bool(string) {
            Some(v) => {
                *self = v;
                true
            },
            None => false,
        }
    }
}

impl CopyFromStr for char {
    open spec fn parsed_from(&self, s: Seq<char>) -> Option<char> {
        spec_parse_char(s)
    }

    fn copy_from_str(&mut self, string: &str) -> (ok: bool) {
        let d = chars_of(string);
        if d.len() == 1 {
            *self = d[0];
            true
        } else {
            false
        }
    }
}

impl CopyFromStr for String {
    open spec fn parsed_from(&self, s: Seq<char>) -> Option<Seq<char>> {
        Some(s)
    }

    fn copy_from_str(&mut self, string: &str) -> (ok: bool) {
        *self = string.to_owned();
        true
    }
}

/// Reads `true` or `false` the way `bool::from_str` does.
pub fn parse_bool(s: &str) -> (r: Option<bool>)
    ensures
        r == spec_parse_bool(s@),
{
    let d = chars_of(s);
    if d.len() == 4 && d[0] == 't' && d[1] == 'r' && d[2] == 'u' && d[3] == 'e' {
        assert(d@ =~= seq!['t', 'r', 'u', 'e']);
        Some(true)
    } else if d.len() == 5 && d[0] == 'f' && d[1] == 'a' && d[2] == 'l' && d[3] == 's' && d[4]
        == 'e' {
        assert(d@ =~= seq!['f', 'a', 'l', 's', 'e']);
        Some(false)
    } else {
        proof {
            if d@ == seq!['t', 'r', 'u', 'e'] {
                assert(d@[0] == 't' && d@[1] == 'r' && d@[2] == 'u' && d@[3] == 'e');
            }
            if d@ == seq!['f', 'a', 'l', 's', 'e'] {
                assert(d@[0] == 'f' && d@[1] == 'a' && d@[2] == 'l' && d@[3] == 's' && d@[4]
                    == 'e');
            }
        }
        None
    }
}

/// A value of one of the kinds that a format string can read.
pub enum ScanArg {
    Int(i64),
    UInt(u64),
    Bool(bool),
    Char(char),
    Text(String),
}

/// The abstract value of a [`ScanArg`].
pub enum ScanValue {
    Int(i64),
    UInt(u64),
    Bool(bool),
    Char(char),
    Text(Seq<char>),
}

impl View for ScanArg {
    type V = ScanValue;

    open spec fn view(&self) -> ScanValue {
        match self {
            ScanArg::Int(v) => ScanValue::Int(*v),
            ScanArg::UInt(v) => ScanValue::UInt(*v),
            ScanArg::Bool(v) => ScanValue::Bool(*v),
            ScanArg::Char(v) => ScanValue::Char(*v),
            ScanArg::Text(v) => ScanValue::Text(v@),
        }
    }
}

impl CopyFromStr for ScanArg {
    open spec fn parsed_from(&self, s: Seq<char>) -> Option<ScanValue> {
        match self {
            ScanArg::Int(_) => match spec_parse_i64(s) {
                Some(v) => Some(ScanValue::Int(v)),
                None => None,
            },
            ScanArg::UInt(_) => match spec_parse_u64(s) {
                Some(v) => Some(ScanValue::UInt(v)),
                None => None,
            },
            ScanArg::Bool(_) => match spec_parse_bool(s) {
                Some(v) => Some(ScanValue::Bool(v)),
                None => None,
            },
            ScanArg::Char(_) => match spec_parse_char(s) {
                Some(v) => Some(ScanValue::Char(v)),
                None => None,
            },
            ScanArg::Text(_) => Some(ScanValue::Text(s)),
        }
    }

    fn copy_from_str(&mut self, string: &str) -> (ok: bool) {
        match self {
            ScanArg::Int(x) => x.copy_from_str(string),
            ScanArg::UInt(x) => x.copy_from_str(string),
            ScanArg::Bool(x) => x.copy_from_str(string),
            ScanArg::Char(x) => x.copy_from_str(string),
            ScanArg::Text(x) => x.copy_from_str(string),
        }
    }
}

// ----------------------------------------------------------------------
// Matching text against a format string
// ----------------------------------------------------------------------

/// Matches `inp` against `fmt`. The first component lists the text of each
/// `{}` in order, as far as matching got; the second says whether the whole
/// of `inp` matched the whole of `fmt`.
///
/// A `{}` takes at least one character. When a character follows `{}` in the
/// format, the value ends before the next occurrence of that character, which
/// the format then consumes; a brace that follows `{}` must be doubled in the
/// format. A `{}` that ends the format takes the rest of the text. `{{` and
/// `}}` stand for one brace; every other character stands for itself.
pub open spec fn scan_fields(fmt: Seq<char>, inp: Seq<char>) -> (Seq<Seq<char>>, bool)
    decreases fmt.len(),
{
    if fmt.len() == 0 {
        (seq![], inp.len() == 0)
    } else if inp.len() == 0 {
        (seq![], false)
    } else if fmt[0] == '{' {
        if fmt.len() < 2 {
            (seq![], false)
        } else if fmt[1] == '}' {
            if fmt.len() == 2 {
                (seq![inp], true)
            } else {
                let e = fmt[2];
                let braced = e == '{' || e == '}';
                match find_from(inp, 1, e) {
                    None => (seq![], false),
                    Some(p) => if braced && (fmt.len() < 4 || fmt[3] != e) {
                        (seq![], false)
                    } else {
                        let rest = scan_fields(
                            fmt.skip(
                                if braced {
                                    4
                                } else {
                                    3
                                },
                            ),
                            inp.skip(p + 1),
                        );
                        (seq![inp.take(p)] + rest.0, rest.1)
                    },
                }
            }
        } else if fmt[1] == '{' && inp[0] == '{' {
            scan_fields(fmt.skip(2), inp.skip(1))
        } else {
            (seq![], false)
        }
    } else if fmt[0] == '}' {
        if fmt.len() >= 2 && fmt[1] == '}' && inp[0] == '}' {
            scan_fields(fmt.skip(2), inp.skip(1))
        } else {
            (seq![], false)
        }
    } else if fmt[0] == inp[0] {
        scan_fields(fmt.skip(1), inp.skip(1))
    } else {
        (seq![], false)
    }
}

/// The number of `{}` fields in `fmt`, read from the left: `{{` and `}}`
/// stand for braces, `{}` for a field, and every other character for itself.
pub open spec fn placeholders(fmt: Seq<char>) -> nat
    decreases fmt.len(),
{
    if fmt.len() == 0 {
        0
    } else if fmt.len() >= 2 && fmt[0] == '{' && fmt[1] == '}' {
        1 + placeholders(fmt.skip(2))
    } else if fmt.len() >= 2 && ((fmt[0] == '{' && fmt[1] == '{') || (fmt[0] == '}' && fmt[1] == '}')) {
        placeholders(fmt.skip(2))
    } else {
        placeholders(fmt.skip(1))
    }
}

/// A match of the whole input against the whole format reads one text per
/// `{}` of the format.
pub proof fn lemma_fields_per_placeholder(fmt: Seq<char>, inp: Seq<char>)
    ensures
        scan_fields(fmt, inp).1 ==> scan_fields(fmt, inp).0.len() == placeholders(fmt),
    decreases fmt.len(),
{
    if fmt.len() == 0 || inp.len() == 0 {
    } else if fmt[0] == '{' {
        if fmt.len() >= 2 && fmt[1] == '}' {
            assert(placeholders(fmt) == 1 + placeholders(fmt.skip(2)));
            if fmt.len() == 2 {
                assert(placeholders(fmt.skip(2)) == 0);
            } else {
                let e = fmt[2];
                let braced = e == '{' || e == '}';
                let f2 = fmt.skip(2);
                match find_from(inp, 1, e) {
                    None => {},
                    Some(p) => {
                        if braced && fmt.len() >= 4 && fmt[3] == e {
                            lemma_fields_per_placeholder(fmt.skip(4), inp.skip(p + 1));
                            assert(f2.skip(2) =~= fmt.skip(4));
                            assert(placeholders(f2) == placeholders(f2.skip(2)));
                        } else if !braced {
                            lemma_fields_per_placeholder(fmt.skip(3), inp.skip(p + 1));
                            assert(f2.skip(1) =~= fmt.skip(3));
                            assert(placeholders(f2) == placeholders(f2.skip(1)));
                        }
                    },
                }
            }
        } else if fmt.len() >= 2 && fmt[1] == '{' && inp[0] == '{' {
            lemma_fields_per_placeholder(fmt.skip(2), inp.skip(1));
        }
    } else if fmt[0] == '}' {
        if fmt.len() >= 2 && fmt[1] == '}' && inp[0] == '}' {
            lemma_fields_per_placeholder(fmt.skip(2), inp.skip(1));
        }
    } else if fmt[0] == inp[0] {
        lemma_fields_per_placeholder(fmt.skip(1), inp.skip(1));
    }
}

/// A scan succeeds only where the format has exactly one `{}` per argument
/// and the whole input matches the whole format.
pub proof fn law_one_field_per_argument<A: CopyFromStr>(format: Seq<char>, input: Seq<char>, args: Seq<A>)
    ensures
        scan_succeeds(format, input, args) ==> placeholders(format) == args.len() && scan_fields(
            format,
            input,
        ).1,
{
    lemma_fields_per_placeholder(format, input);
}

/// From argument `k` on, how far the arguments accept the fields in turn.
pub open spec fn accepted_upto<A: CopyFromStr>(fields: Seq<Seq<char>>, args: Seq<A>, k: int) -> int
    decreases fields.len() - k,
{
    if 0 <= k < fields.len() && k < args.len() && args[k].parsed_from(fields[k]) is Some {
        accepted_upto(fields, args, k + 1)
    } else {
        k
    }
}

/// Whether `input` matches `format` with exactly one field per argument, and
/// each argument accepts its field.
pub open spec fn scan_succeeds<A: CopyFromStr>(format: Seq<char>, input: Seq<char>, args: Seq<A>) -> bool {
    let (fields, matched) = scan_fields(format, input);
    &&& matched
    &&& fields.len() == args.len()
    &&& accepted_upto(fields, args, 0) == args.len()
}

/// When the arguments before `k` accept their fields, counting can start at `k`.
proof fn lemma_accepted_from<A: CopyFromStr>(fields: Seq<Seq<char>>, args: Seq<A>, k: int)
    requires
        0 <= k <= fields.len(),
        k <= args.len(),
        forall|j: int| 0 <= j < k ==> (#[trigger] args[j].parsed_from(fields[j])) is Some,
    ensures
        accepted_upto(fields, args, 0) == accepted_upto(fields, args, k),
    decreases k,
{
    if k > 0 {
        lemma_accepted_from(fields, args, k - 1);
    }
}

/// Reads the values that `input` holds where `format` has `{}`, into `args` in
/// order, and returns whether the whole input matched the whole format with one
/// value per argument. Arguments are set one at a time as their values are
/// read, so a failure can leave the first ones set.
pub fn dyn_scanf<A: CopyFromStr>(input: &str, format: &str, args: &mut Vec<A>) -> (r: bool)
    ensures
        r == scan_succeeds(format@, input@, old(args)@),
        r ==> placeholders(format@) == old(args)@.len(),
        final(args)@.len() == old(args)@.len(),
        forall|k: int|
            #![trigger final(args)@[k]]
            0 <= k < old(args)@.len() ==> final(args)@[k]@ == if k < accepted_upto(
                scan_fields(format@, input@).0,
                old(args)@,
                0,
            ) {
                old(args)@[k].parsed_from(scan_fields(format@, input@).0[k])->0
            } else {
                old(args)@[k]@
            },
{
    let fmt = chars_of(format);
    let inp = chars_of(input);
    let ghost all = scan_fields(fmt@, inp@);
    let ghost olds = args@;
    let ghost mut fields: Seq<Seq<char>> = seq![];
    let mut fi: usize = 0;
    let mut ii: usize = 0;
    let mut args_index: usize = 0;
    assert(fmt@.skip(0) =~= fmt@);
    assert(inp@.skip(0) =~= inp@);
    assert(fields + all.0 =~= all.0);
    while fi < fmt.len()
        invariant
            olds == old(args)@,
            fi <= fmt@.len(),
            ii <= inp@.len(),
            fmt@ == format@,
            inp@ == input@,
            all == scan_fields(fmt@, inp@),
            all.0 == fields + scan_fields(fmt@.skip(fi as int), inp@.skip(ii as int)).0,
            all.1 == scan_fields(fmt@.skip(fi as int), inp@.skip(ii as int)).1,
            args_index == fields.len(),
            args_index <= olds.len(),
            args@.len() == olds.len(),
            forall|j: int| 0 <= j < args_index ==> (#[trigger] olds[j].parsed_from(fields[j])) is Some,
            forall|j: int|
                #![trigger args@[j]]
                0 <= j < args_index ==> args@[j]@ == olds[j].parsed_from(fields[j])->0,
            forall|j: int| #![trigger args@[j]] args_index <= j < olds.len() ==> args@[j] == olds[j],
        decreases fmt@.len() - fi,
    {
        let ghost f = fmt@.skip(fi as int);
        let ghost t = inp@.skip(ii as int);
        if ii >= inp.len() {
            proof {
                lemma_accepted_from(all.0, olds, args_index as int);
            }
            return false;
        }
        let i = fmt[fi];
        let j = inp[ii];
        assert(f[0] == i && t[0] == j);
        if i == '{' {
            if fi + 1 >= fmt.len() {
                proof {
                    lemma_accepted_from(all.0, olds, args_index as int);
                }
                return false;
            }
            let n = fmt[fi + 1];
            assert(f[1] == n);
            if n == '}' {
                let field: Vec<char>;
                if fi + 2 >= fmt.len() {
                    field = char_range(&inp, ii, inp.len());
                    proof {
                        assert(field@ =~= t);
                        assert(fmt@.skip(fmt@.len() as int) =~= Seq::<char>::empty());
                        assert(inp@.skip(inp@.len() as int) =~= Seq::<char>::empty());
                        assert(scan_fields(f, t) == (seq![t], true));
                        assert(scan_fields(Seq::<char>::empty(), Seq::<char>::empty()).0
                            =~= Seq::<Seq<char>>::empty());
                        assert(seq![t] + Seq::<Seq<char>>::empty() =~= seq![t]);
                    }
                    fi = fmt.len();
                    ii = inp.len();
                } else {
                    let e = fmt[fi + 2];
                    assert(f[2] == e);
                    proof {
                        lemma_find_from_skip(inp@, ii as int, 1, e);
                    }
                    let braced = e == '{' || e == '}';
                    match find_char_from(&inp, ii + 1, e) {
                        None => {
                            proof {
                                lemma_accepted_from(all.0, olds, args_index as int);
                            }
                            return false;
                        },
                        Some(p) => {
                            field = char_range(&inp, ii, p);
                            proof {
                                assert(field@ =~= t.take(p - ii));
                                assert(t.skip(p - ii + 1) =~= inp@.skip(p + 1));
                            }
                            let ghost fk: int = if braced {
                                4
                            } else {
                                3
                            };
                            proof {
                                assert(find_from(t, 1, e) == Some(p - ii));
                                if !braced || (fi + 3 < fmt@.len() && fmt@[fi + 3] == e) {
                                    assert(scan_fields(f, t) == (seq![t.take(p - ii)] + scan_fields(
                                        f.skip(fk),
                                        t.skip(p - ii + 1),
                                    ).0, scan_fields(f.skip(fk), t.skip(p - ii + 1)).1));
                                }
                            }
                            if braced {
                                if fi + 3 >= fmt.len() || fmt[fi + 3] != e {
                                    proof {
                                        lemma_accepted_from(all.0, olds, args_index as int);
                                    }
                                    return false;
                                }
                                assert(f[3] == e);
                                assert(f.skip(4) =~= fmt@.skip(fi + 4));
                                fi = fi + 4;
                            } else {
                                assert(f.skip(3) =~= fmt@.skip(fi + 3));
                                fi = fi + 3;
                            }
                            ii = p + 1;
                        },
                    }
                }
                let ghost rest = scan_fields(fmt@.skip(fi as int), inp@.skip(ii as int));
                assert(all.0 == fields.push(field@) + rest.0) by {
                    assert(fields + (seq![field@] + rest.0) =~= fields.push(field@) + rest.0);
                }
                if args_index >= args.len() {
                    proof {
                        lemma_accepted_from(all.0, olds, args_index as int);
                    }
                    return false;
                }
                let text = string_from_chars(field.as_slice());
                let ok = args[args_index].copy_from_str(text.as_str());
                if !ok {
                    proof {
                        lemma_accepted_from(all.0, olds, args_index as int);
                    }
                    return false;
                }
                proof {
                    fields = fields.push(field@);
                }
                args_index += 1;
            } else if n == '{' {
                if j != '{' {
                    proof {
                        lemma_accepted_from(all.0, olds, args_index as int);
                    }
                    return false;
                }
                assert(f.skip(2) =~= fmt@.skip(fi + 2));
                assert(t.skip(1) =~= inp@.skip(ii + 1));
                fi += 2;
                ii += 1;
            } else {
                proof {
                    lemma_accepted_from(all.0, olds, args_index as int);
                }
                return false;
            }
        } else if i == '}' {
            if fi + 1 >= fmt.len() || fmt[fi + 1] != '}' || j != '}' {
                proof {
                    lemma_accepted_from(all.0, olds, args_index as int);
                }
                return false;
            }
            assert(f.skip(2) =~= fmt@.skip(fi + 2));
            assert(t.skip(1) =~= inp@.skip(ii + 1));
            fi += 2;
            ii += 1;
        } else if i != j {
            proof {
                lemma_accepted_from(all.0, olds, args_index as int);
            }
            return false;
        } else {
            assert(f.skip(1) =~= fmt@.skip(fi + 1));
            assert(t.skip(1) =~= inp@.skip(ii + 1));
            fi += 1;
            ii += 1;
        }
    }
    proof {
        assert(fmt@.skip(fi as int) =~= Seq::<char>::empty());
        assert(fields =~= all.0);
        lemma_accepted_from(all.0, olds, args_index as int);
        lemma_fields_per_placeholder(format@, input@);
    }
    if ii < inp.len() {
        return false;
    }
    args_index == args.len()
}

/// The digit that stands for `d`, for `d` below 10.
pub open spec fn digit_char(d: nat) -> char {
    (('0' as int) + d) as char
}

/// The decimal writing of `n`, without sign or leading zeros.
pub open spec fn decimal(n: nat) -> Seq<char>
    decreases n,
{
    if n < 10 {
        seq![digit_char(n)]
    } else {
        decimal(n / 10).push(digit_char(n % 10))
    }
}

pub proof fn lemma_decimal_digits(n: nat)
    ensures
        decimal(n).len() > 0,
        all_digits(decimal(n)),
        digits_value(decimal(n)) == n,
        decimal(n)[0] != '+' && decimal(n)[0] != '-',
    decreases n,
{
    if n >= 10 {
        lemma_decimal_digits(n / 10);
        let d = decimal(n);
        assert(d.drop_last() =~= decimal(n / 10));
        assert forall|i: int| 0 <= i < d.len() implies is_digit(#[trigger] d[i]) by {
            if i < d.len() - 1 {
                assert(d[i] == decimal(n / 10)[i]);
            }
        }
        assert(d[0] == decimal(n / 10)[0]);
        assert(digit_value(digit_char(n % 10)) == n % 10);
        assert(d.last() == digit_char(n % 10));
        assert(digits_value(d) == digits_value(d.drop_last()) * 10 + digit_value(d.last()));
        assert(digits_value(decimal(n / 10)) == n / 10);
        assert(n == (n / 10) * 10 + n % 10) by (nonlinear_arith);
    } else {
        assert(digit_value(digit_char(n)) == n);
        assert(decimal(n).drop_last() =~= Seq::<char>::empty());
        assert(digits_value(decimal(n)) == digits_value(Seq::<char>::empty()) * 10 + digit_value(
            digit_char(n),
        ));
    }
}

/// Reading back the decimal writing of a number gives the number.
pub proof fn law_parse_decimal(n: u64)
    ensures
        spec_parse_u64(decimal(n as nat)) == Some(n),
        spec_parse_i64(decimal(n as nat)) == if n <= i64::MAX {
            Some(n as i64)
        } else {
            None::<i64>
        },
{
    lemma_decimal_digits(n as nat);
}

/// A `{}` that is the whole format reads the whole of a nonempty text.
pub proof fn law_single_field(inp: Seq<char>)
    requires
        inp.len() > 0,
    ensures
        scan_fields(seq!['{', '}'], inp) == (seq![inp], true),
{
}

/// Literal text that the format and the input both start with is passed
/// over: matching goes on after it.
pub proof fn law_literal_prefix(lit: Seq<char>, fmt: Seq<char>, inp: Seq<char>)
    requires
        forall|i: int| 0 <= i < lit.len() ==> #[trigger] lit[i] != '{' && lit[i] != '}',
        fmt.len() > 0,
        inp.len() > 0,
    ensures
        scan_fields(lit + fmt, lit + inp) == scan_fields(fmt, inp),
    decreases lit.len(),
{
    if lit.len() > 0 {
        let rest = lit.skip(1);
        assert((lit + fmt).skip(1) =~= rest + fmt);
        assert((lit + inp).skip(1) =~= rest + inp);
        law_literal_prefix(rest, fmt, inp);
    } else {
        assert(lit + fmt =~= fmt);
        assert(lit + inp =~= inp);
    }
}

} // verus!
