//! Reading HTTP/1.1 requests and writing response headers: the request
//! line, the header lines, the body's length, the request that results, and
//! the header that goes before a response's data.
use vstd::prelude::*;
use vstd::string::StringExecFns;
use crate::error::{ErrorValue, Exception, Throws, BadOption};
use crate::http::{HTTPRequest, HttpResponseType};
use crate::scan::{all_digits, decimal, digit_char, digit_value, digits_value, is_digit, lemma_digits_value_prefix};
use crate::text::{chars_of, string_from_chars};
use crate::tokens::{is_whitespace, spec_is_whitespace};

verus! {

// ----------------------------------------------------------------------
// Words of a line
// ----------------------------------------------------------------------

/// The characters that `split_ascii_whitespace` splits at.
pub open spec fn is_ascii_ws(c: char) -> bool {
    c == ' ' || c == '\t' || c == '\n' || c == '\u{c}' || c == '\r'
}

fn ascii_ws(c: char) -> (r: bool)
    ensures
        r == is_ascii_ws(c),
{
    c == ' ' || c == '\t' || c == '\n' || c == '\u{c}' || c == '\r'
}

/// The words of `s`: its longest runs of characters other than ASCII
/// whitespace, in order; the flag says whether `s` ends inside a word.
pub open spec fn split_words(s: Seq<char>) -> (Seq<Seq<char>>, bool)
    decreases s.len(),
{
    if s.len() == 0 {
        (Seq::empty(), false)
    } else {
        let (w, inside) = split_words(s.drop_last());
        let c = s.last();
        if is_ascii_ws(c) {
            (w, false)
        } else if inside {
            (w.update(w.len() - 1, w.last().push(c)), true)
        } else {
            (w.push(seq![c]), true)
        }
    }
}

/// The words of `s`.
pub open spec fn words(s: Seq<char>) -> Seq<Seq<char>> {
    split_words(s).0
}

proof fn lemma_split_words_inside(s: Seq<char>)
    ensures
        split_words(s).1 ==> split_words(s).0.len() > 0,
    decreases s.len(),
{
    if s.len() > 0 {
        lemma_split_words_inside(s.drop_last());
    }
}

/// The words of `s`, as `split_ascii_whitespace` gives them.
pub fn split_words_of(s: &str) -> (r: Vec<Vec<char>>)
    ensures
        r@.len() == words(s@).len(),
        forall|i: int| 0 <= i < r@.len() ==> #[trigger] r@[i]@ == words(s@)[i],
{
    let cs = chars_of(s);
    let mut out: Vec<Vec<char>> = Vec::new();
    let mut inside = false;
    let mut k: usize = 0;
    while k < cs.len()
        invariant
            cs@ == s@,
            k <= cs@.len(),
            out@.len() == split_words(cs@.take(k as int)).0.len(),
            forall|i: int| 0 <= i < out@.len() ==> #[trigger] out@[i]@ == split_words(cs@.take(k as int)).0[i],
            inside == split_words(cs@.take(k as int)).1,
        decreases cs@.len() - k,
    {
        let c = cs[k];
        proof {
            assert(cs@.take(k + 1).drop_last() =~= cs@.take(k as int));
            lemma_split_words_inside(cs@.take(k as int));
        }
        let ghost before = out@;
        if ascii_ws(c) {
            inside = false;
        } else if inside {
            let last = out.len() - 1;
            let mut w = out.pop().unwrap();
            w.push(c);
            out.push(w);
            proof {
                let sw = split_words(cs@.take(k + 1)).0;
                assert forall|i: int| 0 <= i < out@.len() implies #[trigger] out@[i]@ == sw[i] by {
                    if i < last {
                        assert(out@[i] == before[i]);
                    }
                }
            }
        } else {
            let mut w: Vec<char> = Vec::new();
            w.push(c);
            out.push(w);
            proof {
                let sw = split_words(cs@.take(k + 1)).0;
                assert(w@ =~= seq![c]);
                assert forall|i: int| 0 <= i < out@.len() implies #[trigger] out@[i]@ == sw[i] by {
                    if i < before.len() {
                        assert(out@[i] == before[i]);
                    }
                }
            }
            inside = true;
        }
        k += 1;
    }
    assert(cs@.take(cs@.len() as int) =~= cs@);
    out
}

// ----------------------------------------------------------------------
// The request line
// ----------------------------------------------------------------------

/// The request methods that are read.
#[derive(PartialEq, Eq, Structural, Clone, Copy, Debug)]
pub enum Method {
    Get,
    Head,
    Post,
    Put,
    Connect,
    Delete,
}

/// The method that a word names.
pub open spec fn method_named(w: Seq<char>) -> Option<Method> {
    if w == seq!['G', 'E', 'T'] {
        Some(Method::Get)
    } else if w == seq!['H', 'E', 'A', 'D'] {
        Some(Method::Head)
    } else if w == seq!['P', 'O', 'S', 'T'] {
        Some(Method::Post)
    } else if w == seq!['P', 'U', 'T'] {
        Some(Method::Put)
    } else if w == seq!['C', 'O', 'N', 'N', 'E', 'C', 'T'] {
        Some(Method::Connect)
    } else if w == seq!['D', 'E', 'L', 'E', 'T', 'E'] {
        Some(Method::Delete)
    } else {
        None
    }
}

fn chars_eq(a: &Vec<char>, b: &[char]) -> (r: bool)
    ensures
        r == (a@ == b@),
{
    if a.len() != b.len() {
        return false;
    }
    let mut i: usize = 0;
    while i < a.len()
        invariant
            a@.len() == b@.len(),
            i <= a@.len(),
            forall|j: int| 0 <= j < i ==> a@[j] == b@[j],
        decreases a@.len() - i,
    {
        if a[i] != b[i] {
            return false;
        }
        i += 1;
    }
    assert(a@ =~= b@);
    true
}

fn method_of(w: &Vec<char>) -> (r: Option<Method>)
    ensures
        r == method_named(w@),
{
    let get = ['G', 'E', 'T'];
    let head = ['H', 'E', 'A', 'D'];
    let post = ['P', 'O', 'S', 'T'];
    let put = ['P', 'U', 'T'];
    let connect = ['C', 'O', 'N', 'N', 'E', 'C', 'T'];
    let delete = ['D', 'E', 'L', 'E', 'T', 'E'];
    assert(get@ =~= seq!['G', 'E', 'T']);
    assert(head@ =~= seq!['H', 'E', 'A', 'D']);
    assert(post@ =~= seq!['P', 'O', 'S', 'T']);
    assert(put@ =~= seq!['P', 'U', 'T']);
    assert(connect@ =~= seq!['C', 'O', 'N', 'N', 'E', 'C', 'T']);
    assert(delete@ =~= seq!['D', 'E', 'L', 'E', 'T', 'E']);
    if chars_eq(w, &get) {
        Some(Method::Get)
    } else if chars_eq(w, &head) {
        Some(Method::Head)
    } else if chars_eq(w, &post) {
        Some(Method::Post)
    } else if chars_eq(w, &put) {
        Some(Method::Put)
    } else if chars_eq(w, &connect) {
        Some(Method::Connect)
    } else if chars_eq(w, &delete) {
        Some(Method::Delete)
    } else {
        None
    }
}

/// The message of the error for a request line whose first word `w` is no
/// method: the word follows in double quotes.
pub open spec fn unknown_method_text(w: Seq<char>) -> Seq<char> {
    "error unknown argument to http request:"@ + seq!['"'] + w + seq!['"']
}

/// Reads a request line. A line without words gives `None`: the line after
/// it is read instead. Otherwise its first word names the method and its
/// second the target; a first word that names no method is an error with
/// its text, and a missing target is a `BadOption` error.
pub fn request_line(header: &str) -> (r: Throws<Option<(Method, String)>>)
    ensures
        words(header@).len() == 0 ==> r == Ok::<Option<(Method, String)>, Exception>(None),
        words(header@).len() > 0 && method_named(words(header@)[0]) is None ==> (r matches Err(e)
            && e.error matches ErrorValue::Message(m) && m@ == unknown_method_text(
            words(header@)[0],
        )),
        words(header@).len() == 1 && method_named(words(header@)[0]) is Some ==> (r matches Err(e)
            && e.error is BadOption),
        words(header@).len() >= 2 && method_named(words(header@)[0]) is Some ==> (r matches Ok(
            Some((m, t)),
        ) && Some(m) == method_named(words(header@)[0]) && t@ == words(header@)[1]),
{
    let ws = split_words_of(header);
    if ws.len() == 0 {
        return Ok(None);
    }
    let m = match method_of(&ws[0]) {
        Some(m) => m,
        None => {
            let mut text = "error unknown argument to http request:".to_owned();
            let quote = ['"'];
            let q = string_from_chars(&quote);
            let w = string_from_chars(ws[0].as_slice());
            text.append(q.as_str());
            text.append(w.as_str());
            text.append(q.as_str());
            assert(quote@ =~= seq!['"']);
            return Err(Exception::message(text));
        },
    };
    if ws.len() < 2 {
        return Err(Exception::new(ErrorValue::BadOption(BadOption {})));
    }
    let target = string_from_chars(ws[1].as_slice());
    Ok(Some((m, target)))
}

// ----------------------------------------------------------------------
// Header lines
// ----------------------------------------------------------------------

/// `s` without the whitespace at its start.
pub open spec fn trim_start(s: Seq<char>) -> Seq<char>
    decreases s.len(),
{
    if s.len() > 0 && spec_is_whitespace(s[0]) {
        trim_start(s.drop_first())
    } else {
        s
    }
}

/// `s` without the whitespace at its end.
pub open spec fn trim_end(s: Seq<char>) -> Seq<char>
    decreases s.len(),
{
    if s.len() > 0 && spec_is_whitespace(s.last()) {
        trim_end(s.drop_last())
    } else {
        s
    }
}

/// `s` without the whitespace at either end, as `str::trim` gives it.
pub open spec fn trim(s: Seq<char>) -> Seq<char> {
    trim_end(trim_start(s))
}

fn trim_chars(s: &Vec<char>, from: usize) -> (r: Vec<char>)
    requires
        from <= s@.len(),
    ensures
        r@ == trim(s@.skip(from as int)),
{
    let mut a = from;
    while a < s.len() && is_whitespace(s[a])
        invariant
            from <= a <= s@.len(),
            trim_start(s@.skip(from as int)) == trim_start(s@.skip(a as int)),
        decreases s@.len() - a,
    {
        assert(s@.skip(a as int).drop_first() =~= s@.skip(a + 1));
        a += 1;
    }
    let mut b = s.len();
    assert(s@.skip(a as int).take((b - a) as int) =~= s@.skip(a as int));
    while b > a && is_whitespace(s[b - 1])
        invariant
            a <= b <= s@.len(),
            trim_start(s@.skip(from as int)) == s@.skip(a as int),
            trim_end(s@.skip(a as int)) == trim_end(s@.subrange(a as int, b as int)),
        decreases b - a,
    {
        assert(s@.subrange(a as int, b as int).drop_last() =~= s@.subrange(a as int, b - 1));
        b -= 1;
    }
    let mut out: Vec<char> = Vec::new();
    let mut k = a;
    while k < b
        invariant
            a <= k <= b <= s@.len(),
            out@ == s@.subrange(a as int, k as int),
        decreases b - k,
    {
        out.push(s[k]);
        k += 1;
        assert(out@ =~= s@.subrange(a as int, k as int));
    }
    out
}

/// Why a text is not a `usize`.
#[derive(PartialEq, Eq, Structural, Clone, Copy, Debug)]
pub enum IntErrorKind {
    Empty,
    InvalidDigit,
    PosOverflow,
}

/// The position of the first character of `d` that is not a digit.
pub open spec fn first_non_digit(d: Seq<char>) -> Option<int>
    decreases d.len(),
{
    if d.len() == 0 {
        None
    } else {
        match first_non_digit(d.drop_last()) {
            Some(i) => Some(i),
            None => if is_digit(d.last()) {
                None
            } else {
                Some(d.len() - 1)
            },
        }
    }
}

/// What `usize::from_str` gives: an optional `+` and one digit or more,
/// denoting a number that fits. Reading left to right, a number that grows
/// too large before a character that is not a digit is an overflow.
pub open spec fn spec_parse_usize(s: Seq<char>) -> Result<usize, IntErrorKind> {
    let d = if s.len() > 0 && s[0] == '+' {
        s.drop_first()
    } else {
        s
    };
    if s.len() == 0 {
        Err(IntErrorKind::Empty)
    } else if d.len() == 0 {
        Err(IntErrorKind::InvalidDigit)
    } else {
        match first_non_digit(d) {
            Some(i) => if digits_value(d.take(i)) > usize::MAX {
                Err(IntErrorKind::PosOverflow)
            } else {
                Err(IntErrorKind::InvalidDigit)
            },
            None => if digits_value(d) > usize::MAX {
                Err(IntErrorKind::PosOverflow)
            } else {
                Ok(digits_value(d) as usize)
            },
        }
    }
}

proof fn lemma_first_non_digit(d: Seq<char>, k: int)
    requires
        0 <= k <= d.len(),
        all_digits(d.take(k)),
    ensures
        k < d.len() && !is_digit(d[k]) ==> first_non_digit(d) == Some(k),
        k == d.len() ==> first_non_digit(d) is None,
{
    if k < d.len() && !is_digit(d[k]) {
        lemma_first_non_digit_prefix(d, k);
    }
    if k == d.len() {
        assert(d.take(k) =~= d);
        lemma_no_non_digit(d);
    }
}

/// `first_non_digit` finds a character that is not a digit.
proof fn lemma_first_non_digit_found(d: Seq<char>)
    ensures
        first_non_digit(d) matches Some(j) ==> 0 <= j < d.len() && !is_digit(d[j]),
    decreases d.len(),
{
    if d.len() > 0 {
        lemma_first_non_digit_found(d.drop_last());
    }
}

proof fn lemma_no_non_digit(d: Seq<char>)
    requires
        all_digits(d),
    ensures
        first_non_digit(d) is None,
    decreases d.len(),
{
    if d.len() > 0 {
        lemma_no_non_digit(d.drop_last());
    }
}

proof fn lemma_first_non_digit_prefix(d: Seq<char>, k: int)
    requires
        0 <= k < d.len(),
        all_digits(d.take(k)),
        !is_digit(d[k]),
    ensures
        first_non_digit(d) == Some(k),
    decreases d.len(),
{
    if k == d.len() - 1 {
        assert(d.drop_last() =~= d.take(k));
        lemma_no_non_digit(d.take(k));
    } else {
        assert(d.drop_last().take(k) =~= d.take(k));
        lemma_first_non_digit_prefix(d.drop_last(), k);
    }
}

/// Reads `s` as `usize::from_str` does.
pub fn parse_usize(s: &Vec<char>) -> (r: Result<usize, IntErrorKind>)
    ensures
        r == spec_parse_usize(s@),
{
    if s.len() == 0 {
        return Err(IntErrorKind::Empty);
    }
    let start: usize = if s[0] == '+' {
        1
    } else {
        0
    };
    let ghost d = s@.skip(start as int);
    assert(d =~= (if s@.len() > 0 && s@[0] == '+' {
        s@.drop_first()
    } else {
        s@
    }));
    if start >= s.len() {
        return Err(IntErrorKind::InvalidDigit);
    }
    let mut acc: usize = 0;
    let mut i: usize = start;
    while i < s.len()
        invariant
            start <= i <= s@.len(),
            d == s@.skip(start as int),
            d == (if s@.len() > 0 && s@[0] == '+' {
                s@.drop_first()
            } else {
                s@
            }),
            s@.len() > 0,
            d.len() > 0,
            all_digits(d.take(i - start)),
            acc == digits_value(d.take(i - start)),
        decreases s@.len() - i,
    {
        let c = s[i];
        assert(d.take(i - start + 1).drop_last() =~= d.take(i - start));
        if !(c >= '0' && c <= '9') {
            proof {
                assert(d[i - start] == c);
                lemma_first_non_digit(d, i - start);
                assert(first_non_digit(d) == Some(i - start));
                assert(digits_value(d.take(i - start)) <= usize::MAX);
            }
            return Err(IntErrorKind::InvalidDigit);
        }
        let v: usize = (c as u32 - '0' as u32) as usize;
        assert(v == digit_value(c));
        if acc > (usize::MAX - v) / 10 {
            proof {
                assert(acc * 10 + v > usize::MAX) by (nonlinear_arith)
                    requires
                        acc > (usize::MAX - v) / 10,
                        v <= 9,
                ;
                assert(digits_value(d.take(i - start + 1)) > usize::MAX);
                let ghost fnd = first_non_digit(d);
                lemma_first_non_digit_found(d);
                assert(all_digits(d.take(i - start + 1)));
                match fnd {
                    Some(j) => {
                        if j <= i - start {
                            assert(d.take(i - start + 1)[j] == d[j]);
                        }
                        lemma_digits_value_prefix(d.take(j), i - start + 1);
                        assert(d.take(j).take(i - start + 1) =~= d.take(i - start + 1));
                    },
                    None => {
                        lemma_digits_value_prefix(d, i - start + 1);
                    },
                }
                assert(s@.len() > 0);
                assert(d.len() > 0);
            }
            return Err(IntErrorKind::PosOverflow);
        }
        assert(acc * 10 + v <= usize::MAX) by (nonlinear_arith)
            requires
                acc <= (usize::MAX - v) / 10,
                v <= 9,
        ;
        acc = acc * 10 + v;
        i += 1;
    }
    proof {
        assert(d.take(i - start) =~= d);
        lemma_no_non_digit(d);
    }
    Ok(acc)
}

/// The message of a parse error.
pub open spec fn int_error_text(k: IntErrorKind) -> Seq<char> {
    match k {
        IntErrorKind::Empty => "cannot parse integer from empty string"@,
        IntErrorKind::InvalidDigit => "invalid digit found in string"@,
        IntErrorKind::PosOverflow => "number too large to fit in target type"@,
    }
}

fn int_error(k: IntErrorKind) -> (r: Exception)
    ensures
        r.error matches ErrorValue::Message(m) && m@ == int_error_text(k),
{
    let text = match k {
        IntErrorKind::Empty => "cannot parse integer from empty string".to_owned(),
        IntErrorKind::InvalidDigit => "invalid digit found in string".to_owned(),
        IntErrorKind::PosOverflow => "number too large to fit in target type".to_owned(),
    };
    Exception::message(text)
}

/// What a header line says.
#[derive(PartialEq, Eq, Structural, Clone, Copy, Debug)]
pub enum HeaderLine {
    /// The empty line that ends the headers.
    End,
    /// The length of the body.
    ContentLength(usize),
    /// Any other header.
    Other,
}

/// The position of the first `:` of `s`.
pub open spec fn first_colon(s: Seq<char>) -> Option<int>
    decreases s.len(),
{
    if s.len() == 0 {
        None
    } else {
        match first_colon(s.drop_last()) {
            Some(i) => Some(i),
            None => if s.last() == ':' {
                Some(s.len() - 1)
            } else {
                None
            },
        }
    }
}

/// The header name of the body's length.
pub open spec fn content_length_name() -> Seq<char> {
    seq!['C', 'o', 'n', 't', 'e', 'n', 't', '-', 'L', 'e', 'n', 'g', 't', 'h']
}

/// What header line `line` says; `trimmed` says whether the whitespace at
/// its ends is dropped first. A `Content-Length` header before the first
/// `:` gives the number after it, its own whitespace dropped; a number that
/// does not read is an error. An empty line ends the headers.
pub open spec fn spec_header_line(line: Seq<char>, trimmed: bool) -> Result<HeaderLine, IntErrorKind> {
    let s = if trimmed {
        trim(line)
    } else {
        line
    };
    match first_colon(s) {
        Some(p) if s.take(p) == content_length_name() => match spec_parse_usize(trim(s.skip(p + 1))) {
            Ok(n) => Ok(HeaderLine::ContentLength(n)),
            Err(k) => Err(k),
        },
        _ => if s.len() == 0 {
            Ok(HeaderLine::End)
        } else {
            Ok(HeaderLine::Other)
        },
    }
}

proof fn lemma_first_colon(s: Seq<char>, k: int)
    requires
        0 <= k <= s.len(),
        forall|j: int| 0 <= j < k ==> s[j] != ':',
    ensures
        k < s.len() && s[k] == ':' ==> first_colon(s) == Some(k),
        k == s.len() ==> first_colon(s) is None,
    decreases s.len(),
{
    if s.len() > 0 {
        if k < s.len() {
            if k == s.len() - 1 {
                lemma_first_colon(s.drop_last(), k);
            } else {
                lemma_first_colon(s.drop_last(), k);
            }
        } else {
            lemma_first_colon(s.drop_last(), k - 1);
        }
    }
}

/// Reads header line `line`, as `spec_header_line` says; a number that does
/// not read is an error with the parse error's message.
pub fn header_line(line: &str, trimmed: bool) -> (r: Throws<HeaderLine>)
    ensures
        spec_header_line(line@, trimmed) matches Ok(h) ==> r == Ok::<HeaderLine, Exception>(h),
        spec_header_line(line@, trimmed) matches Err(k) ==> (r matches Err(e) && e.error matches ErrorValue::Message(m)
            && m@ == int_error_text(k)),
{
    let raw = chars_of(line);
    let s = if trimmed {
        trim_chars(&raw, 0)
    } else {
        raw
    };
    assert(raw@.skip(0) =~= raw@);
    let mut k: usize = 0;
    while k < s.len() && s[k] != ':'
        invariant
            k <= s@.len(),
            forall|j: int| 0 <= j < k ==> s@[j] != ':',
        decreases s@.len() - k,
    {
        k += 1;
    }
    proof {
        lemma_first_colon(s@, k as int);
    }
    if k < s.len() {
        let name = ['C', 'o', 'n', 't', 'e', 'n', 't', '-', 'L', 'e', 'n', 'g', 't', 'h'];
        assert(name@ =~= content_length_name());
        let mut start: Vec<char> = Vec::new();
        let mut i: usize = 0;
        while i < k
            invariant
                i <= k < s@.len(),
                start@ == s@.take(i as int),
            decreases k - i,
        {
            start.push(s[i]);
            i += 1;
            assert(start@ =~= s@.take(i as int));
        }
        if chars_eq(&start, &name) {
            let rest = trim_chars(&s, k + 1);
            return match parse_usize(&rest) {
                Ok(n) => Ok(HeaderLine::ContentLength(n)),
                Err(kind) => Err(int_error(kind)),
            };
        }
    }
    if s.len() == 0 {
        Ok(HeaderLine::End)
    } else {
        Ok(HeaderLine::Other)
    }
}

/// Whether the header lines of a request with method `m` are read with the
/// whitespace at their ends dropped.
pub fn trims_header_lines(m: Method) -> (r: bool)
    ensures
        r == (m == Method::Get || m == Method::Post),
{
    match m {
        Method::Get | Method::Post => true,
        _ => false,
    }
}

/// Whether the body of a request with method `m` is read from the
/// connection; a DELETE request's body is that many zero bytes instead.
pub fn reads_body(m: Method) -> (r: bool)
    ensures
        r == (m != Method::Delete),
{
    match m {
        Method::Delete => false,
        _ => true,
    }
}

/// The request of method `m` for `target` with body `msg`.
pub fn make_request(m: Method, target: String, msg: Vec<u8>) -> (r: HTTPRequest)
    ensures
        match r {
            HTTPRequest::Get { target: t, msg: b } => m == Method::Get && t == target && b == msg,
            HTTPRequest::Head { target: t, msg: b } => m == Method::Head && t == target && b == msg,
            HTTPRequest::Post { target: t, msg: b } => m == Method::Post && t == target && b == msg,
            HTTPRequest::Put { target: t, msg: b } => m == Method::Put && t == target && b == msg,
            HTTPRequest::Connect { target: t, msg: b } => m == Method::Connect && t == target && b == msg,
            HTTPRequest::Delete { target: t, msg: b } => m == Method::Delete && t == target && b == msg,
            _ => false,
        },
{
    match m {
        Method::Get => HTTPRequest::Get { target, msg },
        Method::Head => HTTPRequest::Head { target, msg },
        Method::Post => HTTPRequest::Post { target, msg },
        Method::Put => HTTPRequest::Put { target, msg },
        Method::Connect => HTTPRequest::Connect { target, msg },
        Method::Delete => HTTPRequest::Delete { target, msg },
    }
}

// ----------------------------------------------------------------------
// Response headers
// ----------------------------------------------------------------------

/// The digit for `d`.
fn digit(d: u64) -> (r: char)
    requires
        d < 10,
    ensures
        r == digit_char(d as nat),
{
    match d {
        0 => '0',
        1 => '1',
        2 => '2',
        3 => '3',
        4 => '4',
        5 => '5',
        6 => '6',
        7 => '7',
        8 => '8',
        _ => '9',
    }
}

/// The decimal writing of `n`.
pub fn decimal_chars(n: u64) -> (r: Vec<char>)
    ensures
        r@ == decimal(n as nat),
    decreases n,
{
    if n < 10 {
        let mut v: Vec<char> = Vec::new();
        v.push(digit(n));
        assert(v@ =~= seq![digit_char(n as nat)]);
        v
    } else {
        let mut v = decimal_chars(n / 10);
        v.push(digit(n % 10));
        v
    }
}

/// The status line and headers up to the length, for each kind of
/// response.
pub open spec fn header_start(kind: HttpResponseType) -> Seq<char> {
    match kind {
        HttpResponseType::Text => "HTTP/1.1 200 OK\r\nContent-Type: text/plain; charset=UTF-8\r\nContent-Length: "@,
        HttpResponseType::Html => "HTTP/1.1 200 OK\r\nContent-Type: text/html; charset=UTF-8\r\nContent-Length: "@,
        HttpResponseType::Png => "HTTP/1.1 200 OK\r\nContent-Type: image/png\r\ncharset=UTF-8\r\nContent-Length: "@,
        HttpResponseType::Jpeg => "HTTP/1.1 200 OK\r\nContent-Type: image/jpeg\r\ncharset=UTF-8\r\nContent-Length: "@,
        HttpResponseType::Json => "HTTP/1.1 200 OK\r\nContent-Type:text/json\r\ncharset=UTF-8\r\nContent-Length: "@,
        HttpResponseType::Js => "HTTP/1.1 200 OK\r\nContent-Type: text/javascript; charset=UTF-8\r\nContent-Length: "@,
    }
}

/// What follows the length in every response header.
pub open spec fn header_end() -> Seq<char> {
    "\r\nConnection: keep-alive\r\n\n"@
}

/// The header written before `len` bytes of data of kind `kind`.
pub fn response_header(kind: HttpResponseType, len: usize) -> (r: String)
    ensures
        r@ == header_start(kind) + decimal(len as nat) + header_end(),
{
    let mut s = match kind {
        HttpResponseType::Text => "HTTP/1.1 200 OK\r\nContent-Type: text/plain; charset=UTF-8\r\nContent-Length: ".to_owned(),
        HttpResponseType::Html => "HTTP/1.1 200 OK\r\nContent-Type: text/html; charset=UTF-8\r\nContent-Length: ".to_owned(),
        HttpResponseType::Png => "HTTP/1.1 200 OK\r\nContent-Type: image/png\r\ncharset=UTF-8\r\nContent-Length: ".to_owned(),
        HttpResponseType::Jpeg => "HTTP/1.1 200 OK\r\nContent-Type: image/jpeg\r\ncharset=UTF-8\r\nContent-Length: ".to_owned(),
        HttpResponseType::Json => "HTTP/1.1 200 OK\r\nContent-Type:text/json\r\ncharset=UTF-8\r\nContent-Length: ".to_owned(),
        HttpResponseType::Js => "HTTP/1.1 200 OK\r\nContent-Type: text/javascript; charset=UTF-8\r\nContent-Length: ".to_owned(),
    };
    let digits = decimal_chars(len as u64);
    let n = string_from_chars(digits.as_slice());
    s.append(n.as_str());
    s.append("\r\nConnection: keep-alive\r\n\n");
    s
}

/// The content type named in the header of a HEAD request's answer, by the
/// extension of the file; `None` for an extension that is not served.
pub open spec fn head_content_type(ext: Option<Seq<char>>) -> Option<Seq<char>> {
    match ext {
        None => Some("text/plaintext"@),
        Some(e) => if e == "txt"@ || e == ""@ {
            Some("text/plaintext"@)
        } else if e == "html"@ {
            Some("text/html"@)
        } else if e == "png"@ {
            Some("image/png"@)
        } else if e == "jpg"@ || e == "jpeg"@ {
            Some("image/jpeg"@)
        } else if e == "js"@ {
            Some("text/javascript"@)
        } else if e == "json"@ {
            Some("text/json"@)
        } else {
            None
        },
    }
}

/// The kind of answer to a GET request, by the extension of the file;
/// `None` for an extension that is not served.
pub open spec fn get_response_kind(ext: Option<Seq<char>>) -> Option<HttpResponseType> {
    match ext {
        None => Some(HttpResponseType::Text),
        Some(e) => if e == "txt"@ || e == ""@ {
            Some(HttpResponseType::Text)
        } else if e == "html"@ {
            Some(HttpResponseType::Html)
        } else if e == "png"@ {
            Some(HttpResponseType::Png)
        } else if e == "jpg"@ || e == "jpeg"@ {
            Some(HttpResponseType::Jpeg)
        } else if e == "js"@ {
            Some(HttpResponseType::Js)
        } else if e == "json"@ {
            Some(HttpResponseType::Json)
        } else {
            None
        },
    }
}

/// The kind of a GET answer is fixed by the extension alone: `txt` and the
/// empty extension, or none at all, give text; `html` gives HTML; `png`
/// gives PNG; `jpg` and `jpeg` give JPEG; `js` gives JavaScript; `json`
/// gives JSON; any other extension is not served.
pub proof fn law_response_kind_by_extension(e: Seq<char>)
    ensures
        get_response_kind(None) == Some(HttpResponseType::Text),
        (get_response_kind(Some(e)) == Some(HttpResponseType::Text)) <==> (e == seq!['t', 'x', 't']
            || e == Seq::<char>::empty()),
        (get_response_kind(Some(e)) == Some(HttpResponseType::Html)) <==> e == seq!['h', 't', 'm', 'l'],
        (get_response_kind(Some(e)) == Some(HttpResponseType::Png)) <==> e == seq!['p', 'n', 'g'],
        (get_response_kind(Some(e)) == Some(HttpResponseType::Jpeg)) <==> (e == seq!['j', 'p', 'g']
            || e == seq!['j', 'p', 'e', 'g']),
        (get_response_kind(Some(e)) == Some(HttpResponseType::Js)) <==> e == seq!['j', 's'],
        (get_response_kind(Some(e)) == Some(HttpResponseType::Json)) <==> e == seq!['j', 's', 'o', 'n'],
        (get_response_kind(Some(e)) is None) <==> !(e == seq!['t', 'x', 't'] || e == Seq::<char>::empty()
            || e == seq!['h', 't', 'm', 'l'] || e == seq!['p', 'n', 'g'] || e == seq!['j', 'p', 'g']
            || e == seq!['j', 'p', 'e', 'g'] || e == seq!['j', 's'] || e == seq!['j', 's', 'o', 'n']),
{
    reveal_strlit("txt");
    reveal_strlit("");
    reveal_strlit("html");
    reveal_strlit("png");
    reveal_strlit("jpg");
    reveal_strlit("jpeg");
    reveal_strlit("js");
    reveal_strlit("json");
    assert("txt"@ =~= seq!['t', 'x', 't']);
    assert(""@ =~= Seq::<char>::empty());
    assert("html"@ =~= seq!['h', 't', 'm', 'l']);
    assert("png"@ =~= seq!['p', 'n', 'g']);
    assert("jpg"@ =~= seq!['j', 'p', 'g']);
    assert("jpeg"@ =~= seq!['j', 'p', 'e', 'g']);
    assert("js"@ =~= seq!['j', 's']);
    assert("json"@ =~= seq!['j', 's', 'o', 'n']);
}

pub(crate) fn str_eq(a: &str, b: &str) -> (r: bool)
    ensures
        r == (a@ == b@),
{
    let x = chars_of(a);
    let y = chars_of(b);
    chars_eq(&x, y.as_slice())
}

/// The kind of answer to a GET request for a file with extension `ext`.
pub fn response_kind(ext: Option<&str>) -> (r: HttpResponseType)
    requires
        get_response_kind(
            match ext {
                Some(e) => Some(e@),
                None => None,
            },
        ) is Some,
    ensures
        Some(r) == get_response_kind(
            match ext {
                Some(e) => Some(e@),
                None => None,
            },
        ),
{
    match ext {
        None => HttpResponseType::Text,
        Some(e) => {
            if str_eq(e, "txt") || str_eq(e, "") {
                HttpResponseType::Text
            } else if str_eq(e, "html") {
                HttpResponseType::Html
            } else if str_eq(e, "png") {
                HttpResponseType::Png
            } else if str_eq(e, "jpg") || str_eq(e, "jpeg") {
                HttpResponseType::Jpeg
            } else if str_eq(e, "js") {
                HttpResponseType::Js
            } else {
                HttpResponseType::Json
            }
        },
    }
}

/// The header of the answer to a HEAD request for a file of `len` bytes
/// with extension `ext`.
pub fn head_header(ext: Option<&str>, len: usize) -> (r: String)
    requires
        head_content_type(
            match ext {
                Some(e) => Some(e@),
                None => None,
            },
        ) is Some,
    ensures
        r@ == "HTTP/1.1 200 OK\r\nContent-Type:"@ + head_content_type(
            match ext {
                Some(e) => Some(e@),
                None => None,
            },
        )->0 + "\r\ncharset=UTF-8\r\nContent-Length: "@ + decimal(len as nat) + header_end(),
{
    let content_type = match ext {
        None => "text/plaintext",
        Some(e) => {
            if str_eq(e, "txt") || str_eq(e, "") {
                "text/plaintext"
            } else if str_eq(e, "html") {
                "text/html"
            } else if str_eq(e, "png") {
                "image/png"
            } else if str_eq(e, "jpg") || str_eq(e, "jpeg") {
                "image/jpeg"
            } else if str_eq(e, "js") {
                "text/javascript"
            } else {
                "text/json"
            }
        },
    };
    let mut s = "HTTP/1.1 200 OK\r\nContent-Type:".to_owned();
    s.append(content_type);
    s.append("\r\ncharset=UTF-8\r\nContent-Length: ");
    let digits = decimal_chars(len as u64);
    let n = string_from_chars(digits.as_slice());
    s.append(n.as_str());
    s.append("\r\nConnection: keep-alive\r\n\n");
    s
}

/// The path of the file that answers a GET or HEAD request for `target`:
/// the served directory followed by the target, or by `/index.html` for
/// the target `/`.
pub fn local_path(serve_dir: &str, target: &str) -> (r: String)
    ensures
        r@ == serve_dir@ + if target@ == "/"@ {
            "/index.html"@
        } else {
            target@
        },
{
    let mut s = serve_dir.to_owned();
    if str_eq(target, "/") {
        s.append("/index.html");
    } else {
        s.append(target);
    }
    s
}

/// The decimal writing of a length, as a response header writes it, reads
/// back as that length.
pub proof fn law_length_reads_back(n: usize)
    ensures
        spec_parse_usize(decimal(n as nat)) == Ok::<usize, IntErrorKind>(n),
{
    crate::scan::lemma_decimal_digits(n as nat);
    lemma_no_non_digit(decimal(n as nat));
}

/// A line that is empty once trimmed ends the headers of a request whose
/// header lines are trimmed.
pub proof fn law_blank_line_ends_headers(line: Seq<char>)
    requires
        trim(line).len() == 0,
    ensures
        spec_header_line(line, true) == Ok::<HeaderLine, IntErrorKind>(HeaderLine::End),
{
}

} // verus!
