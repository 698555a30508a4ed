//! A growable string buffer, and `printf`-style formatting into it.
use vstd::prelude::*;
use crate::text::{chars_of, string_from_chars};

verus! {

/// How many bytes UTF-8 takes for `c`.
pub open spec fn utf8_len(c: char) -> nat {
    if (c as u32) < 0x80 {
        1
    } else if (c as u32) < 0x800 {
        2
    } else if (c as u32) < 0x10000 {
        3
    } else {
        4
    }
}

/// How many bytes UTF-8 takes for `s`.
pub open spec fn utf8_len_seq(s: Seq<char>) -> nat
    decreases s.len(),
{
    if s.len() == 0 {
        0
    } else {
        utf8_len_seq(s.drop_last()) + utf8_len(s.last())
    }
}

/// `n` NUL characters.
pub open spec fn nuls(n: nat) -> Seq<char> {
    Seq::new(n, |i: int| '\0')
}

/// The largest text, in UTF-8 bytes, that a buffer takes.
pub open spec fn max_text_bytes() -> int {
    usize::MAX / 4 - 4
}

/// A string buffer of bytes that doubles its capacity when a character does
/// not fit; it starts with room for 16 bytes.
pub struct BString {
    chars: Vec<char>,
    len: usize,
    cap: usize,
}

impl View for BString {
    type V = Seq<char>;

    closed spec fn view(&self) -> Seq<char> {
        self.chars@
    }
}

impl BString {
    /// The size of the buffer, in bytes.
    pub closed spec fn capacity(&self) -> nat {
        self.cap as nat
    }

    /// The length of the text in bytes is the stored length, which stays
    /// below the capacity; the capacity is at least 16 and at most twice the
    /// length when it has grown.
    pub closed spec fn wf(&self) -> bool {
        &&& self.len == utf8_len_seq(self.chars@)
        &&& self.len < self.cap
        &&& self.cap >= 16
        &&& self.cap <= 16 || self.cap <= 2 * self.len
    }

    /// An empty buffer with room for 16 bytes.
    pub fn new() -> (r: Self)
        ensures
            r.wf(),
            r@ == Seq::<char>::empty(),
            r.capacity() == 16,
    {
        BString { chars: Vec::new(), len: 0, cap: 16 }
    }

    /// Appends `ch`; where it does not fit, the capacity doubles first.
    pub fn push(&mut self, ch: char)
        requires
            old(self).wf(),
            utf8_len_seq(old(self)@) + 4 <= max_text_bytes(),
        ensures
            final(self).wf(),
            final(self)@ == old(self)@.push(ch),
            final(self).capacity() == if utf8_len_seq(old(self)@) + utf8_len(ch) < old(
                self,
            ).capacity() {
                old(self).capacity()
            } else {
                2 * old(self).capacity()
            },
    {
        let sz = char_utf8_len(ch);
        if self.len + sz >= self.cap {
            self.cap = self.cap * 2;
        }
        let ghost before = self.chars@;
        self.chars.push(ch);
        assert(self.chars@.drop_last() =~= before);
        self.len = self.len + sz;
    }

    /// The text.
    pub fn get_str(&self) -> (r: String)
        ensures
            r@ == self@,
    {
        string_from_chars(self.chars.as_slice())
    }

    /// Appends the characters of `v` one at a time.
    pub fn concat(&mut self, v: &str)
        requires
            old(self).wf(),
            utf8_len_seq(old(self)@ + v@) + 4 <= max_text_bytes(),
        ensures
            final(self).wf(),
            final(self)@ == old(self)@ + v@,
    {
        let cs = chars_of(v);
        let mut k: usize = 0;
        while k < cs.len()
            invariant
                self.wf(),
                cs@ == v@,
                k <= cs@.len(),
                self@ == old(self)@ + v@.take(k as int),
                utf8_len_seq(old(self)@ + v@) + 4 <= max_text_bytes(),
            decreases cs@.len() - k,
        {
            proof {
                lemma_utf8_len_prefix(old(self)@ + v@, old(self)@.len() + k);
                assert((old(self)@ + v@).take(old(self)@.len() + k) =~= self@);
            }
            self.push(cs[k]);
            k += 1;
            assert(self@ =~= old(self)@ + v@.take(k as int));
        }
        assert(v@.take(cs@.len() as int) =~= v@);
    }

    /// Appends the written form of a value, as the caller wrote it out.
    pub fn concat_writeable(&mut self, written: &str)
        requires
            old(self).wf(),
            utf8_len_seq(old(self)@ + written@) + 4 <= max_text_bytes(),
        ensures
            final(self).wf(),
            final(self)@ == old(self)@ + written@,
    {
        self.concat(written)
    }

    /// Appends the debug form of a value, as the caller wrote it out.
    pub fn concat_debug(&mut self, written: &str)
        requires
            old(self).wf(),
            utf8_len_seq(old(self)@ + written@) + 4 <= max_text_bytes(),
        ensures
            final(self).wf(),
            final(self)@ == old(self)@ + written@,
    {
        self.concat(written)
    }

    /// The whole buffer as text: the text, then a NUL for each byte of the
    /// buffer that the text leaves unused.
    pub fn take(self) -> (r: String)
        requires
            self.wf(),
        ensures
            r@ == self@ + nuls((self.capacity() - utf8_len_seq(self@)) as nat),
    {
        let mut out = self.chars;
        let ghost text = out@;
        let mut k: usize = self.len;
        while k < self.cap
            invariant
                self.len <= k <= self.cap,
                out@ == text + nuls((k - self.len) as nat),
            decreases self.cap - k,
        {
            out.push('\0');
            k += 1;
            assert(out@ =~= text + nuls((k - self.len) as nat));
        }
        string_from_chars(out.as_slice())
    }
}

/// How many bytes UTF-8 takes for `c`.
pub fn char_utf8_len(c: char) -> (r: usize)
    ensures
        r == utf8_len(c),
{
    let u = c as u32;
    if u < 0x80 {
        1
    } else if u < 0x800 {
        2
    } else if u < 0x10000 {
        3
    } else {
        4
    }
}

/// A prefix takes no more bytes than the whole.
pub proof fn lemma_utf8_len_prefix(s: Seq<char>, k: int)
    requires
        0 <= k <= s.len(),
    ensures
        utf8_len_seq(s.take(k)) <= utf8_len_seq(s),
    decreases s.len() - k,
{
    if k < s.len() {
        lemma_utf8_len_prefix(s, k + 1);
        assert(s.take(k + 1).drop_last() =~= s.take(k));
    } else {
        assert(s.take(k) =~= s);
    }
}

/// Whether `c` is one of the conversions that takes the next argument.
pub open spec fn is_conversion(c: char) -> bool {
    c == 'd' || c == 'f' || c == 's' || c == 'u' || c == '*'
}

/// The text that `fmt` gives with `args` from argument `k` on, and whether
/// the format is complete: `%%` stands for `%`, `%d`, `%f`, `%s`, `%u` and `%*`
/// for the next argument's text, a lone `%` at the end ends the text, and
/// every other character stands for itself. The format is not complete where
/// a `%` is followed by another character, or where the arguments run out.
pub open spec fn render(fmt: Seq<char>, args: Seq<Seq<char>>, k: int) -> (Seq<char>, bool)
    decreases fmt.len(),
{
    if fmt.len() == 0 {
        (Seq::empty(), true)
    } else if fmt[0] == '%' {
        if fmt.len() == 1 {
            (Seq::empty(), true)
        } else if fmt[1] == '%' {
            let rest = render(fmt.skip(2), args, k);
            (seq!['%'] + rest.0, rest.1)
        } else if is_conversion(fmt[1]) {
            if 0 <= k < args.len() {
                let rest = render(fmt.skip(2), args, k + 1);
                (args[k] + rest.0, rest.1)
            } else {
                (Seq::empty(), false)
            }
        } else {
            (Seq::empty(), false)
        }
    } else {
        let rest = render(fmt.skip(1), args, k);
        (seq![fmt[0]] + rest.0, rest.1)
    }
}

/// The texts of the arguments.
pub open spec fn arg_texts(args: Seq<String>) -> Seq<Seq<char>> {
    args.map_values(|a: String| a@)
}

/// Writes `format` into a new buffer with the arguments, already written out
/// as text, in place of its conversions.
pub fn dyn_sprintf(format: &str, args: &[String]) -> (r: BString)
    requires
        render(format@, arg_texts(args@), 0).1,
        utf8_len_seq(render(format@, arg_texts(args@), 0).0) + 4 <= max_text_bytes(),
    ensures
        r.wf(),
        r@ == render(format@, arg_texts(args@), 0).0,
{
    let mut out = BString::new();
    let fs = chars_of(format);
    let ghost all = render(format@, arg_texts(args@), 0).0;
    let mut i: usize = 0;
    let mut index: usize = 0;
    assert(fs@.skip(0) =~= fs@);
    assert(out@ + all =~= all);
    while i < fs.len()
        invariant
            out.wf(),
            fs@ == format@,
            i <= fs@.len(),
            index <= args@.len(),
            all == render(format@, arg_texts(args@), 0).0,
            utf8_len_seq(all) + 4 <= max_text_bytes(),
            render(fs@.skip(i as int), arg_texts(args@), index as int).1,
            out@ + render(fs@.skip(i as int), arg_texts(args@), index as int).0 == all,
        decreases fs@.len() - i,
    {
        let ghost rest = fs@.skip(i as int);
        let c = fs[i];
        proof {
            lemma_utf8_len_prefix(all, out@.len() as int);
            assert(all.take(out@.len() as int) =~= out@);
        }
        if c == '%' {
            if i + 1 >= fs.len() {
                assert(render(rest, arg_texts(args@), index as int).0 =~= Seq::<char>::empty());
                assert(out@ =~= all);
                i += 1;
                assert(fs@.skip(i as int) =~= Seq::<char>::empty());
                assert(out@ + render(fs@.skip(i as int), arg_texts(args@), index as int).0 =~= all);
                continue;
            }
            let c1 = fs[i + 1];
            assert(rest.skip(2) =~= fs@.skip(i + 2));
            if c1 == '%' {
                proof {
                    lemma_utf8_len_prefix(all, out@.len() + 1 as int);
                    assert(all.take((out@.len() + 1) as int) =~= out@.push('%'));
                }
                let ghost before = out@;
                out.push('%');
                assert(out@ + render(fs@.skip(i + 2), arg_texts(args@), index as int).0 =~= before
                    + render(rest, arg_texts(args@), index as int).0);
            } else if c1 == 'd' || c1 == 'f' || c1 == 's' || c1 == 'u' || c1 == '*' {
                let a = &args[index];
                proof {
                    let t = a@;
                    assert(arg_texts(args@)[index as int] == t);
                    lemma_utf8_len_prefix(all, (out@.len() + t.len()) as int);
                    assert(all.take((out@.len() + t.len()) as int) =~= out@ + t);
                }
                let ghost before = out@;
                out.concat(a.as_str());
                assert(out@ + render(fs@.skip(i + 2), arg_texts(args@), index + 1).0 =~= before
                    + render(rest, arg_texts(args@), index as int).0);
                index += 1;
            } else {
                assert(false);
            }
            i += 2;
        } else {
            proof {
                lemma_utf8_len_prefix(all, out@.len() + 1 as int);
                assert(all.take((out@.len() + 1) as int) =~= out@.push(c));
            }
            let ghost before = out@;
            out.push(c);
            assert(rest.skip(1) =~= fs@.skip(i + 1));
            assert(out@ + render(fs@.skip(i + 1), arg_texts(args@), index as int).0 =~= before
                + render(rest, arg_texts(args@), index as int).0);
            i += 1;
        }
    }
    proof {
        if i >= fs@.len() {
            assert(fs@.skip(i as int) =~= Seq::<char>::empty());
            assert(out@ + Seq::<char>::empty() =~= out@);
        }
    }
    out
}

/// A format without `%` is complete and gives its own text, whatever the
/// arguments.
pub proof fn law_plain_format(fmt: Seq<char>, args: Seq<Seq<char>>, k: int)
    requires
        forall|i: int| 0 <= i < fmt.len() ==> #[trigger] fmt[i] != '%',
    ensures
        render(fmt, args, k) == (fmt, true),
    decreases fmt.len(),
{
    if fmt.len() > 0 {
        law_plain_format(fmt.skip(1), args, k);
        assert(seq![fmt[0]] + fmt.skip(1) =~= fmt);
    }
}

/// `%%` gives one `%`, and a conversion gives its argument's text, with the
/// rest of the format after it.
pub proof fn law_conversion_takes_argument(rest: Seq<char>, args: Seq<Seq<char>>, k: int, c: char)
    requires
        is_conversion(c),
        0 <= k < args.len(),
    ensures
        render(seq!['%', c] + rest, args, k).0 == args[k] + render(rest, args, k + 1).0,
        render(seq!['%', '%'] + rest, args, k).0 == seq!['%'] + render(rest, args, k).0,
{
    assert((seq!['%', c] + rest).skip(2) =~= rest);
    assert((seq!['%', '%'] + rest).skip(2) =~= rest);
}

} // verus!
