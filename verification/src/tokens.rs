//! Splitting source text into tokens: words, one-character operators and
//! quoted strings, with `;` starting a comment that runs to the end of the line.
use vstd::prelude::*;
use crate::text::{chars_of, string_from_chars};

verus! {

/// A piece of source text, with the file it came from and its line.
#[derive(Clone, Debug)]
pub struct Token {
    pub text: String,
    pub file: String,
    pub line: usize,
}

impl Token {
    /// A copy of this token.
    pub fn duplicate(&self) -> (r: Token)
        ensures
            r.text@ == self.text@,
            r.file@ == self.file@,
            r.line == self.line,
    {
        Token { text: self.text.clone(), file: self.file.clone(), line: self.line }
    }
}

/// Whether `c` is white space in the sense of `char::is_whitespace`.
pub open spec fn spec_is_whitespace(c: char) -> bool {
    ('\u{9}' <= c && c <= '\u{d}') || c == ' ' || c == '\u{85}' || c == '\u{a0}' || c
        == '\u{1680}' || ('\u{2000}' <= c && c <= '\u{200a}') || c == '\u{2028}' || c == '\u{2029}'
        || c == '\u{202f}' || c == '\u{205f}' || c == '\u{3000}'
}

/// Whether `c` is white space in the sense of `char::is_whitespace`.
pub fn is_whitespace(c: char) -> (r: bool)
    ensures
        r == spec_is_whitespace(c),
{
    ('\u{9}' <= c && c <= '\u{d}') || c == ' ' || c == '\u{85}' || c == '\u{a0}' || c
        == '\u{1680}' || ('\u{2000}' <= c && c <= '\u{200a}') || c == '\u{2028}' || c == '\u{2029}'
        || c == '\u{202f}' || c == '\u{205f}' || c == '\u{3000}'
}

/// The characters that form a token on their own.
pub open spec fn is_operator(c: char) -> bool {
    c == ':' || c == '+' || c == '-' || c == '*' || c == '/' || c == '(' || c == ')' || c == '<'
        || c == '>'
}

fn operator(c: char) -> (r: bool)
    ensures
        r == is_operator(c),
{
    c == ':' || c == '+' || c == '-' || c == '*' || c == '/' || c == '(' || c == ')' || c == '<'
        || c == '>'
}

/// What the tokenizer is in the middle of.
#[derive(PartialEq, Eq, Structural, Clone, Copy, Debug)]
pub enum LexMode {
    Whitespace,
    Ident,
    Str,
    Comment,
    StrEscaped,
}

/// The tokenizer's state: its mode, the text gathered for the current token,
/// the current line, and the tokens so far as (text, line).
#[verifier::ext_equal]
pub struct LexState {
    pub mode: LexMode,
    pub buf: Seq<char>,
    pub line: int,
    pub out: Seq<(Seq<char>, int)>,
}

/// The state after reading `c`.
pub open spec fn lex_step(st: LexState, c: char) -> LexState {
    match st.mode {
        LexMode::Whitespace => if c == ' ' || c == '\t' {
            st
        } else if c == '\n' {
            LexState { line: st.line + 1, ..st }
        } else if is_operator(c) {
            LexState { out: st.out.push((seq![c], st.line)), ..st }
        } else if c == '"' {
            LexState { buf: seq![], mode: LexMode::Str, ..st }
        } else if c == ';' {
            LexState { buf: seq![], mode: LexMode::Comment, ..st }
        } else {
            LexState { buf: seq![c], mode: LexMode::Ident, ..st }
        },
        LexMode::Ident => if !spec_is_whitespace(c) && !(is_operator(c) || c == ';') {
            LexState { buf: st.buf.push(c), ..st }
        } else {
            let out1 = st.out.push((st.buf, st.line));
            LexState {
                buf: seq![],
                line: if c == '\n' {
                    st.line + 1
                } else {
                    st.line
                },
                out: if c != '\n' && is_operator(c) {
                    out1.push((seq![c], st.line))
                } else {
                    out1
                },
                mode: if c == ';' {
                    LexMode::Comment
                } else {
                    LexMode::Whitespace
                },
            }
        },
        LexMode::Str => if c == '"' {
            LexState {
                buf: seq![],
                mode: LexMode::Whitespace,
                out: st.out.push((seq!['"'] + st.buf + seq!['"'], st.line)),
                ..st
            }
        } else if c == '\\' {
            LexState { mode: LexMode::StrEscaped, ..st }
        } else if c == '\n' {
            LexState { line: st.line + 1, ..st }
        } else {
            LexState { buf: st.buf.push(c), ..st }
        },
        LexMode::StrEscaped => LexState { buf: st.buf.push(c), mode: LexMode::Str, ..st },
        LexMode::Comment => if c == '\n' {
            LexState { line: st.line + 1, mode: LexMode::Whitespace, ..st }
        } else {
            st
        },
    }
}

/// The state after reading all of `s` from the start of a file.
pub open spec fn lex_run(s: Seq<char>) -> LexState
    decreases s.len(),
{
    if s.len() == 0 {
        LexState { mode: LexMode::Whitespace, buf: seq![], line: 1, out: seq![] }
    } else {
        lex_step(lex_run(s.drop_last()), s.last())
    }
}

/// The tokens of `s`, as (text, line): the tokens gathered, followed by the
/// text of an unfinished token if there is one.
pub open spec fn spec_tokenize(s: Seq<char>) -> Seq<(Seq<char>, int)> {
    let st = lex_run(s);
    if st.buf.len() > 0 {
        st.out.push((st.buf, st.line))
    } else {
        st.out
    }
}

/// The state after reading all of `s` from state `st`.
pub open spec fn lex_from(st: LexState, s: Seq<char>) -> LexState
    decreases s.len(),
{
    if s.len() == 0 {
        st
    } else {
        lex_step(lex_from(st, s.drop_last()), s.last())
    }
}

/// The state at the start of a file.
pub open spec fn lex_start() -> LexState {
    LexState { mode: LexMode::Whitespace, buf: seq![], line: 1, out: seq![] }
}

proof fn lemma_lex_run_from(s: Seq<char>)
    ensures
        lex_run(s) == lex_from(lex_start(), s),
    decreases s.len(),
{
    if s.len() > 0 {
        lemma_lex_run_from(s.drop_last());
    }
}

/// Reading `a` then `b` is reading `a + b`.
proof fn lemma_lex_from_concat(st: LexState, a: Seq<char>, b: Seq<char>)
    ensures
        lex_from(st, a + b) == lex_from(lex_from(st, a), b),
    decreases b.len(),
{
    if b.len() == 0 {
        assert(a + b =~= a);
    } else {
        assert((a + b).drop_last() =~= a + b.drop_last());
        assert((a + b).last() == b.last());
        lemma_lex_from_concat(st, a, b.drop_last());
    }
}

/// A character that goes into a word: no white space, no `;`, no `"`, and
/// none of `:` `+` `-` `*` `/` `(` `)` `<` `>`.
pub open spec fn is_word_char(c: char) -> bool {
    &&& !spec_is_whitespace(c)
    &&& c != ';' && c != '"'
    &&& c != ':' && c != '+' && c != '-' && c != '*' && c != '/'
    &&& c != '(' && c != ')' && c != '<' && c != '>'
}

/// A nonempty run of word characters read between tokens becomes the text of
/// the token being read.
proof fn lemma_lex_word(st: LexState, w: Seq<char>)
    requires
        st.mode == LexMode::Whitespace,
        w.len() > 0,
        forall|i: int| 0 <= i < w.len() ==> is_word_char(#[trigger] w[i]),
    ensures
        lex_from(st, w) =~= (LexState { mode: LexMode::Ident, buf: w, ..st }),
    decreases w.len(),
{
    let c = w.last();
    assert(is_word_char(w[w.len() - 1]));
    if w.len() == 1 {
        assert(w.drop_last() =~= Seq::<char>::empty());
        assert(w =~= seq![c]);
    } else {
        let v = w.drop_last();
        assert forall|i: int| 0 <= i < v.len() implies is_word_char(#[trigger] v[i]) by {
            assert(v[i] == w[i]);
        }
        lemma_lex_word(st, v);
        assert(v.push(c) =~= w);
    }
}

/// Each of `:` `+` `-` `*` `/` `(` `)` `<` `>` is a token of its own: between
/// two words, with no space around it, it splits them into three tokens, all
/// on the first line.
pub proof fn law_operator_splits_words(x: Seq<char>, op: char, y: Seq<char>)
    requires
        op == ':' || op == '+' || op == '-' || op == '*' || op == '/' || op == '(' || op == ')'
            || op == '<' || op == '>',
        x.len() > 0,
        y.len() > 0,
        forall|i: int| 0 <= i < x.len() ==> is_word_char(#[trigger] x[i]),
        forall|i: int| 0 <= i < y.len() ==> is_word_char(#[trigger] y[i]),
    ensures
        spec_tokenize(x + seq![op] + y) == seq![(x, 1int), (seq![op], 1int), (y, 1int)],
{
    let s0 = lex_start();
    lemma_lex_word(s0, x);
    let s1 = lex_from(s0, x);
    let s2 = lex_step(s1, op);
    assert(s2 =~= (LexState {
        mode: LexMode::Whitespace,
        buf: seq![],
        line: 1,
        out: seq![(x, 1int), (seq![op], 1int)],
    }));
    assert(lex_from(s1, seq![op]) == s2) by {
        assert(seq![op].drop_last() =~= Seq::<char>::empty());
        assert(lex_from(s1, Seq::<char>::empty()) == s1);
        assert(seq![op].last() == op);
    }
    lemma_lex_word(s2, y);
    lemma_lex_from_concat(s0, x, seq![op]);
    lemma_lex_from_concat(s0, x + seq![op], y);
    lemma_lex_run_from(x + seq![op] + y);
    let st = lex_run(x + seq![op] + y);
    assert(st == lex_from(s2, y));
    assert(spec_tokenize(x + seq![op] + y) =~= seq![(x, 1int), (seq![op], 1int), (y, 1int)]);
}

/// The line never runs ahead of the characters read.
proof fn lemma_lex_line_bound(s: Seq<char>)
    ensures
        1 <= lex_run(s).line <= s.len() + 1,
    decreases s.len(),
{
    if s.len() > 0 {
        lemma_lex_line_bound(s.drop_last());
    }
}

/// What holds of the tokenizer's state at every point: the line is at least
/// 1, every token gathered has text and a line no later than the current one,
/// the tokens stand in the order of their lines, and an identifier being read
/// has text.
pub open spec fn lex_invariant(st: LexState) -> bool {
    &&& st.line >= 1
    &&& forall|i: int| 0 <= i < st.out.len() ==> (#[trigger] st.out[i]).0.len() > 0
    &&& forall|i: int| 0 <= i < st.out.len() ==> 1 <= (#[trigger] st.out[i]).1 <= st.line
    &&& forall|i: int, j: int|
        0 <= i < j < st.out.len() ==> (#[trigger] st.out[i]).1 <= (#[trigger] st.out[j]).1
    &&& st.mode == LexMode::Ident ==> st.buf.len() > 0
}

proof fn lemma_lex_step_invariant(st: LexState, c: char)
    requires
        lex_invariant(st),
    ensures
        lex_invariant(lex_step(st, c)),
{
    let nx = lex_step(st, c);
    assert forall|i: int, j: int|
        0 <= i < j < nx.out.len() implies (#[trigger] nx.out[i]).1 <= (#[trigger] nx.out[j]).1 by {
        if j >= st.out.len() && i < st.out.len() {
            assert(nx.out[i] == st.out[i]);
        }
        if j < st.out.len() {
            assert(nx.out[i] == st.out[i]);
            assert(nx.out[j] == st.out[j]);
        }
    }
    assert forall|i: int| 0 <= i < nx.out.len() implies (#[trigger] nx.out[i]).0.len() > 0 by {
        if i < st.out.len() {
            assert(nx.out[i] == st.out[i]);
        }
    }
    assert forall|i: int| 0 <= i < nx.out.len() implies 1 <= (#[trigger] nx.out[i]).1 <= nx.line by {
        if i < st.out.len() {
            assert(nx.out[i] == st.out[i]);
        }
    }
}

proof fn lemma_lex_run_invariant(s: Seq<char>)
    ensures
        lex_invariant(lex_run(s)),
    decreases s.len(),
{
    if s.len() > 0 {
        lemma_lex_run_invariant(s.drop_last());
        lemma_lex_step_invariant(lex_run(s.drop_last()), s.last());
    }
}

/// Every token has text, and the tokens come out in the order of their
/// lines, each on a line between 1 and one past the number of characters.
pub proof fn law_tokens_ordered(s: Seq<char>)
    ensures
        forall|i: int|
            0 <= i < spec_tokenize(s).len() ==> (#[trigger] spec_tokenize(s)[i]).0.len() > 0
                && 1 <= spec_tokenize(s)[i].1 <= s.len() + 1,
        forall|i: int, j: int|
            0 <= i < j < spec_tokenize(s).len() ==> (#[trigger] spec_tokenize(s)[i]).1
                <= (#[trigger] spec_tokenize(s)[j]).1,
{
    let st = lex_run(s);
    lemma_lex_run_invariant(s);
    lemma_lex_line_bound(s);
    let t = spec_tokenize(s);
    assert forall|i: int| 0 <= i < t.len() implies (#[trigger] t[i]).0.len() > 0 && 1 <= t[i].1
        <= s.len() + 1 by {
        if i < st.out.len() {
            assert(t[i] == st.out[i]);
        }
    }
    assert forall|i: int, j: int| 0 <= i < j < t.len() implies (#[trigger] t[i]).1 <= (
    #[trigger] t[j]).1 by {
        if j < st.out.len() {
            assert(t[i] == st.out[i]);
            assert(t[j] == st.out[j]);
        } else {
            assert(t[i] == st.out[i]);
        }
    }
}

/// Splits `s` into tokens, each tagged with `file` and its line.
pub fn tokenize(s: String, file: String) -> (r: Vec<Token>)
    requires
        s@.len() < usize::MAX,
    ensures
        r@.len() == spec_tokenize(s@).len(),
        forall|i: int|
            #![trigger r@[i]]
            0 <= i < r@.len() ==> r@[i].text@ == spec_tokenize(s@)[i].0 && r@[i].line
                == spec_tokenize(s@)[i].1 && r@[i].file@ == file@,
{
    let cs = chars_of(s.as_str());
    let mut out: Vec<Token> = Vec::new();
    let mut buf: Vec<char> = Vec::new();
    let mut line: usize = 1;
    let mut mode = LexMode::Whitespace;
    let mut k: usize = 0;
    while k < cs.len()
        invariant
            cs@ == s@,
            k <= cs@.len(),
            s@.len() < usize::MAX,
            ({
                let st = lex_run(cs@.take(k as int));
                &&& st.mode == mode
                &&& st.buf == buf@
                &&& st.line == line
                &&& st.out.len() == out@.len()
                &&& forall|i: int|
                    #![trigger out@[i]]
                    0 <= i < out@.len() ==> out@[i].text@ == st.out[i].0 && out@[i].line
                        == st.out[i].1 && out@[i].file@ == file@
            }),
        decreases cs@.len() - k,
    {
        let c = cs[k];
        proof {
            assert(cs@.take(k + 1).drop_last() =~= cs@.take(k as int));
            lemma_lex_line_bound(cs@.take(k + 1));
        }
        match mode {
            LexMode::Whitespace => {
                if c == ' ' || c == '\t' {
                } else if c == '\n' {
                    line += 1;
                } else if operator(c) {
                    out.push(Token { text: string_from_chars(&[c]), file: file.clone(), line });
                } else if c == '"' {
                    buf = Vec::new();
                    mode = LexMode::Str;
                } else if c == ';' {
                    buf = Vec::new();
                    mode = LexMode::Comment;
                } else {
                    buf = Vec::new();
                    buf.push(c);
                    mode = LexMode::Ident;
                }
            },
            LexMode::Ident => {
                if !is_whitespace(c) && !(operator(c) || c == ';') {
                    buf.push(c);
                } else {
                    out.push(Token { text: string_from_chars(buf.as_slice()), file: file.clone(), line });
                    buf = Vec::new();
                    if c == '\n' {
                        line += 1;
                    } else if operator(c) {
                        out.push(Token { text: string_from_chars(&[c]), file: file.clone(), line });
                    }
                    mode = if c == ';' {
                        LexMode::Comment
                    } else {
                        LexMode::Whitespace
                    };
                }
            },
            LexMode::Str => {
                if c == '"' {
                    let mut quoted: Vec<char> = Vec::new();
                    quoted.push('"');
                    let mut b: usize = 0;
                    while b < buf.len()
                        invariant
                            b <= buf@.len(),
                            quoted@ == seq!['"'] + buf@.take(b as int),
                        decreases buf@.len() - b,
                    {
                        quoted.push(buf[b]);
                        b += 1;
                        assert(quoted@ =~= seq!['"'] + buf@.take(b as int));
                    }
                    quoted.push('"');
                    assert(buf@.take(buf@.len() as int) =~= buf@);
                    out.push(Token { text: string_from_chars(quoted.as_slice()), file: file.clone(), line });
                    buf = Vec::new();
                    mode = LexMode::Whitespace;
                } else if c == '\\' {
                    mode = LexMode::StrEscaped;
                } else if c == '\n' {
                    line += 1;
                } else {
                    buf.push(c);
                }
            },
            LexMode::StrEscaped => {
                buf.push(c);
                mode = LexMode::Str;
            },
            LexMode::Comment => {
                if c == '\n' {
                    line += 1;
                    mode = LexMode::Whitespace;
                }
            },
        }
        k += 1;
        proof {
            let st = lex_run(cs@.take(k as int));
            assert(st.buf =~= buf@);
        }
    }
    if buf.len() > 0 {
        out.push(Token { text: string_from_chars(buf.as_slice()), file: file.clone(), line });
    }
    assert(cs@.take(cs@.len() as int) =~= cs@);
    out
}

/// Tokens to be read one at a time.
#[derive(Clone, Debug)]
pub struct TokenStream {
    pub tokens: Vec<Token>,
    pub index: usize,
}

impl TokenStream {
    /// The tokens of `s`, from the first.
    pub fn from_string(s: String, file: String) -> (r: Self)
        requires
            s@.len() < usize::MAX,
        ensures
            r.index == 0,
            r.tokens@.len() == spec_tokenize(s@).len(),
            forall|i: int|
                #![trigger r.tokens@[i]]
                0 <= i < r.tokens@.len() ==> r.tokens@[i].text@ == spec_tokenize(s@)[i].0
                    && r.tokens@[i].line == spec_tokenize(s@)[i].1 && r.tokens@[i].file@ == file@,
    {
        let tokens = tokenize(s, file);
        TokenStream { tokens, index: 0 }
    }

    /// Reads the next token, if any is left.
    pub fn next(&mut self) -> (r: Option<Token>)
        ensures
            final(self).tokens@ == old(self).tokens@,
            old(self).index < old(self).tokens@.len() ==> final(self).index == old(self).index + 1
                && r is Some && r->0.text@ == old(self).tokens@[old(self).index as int].text@
                && r->0.file@ == old(self).tokens@[old(self).index as int].file@ && r->0.line
                == old(self).tokens@[old(self).index as int].line,
            old(self).index >= old(self).tokens@.len() ==> final(self).index == old(self).index
                && r is None,
    {
        if self.index < self.tokens.len() {
            let out = self.tokens[self.index].duplicate();
            self.index += 1;
            Some(out)
        } else {
            None
        }
    }

    /// The next token, if any is left, without reading it.
    pub fn peek(&self) -> (r: Option<Token>)
        ensures
            self.index < self.tokens@.len() ==> r is Some && r->0.text@ == self.tokens@[self.index as int].text@
                && r->0.file@ == self.tokens@[self.index as int].file@ && r->0.line
                == self.tokens@[self.index as int].line,
            self.index >= self.tokens@.len() ==> r is None,
    {
        if self.index < self.tokens.len() {
            Some(self.tokens[self.index].duplicate())
        } else {
            None
        }
    }

    /// Makes `t` the next token to be read.
    pub fn insert_next(&mut self, t: Token)
        requires
            old(self).index <= old(self).tokens@.len(),
        ensures
            final(self).index == old(self).index,
            final(self).tokens@ == old(self).tokens@.insert(old(self).index as int, t),
    {
        self.tokens.insert(self.index, t);
    }
}

} // verus!
