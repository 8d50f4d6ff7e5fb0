//! The lexer: a single-token-lookahead stream of tokens over a source,
//! which recovers from malformed literals and unknown characters.

use vstd::prelude::*;
use crate::helpers::{
    ident_char, ident_start, is_beg_of_ident, is_keyword, is_operator, is_part_of_ident,
    is_part_of_op, is_part_of_parenthesis, keyword_kind, op_char, punct_char, punct_kind,
};
use crate::source::{Pointer, Span};
use crate::string::{points_into, String};
use crate::text::{ascii_digit, letter, space, is_alphabetic, is_whitespace};
use crate::token::{Kind, Token, Value};

verus! {

/// Where the first significant character at or after `i` stands: white
/// space and `#` comments up to the end of their line are passed over.
pub open spec fn trivia_end(raw: Seq<char>, i: int, in_comment: bool) -> int
    decreases raw.len() - i,
{
    if i < 0 || i >= raw.len() {
        i
    } else if in_comment {
        trivia_end(raw, i + 1, raw[i] != '\n')
    } else if space(raw[i]) {
        trivia_end(raw, i + 1, false)
    } else if raw[i] == '#' {
        trivia_end(raw, i + 1, true)
    } else {
        i
    }
}

/// Characters that end the text of a poisoned literal.
pub open spec fn poison_stop(c: char) -> bool {
    op_char(c) || punct_char(c) || space(c) || c == '#'
}

/// The classes of character runs that tokens are made of.
#[derive(Clone, Copy, Debug, PartialEq, Eq, Structural)]
pub enum CharClass {
    Digit,
    Ident,
    Op,
    Poison,
}

pub open spec fn in_class(class: CharClass, c: char) -> bool {
    match class {
        CharClass::Digit => ascii_digit(c),
        CharClass::Ident => ident_char(c),
        CharClass::Op => op_char(c),
        CharClass::Poison => !poison_stop(c),
    }
}

/// First index at or after `j` whose character is not in `class`, or the end.
pub open spec fn run_end(raw: Seq<char>, j: int, class: CharClass) -> int
    decreases raw.len() - j,
{
    if 0 <= j < raw.len() && in_class(class, raw[j]) {
        run_end(raw, j + 1, class)
    } else {
        j
    }
}

pub open spec fn digit_value(c: char) -> nat {
    ((c as u32) - ('0' as u32)) as nat
}

/// Value of a run of decimal digits.
pub open spec fn decimal(d: Seq<char>) -> nat
    decreases d.len(),
{
    if d.len() == 0 {
        0
    } else {
        decimal(d.drop_last()) * 10 + digit_value(d.last())
    }
}

#[derive(Clone, Copy, Debug, PartialEq, Eq, Structural)]
pub enum LexingErrorKind {
    IntegersCannotStartWithZero,
    NotAnInteger,
    UnknownCharacter(char),
}

#[derive(Clone, Copy, Debug, PartialEq, Eq, Structural)]
pub struct LexingError {
    pub kind: LexingErrorKind,
    pub beg: Pointer,
    pub end: Pointer,
}

/// How the token that starts at a significant character `s` is read: its
/// kind, where it ends, where its text starts, and the error it records.
pub open spec fn scan(raw: Seq<char>, s: int) -> (Kind, int, int, Option<LexingErrorKind>) {
    let c = raw[s];
    if ascii_digit(c) {
        if c == '0' {
            if s + 1 < raw.len() && ascii_digit(raw[s + 1]) {
                (Kind::Poisoned, run_end(raw, s + 1, CharClass::Poison), s,
                    Some(LexingErrorKind::IntegersCannotStartWithZero))
            } else if s + 1 < raw.len() && letter(raw[s + 1]) {
                (Kind::Poisoned, run_end(raw, s + 1, CharClass::Poison), s,
                    Some(LexingErrorKind::NotAnInteger))
            } else {
                (Kind::IntLiteral, s + 1, s, None)
            }
        } else {
            let d = run_end(raw, s + 1, CharClass::Digit);
            if d < raw.len() && letter(raw[d]) {
                (Kind::Poisoned, run_end(raw, d, CharClass::Poison), s,
                    Some(LexingErrorKind::NotAnInteger))
            } else if decimal(raw.subrange(s, d)) > u64::MAX {
                (Kind::Poisoned, d, s, Some(LexingErrorKind::NotAnInteger))
            } else {
                (Kind::IntLiteral, d, s, None)
            }
        }
    } else if ident_start(c) {
        let e = run_end(raw, s + 1, CharClass::Ident);
        let k = match keyword_kind(raw.subrange(s, e)) {
            Some(k) => k,
            None => Kind::Identifier,
        };
        (k, e, s, None)
    } else if op_char(c) {
        let e = run_end(raw, s + 1, CharClass::Op);
        let k = match punct_kind(raw.subrange(s, e)) {
            Some(k) => k,
            None => Kind::Operator,
        };
        (k, e, s, None)
    } else if c == '`' && s + 1 < raw.len() && ident_start(raw[s + 1]) {
        (Kind::InfixIdent, run_end(raw, s + 2, CharClass::Ident), s + 1, None)
    } else if punct_char(c) {
        (punct_kind(seq![c]).unwrap(), s + 1, s, None)
    } else {
        (Kind::Poisoned, s + 1, s, Some(LexingErrorKind::UnknownCharacter(c)))
    }
}

pub open spec fn scan_kind(raw: Seq<char>, s: int) -> Kind {
    scan(raw, s).0
}

pub open spec fn scan_end(raw: Seq<char>, s: int) -> int {
    scan(raw, s).1
}

pub open spec fn scan_error(raw: Seq<char>, s: int) -> Option<LexingErrorKind> {
    scan(raw, s).3
}

/// `p` points at index `i` of `raw`.
pub open spec fn at(raw: Seq<char>, p: Pointer, i: int) -> bool {
    points_into(raw, p) && p.index == i
}

/// `t` is the token that starts at the significant character `s`.
pub open spec fn token_at(raw: Seq<char>, s: int, t: Token) -> bool {
    let (kind, end, text_start, _) = scan(raw, s);
    &&& t.kind == kind
    &&& at(raw, t.span.beg, s)
    &&& at(raw, t.span.end, end)
    &&& if kind == Kind::IntLiteral {
        t.value == Value::Integer(decimal(raw.subrange(s, end)) as u64)
    } else {
        t.value is String && t.value->String_0@ == raw.subrange(text_start, end)
    }
}

/// Reading on from index `i` gives the lookahead `tok`, leaves the source
/// at `off` and records `errs`.
pub open spec fn next_token(
    raw: Seq<char>,
    i: int,
    tok: Option<Token>,
    off: int,
    errs: Seq<LexingError>,
) -> bool {
    let s = trivia_end(raw, i, false);
    if s >= raw.len() {
        tok is None && off == s && errs.len() == 0
    } else {
        &&& tok is Some
        &&& token_at(raw, s, tok->Some_0)
        &&& off == scan_end(raw, s)
        &&& errors_at(raw, s, errs)
    }
}

/// The diagnostics recorded while reading the token at `s`.
pub open spec fn errors_at(raw: Seq<char>, s: int, errs: Seq<LexingError>) -> bool {
    match scan_error(raw, s) {
        None => errs.len() == 0,
        Some(k) => errs.len() == 1 && errs[0].kind == k && at(raw, errs[0].beg, s) && at(
            raw,
            errs[0].end,
            scan_end(raw, s),
        ),
    }
}

pub proof fn lemma_run_end(raw: Seq<char>, j: int, class: CharClass)
    requires
        0 <= j <= raw.len(),
    ensures
        j <= run_end(raw, j, class) <= raw.len(),
        forall|k: int| j <= k < run_end(raw, j, class) ==> in_class(class, #[trigger] raw[k]),
        run_end(raw, j, class) < raw.len() ==> !in_class(class, raw[run_end(raw, j, class)]),
    decreases raw.len() - j,
{
    if j < raw.len() && in_class(class, raw[j]) {
        lemma_run_end(raw, j + 1, class);
    }
}

pub proof fn lemma_trivia_end(raw: Seq<char>, i: int, in_comment: bool)
    requires
        0 <= i <= raw.len(),
    ensures
        i <= trivia_end(raw, i, in_comment) <= raw.len(),
    decreases raw.len() - i,
{
    if i < raw.len() {
        if in_comment {
            lemma_trivia_end(raw, i + 1, raw[i] != '\n');
        } else if space(raw[i]) || raw[i] == '#' {
            lemma_trivia_end(raw, i + 1, raw[i] == '#' && !space(raw[i]));
        }
    }
}

/// Every token consumes at least one character and ends within the text.
pub proof fn lemma_scan_progress(raw: Seq<char>, s: int)
    requires
        0 <= s < raw.len(),
    ensures
        s < scan_end(raw, s) <= raw.len(),
{
    lemma_run_end(raw, s + 1, CharClass::Poison);
    lemma_run_end(raw, s + 1, CharClass::Digit);
    lemma_run_end(raw, s + 1, CharClass::Ident);
    lemma_run_end(raw, s + 1, CharClass::Op);
    if s + 2 <= raw.len() {
        lemma_run_end(raw, s + 2, CharClass::Ident);
    }
    let d = run_end(raw, s + 1, CharClass::Digit);
    lemma_run_end(raw, d, CharClass::Poison);
}

} // verus!

verus! {

pub struct Lexer {
    src: String,
    curr_token: Option<Token>,
    errors: Vec<LexingError>,
}

impl Lexer {
    pub closed spec fn text(&self) -> Seq<char> {
        self.src.text()
    }

    /// How many characters of the source have been read.
    pub closed spec fn offset(&self) -> int {
        self.src.offset()
    }

    pub closed spec fn token(&self) -> Option<Token> {
        self.curr_token
    }

    pub closed spec fn diagnostics(&self) -> Seq<LexingError> {
        self.errors@
    }

    pub closed spec fn wf(&self) -> bool {
        self.src.wf()
    }

    pub proof fn lemma_wf(&self)
        requires
            self.wf(),
        ensures
            0 <= self.offset() <= self.text().len() < usize::MAX,
    {
        self.src.lemma_wf();
    }

    /// The lookahead token, if any, is what was read last, and lies within
    /// the text.
    pub open spec fn lookahead_ok(&self) -> bool {
        match self.token() {
            Some(t) => {
                &&& t.span.beg.index < t.span.end.index
                &&& t.span.end.index == self.offset()
                &&& points_into(self.text(), t.span.beg)
                &&& points_into(self.text(), t.span.end)
            },
            None => true,
        }
    }

    /// What is left to read, the lookahead token included.
    pub open spec fn remaining(&self) -> nat {
        ((self.text().len() - self.offset()) * 2 + if self.token() is Some { 1int } else { 0 }) as nat
    }

    /// Lexer over `src`, with the first token read.
    pub fn new(src: String) -> (l: Self)
        requires
            src.wf(),
            src.offset() == 0,
        ensures
            l.wf(),
            l.text() == src.text(),
            next_token(src.text(), 0, l.token(), l.offset(), l.diagnostics()),
            l.lookahead_ok(),
    {
        let mut l = Lexer { src, curr_token: None, errors: Vec::new() };
        l.next();
        l
    }

    /// The lookahead token, none at the end of input.
    pub fn curr(&self) -> (r: Option<Token>)
        ensures
            r == self.token(),
    {
        match &self.curr_token {
            Some(t) => Some(t.duplicate()),
            None => None,
        }
    }

    /// Diagnostics recorded so far.
    pub fn errors(&self) -> (r: &Vec<LexingError>)
        ensures
            r@ == self.diagnostics(),
    {
        &self.errors
    }

    /// The source being read.
    pub fn source(&self) -> (r: &String)
        requires
            self.wf(),
        ensures
            r.wf(),
            r.text() == self.text(),
    {
        &self.src
    }

    /// The place just after what has been read.
    pub fn curr_ptr(&self) -> (p: Pointer)
        requires
            self.wf(),
        ensures
            at(self.text(), p, self.offset()),
    {
        self.src.curr_ptr()
    }

    /// Reads the next token and makes it the lookahead.
    pub fn next(&mut self) -> (r: Option<Token>)
        requires
            old(self).wf(),
        ensures
            final(self).wf(),
            final(self).text() == old(self).text(),
            r == final(self).token(),
            next_token(
                old(self).text(),
                old(self).offset(),
                final(self).token(),
                final(self).offset(),
                final(self).diagnostics().subrange(
                    old(self).diagnostics().len() as int,
                    final(self).diagnostics().len() as int,
                ),
            ),
            final(self).diagnostics().len() >= old(self).diagnostics().len(),
            final(self).diagnostics().subrange(0, old(self).diagnostics().len() as int)
                == old(self).diagnostics(),
            old(self).token() is Some ==> final(self).remaining() < old(self).remaining(),
            old(self).offset() <= final(self).offset() <= final(self).text().len(),
            final(self).lookahead_ok(),
            final(self).token() is Some ==> old(self).offset() <= final(self).token()->Some_0.span.beg.index,
    {
        let ghost raw = self.text();
        proof {
            self.src.lemma_wf();
        }
        let ghost n0 = self.errors@.len();
        proof {
            lemma_trivia_end(raw, self.offset(), false);
        }
        self.skip_trivia();
        let ghost s = self.offset();
        let tok = match self.src.curr_char() {
            None => None,
            Some(ch) => {
                proof {
                    lemma_scan_progress(raw, s);
                }
                if '0' <= ch && ch <= '9' {
                    Some(self.collect_integer(ch))
                } else if is_beg_of_ident(ch) {
                    Some(self.collect_identifier())
                } else if is_part_of_op(ch) {
                    Some(self.collect_operator())
                } else if ch == '`' {
                    Some(self.collect_infix())
                } else if is_part_of_parenthesis(ch) {
                    Some(self.collect_parenthesis(ch))
                } else {
                    Some(self.collect_char(ch))
                }
            },
        };
        self.curr_token = tok;
        proof {
            self.src.lemma_wf();
            if s == raw.len() {
                assert(self.errors@.subrange(n0 as int, self.errors@.len() as int) =~= Seq::<
                    LexingError,
                >::empty());
            }
            assert(self.errors@.subrange(0, n0 as int) =~= old(self).errors@);
        }
        self.curr()
    }

    /// Passes over white space and comments.
    fn skip_trivia(&mut self)
        requires
            old(self).wf(),
        ensures
            final(self).wf(),
            final(self).text() == old(self).text(),
            final(self).offset() == trivia_end(old(self).text(), old(self).offset(), false),
            final(self).errors == old(self).errors,
            final(self).curr_token == old(self).curr_token,
    {
        let ghost raw = self.text();
        proof {
            self.src.lemma_wf();
        }
        let mut in_comment = false;
        loop
            invariant
                self.wf(),
                self.text() == raw,
                raw == old(self).text(),
                0 <= self.offset() <= raw.len(),
                trivia_end(raw, self.offset(), in_comment) == trivia_end(
                    raw,
                    old(self).offset(),
                    false,
                ),
                self.errors == old(self).errors,
                self.curr_token == old(self).curr_token,
            decreases raw.len() - self.offset(),
        {
            match self.src.curr_char() {
                None => {
                    return;
                },
                Some(ch) => {
                    if in_comment {
                        in_comment = ch != '\n';
                    } else if is_whitespace(ch) {
                    } else if ch == '#' {
                        in_comment = true;
                    } else {
                        return;
                    }
                    self.src.next_char();
                },
            }
        }
    }

    /// Moves on while the current character is in `class`.
    fn skip_run(&mut self, class: CharClass)
        requires
            old(self).wf(),
        ensures
            final(self).wf(),
            final(self).text() == old(self).text(),
            final(self).offset() == run_end(old(self).text(), old(self).offset(), class),
            final(self).errors == old(self).errors,
            final(self).curr_token == old(self).curr_token,
    {
        let ghost raw = self.text();
        proof {
            self.src.lemma_wf();
        }
        loop
            invariant
                self.wf(),
                self.text() == raw,
                raw == old(self).text(),
                0 <= self.offset() <= raw.len(),
                run_end(raw, self.offset(), class) == run_end(raw, old(self).offset(), class),
                self.errors == old(self).errors,
                self.curr_token == old(self).curr_token,
            decreases raw.len() - self.offset(),
        {
            match self.src.curr_char() {
                None => {
                    return;
                },
                Some(ch) => {
                    let inside = match class {
                        CharClass::Digit => '0' <= ch && ch <= '9',
                        CharClass::Ident => is_part_of_ident(ch),
                        CharClass::Op => is_part_of_op(ch),
                        CharClass::Poison => !(is_part_of_op(ch) || is_part_of_parenthesis(ch)
                            || is_whitespace(ch) || ch == '#'),
                    };
                    if !inside {
                        return;
                    }
                    self.src.next_char();
                },
            }
        }
    }

    /// Records an error spanning from `beg` to `end`.
    fn record(&mut self, kind: LexingErrorKind, beg: Pointer, end: Pointer)
        ensures
            final(self).src == old(self).src,
            final(self).curr_token == old(self).curr_token,
            final(self).errors@ == old(self).errors@.push(LexingError { kind, beg, end }),
    {
        self.errors.push(LexingError { kind, beg, end });
    }

    /// `new` is `old` after reading the token `t` that starts at `s`.
    pub closed spec fn collected(old: Lexer, new: Lexer, s: int, t: Token) -> bool {
        let n = old.errors@.len() as int;
        &&& new.wf()
        &&& new.text() == old.text()
        &&& new.offset() == scan_end(old.text(), s)
        &&& token_at(old.text(), s, t)
        &&& new.errors@.len() >= n
        &&& new.errors@.subrange(0, n) == old.errors@
        &&& errors_at(old.text(), s, new.errors@.subrange(n, new.errors@.len() as int))
        &&& new.curr_token == old.curr_token
    }
}


impl Lexer {
    /// Token of kind `kind` whose text runs from `text_beg` to here.
    fn token_since(&self, kind: Kind, beg: Pointer, text_beg: Pointer) -> (t: Token)
        requires
            self.wf(),
            points_into(self.text(), beg),
            points_into(self.text(), text_beg),
            text_beg.index <= self.offset(),
        ensures
            t.kind == kind,
            t.span.beg == beg,
            at(self.text(), t.span.end, self.offset()),
            t.value is String,
            t.value->String_0@ == self.text().subrange(text_beg.index as int, self.offset()),
    {
        let end = self.src.curr_ptr();
        let text = self.src.source_between(&text_beg, &end);
        Token { kind, value: Value::String(text), span: Span { beg, end } }
    }

    /// Reads the rest of a malformed literal that started at `beg`.
    fn collect_poisoned_integer(&mut self, kind: LexingErrorKind, beg: Pointer) -> (t: Token)
        requires
            old(self).wf(),
            points_into(old(self).text(), beg),
            beg.index <= old(self).offset(),
        ensures
            final(self).wf(),
            final(self).text() == old(self).text(),
            final(self).offset() == run_end(old(self).text(), old(self).offset(), CharClass::Poison),
            final(self).curr_token == old(self).curr_token,
            t.kind == Kind::Poisoned,
            t.span.beg == beg,
            at(old(self).text(), t.span.end, final(self).offset()),
            t.value is String,
            t.value->String_0@ == old(self).text().subrange(beg.index as int, final(self).offset()),
            final(self).errors@ == old(self).errors@.push(
                LexingError { kind, beg, end: t.span.end },
            ),
    {
        proof {
            self.src.lemma_wf();
            lemma_run_end(self.text(), self.offset(), CharClass::Poison);
        }
        self.skip_run(CharClass::Poison);
        let t = self.token_since(Kind::Poisoned, beg, beg);
        self.record(kind, beg, t.span.end);
        t
    }

    fn collect_integer(&mut self, ch: char) -> (t: Token)
        requires
            old(self).wf(),
            0 <= old(self).offset() < old(self).text().len(),
            old(self).text()[old(self).offset()] == ch,
            ascii_digit(ch),
        ensures
            Self::collected(*old(self), *final(self), old(self).offset(), t),
    {
        let ghost raw = self.text();
        proof {
            self.src.lemma_wf();
        }
        let ghost s = self.offset();
        let ghost n = self.errors@.len() as int;
        let beg = self.src.curr_ptr();
        proof {
            lemma_decimal_step(raw, s, s);
            assert(raw.subrange(s, s) =~= Seq::<char>::empty());
        }
        if ch == '0' {
            proof {
                lemma_decimal_step(raw, s, s + 1);
            }
            let next = self.src.next_char();
            let mut bad: Option<LexingErrorKind> = None;
            if let Some(c) = next {
                if '0' <= c && c <= '9' {
                    bad = Some(LexingErrorKind::IntegersCannotStartWithZero);
                } else if is_alphabetic(c) {
                    bad = Some(LexingErrorKind::NotAnInteger);
                }
            }
            match bad {
                Some(kind) => {
                    let t = self.collect_poisoned_integer(kind, beg);
                    proof {
                        assert(self.errors@.subrange(0, n) =~= old(self).errors@);
                        assert(self.errors@.subrange(n, self.errors@.len() as int) =~= seq![
                            self.errors@[n],
                        ]);
                    }
                    t
                },
                None => {
                    let end = self.src.curr_ptr();
                    proof {
                        assert(self.errors@.subrange(0, n) =~= old(self).errors@);
                        assert(self.errors@.subrange(n, n) =~= Seq::<LexingError>::empty());
                    }
                    Token { kind: Kind::IntLiteral, value: Value::Integer(0), span: Span { beg, end } }
                },
            }
        } else {
            let mut v: u64 = ((ch as u32) - ('0' as u32)) as u64;
            let mut overflow = false;
            self.src.next_char();
            proof {
                lemma_run_end(raw, s + 1, CharClass::Digit);
                lemma_decimal_step(raw, s, s + 1);
            }
            loop
                invariant
                    self.wf(),
                    self.text() == raw,
                    0 <= s < raw.len(),
                    s + 1 <= self.offset() <= run_end(raw, s + 1, CharClass::Digit),
                    run_end(raw, s + 1, CharClass::Digit) <= raw.len(),
                    forall|k: int| s + 1 <= k < run_end(raw, s + 1, CharClass::Digit) ==> ascii_digit(#[trigger] raw[k]),
                    run_end(raw, s + 1, CharClass::Digit) < raw.len() ==> !ascii_digit(raw[run_end(raw, s + 1, CharClass::Digit)]),
                    overflow == (decimal(raw.subrange(s, self.offset())) > u64::MAX),
                    !overflow ==> v == decimal(raw.subrange(s, self.offset())),
                    self.errors == old(self).errors,
                    self.curr_token == old(self).curr_token,
                ensures
                    self.wf(),
                    self.text() == raw,
                    0 <= s < raw.len(),
                    s + 1 <= self.offset() <= run_end(raw, s + 1, CharClass::Digit),
                    run_end(raw, s + 1, CharClass::Digit) <= raw.len(),
                    forall|k: int| s + 1 <= k < run_end(raw, s + 1, CharClass::Digit) ==> ascii_digit(#[trigger] raw[k]),
                    run_end(raw, s + 1, CharClass::Digit) < raw.len() ==> !ascii_digit(raw[run_end(raw, s + 1, CharClass::Digit)]),
                    overflow == (decimal(raw.subrange(s, self.offset())) > u64::MAX),
                    !overflow ==> v == decimal(raw.subrange(s, self.offset())),
                    self.errors == old(self).errors,
                    self.curr_token == old(self).curr_token,
                    self.offset() == run_end(raw, s + 1, CharClass::Digit),
                decreases raw.len() - self.offset(),
            {
                let c = match self.src.curr_char() {
                    None => break,
                    Some(c) => c,
                };
                if !('0' <= c && c <= '9') {
                    proof {
                        if self.offset() < run_end(raw, s + 1, CharClass::Digit) {
                            assert(ascii_digit(raw[self.offset()]));
                        }
                    }
                    break;
                }
                let ghost k = self.offset();
                proof {
                    lemma_decimal_step(raw, s, k + 1);
                }
                let d: u64 = ((c as u32) - ('0' as u32)) as u64;
                if !overflow {
                    if v <= (u64::MAX - d) / 10 {
                        assert(v * 10 + d <= u64::MAX) by (nonlinear_arith)
                            requires v <= (u64::MAX - d) / 10, d <= 9;
                        v = v * 10 + d;
                    } else {
                        assert(v * 10 + d > u64::MAX) by (nonlinear_arith)
                            requires v > (u64::MAX - d) / 10, d <= 9;
                        overflow = true;
                    }
                }
                self.src.next_char();
            }
            let mut alpha = false;
            if let Some(c) = self.src.curr_char() {
                alpha = is_alphabetic(c);
            }
            if alpha {
                let t = self.collect_poisoned_integer(LexingErrorKind::NotAnInteger, beg);
                proof {
                    assert(self.errors@.subrange(0, n) =~= old(self).errors@);
                    assert(self.errors@.subrange(n, self.errors@.len() as int) =~= seq![
                        self.errors@[n],
                    ]);
                }
                t
            } else if overflow {
                let t = self.token_since(Kind::Poisoned, beg, beg);
                self.record(LexingErrorKind::NotAnInteger, beg, t.span.end);
                proof {
                    assert(self.errors@.subrange(0, n) =~= old(self).errors@);
                    assert(self.errors@.subrange(n, self.errors@.len() as int) =~= seq![
                        self.errors@[n],
                    ]);
                }
                t
            } else {
                let end = self.src.curr_ptr();
                proof {
                    assert(self.errors@.subrange(0, n) =~= old(self).errors@);
                    assert(self.errors@.subrange(n, n) =~= Seq::<LexingError>::empty());
                }
                Token { kind: Kind::IntLiteral, value: Value::Integer(v), span: Span { beg, end } }
            }
        }
    }
}

impl Lexer {
    fn collect_identifier(&mut self) -> (t: Token)
        requires
            old(self).wf(),
            0 <= old(self).offset() < old(self).text().len(),
            ident_start(old(self).text()[old(self).offset()]),
            !ascii_digit(old(self).text()[old(self).offset()]),
        ensures
            Self::collected(*old(self), *final(self), old(self).offset(), t),
    {
        let ghost raw = self.text();
        proof {
            self.src.lemma_wf();
        }
        let ghost s = self.offset();
        let ghost n = self.errors@.len() as int;
        let beg = self.src.curr_ptr();
        self.src.next_char();
        proof {
            lemma_run_end(raw, s + 1, CharClass::Ident);
        }
        self.skip_run(CharClass::Ident);
        let end = self.src.curr_ptr();
        let symbol = self.src.source_between(&beg, &end);
        let kind = match is_keyword(symbol.as_str()) {
            Some(k) => k,
            None => Kind::Identifier,
        };
        proof {
            assert(self.errors@.subrange(0, n) =~= old(self).errors@);
            assert(self.errors@.subrange(n, n) =~= Seq::<LexingError>::empty());
        }
        Token { kind, value: Value::String(symbol), span: Span { beg, end } }
    }

    fn collect_operator(&mut self) -> (t: Token)
        requires
            old(self).wf(),
            0 <= old(self).offset() < old(self).text().len(),
            op_char(old(self).text()[old(self).offset()]),
            !ascii_digit(old(self).text()[old(self).offset()]),
            !ident_start(old(self).text()[old(self).offset()]),
        ensures
            Self::collected(*old(self), *final(self), old(self).offset(), t),
    {
        let ghost raw = self.text();
        proof {
            self.src.lemma_wf();
        }
        let ghost s = self.offset();
        let ghost n = self.errors@.len() as int;
        let beg = self.src.curr_ptr();
        self.src.next_char();
        proof {
            lemma_run_end(raw, s + 1, CharClass::Op);
        }
        self.skip_run(CharClass::Op);
        let end = self.src.curr_ptr();
        let symbol = self.src.source_between(&beg, &end);
        let kind = match is_operator(symbol.as_str()) {
            Some(k) => k,
            None => Kind::Operator,
        };
        proof {
            assert(self.errors@.subrange(0, n) =~= old(self).errors@);
            assert(self.errors@.subrange(n, n) =~= Seq::<LexingError>::empty());
        }
        Token { kind, value: Value::String(symbol), span: Span { beg, end } }
    }

    /// A name used as an infix operator: a backtick and an identifier.
    fn collect_infix(&mut self) -> (t: Token)
        requires
            old(self).wf(),
            0 <= old(self).offset() < old(self).text().len(),
            old(self).text()[old(self).offset()] == '`',
            !ident_start(old(self).text()[old(self).offset()]),
        ensures
            Self::collected(*old(self), *final(self), old(self).offset(), t),
    {
        let ghost raw = self.text();
        proof {
            self.src.lemma_wf();
        }
        let ghost s = self.offset();
        let ghost n = self.errors@.len() as int;
        let beg = self.src.curr_ptr();
        let next = self.src.next_char();
        let mut ident = false;
        if let Some(c) = next {
            ident = is_beg_of_ident(c);
        }
        if ident {
            let text_beg = self.src.curr_ptr();
            self.src.next_char();
            proof {
                lemma_run_end(raw, s + 2, CharClass::Ident);
            }
            self.skip_run(CharClass::Ident);
            let t = self.token_since(Kind::InfixIdent, beg, text_beg);
            proof {
                assert(self.errors@.subrange(0, n) =~= old(self).errors@);
                assert(self.errors@.subrange(n, n) =~= Seq::<LexingError>::empty());
            }
            t
        } else {
            let t = self.token_since(Kind::Poisoned, beg, beg);
            self.record(LexingErrorKind::UnknownCharacter('`'), beg, t.span.end);
            proof {
                assert(self.errors@.subrange(0, n) =~= old(self).errors@);
                assert(self.errors@.subrange(n, self.errors@.len() as int) =~= seq![self.errors@[n]]);
            }
            t
        }
    }

    /// One of the punctuation characters.
    fn collect_parenthesis(&mut self, ch: char) -> (t: Token)
        requires
            old(self).wf(),
            0 <= old(self).offset() < old(self).text().len(),
            old(self).text()[old(self).offset()] == ch,
            punct_char(ch),
            !ascii_digit(ch),
            !ident_start(ch),
            !op_char(ch),
        ensures
            Self::collected(*old(self), *final(self), old(self).offset(), t),
    {
        let ghost raw = self.text();
        proof {
            self.src.lemma_wf();
        }
        let ghost s = self.offset();
        let ghost n = self.errors@.len() as int;
        let beg = self.src.curr_ptr();
        self.src.next_char();
        let end = self.src.curr_ptr();
        let symbol = self.src.source_between(&beg, &end);
        proof {
            assert(symbol@ =~= seq![ch]);
        }
        let kind = match is_operator(symbol.as_str()) {
            Some(k) => k,
            None => Kind::Poisoned,
        };
        proof {
            assert(self.errors@.subrange(0, n) =~= old(self).errors@);
            assert(self.errors@.subrange(n, n) =~= Seq::<LexingError>::empty());
        }
        Token { kind, value: Value::String(symbol), span: Span { beg, end } }
    }

    /// A character that starts no token.
    fn collect_char(&mut self, ch: char) -> (t: Token)
        requires
            old(self).wf(),
            0 <= old(self).offset() < old(self).text().len(),
            old(self).text()[old(self).offset()] == ch,
            !punct_char(ch),
            !ascii_digit(ch),
            !ident_start(ch),
            !op_char(ch),
            ch != '`',
        ensures
            Self::collected(*old(self), *final(self), old(self).offset(), t),
    {
        let ghost n = self.errors@.len() as int;
        proof {
            self.src.lemma_wf();
        }
        let beg = self.src.curr_ptr();
        self.src.next_char();
        let t = self.token_since(Kind::Poisoned, beg, beg);
        self.record(LexingErrorKind::UnknownCharacter(ch), beg, t.span.end);
        proof {
            assert(self.errors@.subrange(0, n) =~= old(self).errors@);
            assert(self.errors@.subrange(n, self.errors@.len() as int) =~= seq![self.errors@[n]]);
        }
        t
    }
}

/// Reading one more digit multiplies the value by ten and adds the digit.
pub proof fn lemma_decimal_step(raw: Seq<char>, s: int, k: int)
    requires
        0 <= s <= k <= raw.len(),
    ensures
        k > s ==> decimal(raw.subrange(s, k)) == decimal(raw.subrange(s, k - 1)) * 10
            + digit_value(raw[k - 1]),
        k == s ==> decimal(raw.subrange(s, k)) == 0,
{
    if k > s {
        assert(raw.subrange(s, k).drop_last() =~= raw.subrange(s, k - 1));
    } else {
        assert(raw.subrange(s, k) =~= Seq::<char>::empty());
    }
}

} // verus!

verus! {

/// A run of decimal digits from `s` to `e` that is `0` or starts with a
/// non-zero digit, is followed by neither a digit nor a letter, and fits in
/// 64 bits, is read as one integer literal with the run's value, spanning
/// the whole run, with no diagnostic.
pub proof fn lemma_integer_literal(raw: Seq<char>, s: int, e: int)
    requires
        0 <= s < e <= raw.len(),
        forall|k: int| s <= k < e ==> ascii_digit(#[trigger] raw[k]),
        raw[s] == '0' ==> e == s + 1,
        e < raw.len() ==> !ascii_digit(raw[e]) && !letter(raw[e]),
        decimal(raw.subrange(s, e)) <= u64::MAX,
    ensures
        scan_kind(raw, s) == Kind::IntLiteral,
        scan_end(raw, s) == e,
        scan_error(raw, s) is None,
{
    lemma_run_end(raw, s + 1, CharClass::Digit);
    let d = run_end(raw, s + 1, CharClass::Digit);
    if d < e {
        assert(ascii_digit(raw[d]));
    }
    if d > e {
        assert(ascii_digit(raw[e]));
    }
}

/// A `0` followed by a digit is read as a poisoned token up to the next
/// white space, comment or operator character, with an
/// `IntegersCannotStartWithZero` diagnostic; digits that do not start with
/// `0` and run into a letter give a poisoned token and `NotAnInteger`.
pub proof fn lemma_malformed_integer(raw: Seq<char>, s: int)
    requires
        0 <= s,
        s + 1 < raw.len(),
        ascii_digit(raw[s]),
    ensures
        raw[s] == '0' && ascii_digit(raw[s + 1]) ==> scan_kind(raw, s) == Kind::Poisoned
            && scan_error(raw, s) == Some(LexingErrorKind::IntegersCannotStartWithZero)
            && scan_end(raw, s) == run_end(raw, s + 1, CharClass::Poison),
        ({
            let d = run_end(raw, s + 1, CharClass::Digit);
            raw[s] != '0' && d < raw.len() && letter(raw[d]) ==> scan_kind(raw, s)
                == Kind::Poisoned && scan_error(raw, s) == Some(LexingErrorKind::NotAnInteger)
                && scan_end(raw, s) == run_end(raw, d, CharClass::Poison)
        }),
{
}

} // verus!
