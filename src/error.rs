//! Diagnostics of the whole front end, and their rendering.

use vstd::prelude::*;
use vstd::string::*;
use crate::epr::UnknownPrecedense;
use crate::errors::ParserError;
use crate::lexer::{LexingError, LexingErrorKind};
use crate::source::Pointer;
use crate::string::String as Source;
use crate::text::push_char;

verus! {

/// A diagnostic of any stage.
pub enum LangError {
    Lexing(LexingError),
    Parsing(ParserError),
    UnknownPrecedence(UnknownPrecedense),
}

pub open spec fn lexing_desc(k: LexingErrorKind) -> Seq<char> {
    match k {
        LexingErrorKind::IntegersCannotStartWithZero => "integers cannot start with 0"@,
        LexingErrorKind::NotAnInteger => "literal is not an integer but it starts like one"@,
        LexingErrorKind::UnknownCharacter(_) => "unknown character"@,
    }
}

impl LangError {
    pub open spec fn begin_spec(&self) -> Pointer {
        match self {
            LangError::Lexing(e) => e.beg,
            LangError::Parsing(e) => e.span().beg,
            LangError::UnknownPrecedence(e) => e.e_beg,
        }
    }

    pub open spec fn end_spec(&self) -> Pointer {
        match self {
            LangError::Lexing(e) => e.end,
            LangError::Parsing(e) => e.span().end,
            LangError::UnknownPrecedence(e) => e.e_end,
        }
    }

    pub open spec fn desc_spec(&self) -> Seq<char> {
        match self {
            LangError::Lexing(e) => lexing_desc(e.kind),
            LangError::Parsing(e) => e.msg@,
            LangError::UnknownPrecedence(e) => "Unknown operator precedence: "@ + e.ident@,
        }
    }

    pub fn desc(&self) -> (r: String)
        ensures
            r@ == self.desc_spec(),
    {
        match self {
            LangError::Lexing(e) => match e.kind {
                LexingErrorKind::IntegersCannotStartWithZero => "integers cannot start with 0".to_owned(),
                LexingErrorKind::NotAnInteger => "literal is not an integer but it starts like one".to_owned(),
                LexingErrorKind::UnknownCharacter(_) => "unknown character".to_owned(),
            },
            LangError::Parsing(e) => e.desc(),
            LangError::UnknownPrecedence(e) => e.desc(),
        }
    }

    pub fn begin(&self) -> (r: Pointer)
        ensures
            r == self.begin_spec(),
    {
        match self {
            LangError::Lexing(e) => e.beg,
            LangError::Parsing(e) => e.begin(),
            LangError::UnknownPrecedence(e) => e.e_beg,
        }
    }

    pub fn end(&self) -> (r: Pointer)
        ensures
            r == self.end_spec(),
    {
        match self {
            LangError::Lexing(e) => e.end,
            LangError::Parsing(e) => e.end(),
            LangError::UnknownPrecedence(e) => e.e_end,
        }
    }
}

pub open spec fn digit_char(d: nat) -> char {
    if d == 0 { '0' } else if d == 1 { '1' } else if d == 2 { '2' } else if d == 3 { '3' }
    else if d == 4 { '4' } else if d == 5 { '5' } else if d == 6 { '6' } else if d == 7 { '7' }
    else if d == 8 { '8' } else { '9' }
}

/// Decimal text of a number.
pub open spec fn decimal_text(n: nat) -> Seq<char>
    decreases n,
{
    if n < 10 {
        seq![digit_char(n)]
    } else {
        decimal_text(n / 10).push(digit_char(n % 10))
    }
}

/// Appends the decimal text of `n`.
pub fn push_decimal(s: &mut String, n: usize)
    ensures
        final(s)@ == old(s)@ + decimal_text(n as nat),
    decreases n,
{
    if n >= 10 {
        push_decimal(s, n / 10);
    }
    let d = n % 10;
    let c = if d == 0 { '0' } else if d == 1 { '1' } else if d == 2 { '2' } else if d == 3 { '3' }
    else if d == 4 { '4' } else if d == 5 { '5' } else if d == 6 { '6' } else if d == 7 { '7' }
    else if d == 8 { '8' } else { '9' };
    push_char(s, c);
    assert(s@ =~= old(s)@ + decimal_text(n as nat));
}

/// The source text an error points at, or nothing where its pointers lie
/// outside the text.
pub open spec fn snippet(text: Seq<char>, e: LangError) -> Seq<char> {
    let (b, f) = (e.begin_spec().index as int, e.end_spec().index as int);
    if b <= f <= text.len() { text.subrange(b, f) } else { Seq::empty() }
}

/// `[line:position] description`, a blank line, the source text of the
/// error, and another blank line.
pub open spec fn rendered(text: Seq<char>, e: LangError) -> Seq<char> {
    "["@ + decimal_text(e.begin_spec().line as nat) + ":"@ + decimal_text(
        e.begin_spec().position as nat,
    ) + "] "@ + e.desc_spec() + "\n\n"@ + snippet(text, e) + "\n\n"@
}

pub open spec fn rendered_all(text: Seq<char>, errs: Seq<LangError>) -> Seq<char>
    decreases errs.len(),
{
    if errs.len() == 0 {
        Seq::empty()
    } else {
        rendered_all(text, errs.drop_last()) + rendered(text, errs.last())
    }
}

/// Accumulates the diagnostics of a compilation unit.
pub struct Handler {
    errs: Vec<LangError>,
}

impl Handler {
    pub closed spec fn errors(&self) -> Seq<LangError> {
        self.errs@
    }

    pub fn new() -> (r: Self)
        ensures
            r.errors().len() == 0,
    {
        Handler { errs: Vec::new() }
    }

    /// Records a diagnostic.
    pub fn err(&mut self, err: LangError)
        ensures
            final(self).errors() == old(self).errors().push(err),
    {
        self.errs.push(err);
    }

    /// Every diagnostic rendered in turn; none when nothing was recorded.
    pub fn error_msg(&self, src: &Source) -> (r: Option<String>)
        requires
            src.wf(),
        ensures
            r is None <==> self.errors().len() == 0,
            r matches Some(m) ==> m@ == rendered_all(src.text(), self.errors()),
    {
        if self.errs.len() == 0 {
            return None;
        }
        let mut mess = String::new();
        let mut i: usize = 0;
        while i < self.errs.len()
            invariant
                src.wf(),
                i <= self.errs@.len(),
                mess@ == rendered_all(src.text(), self.errs@.subrange(0, i as int)),
            decreases self.errs@.len() - i,
        {
            let m = self.err_to_str(&self.errs[i], src);
            mess.append(m.as_str());
            proof {
                assert(self.errs@.subrange(0, i + 1).drop_last() =~= self.errs@.subrange(0, i as int));
            }
            i += 1;
        }
        proof {
            assert(self.errs@.subrange(0, self.errs@.len() as int) =~= self.errs@);
        }
        Some(mess)
    }

    /// One diagnostic rendered.
    pub fn err_to_str(&self, err: &LangError, src: &Source) -> (r: String)
        requires
            src.wf(),
        ensures
            r@ == rendered(src.text(), *err),
    {
        let beg = err.begin();
        let end = err.end();
        let mut s = "[".to_owned();
        push_decimal(&mut s, beg.line);
        s.append(":");
        push_decimal(&mut s, beg.position);
        s.append("] ");
        s.append(err.desc().as_str());
        s.append("\n\n");
        proof {
            src.lemma_wf();
        }
        if beg.index <= end.index && end.index <= src.text_len() {
            s.append(src.source_between(&beg, &end).as_str());
        }
        s.append("\n\n");
        proof {
            assert(s@ =~= rendered(src.text(), *err));
        }
        s
    }
}

} // verus!
