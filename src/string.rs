//! A program source held in memory as a sequence of characters.

use vstd::prelude::*;
use crate::source::{Pointer, Span};
use crate::text::{chars_of, string_of};

verus! {

/// Line, from one, of the place `i` characters into `raw`.
pub open spec fn line_at(raw: Seq<char>, i: int) -> int
    decreases i,
{
    if i <= 0 {
        1
    } else if raw[i - 1] == '\n' {
        line_at(raw, i - 1) + 1
    } else {
        line_at(raw, i - 1)
    }
}

/// In-line position, from one, of the place `i` characters into `raw`.
/// Past the last character the position stays where the last one was, or
/// is zero on a fresh line.
pub open spec fn position_at(raw: Seq<char>, i: int) -> int
    decreases i,
{
    if i <= 0 {
        1
    } else if raw[i - 1] == '\n' {
        if i < raw.len() { 1 } else { 0 }
    } else {
        position_at(raw, i - 1) + if i < raw.len() { 1int } else { 0int }
    }
}

/// `p` is a place in `raw`, with its line and position.
pub open spec fn points_into(raw: Seq<char>, p: Pointer) -> bool {
    &&& p.index <= raw.len()
    &&& p.line == line_at(raw, p.index as int)
    &&& p.position == position_at(raw, p.index as int)
}

pub proof fn lemma_line_position_bounds(raw: Seq<char>, i: int)
    requires
        0 <= i <= raw.len(),
    ensures
        1 <= line_at(raw, i) <= i + 1,
        0 <= position_at(raw, i) <= i + 1,
    decreases i,
{
    if i > 0 {
        lemma_line_position_bounds(raw, i - 1);
    }
}

/// Program source given as a string.
///
/// The current place counts the characters already passed; the source
/// keeps the line and position of the character there.
pub struct String {
    raw: Vec<char>,
    curr_line: usize,
    curr_pos: usize,
    index: usize,
    /// The character at the current place is a line feed: the next step
    /// starts a new line.
    switch_line: bool,
}

impl String {
    /// The characters of the source.
    pub closed spec fn text(&self) -> Seq<char> {
        self.raw@
    }

    /// How many characters lie before the current place.
    pub closed spec fn offset(&self) -> int {
        self.index as int
    }

    pub closed spec fn wf(&self) -> bool {
        &&& self.raw@.len() < usize::MAX
        &&& self.index <= self.raw@.len()
        &&& self.curr_line == line_at(self.raw@, self.index as int)
        &&& self.curr_pos == position_at(self.raw@, self.index as int)
        &&& self.switch_line == (self.index < self.raw@.len() && self.raw@[self.index as int] == '\n')
    }

    pub proof fn lemma_wf(&self)
        requires
            self.wf(),
        ensures
            0 <= self.offset() <= self.text().len() < usize::MAX,
    {
    }

    /// Source over the characters of `raw`, pointing at the first one.
    pub fn from_chars(raw: Vec<char>) -> (s: Self)
        requires
            raw@.len() < usize::MAX,
        ensures
            s.wf(),
            s.text() == raw@,
            s.offset() == 0,
    {
        let switch_line = raw.len() > 0 && raw[0] == '\n';
        String { raw, curr_line: 1, curr_pos: 1, index: 0, switch_line }
    }

    /// Source over `raw`, pointing at its first character.
    pub fn from_str(raw: &str) -> (s: Self)
        requires
            raw@.len() < usize::MAX,
        ensures
            s.wf(),
            s.text() == raw@,
            s.offset() == 0,
    {
        Self::from_chars(chars_of(raw))
    }

    /// Source over `raw`, pointing at its first character.
    pub fn from_string(raw: std::string::String) -> (s: Self)
        requires
            raw@.len() < usize::MAX,
        ensures
            s.wf(),
            s.text() == raw@,
            s.offset() == 0,
    {
        Self::from_chars(chars_of(raw.as_str()))
    }

    /// Number of characters in the source.
    pub fn text_len(&self) -> (r: usize)
        ensures
            r == self.text().len(),
    {
        self.raw.len()
    }

    /// The character at the current place, none past the end.
    pub fn curr_char(&self) -> (r: Option<char>)
        requires
            self.wf(),
        ensures
            r == (if self.offset() < self.text().len() {
                Some(self.text()[self.offset()])
            } else {
                None::<char>
            }),
    {
        if self.index < self.raw.len() {
            Some(self.raw[self.index])
        } else {
            None
        }
    }

    /// Moves one character on, unless the end has been reached, and
    /// returns the character then current.
    pub fn next_char(&mut self) -> (r: Option<char>)
        requires
            old(self).wf(),
        ensures
            final(self).wf(),
            final(self).text() == old(self).text(),
            final(self).offset() == if old(self).offset() < old(self).text().len() {
                old(self).offset() + 1
            } else {
                old(self).offset()
            },
            r == (if final(self).offset() < final(self).text().len() {
                Some(final(self).text()[final(self).offset()])
            } else {
                None::<char>
            }),
    {
        if self.index == self.raw.len() {
            return None;
        }
        proof {
            lemma_line_position_bounds(self.raw@, self.index as int);
        }
        self.index += 1;
        let opt = if self.index < self.raw.len() {
            Some(self.raw[self.index])
        } else {
            None
        };
        if self.switch_line {
            self.switch_line = false;
            self.curr_line += 1;
            self.curr_pos = 0;
        }
        match opt {
            Some(ch) => {
                if ch == '\n' {
                    self.switch_line = true;
                }
                self.curr_pos += 1;
            },
            None => {},
        }
        opt
    }

    /// The current place.
    pub fn curr_ptr(&self) -> (p: Pointer)
        requires
            self.wf(),
        ensures
            points_into(self.text(), p),
            p.index == self.offset(),
    {
        Pointer { index: self.index, line: self.curr_line, position: self.curr_pos }
    }

    /// Copy of the text from `begin` up to, not including, `end`.
    pub fn source_between(&self, begin: &Pointer, end: &Pointer) -> (r: std::string::String)
        requires
            self.wf(),
            begin.index <= end.index <= self.text().len(),
        ensures
            r@ == self.text().subrange(begin.index as int, end.index as int),
    {
        string_of(&self.raw, begin.index, end.index)
    }

    /// Copy of the text that `span` covers.
    pub fn source_with_span(&self, span: &Span) -> (r: std::string::String)
        requires
            self.wf(),
            span.beg.index <= span.end.index <= self.text().len(),
        ensures
            r@ == self.text().subrange(span.beg.index as int, span.end.index as int),
    {
        self.source_between(&span.beg, &span.end)
    }
}

} // verus!
