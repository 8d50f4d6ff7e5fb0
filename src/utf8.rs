//! Reading UTF-8 encoded characters from bytes.

use vstd::prelude::*;

verus! {

#[derive(Clone, Copy, Debug, PartialEq, Eq, Structural)]
pub enum Utf8Error {
    /// The bytes ended before the character did.
    UnexpectedEof,
    /// A byte that cannot start a character.
    InvalidLeadingByte(u8),
    /// A byte inside a character that is not a continuation byte.
    InvalidContinuationByte(u8),
    /// The bytes encode no Unicode scalar value.
    InvalidCodePoint(u32),
}

/// Length of the character that a leading byte starts, if it can start one.
pub open spec fn utf8_len(b: u8) -> Option<int> {
    if b & 0x80u8 == 0 {
        Some(1)
    } else if b & 0xE0u8 == 0xC0u8 {
        Some(2)
    } else if b & 0xF0u8 == 0xE0u8 {
        Some(3)
    } else if b & 0xF8u8 == 0xF0u8 {
        Some(4)
    } else {
        None
    }
}

pub open spec fn continuation(b: u8) -> bool {
    b & 0xC0u8 == 0x80u8
}

/// Code point encoded by the bytes of one character.
pub open spec fn decode(b: Seq<u8>) -> u32 {
    if b.len() == 1 {
        b[0] as u32
    } else if b.len() == 2 {
        (((b[0] & 0x1Fu8) as u32) << 6u32) | ((b[1] & 0x3Fu8) as u32)
    } else if b.len() == 3 {
        (((b[0] & 0x0Fu8) as u32) << 12u32) | (((b[1] & 0x3Fu8) as u32) << 6u32) | ((b[2]
            & 0x3Fu8) as u32)
    } else {
        (((b[0] & 0x07u8) as u32) << 18u32) | (((b[1] & 0x3Fu8) as u32) << 12u32) | (((b[2]
            & 0x3Fu8) as u32) << 6u32) | ((b[3] & 0x3Fu8) as u32)
    }
}

pub open spec fn scalar_value(cp: u32) -> bool {
    cp < 0xD800 || (0xE000 <= cp && cp <= 0x10FFFF)
}

/// Relies on `char::from_u32`: the character of a Unicode scalar value,
/// none for a surrogate or a value past 0x10FFFF.
#[verifier::external_body]
fn char_from_u32(cp: u32) -> (r: Option<char>)
    ensures
        r is Some <==> scalar_value(cp),
        r matches Some(c) ==> c as u32 == cp,
{
    char::from_u32(cp)
}

/// Length of the character that starts with the first byte.
pub fn char_len(bytes: &[u8]) -> (r: Result<usize, Utf8Error>)
    requires
        bytes@.len() > 0,
    ensures
        match utf8_len(bytes@[0]) {
            Some(n) => r == Ok::<usize, Utf8Error>(n as usize),
            None => r == Err::<usize, Utf8Error>(Utf8Error::InvalidLeadingByte(bytes@[0])),
        },
{
    let byte = bytes[0];
    if byte & 0x80u8 == 0 {
        return Ok(1);
    }
    if byte & 0xE0u8 == 0xC0u8 {
        return Ok(2);
    }
    if byte & 0xF0u8 == 0xE0u8 {
        return Ok(3);
    }
    if byte & 0xF8u8 == 0xF0u8 {
        return Ok(4);
    }
    Err(Utf8Error::InvalidLeadingByte(byte))
}

/// Code point of the character whose bytes are `bytes`.
pub fn code_point(bytes: &[u8]) -> (r: u32)
    requires
        1 <= bytes@.len() <= 4,
    ensures
        r == decode(bytes@),
{
    if bytes.len() == 1 {
        bytes[0] as u32
    } else if bytes.len() == 2 {
        (((bytes[0] & 0x1Fu8) as u32) << 6u32) | ((bytes[1] & 0x3Fu8) as u32)
    } else if bytes.len() == 3 {
        (((bytes[0] & 0x0Fu8) as u32) << 12u32) | (((bytes[1] & 0x3Fu8) as u32) << 6u32) | ((
        bytes[2] & 0x3Fu8) as u32)
    } else {
        (((bytes[0] & 0x07u8) as u32) << 18u32) | (((bytes[1] & 0x3Fu8) as u32) << 12u32) | (((
        bytes[2] & 0x3Fu8) as u32) << 6u32) | ((bytes[3] & 0x3Fu8) as u32)
    }
}

/// Reads UTF-8 characters one after another from a sequence of bytes.
pub struct Reader {
    buff: Vec<u8>,
    pos: usize,
}

impl Reader {
    pub closed spec fn bytes(&self) -> Seq<u8> {
        self.buff@
    }

    /// How many bytes have been read.
    pub closed spec fn offset(&self) -> int {
        self.pos as int
    }

    pub fn new(inner: &[u8]) -> (r: Self)
        ensures
            r.bytes() == inner@,
            r.offset() == 0,
    {
        let mut buff: Vec<u8> = Vec::new();
        let mut i: usize = 0;
        while i < inner.len()
            invariant
                i <= inner@.len(),
                buff@ == inner@.subrange(0, i as int),
            decreases inner@.len() - i,
        {
            buff.push(inner[i]);
            assert(inner@.subrange(0, i + 1) =~= inner@.subrange(0, i as int).push(inner@[i as int]));
            i += 1;
        }
        assert(inner@.subrange(0, inner@.len() as int) =~= inner@);
        Reader { buff, pos: 0 }
    }

    /// Reads the next character. On success the bytes it took are passed;
    /// on an error nothing is.
    pub fn read_utf8_char(&mut self) -> (r: Result<char, Utf8Error>)
        requires
            0 <= old(self).offset() <= old(self).bytes().len(),
        ensures
            final(self).bytes() == old(self).bytes(),
            0 <= final(self).offset() <= final(self).bytes().len(),
            ({
                let b = old(self).bytes();
                let p = old(self).offset();
                if p >= b.len() {
                    r == Err::<char, Utf8Error>(Utf8Error::UnexpectedEof)
                } else {
                    match utf8_len(b[p]) {
                        None => r == Err::<char, Utf8Error>(Utf8Error::InvalidLeadingByte(b[p])),
                        Some(n) => if p + n > b.len() {
                            r == Err::<char, Utf8Error>(Utf8Error::UnexpectedEof)
                        } else if exists|k: int| p + 1 <= k < p + n && !continuation(#[trigger] b[k]) {
                            r is Err && r->Err_0 is InvalidContinuationByte
                        } else if !scalar_value(decode(b.subrange(p, p + n))) {
                            r == Err::<char, Utf8Error>(Utf8Error::InvalidCodePoint(decode(b.subrange(p, p + n))))
                        } else {
                            r is Ok && r->Ok_0 as u32 == decode(b.subrange(p, p + n))
                                && final(self).offset() == p + n
                        },
                    }
                }
            }),
            r is Err ==> final(self).offset() == old(self).offset(),
    {
        if self.pos >= self.buff.len() {
            return Err(Utf8Error::UnexpectedEof);
        }
        let lead = vec![self.buff[self.pos]];
        assert(lead@[0] == self.buff@[self.pos as int]);
        let n = match char_len(lead.as_slice()) {
            Ok(n) => n,
            Err(e) => {
                return Err(e);
            },
        };
        if n > self.buff.len() - self.pos {
            return Err(Utf8Error::UnexpectedEof);
        }
        let mut chunk: Vec<u8> = Vec::new();
        chunk.push(self.buff[self.pos]);
        let mut k: usize = 1;
        let len = self.buff.len();
        while k < n
            invariant
                1 <= k <= n <= 4,
                len == self.buff@.len(),
                self.pos < self.buff@.len(),
                utf8_len(self.buff@[self.pos as int]) == Some(n as int),
                self.pos == old(self).pos,
                self.buff == old(self).buff,
                self.pos + n <= self.buff@.len(),
                chunk@ == self.buff@.subrange(self.pos as int, self.pos + k),
                forall|j: int| self.pos + 1 <= j < self.pos + k ==> continuation(#[trigger] self.buff@[j]),
            decreases n - k,
        {
            let b = self.buff[self.pos + k];
            if b & 0xC0u8 != 0x80u8 {
                assert(!continuation(self.buff@[self.pos + k]));
                return Err(Utf8Error::InvalidContinuationByte(b));
            }
            chunk.push(b);
            assert(self.buff@.subrange(self.pos as int, self.pos + k + 1) =~= self.buff@.subrange(self.pos as int, self.pos + k).push(b));
            k += 1;
        }
        let cp = code_point(chunk.as_slice());
        match char_from_u32(cp) {
            Some(c) => {
                self.pos = self.pos + n;
                Ok(c)
            },
            None => Err(Utf8Error::InvalidCodePoint(cp)),
        }
    }
}

} // verus!
