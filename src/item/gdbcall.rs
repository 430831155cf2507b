//! Items of the debugger-call kind.
use vstd::prelude::*;

use crate::libc::EINVAL;
use crate::Result;

verus! {

/// Number of an [`Item`](super::Item) of [`Kind::Gdbcall`](super::Kind::Gdbcall).
#[derive(Clone, Copy, Debug, PartialEq, Eq, Structural)]
pub enum Number {
    Write,
    WriteAll,
    Flush,
    OnSessionStart,
    Read,
    Peek,
}

impl Number {
    /// The word that encodes this number.
    pub open spec fn spec_code(self) -> u64 {
        match self {
            Number::Write => 0x00,
            Number::WriteAll => 0x02,
            Number::Flush => 0x03,
            Number::OnSessionStart => 0x04,
            Number::Read => 0x05,
            Number::Peek => 0x06,
        }
    }

    /// The word that encodes this number.
    pub fn code(self) -> (r: u64)
        ensures
            r == self.spec_code(),
    {
        match self {
            Number::Write => 0x00,
            Number::WriteAll => 0x02,
            Number::Flush => 0x03,
            Number::OnSessionStart => 0x04,
            Number::Read => 0x05,
            Number::Peek => 0x06,
        }
    }

    /// Decodes a number; a word that encodes none is `EINVAL`.
    pub fn try_from(num: u64) -> (r: Result<Number>)
        ensures
            match r {
                Ok(n) => n.spec_code() == num,
                Err(e) => e == EINVAL && (num == 1 || num > 6),
            },
    {
        if num == 0x00 {
            Ok(Number::Write)
        } else if num == 0x02 {
            Ok(Number::WriteAll)
        } else if num == 0x03 {
            Ok(Number::Flush)
        } else if num == 0x04 {
            Ok(Number::OnSessionStart)
        } else if num == 0x05 {
            Ok(Number::Read)
        } else if num == 0x06 {
            Ok(Number::Peek)
        } else {
            Err(EINVAL)
        }
    }
}

/// Payload of an [`Item`](super::Item) of [`Kind::Gdbcall`](super::Kind::Gdbcall).
#[derive(Clone, Copy, Debug, PartialEq, Eq)]
pub struct Payload {
    pub num: Number,
    pub argv: [u64; 4],
    pub ret: u64,
}

/// Words in a debugger-call payload.
pub const USIZE_COUNT: usize = 6;

impl Payload {
    /// Decodes a payload from its words: the number, four arguments and the
    /// return value.
    pub fn from_words(words: [u64; 6]) -> (r: Result<Payload>)
        ensures
            match r {
                Ok(p) => p.num.spec_code() == words@[0] && p.argv@ == words@.subrange(1, 5)
                    && p.ret == words@[5],
                Err(e) => e == EINVAL,
            },
    {
        let num = Number::try_from(words[0])?;
        let argv = [words[1], words[2], words[3], words[4]];
        assert(argv@ =~= words@.subrange(1, 5));
        Ok(Payload { num, argv, ret: words[5] })
    }

    /// The words of this payload.
    pub fn to_words(self) -> (r: [u64; 6])
        ensures
            r@ == seq![self.num.spec_code()] + self.argv@ + seq![self.ret],
    {
        let r = [self.num.code(), self.argv[0], self.argv[1], self.argv[2], self.argv[3], self.ret];
        assert(r@ =~= seq![self.num.spec_code()] + self.argv@ + seq![self.ret]);
        r
    }
}

} // verus!
