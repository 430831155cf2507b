//! Items of a block: the header that frames each one, the kinds, and the
//! little-endian machine words everything in a block is written in.
use vstd::prelude::*;

use crate::libc::EINVAL;
use crate::Result;

pub mod enarxcall;
pub mod gdbcall;

verus! {

/// Bytes in a machine word of the block.
pub const WORD_SIZE: usize = 8;

/// Words in an item header.
pub const HEADER_USIZE_COUNT: usize = 2;

/// Bytes in an item header.
pub const HEADER_SIZE: usize = 16;

/// Words in the payload of a syscall item: the number, six arguments and
/// two return registers.
pub const SYSCALL_USIZE_COUNT: usize = 9;

/// Bytes in the payload of a syscall item.
pub const SYSCALL_PAYLOAD_SIZE: usize = 72;

/// The maximum size of a UDP packet
///
/// The maximum UDP message size is 65507, as determined by the following formula:
/// 0xffff - (sizeof(minimal IP Header) + sizeof(UDP Header)) = 65535-(20+8) = 65507
pub const MAX_UDP_PACKET_SIZE: usize = 65507;

/// Bytes in the largest payload of any item kind.
pub const LARGEST_PAYLOAD_SIZE: usize = SYSCALL_PAYLOAD_SIZE;

/// Bytes in the largest item without variable data: a header and the
/// largest payload.
pub const LARGEST_ITEM_SIZE: usize = HEADER_SIZE + LARGEST_PAYLOAD_SIZE;

// ---------------------------------------------------------------------------
// Words
// ---------------------------------------------------------------------------

/// The eight little-endian bytes of `w`.
pub open spec fn word_bytes(w: u64) -> Seq<u8> {
    seq![
        w as u8,
        (w >> 8u64) as u8,
        (w >> 16u64) as u8,
        (w >> 24u64) as u8,
        (w >> 32u64) as u8,
        (w >> 40u64) as u8,
        (w >> 48u64) as u8,
        (w >> 56u64) as u8,
    ]
}

/// The word whose little-endian bytes are `b0` .. `b7`.
pub open spec fn word_of(b0: u8, b1: u8, b2: u8, b3: u8, b4: u8, b5: u8, b6: u8, b7: u8) -> u64 {
    (b0 as u64) | ((b1 as u64) << 8u64) | ((b2 as u64) << 16u64) | ((b3 as u64) << 24u64) | ((
    b4 as u64) << 32u64) | ((b5 as u64) << 40u64) | ((b6 as u64) << 48u64) | ((b7 as u64)
        << 56u64)
}

/// The word stored at byte position `pos` of `s`.
pub open spec fn word_at(s: Seq<u8>, pos: int) -> u64 {
    word_of(s[pos], s[pos + 1], s[pos + 2], s[pos + 3], s[pos + 4], s[pos + 5], s[pos + 6], s[pos + 7])
}

/// `s` with `bytes` written over it from position `pos` on; its length is kept.
pub open spec fn splice(s: Seq<u8>, pos: int, bytes: Seq<u8>) -> Seq<u8> {
    Seq::new(s.len(), |i: int| if pos <= i < pos + bytes.len() { bytes[i - pos] } else { s[i] })
}

/// Whether a word fits at byte position `pos` of a sequence of `len` bytes.
pub open spec fn word_fits(len: int, pos: int) -> bool {
    0 <= pos && pos + 8 <= len
}

/// Reading back a word that was written gives the word.
pub proof fn lemma_word_round_trip(w: u64)
    ensures
        word_of(
            word_bytes(w)[0],
            word_bytes(w)[1],
            word_bytes(w)[2],
            word_bytes(w)[3],
            word_bytes(w)[4],
            word_bytes(w)[5],
            word_bytes(w)[6],
            word_bytes(w)[7],
        ) == w,
{
    assert(word_of(
        w as u8,
        (w >> 8u64) as u8,
        (w >> 16u64) as u8,
        (w >> 24u64) as u8,
        (w >> 32u64) as u8,
        (w >> 40u64) as u8,
        (w >> 48u64) as u8,
        (w >> 56u64) as u8,
    ) == w) by (bit_vector);
}

/// A word written at `pos` is read back at `pos`, and a word read elsewhere
/// outside the eight written bytes is unchanged.
pub proof fn lemma_word_at_splice(s: Seq<u8>, pos: int, w: u64, q: int)
    requires
        word_fits(s.len() as int, pos),
        word_fits(s.len() as int, q),
        q == pos || q + 8 <= pos || pos + 8 <= q,
    ensures
        word_at(splice(s, pos, word_bytes(w)), q) == if q == pos {
            w
        } else {
            word_at(s, q)
        },
{
    if q == pos {
        lemma_word_round_trip(w);
    }
}

/// The eight little-endian bytes of `w`.
pub fn word_to_bytes(w: u64) -> (r: [u8; 8])
    ensures
        r@ == word_bytes(w),
{
    let r = [
        #[verifier::truncate] (w as u8),
        #[verifier::truncate] ((w >> 8u64) as u8),
        #[verifier::truncate] ((w >> 16u64) as u8),
        #[verifier::truncate] ((w >> 24u64) as u8),
        #[verifier::truncate] ((w >> 32u64) as u8),
        #[verifier::truncate] ((w >> 40u64) as u8),
        #[verifier::truncate] ((w >> 48u64) as u8),
        #[verifier::truncate] ((w >> 56u64) as u8),
    ];
    assert(r@ =~= word_bytes(w));
    r
}

/// Reads the word at byte position `pos` of `b`.
pub fn read_word(b: &Vec<u8>, pos: usize) -> (r: u64)
    requires
        word_fits(b@.len() as int, pos as int),
    ensures
        r == word_at(b@, pos as int),
{
    let _len = b.len();
    (b[pos] as u64) | ((b[pos + 1] as u64) << 8u64) | ((b[pos + 2] as u64) << 16u64) | ((b[pos
        + 3] as u64) << 24u64) | ((b[pos + 4] as u64) << 32u64) | ((b[pos + 5] as u64) << 40u64)
        | ((b[pos + 6] as u64) << 48u64) | ((b[pos + 7] as u64) << 56u64)
}

/// Writes `w` at byte position `pos` of `b`.
pub fn write_word(b: &mut Vec<u8>, pos: usize, w: u64)
    requires
        word_fits(old(b)@.len() as int, pos as int),
    ensures
        final(b)@ == splice(old(b)@, pos as int, word_bytes(w)),
{
    let _len = b.len();
    b.set(pos, #[verifier::truncate] (w as u8));
    b.set(pos + 1, #[verifier::truncate] ((w >> 8u64) as u8));
    b.set(pos + 2, #[verifier::truncate] ((w >> 16u64) as u8));
    b.set(pos + 3, #[verifier::truncate] ((w >> 24u64) as u8));
    b.set(pos + 4, #[verifier::truncate] ((w >> 32u64) as u8));
    b.set(pos + 5, #[verifier::truncate] ((w >> 40u64) as u8));
    b.set(pos + 6, #[verifier::truncate] ((w >> 48u64) as u8));
    b.set(pos + 7, #[verifier::truncate] ((w >> 56u64) as u8));
    assert(b@ =~= splice(old(b)@, pos as int, word_bytes(w)));
}

// ---------------------------------------------------------------------------
// Kinds and headers
// ---------------------------------------------------------------------------

/// `sallyport` item kind.
#[derive(Clone, Copy, Debug, PartialEq, Eq, Structural)]
pub enum Kind {
    End,
    Syscall,
    Gdbcall,
}

impl Kind {
    /// The word that encodes this kind.
    pub open spec fn spec_code(self) -> u64 {
        match self {
            Kind::End => 0,
            Kind::Syscall => 1,
            Kind::Gdbcall => 2,
        }
    }

    /// The word that encodes this kind.
    pub fn code(self) -> (r: u64)
        ensures
            r == self.spec_code(),
    {
        match self {
            Kind::End => 0,
            Kind::Syscall => 1,
            Kind::Gdbcall => 2,
        }
    }

    /// Decodes a kind; any word but the three codes is `EINVAL`.
    pub fn try_from(kind: u64) -> (r: Result<Kind>)
        ensures
            match r {
                Ok(k) => k.spec_code() == kind,
                Err(e) => e == EINVAL && kind > 2,
            },
    {
        if kind == 0 {
            Ok(Kind::End)
        } else if kind == 1 {
            Ok(Kind::Syscall)
        } else if kind == 2 {
            Ok(Kind::Gdbcall)
        } else {
            Err(EINVAL)
        }
    }
}

/// `sallyport` item header.
#[derive(Clone, Copy, Debug, PartialEq, Eq, Structural)]
pub struct Header {
    /// Bytes of payload that follow the header.
    pub size: u64,
    pub kind: Kind,
}

impl Header {
    /// The two words of this header: its size, then its kind.
    pub fn to_words(self) -> (r: [u64; 2])
        ensures
            r@ == seq![self.size, self.kind.spec_code()],
    {
        let r = [self.size, self.kind.code()];
        assert(r@ =~= seq![self.size, self.kind.spec_code()]);
        r
    }

    /// Decodes a header from its two words; an unknown kind is `EINVAL`.
    pub fn try_from(header: [u64; 2]) -> (r: Result<Header>)
        ensures
            match r {
                Ok(h) => h.size == header@[0] && h.kind.spec_code() == header@[1],
                Err(e) => e == EINVAL && header@[1] > 2,
            },
    {
        let size = header[0];
        let kind = Kind::try_from(header[1])?;
        Ok(Header { size, kind })
    }
}

/// The payload of a syscall item.
#[derive(Clone, Copy, Debug, PartialEq, Eq)]
pub struct Syscall {
    /// The syscall number.
    pub num: u64,
    /// The argument vector; a pointer argument holds an offset into the
    /// item's data.
    pub argv: [u64; 6],
    /// The return registers.
    pub ret: [u64; 2],
}

pub use gdbcall::Payload as Gdbcall;

/// An item of a block, as the host finds it: where its payload stands in
/// the block, and the data that follows the payload.
#[derive(Clone, Copy, Debug, PartialEq, Eq, Structural)]
pub enum Item {
    Syscall {
        /// Block position of the payload.
        at: usize,
        /// Block position of the data that follows it.
        data: usize,
        /// Bytes of that data.
        len: usize,
    },
    Gdbcall { at: usize, data: usize, len: usize },
}

} // verus!

verus! {

/// The little-endian 32-bit number at byte position `pos` of `s`.
pub open spec fn u32_at(s: Seq<u8>, pos: int) -> u32 {
    (s[pos] as u32) | ((s[pos + 1] as u32) << 8u32) | ((s[pos + 2] as u32) << 16u32) | ((s[pos
        + 3] as u32) << 24u32)
}

/// Reads the 32-bit number at byte position `pos` of `b`.
pub fn read_u32(b: &Vec<u8>, pos: usize) -> (r: u32)
    requires
        pos + 4 <= b@.len(),
    ensures
        r == u32_at(b@, pos as int),
{
    let _len = b.len();
    (b[pos] as u32) | ((b[pos + 1] as u32) << 8u32) | ((b[pos + 2] as u32) << 16u32) | ((b[pos
        + 3] as u32) << 24u32)
}

/// The largest `errno` that a return word can carry.
pub const MAX_ERRNO: i32 = 4095;

/// The return word that carries `-e`, in two's complement.
pub open spec fn errno_word(e: int) -> u64 {
    (0x1_0000_0000_0000_0000int - e) as u64
}

/// The return word that carries `-e`.
pub fn errno_to_word(e: i32) -> (r: u64)
    requires
        0 < e <= MAX_ERRNO,
    ensures
        r == errno_word(e as int),
{
    u64::MAX - (e as u64) + 1
}

/// What a return word says: a value, or the `errno` that it carries as a
/// number in `-4095 ..= -1`.
pub open spec fn word_result(w: u64) -> Result<u64> {
    if w > u64::MAX - MAX_ERRNO {
        Err((0x1_0000_0000_0000_0000int - w) as i32)
    } else {
        Ok(w)
    }
}

/// Decodes a return word by the Linux convention.
pub fn word_to_result(w: u64) -> (r: Result<u64>)
    ensures
        r == word_result(w),
{
    if w > u64::MAX - MAX_ERRNO as u64 {
        Err((u64::MAX - w + 1) as i32)
    } else {
        Ok(w)
    }
}

/// A negated `errno` read back from its return word is the `errno`.
pub proof fn lemma_errno_round_trip(e: int)
    requires
        0 < e <= MAX_ERRNO,
    ensures
        word_result(errno_word(e)) == Err::<u64, crate::Error>(e as i32),
{
}

} // verus!
