//! The host side: walks the items of a block, validates every offset and
//! alignment that the guest wrote into a syscall item, and turns the item
//! into a call whose pointer arguments are positions in the block.
//!
//! The host treats the guest as adversarial: any offset, length or number
//! may be wrong, and each is checked before a position is handed out.
//! Alignment is judged on block positions; the block itself starts on a
//! word boundary.
use vstd::prelude::*;

use crate::item::{
    errno_to_word, read_u32, read_word, splice, u32_at, word_at, word_bytes, write_word, Item,
    Syscall, HEADER_SIZE, MAX_ERRNO, SYSCALL_PAYLOAD_SIZE,
};
use crate::libc::{
    EFAULT, EINVAL, ENOSYS, SYS_accept, SYS_accept4, SYS_bind, SYS_clock_gettime, SYS_close,
    SYS_connect, SYS_dup, SYS_dup2, SYS_dup3, SYS_epoll_create1, SYS_epoll_ctl, SYS_epoll_pwait,
    SYS_epoll_wait, SYS_eventfd2, SYS_exit, SYS_exit_group, SYS_fcntl, SYS_getsockname,
    SYS_listen, SYS_read, SYS_recvfrom, SYS_setsockopt, SYS_socket, SYS_sync, SYS_write,
};
use crate::{Error, Result, NULL};

verus! {

/// Bytes and alignment of `timespec`.
pub const TIMESPEC_SIZE: u64 = 16;

/// Bytes and alignment of `epoll_event`.
pub const EPOLL_EVENT_SIZE: u64 = 16;

/// Bytes of `sigset_t`.
pub const SIGSET_SIZE: u64 = 128;

/// Bytes and alignment of `socklen_t`.
pub const SOCKLEN_SIZE: u64 = 4;

/// Alignment of `timespec`, `epoll_event`, `sigset_t`, `sockaddr_storage`
/// and of a machine word.
pub const WORD_ALIGN: usize = 8;

/// An argument of a call that the host makes.
#[derive(Clone, Copy, Debug, PartialEq, Eq, Structural)]
pub enum Arg {
    /// A value passed as it is.
    Word(u64),
    /// A pointer to this position of the block.
    Block(usize),
    /// A null pointer.
    Null,
}

/// A call that the host makes for a syscall item: the number and the
/// arguments, as many as the call takes.
#[derive(Clone, Debug)]
pub struct HostCall {
    pub num: i64,
    pub args: Vec<Arg>,
}

// ---------------------------------------------------------------------------
// Items
// ---------------------------------------------------------------------------

/// The item whose header stands at position `pos` of `s`, and the position
/// of the next header; `None` for the `End` item.
pub open spec fn item_at(s: Seq<u8>, pos: int) -> Result<Option<(Item, usize)>> {
    if pos < 0 || pos + HEADER_SIZE > s.len() {
        Err(EINVAL)
    } else {
        let size = word_at(s, pos) as int;
        let kind = word_at(s, pos + 8);
        let at = pos + HEADER_SIZE;
        if kind > 2 {
            Err(EINVAL)
        } else if size > s.len() - at {
            Err(EINVAL)
        } else if kind == 0 {
            Ok(None)
        } else if size % 8 != 0 {
            Err(EINVAL)
        } else if kind == 1 {
            if size < SYSCALL_PAYLOAD_SIZE {
                Err(EINVAL)
            } else {
                Ok(
                    Some(
                        (
                            Item::Syscall {
                                at: at as usize,
                                data: (at + SYSCALL_PAYLOAD_SIZE) as usize,
                                len: (size - SYSCALL_PAYLOAD_SIZE) as usize,
                            },
                            (at + size) as usize,
                        ),
                    ),
                )
            }
        } else if size < 48 {
            Err(EINVAL)
        } else {
            Ok(
                Some(
                    (
                        Item::Gdbcall {
                            at: at as usize,
                            data: (at + 48) as usize,
                            len: (size - 48) as usize,
                        },
                        (at + size) as usize,
                    ),
                ),
            )
        }
    }
}

/// Reads the item whose header stands at `pos`: a header that runs past the
/// block, an unknown kind, a size that exceeds the bytes left or is not a
/// whole number of words, or one too small for its payload, is `EINVAL`.
pub fn next_item(block: &Vec<u8>, pos: usize) -> (r: Result<Option<(Item, usize)>>)
    ensures
        r == item_at(block@, pos as int),
{
    let len = block.len();
    if pos > len || len - pos < HEADER_SIZE {
        return Err(EINVAL);
    }
    let size = read_word(block, pos);
    let kind = read_word(block, pos + 8);
    let at = pos + HEADER_SIZE;
    if kind > 2 {
        Err(EINVAL)
    } else if size > (len - at) as u64 {
        Err(EINVAL)
    } else if kind == 0 {
        Ok(None)
    } else if size % 8 != 0 {
        Err(EINVAL)
    } else if kind == 1 {
        if size < SYSCALL_PAYLOAD_SIZE as u64 {
            Err(EINVAL)
        } else {
            let size = size as usize;
            Ok(
                Some(
                    (
                        Item::Syscall {
                            at,
                            data: at + SYSCALL_PAYLOAD_SIZE,
                            len: size - SYSCALL_PAYLOAD_SIZE,
                        },
                        at + size,
                    ),
                ),
            )
        }
    } else if size < 48 {
        Err(EINVAL)
    } else {
        let size = size as usize;
        Ok(Some((Item::Gdbcall { at, data: at + 48, len: size - 48 }, at + size)))
    }
}

/// The syscall payload at block position `at`.
pub open spec fn syscall_at(s: Seq<u8>, at: int, p: Syscall) -> bool {
    &&& p.num == word_at(s, at)
    &&& p.argv@ == Seq::new(6, |i: int| word_at(s, at + 8 + 8 * i))
    &&& p.ret@ == seq![word_at(s, at + 56), word_at(s, at + 64)]
}

/// Reads the syscall payload at block position `at`.
pub fn read_syscall(block: &Vec<u8>, at: usize) -> (r: Syscall)
    requires
        at + SYSCALL_PAYLOAD_SIZE <= block@.len(),
    ensures
        syscall_at(block@, at as int, r),
{
    let _n = block.len();
    let argv = [
        read_word(block, at + 8),
        read_word(block, at + 16),
        read_word(block, at + 24),
        read_word(block, at + 32),
        read_word(block, at + 40),
        read_word(block, at + 48),
    ];
    let ret = [read_word(block, at + 56), read_word(block, at + 64)];
    let r = Syscall { num: read_word(block, at), argv, ret };
    assert(r.argv@ =~= Seq::new(6, |i: int| word_at(block@, at + 8 + 8 * i)));
    assert(r.ret@ =~= seq![word_at(block@, at + 56), word_at(block@, at + 64)]);
    r
}

/// Writes the first return register of the syscall payload at `at`.
pub fn set_ret(block: &mut Vec<u8>, at: usize, ret: u64)
    requires
        at + SYSCALL_PAYLOAD_SIZE <= old(block)@.len(),
    ensures
        final(block)@ == splice(old(block)@, at + 56, word_bytes(ret)),
{
    let _n = block.len();
    write_word(block, at + 56, ret);
}

/// Writes `-e` into the first return register of the syscall payload at
/// `at`: the item was refused with `e`.
pub fn set_errno(block: &mut Vec<u8>, at: usize, e: Error)
    requires
        at + SYSCALL_PAYLOAD_SIZE <= old(block)@.len(),
        0 < e <= MAX_ERRNO,
    ensures
        final(block)@ == splice(old(block)@, at + 56, word_bytes(crate::item::errno_word(e as int))),
{
    let _n = block.len();
    let w = errno_to_word(e);
    write_word(block, at + 56, w);
}

/// An item that the host refuses with `e` reaches the guest as `e`: the
/// return register that [`set_errno`] writes reads back as `Err(e)`.
pub proof fn lemma_refusal_reaches_guest(s: Seq<u8>, at: int, e: Error)
    requires
        0 <= at,
        at + SYSCALL_PAYLOAD_SIZE <= s.len(),
        0 < e <= MAX_ERRNO,
    ensures
        crate::item::word_result(
            word_at(splice(s, at + 56, word_bytes(crate::item::errno_word(e as int))), at + 56),
        ) == Err::<u64, Error>(e),
{
    crate::item::lemma_word_at_splice(s, at + 56, crate::item::errno_word(e as int), at + 56);
    crate::item::lemma_errno_round_trip(e as int);
}

// ---------------------------------------------------------------------------
// Offsets
// ---------------------------------------------------------------------------

/// Where `len` elements of `size` bytes at `offset` of the data at block
/// position `data`, of `data_len` bytes, start; `EFAULT` where they do not
/// fit in it.
pub open spec fn deref_spec(data: int, data_len: int, offset: int, len: int, size: int) -> Result<usize> {
    if len * size > data_len || data_len - len * size < offset {
        Err(EFAULT)
    } else {
        Ok((data + offset) as usize)
    }
}

/// Validates that the data at block position `data`, of `data_len` bytes,
/// holds `len` elements of `size` bytes at `offset`, and returns the block
/// position of the first element. The arithmetic cannot wrap: a count
/// whose byte size overflows is `EFAULT` like any other that does not fit.
pub fn deref(data: usize, data_len: usize, offset: u64, len: u64, size: u64) -> (r: Result<usize>)
    requires
        data + data_len <= usize::MAX,
    ensures
        r == deref_spec(data as int, data_len as int, offset as int, len as int, size as int),
        r matches Ok(p) ==> data <= p && p + len * size <= data + data_len,
{
    let bytes = match len.checked_mul(size) {
        Some(b) => b,
        None => return Err(EFAULT),
    };
    if bytes > data_len as u64 || (data_len as u64) - bytes < offset {
        Err(EFAULT)
    } else {
        Ok(data + offset as usize)
    }
}

/// The positions of a socket address output and of its `socklen_t` length:
/// the length must fit and be aligned, and as many bytes as it holds must
/// fit at `addr_offset`, aligned as `sockaddr_storage`.
pub open spec fn sockaddr_output_spec(
    s: Seq<u8>,
    data: int,
    len: int,
    addr_offset: u64,
    addrlen_offset: u64,
) -> Result<(usize, usize)> {
    match deref_spec(data, len, addrlen_offset as int, 1, SOCKLEN_SIZE as int) {
        Err(e) => Err(e),
        Ok(lp) => if lp % 4 != 0 {
            Err(EFAULT)
        } else {
            match deref_spec(data, len, addr_offset as int, u32_at(s, lp as int) as int, 1) {
                Err(e) => Err(e),
                Ok(ap) => if ap % WORD_ALIGN != 0 {
                    Err(EFAULT)
                } else {
                    Ok((ap, lp))
                },
            }
        },
    }
}

/// Validates a socket address output and its length, as
/// [`sockaddr_output_spec`] says.
pub fn deref_sockaddr_output(
    block: &Vec<u8>,
    data: usize,
    len: usize,
    addr_offset: u64,
    addrlen_offset: u64,
) -> (r: Result<(usize, usize)>)
    requires
        data + len <= block@.len(),
    ensures
        r == sockaddr_output_spec(block@, data as int, len as int, addr_offset, addrlen_offset),
{
    let _n = block.len();
    let addrlen = deref(data, len, addrlen_offset, 1, SOCKLEN_SIZE)?;
    if addrlen % 4 != 0 {
        return Err(EFAULT);
    }
    let n = read_u32(block, addrlen);
    let addr = deref(data, len, addr_offset, n as u64, 1)?;
    if addr % WORD_ALIGN != 0 {
        return Err(EFAULT);
    }
    Ok((addr, addrlen))
}

/// A typed region of one `size`-byte element at `offset`, aligned to a word.
pub open spec fn typed_spec(data: int, len: int, offset: u64, count: u64, size: u64) -> Result<usize> {
    match deref_spec(data, len, offset as int, count as int, size as int) {
        Err(e) => Err(e),
        Ok(p) => if p % WORD_ALIGN != 0 {
            Err(EFAULT)
        } else {
            Ok(p)
        },
    }
}

fn deref_typed(data: usize, len: usize, offset: u64, count: u64, size: u64) -> (r: Result<usize>)
    requires
        data + len <= usize::MAX,
    ensures
        r == typed_spec(data as int, len as int, offset, count, size),
{
    let p = deref(data, len, offset, count, size)?;
    if p % WORD_ALIGN != 0 {
        return Err(EFAULT);
    }
    Ok(p)
}

/// A socket address output that may be absent: a `NULL` address offset
/// gives two null pointers.
pub open spec fn optional_sockaddr_spec(s: Seq<u8>, data: int, len: int, addr_offset: u64, addrlen_offset: u64) -> Result<(Arg, Arg)> {
    if addr_offset == NULL {
        Ok((Arg::Null, Arg::Null))
    } else {
        match sockaddr_output_spec(s, data, len, addr_offset, addrlen_offset) {
            Err(e) => Err(e),
            Ok((a, l)) => Ok((Arg::Block(a), Arg::Block(l))),
        }
    }
}

fn optional_sockaddr(block: &Vec<u8>, data: usize, len: usize, addr_offset: u64, addrlen_offset: u64) -> (r: Result<(Arg, Arg)>)
    requires
        data + len <= block@.len(),
    ensures
        r == optional_sockaddr_spec(block@, data as int, len as int, addr_offset, addrlen_offset),
{
    let _n = block.len();
    if addr_offset == NULL as u64 {
        Ok((Arg::Null, Arg::Null))
    } else {
        let (a, l) = deref_sockaddr_output(block, data, len, addr_offset, addrlen_offset)?;
        Ok((Arg::Block(a), Arg::Block(l)))
    }
}

// ---------------------------------------------------------------------------
// Calls
// ---------------------------------------------------------------------------

/// The arguments of the call that the host makes for syscall `num` with
/// argument vector `a`, whose data of `len` bytes stands at block position
/// `data` of `s`: `EFAULT` where an offset does not fit or is misaligned,
/// `ENOSYS` for a number that the host does not route.
pub open spec fn decode_spec(s: Seq<u8>, data: int, len: int, num: u64, a: Seq<u64>) -> Result<Seq<Arg>> {
    if num == SYS_accept as u64 {
        match optional_sockaddr_spec(s, data, len, a[1], a[2]) {
            Err(e) => Err(e),
            Ok((p, l)) => Ok(seq![Arg::Word(a[0]), p, l]),
        }
    } else if num == SYS_accept4 as u64 {
        match optional_sockaddr_spec(s, data, len, a[1], a[2]) {
            Err(e) => Err(e),
            Ok((p, l)) => Ok(seq![Arg::Word(a[0]), p, l, Arg::Word(a[3])]),
        }
    } else if num == SYS_bind as u64 || num == SYS_connect as u64 {
        match deref_spec(data, len, a[1] as int, a[2] as int, 1) {
            Err(e) => Err(e),
            Ok(p) => Ok(seq![Arg::Word(a[0]), Arg::Block(p), Arg::Word(a[2])]),
        }
    } else if num == SYS_clock_gettime as u64 {
        match typed_spec(data, len, a[1], 1, TIMESPEC_SIZE) {
            Err(e) => Err(e),
            Ok(p) => Ok(seq![Arg::Word(a[0]), Arg::Block(p)]),
        }
    } else if num == SYS_close as u64 || num == SYS_dup as u64 || num == SYS_epoll_create1 as u64
        || num == SYS_exit as u64 || num == SYS_exit_group as u64 {
        Ok(seq![Arg::Word(a[0])])
    } else if num == SYS_dup2 as u64 || num == SYS_eventfd2 as u64 || num == SYS_listen as u64 {
        Ok(seq![Arg::Word(a[0]), Arg::Word(a[1])])
    } else if num == SYS_dup3 as u64 || num == SYS_fcntl as u64 || num == SYS_socket as u64 {
        Ok(seq![Arg::Word(a[0]), Arg::Word(a[1]), Arg::Word(a[2])])
    } else if num == SYS_epoll_ctl as u64 {
        match typed_spec(data, len, a[3], 1, EPOLL_EVENT_SIZE) {
            Err(e) => Err(e),
            Ok(p) => Ok(seq![Arg::Word(a[0]), Arg::Word(a[1]), Arg::Word(a[2]), Arg::Block(p)]),
        }
    } else if num == SYS_epoll_pwait as u64 {
        match typed_spec(data, len, a[1], a[2], EPOLL_EVENT_SIZE) {
            Err(e) => Err(e),
            Ok(p) => match typed_spec(data, len, a[4], 1, SIGSET_SIZE) {
                Err(e) => Err(e),
                Ok(m) => Ok(
                    seq![Arg::Word(a[0]), Arg::Block(p), Arg::Word(a[2]), Arg::Word(a[3]), Arg::Block(m)],
                ),
            },
        }
    } else if num == SYS_epoll_wait as u64 {
        match typed_spec(data, len, a[1], a[2], EPOLL_EVENT_SIZE) {
            Err(e) => Err(e),
            Ok(p) => Ok(seq![Arg::Word(a[0]), Arg::Block(p), Arg::Word(a[2]), Arg::Word(a[3])]),
        }
    } else if num == SYS_getsockname as u64 {
        match sockaddr_output_spec(s, data, len, a[1], a[2]) {
            Err(e) => Err(e),
            Ok((p, l)) => Ok(seq![Arg::Word(a[0]), Arg::Block(p), Arg::Block(l)]),
        }
    } else if num == SYS_read as u64 || num == SYS_write as u64 {
        match deref_spec(data, len, a[1] as int, a[2] as int, 1) {
            Err(e) => Err(e),
            Ok(p) => Ok(seq![Arg::Word(a[0]), Arg::Block(p), Arg::Word(a[2])]),
        }
    } else if num == SYS_recvfrom as u64 {
        match deref_spec(data, len, a[1] as int, a[2] as int, 1) {
            Err(e) => Err(e),
            Ok(p) => match optional_sockaddr_spec(s, data, len, a[4], a[5]) {
                Err(e) => Err(e),
                Ok((sp, l)) => Ok(
                    seq![Arg::Word(a[0]), Arg::Block(p), Arg::Word(a[2]), Arg::Word(a[3]), sp, l],
                ),
            },
        }
    } else if num == SYS_setsockopt as u64 {
        if a[3] == NULL {
            Ok(seq![Arg::Word(a[0]), Arg::Word(a[1]), Arg::Word(a[2]), Arg::Null, Arg::Word(0)])
        } else {
            match typed_spec(data, len, a[3], a[4], 1) {
                Err(e) => Err(e),
                Ok(p) => Ok(
                    seq![Arg::Word(a[0]), Arg::Word(a[1]), Arg::Word(a[2]), Arg::Block(p), Arg::Word(a[4])],
                ),
            }
        }
    } else if num == SYS_sync as u64 {
        Ok(seq![])
    } else {
        Err(ENOSYS)
    }
}

/// Turns a syscall item into the call that the host makes: every offset of
/// its argument vector is checked and replaced by a block position, as
/// [`decode_spec`] says.
#[verifier::rlimit(80)]
pub fn decode_syscall(block: &Vec<u8>, data: usize, len: usize, syscall: &Syscall) -> (r: Result<HostCall>)
    requires
        data + len <= block@.len(),
    ensures
        match (r, decode_spec(block@, data as int, len as int, syscall.num, syscall.argv@)) {
            (Ok(c), Ok(args)) => c.args@ == args && c.num as u64 == syscall.num,
            (Err(e), Err(f)) => e == f,
            _ => false,
        },
{
    let _n = block.len();
    let num = syscall.num;
    let a = &syscall.argv;
    let (n, args) = if num == SYS_accept as u64 {
        let (p, l) = optional_sockaddr(block, data, len, a[1], a[2])?;
        (SYS_accept, vec![Arg::Word(a[0]), p, l])
    } else if num == SYS_accept4 as u64 {
        let (p, l) = optional_sockaddr(block, data, len, a[1], a[2])?;
        (SYS_accept4, vec![Arg::Word(a[0]), p, l, Arg::Word(a[3])])
    } else if num == SYS_bind as u64 || num == SYS_connect as u64 {
        let p = deref(data, len, a[1], a[2], 1)?;
        (num as i64, vec![Arg::Word(a[0]), Arg::Block(p), Arg::Word(a[2])])
    } else if num == SYS_clock_gettime as u64 {
        let p = deref_typed(data, len, a[1], 1, TIMESPEC_SIZE)?;
        (SYS_clock_gettime, vec![Arg::Word(a[0]), Arg::Block(p)])
    } else if num == SYS_close as u64 || num == SYS_dup as u64 || num == SYS_epoll_create1 as u64
        || num == SYS_exit as u64 || num == SYS_exit_group as u64 {
        (num as i64, vec![Arg::Word(a[0])])
    } else if num == SYS_dup2 as u64 || num == SYS_eventfd2 as u64 || num == SYS_listen as u64 {
        (num as i64, vec![Arg::Word(a[0]), Arg::Word(a[1])])
    } else if num == SYS_dup3 as u64 || num == SYS_fcntl as u64 || num == SYS_socket as u64 {
        (num as i64, vec![Arg::Word(a[0]), Arg::Word(a[1]), Arg::Word(a[2])])
    } else if num == SYS_epoll_ctl as u64 {
        let p = deref_typed(data, len, a[3], 1, EPOLL_EVENT_SIZE)?;
        (SYS_epoll_ctl, vec![Arg::Word(a[0]), Arg::Word(a[1]), Arg::Word(a[2]), Arg::Block(p)])
    } else if num == SYS_epoll_pwait as u64 {
        let p = deref_typed(data, len, a[1], a[2], EPOLL_EVENT_SIZE)?;
        let m = deref_typed(data, len, a[4], 1, SIGSET_SIZE)?;
        (
            SYS_epoll_pwait,
            vec![Arg::Word(a[0]), Arg::Block(p), Arg::Word(a[2]), Arg::Word(a[3]), Arg::Block(m)],
        )
    } else if num == SYS_epoll_wait as u64 {
        let p = deref_typed(data, len, a[1], a[2], EPOLL_EVENT_SIZE)?;
        (SYS_epoll_wait, vec![Arg::Word(a[0]), Arg::Block(p), Arg::Word(a[2]), Arg::Word(a[3])])
    } else if num == SYS_getsockname as u64 {
        let (p, l) = deref_sockaddr_output(block, data, len, a[1], a[2])?;
        (SYS_getsockname, vec![Arg::Word(a[0]), Arg::Block(p), Arg::Block(l)])
    } else if num == SYS_read as u64 || num == SYS_write as u64 {
        let p = deref(data, len, a[1], a[2], 1)?;
        (num as i64, vec![Arg::Word(a[0]), Arg::Block(p), Arg::Word(a[2])])
    } else if num == SYS_recvfrom as u64 {
        let p = deref(data, len, a[1], a[2], 1)?;
        let (sp, l) = optional_sockaddr(block, data, len, a[4], a[5])?;
        (SYS_recvfrom, vec![Arg::Word(a[0]), Arg::Block(p), Arg::Word(a[2]), Arg::Word(a[3]), sp, l])
    } else if num == SYS_setsockopt as u64 {
        if a[3] == NULL as u64 {
            (
                SYS_setsockopt,
                vec![Arg::Word(a[0]), Arg::Word(a[1]), Arg::Word(a[2]), Arg::Null, Arg::Word(0)],
            )
        } else {
            let p = deref_typed(data, len, a[3], a[4], 1)?;
            (
                SYS_setsockopt,
                vec![Arg::Word(a[0]), Arg::Word(a[1]), Arg::Word(a[2]), Arg::Block(p), Arg::Word(a[4])],
            )
        }
    } else if num == SYS_sync as u64 {
        (SYS_sync, vec![])
    } else {
        return Err(ENOSYS);
    };
    Ok(HostCall { num: n, args })
}

// ---------------------------------------------------------------------------
// Walking a block
// ---------------------------------------------------------------------------

/// What the host does with the item whose header stands at some position.
#[derive(Debug)]
pub enum HostStep {
    /// Make `call` for the syscall item whose payload stands at `at`, and
    /// write its result there with [`set_ret`]; the next header is at
    /// `next`.
    Call { at: usize, call: HostCall, next: usize },
    /// Nothing to call: the item was refused, and its return register now
    /// carries the `errno`, or it is not a syscall item; the next header is
    /// at `next`.
    Skip { next: usize },
    /// The `End` item: the walk is over.
    Done,
}

/// The argument vector of the syscall payload at `at`.
pub open spec fn argv_at(s: Seq<u8>, at: int) -> Seq<u64> {
    Seq::new(6, |i: int| word_at(s, at + 8 + 8 * i))
}

/// The host refuses an item only with `EFAULT` or `ENOSYS`.
pub proof fn lemma_decode_errors(s: Seq<u8>, data: int, len: int, num: u64, a: Seq<u64>)
    ensures
        decode_spec(s, data, len, num, a) matches Err(e) ==> e == EFAULT || e == ENOSYS,
{
}

/// One step of the host's walk over a block: reads the item at `pos`. A
/// malformed item ends the walk with its error, the block untouched. The
/// `End` item ends it with [`HostStep::Done`]. A syscall item that the host
/// accepts gives the call to make; one that it refuses gets the negated
/// `errno` in its return register, and the walk goes on. Items of other
/// kinds are passed over.
#[verifier::rlimit(80)]
pub fn host_step(block: &mut Vec<u8>, pos: usize) -> (r: Result<HostStep>)
    ensures
        match item_at(old(block)@, pos as int) {
            Err(e) => r == Err::<HostStep, Error>(e) && final(block)@ == old(block)@,
            Ok(None) => r matches Ok(HostStep::Done) && final(block)@ == old(block)@,
            Ok(Some((Item::Gdbcall { .. }, next))) => r matches Ok(HostStep::Skip { next: n })
                && n == next && final(block)@ == old(block)@,
            Ok(Some((Item::Syscall { at, data, len }, next))) => {
                &&& at + SYSCALL_PAYLOAD_SIZE <= old(block)@.len()
                &&& match decode_spec(
                    old(block)@,
                    data as int,
                    len as int,
                    word_at(old(block)@, at as int),
                    argv_at(old(block)@, at as int),
                ) {
                    Ok(args) => r matches Ok(HostStep::Call { at: a, call, next: n }) && a == at
                        && n == next && call.args@ == args && call.num as u64 == word_at(
                        old(block)@,
                        at as int,
                    ) && final(block)@ == old(block)@,
                    Err(e) => r matches Ok(HostStep::Skip { next: n }) && n == next
                        && final(block)@ == splice(
                        old(block)@,
                        at + 56,
                        word_bytes(crate::item::errno_word(e as int)),
                    ),
                }
            },
        },
{
    match next_item(block, pos)? {
        None => Ok(HostStep::Done),
        Some((Item::Gdbcall { .. }, next)) => Ok(HostStep::Skip { next }),
        Some((Item::Syscall { at, data, len }, next)) => {
            let syscall = read_syscall(block, at);
            assert(syscall.argv@ == argv_at(block@, at as int));
            proof {
                lemma_decode_errors(block@, data as int, len as int, syscall.num, syscall.argv@);
            }
            match decode_syscall(block, data, len, &syscall) {
                Ok(call) => Ok(HostStep::Call { at, call, next }),
                Err(e) => {
                    set_errno(block, at, e);
                    Ok(HostStep::Skip { next })
                },
            }
        },
    }
}

// ---------------------------------------------------------------------------
// Laws
// ---------------------------------------------------------------------------

/// Whether slot `i` of the argument vector `a` of syscall `num` holds the
/// offset of a typed value, one that must be aligned to more than a byte.
pub open spec fn typed_offset_slot(num: u64, a: Seq<u64>, i: int) -> bool {
    ||| num == SYS_clock_gettime as u64 && i == 1
    ||| num == SYS_epoll_ctl as u64 && i == 3
    ||| (num == SYS_epoll_wait as u64 || num == SYS_epoll_pwait as u64) && i == 1
    ||| num == SYS_epoll_pwait as u64 && i == 4
    ||| num == SYS_getsockname as u64 && (i == 1 || i == 2)
    ||| (num == SYS_accept as u64 || num == SYS_accept4 as u64) && a[1] != NULL && (i == 1 || i
        == 2)
    ||| num == SYS_recvfrom as u64 && a[4] != NULL && (i == 4 || i == 5)
    ||| num == SYS_setsockopt as u64 && a[3] != NULL && i == 3
}

/// A typed offset moved by one byte is refused: where the host accepts a
/// syscall item whose data starts on a word boundary, advancing any typed
/// offset of its argument vector by one byte makes the host refuse the item
/// with `EFAULT`, so the call is never made.
#[verifier::rlimit(80)]
pub proof fn lemma_misaligned_offset_rejected(
    s: Seq<u8>,
    data: int,
    len: int,
    num: u64,
    a: Seq<u64>,
    i: int,
)
    requires
        a.len() == 6,
        0 <= data,
        0 <= len,
        data + len <= usize::MAX,
        data % 8 == 0,
        typed_offset_slot(num, a, i),
        a[i] < u64::MAX,
        decode_spec(s, data, len, num, a) is Ok,
    ensures
        decode_spec(s, data, len, num, a.update(i, (a[i] + 1) as u64)) == Err::<Seq<Arg>, Error>(
            EFAULT,
        ),
{
    let b = a.update(i, (a[i] + 1) as u64);
    assert(b[i] == a[i] + 1);
    assert(forall|j: int| 0 <= j < 6 && j != i ==> b[j] == a[j]);
    if num == SYS_clock_gettime as u64 {
        lemma_typed_shift(data, len, a[1], 1, TIMESPEC_SIZE);
    } else if num == SYS_epoll_ctl as u64 {
        lemma_typed_shift(data, len, a[3], 1, EPOLL_EVENT_SIZE);
    } else if num == SYS_epoll_wait as u64 {
        lemma_typed_shift(data, len, a[1], a[2], EPOLL_EVENT_SIZE);
    } else if num == SYS_epoll_pwait as u64 {
        if i == 1 {
            lemma_typed_shift(data, len, a[1], a[2], EPOLL_EVENT_SIZE);
        } else {
            lemma_typed_shift(data, len, a[4], 1, SIGSET_SIZE);
        }
    } else if num == SYS_getsockname as u64 || num == SYS_accept as u64 || num == SYS_accept4 as u64 {
        lemma_sockaddr_shift(s, data, len, a[1], a[2], i == 1);
    } else if num == SYS_recvfrom as u64 {
        lemma_sockaddr_shift(s, data, len, a[4], a[5], i == 4);
    } else {
        lemma_typed_shift(data, len, a[3], a[4], 1);
    }
}

proof fn lemma_typed_shift(data: int, len: int, offset: u64, count: u64, size: u64)
    requires
        0 <= data,
        0 <= len,
        data + len <= usize::MAX,
        data % 8 == 0,
        offset < u64::MAX,
        typed_spec(data, len, offset, count, size) is Ok,
    ensures
        typed_spec(data, len, (offset + 1) as u64, count, size) == Err::<usize, Error>(EFAULT),
{
}

proof fn lemma_sockaddr_shift(s: Seq<u8>, data: int, len: int, addr: u64, addrlen: u64, shift_addr: bool)
    requires
        0 <= data,
        0 <= len,
        data + len <= usize::MAX,
        data % 8 == 0,
        shift_addr ==> addr < u64::MAX,
        !shift_addr ==> addrlen < u64::MAX,
        sockaddr_output_spec(s, data, len, addr, addrlen) is Ok,
    ensures
        shift_addr ==> sockaddr_output_spec(s, data, len, (addr + 1) as u64, addrlen) == Err::<
            (usize, usize),
            Error,
        >(EFAULT),
        !shift_addr ==> sockaddr_output_spec(s, data, len, addr, (addrlen + 1) as u64) == Err::<
            (usize, usize),
            Error,
        >(EFAULT),
{
}

/// Whether some region that syscall `num` with argument vector `a` names
/// runs past the `len` bytes of its data.
pub open spec fn region_exceeds(s: Seq<u8>, data: int, len: int, num: u64, a: Seq<u64>) -> bool {
    ||| (num == SYS_read as u64 || num == SYS_write as u64 || num == SYS_bind as u64 || num
        == SYS_connect as u64 || num == SYS_recvfrom as u64) && a[1] + a[2] > len
    ||| num == SYS_clock_gettime as u64 && a[1] + TIMESPEC_SIZE > len
    ||| num == SYS_epoll_ctl as u64 && a[3] + EPOLL_EVENT_SIZE > len
    ||| (num == SYS_epoll_wait as u64 || num == SYS_epoll_pwait as u64) && a[1] + a[2]
        * EPOLL_EVENT_SIZE > len
    ||| num == SYS_epoll_pwait as u64 && a[4] + SIGSET_SIZE > len
    ||| num == SYS_getsockname as u64 && (a[2] + SOCKLEN_SIZE > len || a[1] + u32_at(
        s,
        data + a[2],
    ) > len)
    ||| (num == SYS_accept as u64 || num == SYS_accept4 as u64) && a[1] != NULL && (a[2]
        + SOCKLEN_SIZE > len || a[1] + u32_at(s, data + a[2]) > len)
    ||| num == SYS_recvfrom as u64 && a[4] != NULL && (a[5] + SOCKLEN_SIZE > len || a[4] + u32_at(
        s,
        data + a[5],
    ) > len)
    ||| num == SYS_setsockopt as u64 && a[3] != NULL && a[3] + a[4] > len
}

/// A region past the data tail is refused: where an offset plus the length
/// of its region exceeds the data of a syscall item, the host refuses the
/// item with `EFAULT`.
#[verifier::rlimit(80)]
pub proof fn lemma_region_past_data_rejected(s: Seq<u8>, data: int, len: int, num: u64, a: Seq<u64>)
    requires
        a.len() == 6,
        0 <= data,
        0 <= len,
        data + len <= usize::MAX,
        region_exceeds(s, data, len, num, a),
    ensures
        decode_spec(s, data, len, num, a) == Err::<Seq<Arg>, Error>(EFAULT),
{
}

/// `a` with a block position moved by `delta`.
pub open spec fn shift_arg(a: Arg, delta: int) -> Arg {
    match a {
        Arg::Block(p) => Arg::Block((p + delta) as usize),
        _ => a,
    }
}

/// A decoding result with every block position moved by `delta`.
pub open spec fn shift_result(r: Result<Seq<Arg>>, delta: int) -> Result<Seq<Arg>> {
    match r {
        Ok(args) => Ok(args.map_values(|a: Arg| shift_arg(a, delta))),
        Err(e) => Err(e),
    }
}

/// A position result moved by `delta`.
pub open spec fn shift_pos(r: Result<usize>, delta: int) -> Result<usize> {
    match r {
        Ok(p) => Ok((p + delta) as usize),
        Err(e) => Err(e),
    }
}

/// Whether the `len` bytes of data at `d2` of `s2` are those at `d1` of
/// `s1`, and the two start equally aligned to a word.
pub open spec fn same_data(s1: Seq<u8>, d1: int, s2: Seq<u8>, d2: int, len: int) -> bool {
    &&& 0 <= d1 && 0 <= d2 && 0 <= len
    &&& d1 + len <= s1.len() && d2 + len <= s2.len()
    &&& d1 + len <= usize::MAX && d2 + len <= usize::MAX
    &&& (d2 - d1) % 8 == 0
    &&& forall|i: int| 0 <= i < len ==> s2[d2 + i] == #[trigger] s1[d1 + i]
}

proof fn lemma_typed_moves(s1: Seq<u8>, d1: int, s2: Seq<u8>, d2: int, len: int, off: u64, n: u64, size: u64)
    requires
        same_data(s1, d1, s2, d2, len),
    ensures
        deref_spec(d2, len, off as int, n as int, size as int) == shift_pos(
            deref_spec(d1, len, off as int, n as int, size as int),
            d2 - d1,
        ),
        typed_spec(d2, len, off, n, size) == shift_pos(typed_spec(d1, len, off, n, size), d2 - d1),
{
}

#[verifier::rlimit(80)]
proof fn lemma_sockaddr_output_moves(s1: Seq<u8>, d1: int, s2: Seq<u8>, d2: int, len: int, addr: u64, addrlen: u64)
    requires
        same_data(s1, d1, s2, d2, len),
    ensures
        sockaddr_output_spec(s2, d2, len, addr, addrlen) == match sockaddr_output_spec(
            s1,
            d1,
            len,
            addr,
            addrlen,
        ) {
            Ok((p, l)) => Ok(((p + d2 - d1) as usize, (l + d2 - d1) as usize)),
            Err(e) => Err(e),
        },
{
    lemma_typed_moves(s1, d1, s2, d2, len, addrlen, 1, SOCKLEN_SIZE);
    if let Ok(l1) = deref_spec(d1, len, addrlen as int, 1, SOCKLEN_SIZE as int) {
        let i = addrlen as int;
        assert(s2[d2 + i] == s1[d1 + i]);
        assert(s2[d2 + (i + 1)] == s1[d1 + (i + 1)]);
        assert(s2[d2 + (i + 2)] == s1[d1 + (i + 2)]);
        assert(s2[d2 + (i + 3)] == s1[d1 + (i + 3)]);
        assert(u32_at(s2, d2 + i) == u32_at(s1, d1 + i));
        let n = u32_at(s1, d1 + i);
        lemma_typed_moves(s1, d1, s2, d2, len, addr, n as u64, 1);
    }
}

/// A socket address output that may be absent moves with the data as the
/// output itself does.
proof fn lemma_optional_sockaddr_moves(s1: Seq<u8>, d1: int, s2: Seq<u8>, d2: int, len: int, addr: u64, addrlen: u64)
    requires
        same_data(s1, d1, s2, d2, len),
    ensures
        optional_sockaddr_spec(s2, d2, len, addr, addrlen) == match optional_sockaddr_spec(
            s1,
            d1,
            len,
            addr,
            addrlen,
        ) {
            Ok((p, l)) => Ok((shift_arg(p, d2 - d1), shift_arg(l, d2 - d1))),
            Err(e) => Err(e),
        },
{
    lemma_sockaddr_output_moves(s1, d1, s2, d2, len, addr, addrlen);
}

/// Batch independence, on the host's side: the host's verdict on a syscall
/// item depends only on the item's own data, not on where in a block the
/// item stands (on a word boundary) nor on the other items; the call it
/// makes differs only in that its pointers move with the item.
pub proof fn lemma_decode_independent(s1: Seq<u8>, d1: int, s2: Seq<u8>, d2: int, len: int, num: u64, a: Seq<u64>)
    requires
        a.len() == 6,
        same_data(s1, d1, s2, d2, len),
    ensures
        decode_spec(s2, d2, len, num, a) == shift_result(decode_spec(s1, d1, len, num, a), d2 - d1),
{
    if num == SYS_accept as u64 || num == SYS_accept4 as u64 || num == SYS_getsockname as u64 || num
        == SYS_recvfrom as u64 {
        lemma_decode_moves_sockets(s1, d1, s2, d2, len, num, a);
    } else if num == SYS_bind as u64 || num == SYS_connect as u64 || num == SYS_read as u64 || num
        == SYS_write as u64 || num == SYS_setsockopt as u64 {
        lemma_decode_moves_buffers(s1, d1, s2, d2, len, num, a);
    } else if num == SYS_clock_gettime as u64 || num == SYS_epoll_ctl as u64 || num
        == SYS_epoll_wait as u64 || num == SYS_epoll_pwait as u64 {
        lemma_decode_moves_typed(s1, d1, s2, d2, len, num, a);
    } else {
        if let Ok(x1) = decode_spec(s1, d1, len, num, a) {
            assert(x1 =~= x1.map_values(|x: Arg| shift_arg(x, d2 - d1)));
        }
    }
}


proof fn lemma_decode_moves_sockets(s1: Seq<u8>, d1: int, s2: Seq<u8>, d2: int, len: int, num: u64, a: Seq<u64>)
    requires
        a.len() == 6,
        same_data(s1, d1, s2, d2, len),
        num == SYS_accept as u64 || num == SYS_accept4 as u64 || num == SYS_getsockname as u64
            || num == SYS_recvfrom as u64,
    ensures
        decode_spec(s2, d2, len, num, a) == shift_result(decode_spec(s1, d1, len, num, a), d2 - d1),
{
    if num == SYS_recvfrom as u64 {
        lemma_decode_moves_recvfrom(s1, d1, s2, d2, len, a);
    } else {
        lemma_decode_moves_accept(s1, d1, s2, d2, len, num, a);
    }
}

#[verifier::rlimit(80)]
proof fn lemma_decode_moves_accept(s1: Seq<u8>, d1: int, s2: Seq<u8>, d2: int, len: int, num: u64, a: Seq<u64>)
    requires
        a.len() == 6,
        same_data(s1, d1, s2, d2, len),
        num == SYS_accept as u64 || num == SYS_accept4 as u64 || num == SYS_getsockname as u64,
    ensures
        decode_spec(s2, d2, len, num, a) == shift_result(decode_spec(s1, d1, len, num, a), d2 - d1),
{
    let f = |x: Arg| shift_arg(x, d2 - d1);
    lemma_sockaddr_output_moves(s1, d1, s2, d2, len, a[1], a[2]);
    lemma_optional_sockaddr_moves(s1, d1, s2, d2, len, a[1], a[2]);
    if let Ok(x1) = decode_spec(s1, d1, len, num, a) {
        let x2 = decode_spec(s2, d2, len, num, a)->Ok_0;
        assert(x2 =~= x1.map_values(f));
    }
}

#[verifier::rlimit(80)]
proof fn lemma_decode_moves_recvfrom(s1: Seq<u8>, d1: int, s2: Seq<u8>, d2: int, len: int, a: Seq<u64>)
    requires
        a.len() == 6,
        same_data(s1, d1, s2, d2, len),
    ensures
        decode_spec(s2, d2, len, SYS_recvfrom as u64, a) == shift_result(
            decode_spec(s1, d1, len, SYS_recvfrom as u64, a),
            d2 - d1,
        ),
{
    let num = SYS_recvfrom as u64;
    let f = |x: Arg| shift_arg(x, d2 - d1);
    lemma_typed_moves(s1, d1, s2, d2, len, a[1], a[2], 1);
    lemma_optional_sockaddr_moves(s1, d1, s2, d2, len, a[4], a[5]);
    if let Ok(x1) = decode_spec(s1, d1, len, num, a) {
        let x2 = decode_spec(s2, d2, len, num, a)->Ok_0;
        assert(x2 =~= x1.map_values(f));
    }
}

#[verifier::rlimit(80)]
proof fn lemma_decode_moves_buffers(s1: Seq<u8>, d1: int, s2: Seq<u8>, d2: int, len: int, num: u64, a: Seq<u64>)
    requires
        a.len() == 6,
        same_data(s1, d1, s2, d2, len),
        num == SYS_bind as u64 || num == SYS_connect as u64 || num == SYS_read as u64 || num
            == SYS_write as u64 || num == SYS_setsockopt as u64,
    ensures
        decode_spec(s2, d2, len, num, a) == shift_result(decode_spec(s1, d1, len, num, a), d2 - d1),
{
    let f = |x: Arg| shift_arg(x, d2 - d1);
    if num == SYS_setsockopt as u64 {
        lemma_typed_moves(s1, d1, s2, d2, len, a[3], a[4], 1);
    } else {
        lemma_typed_moves(s1, d1, s2, d2, len, a[1], a[2], 1);
    }
    if let Ok(x1) = decode_spec(s1, d1, len, num, a) {
        let x2 = decode_spec(s2, d2, len, num, a)->Ok_0;
        assert(x2 =~= x1.map_values(f));
    }
}

#[verifier::rlimit(80)]
proof fn lemma_decode_moves_typed(s1: Seq<u8>, d1: int, s2: Seq<u8>, d2: int, len: int, num: u64, a: Seq<u64>)
    requires
        a.len() == 6,
        same_data(s1, d1, s2, d2, len),
        num == SYS_clock_gettime as u64 || num == SYS_epoll_ctl as u64 || num == SYS_epoll_wait as u64
            || num == SYS_epoll_pwait as u64,
    ensures
        decode_spec(s2, d2, len, num, a) == shift_result(decode_spec(s1, d1, len, num, a), d2 - d1),
{
    let f = |x: Arg| shift_arg(x, d2 - d1);
    if num == SYS_clock_gettime as u64 {
        lemma_typed_moves(s1, d1, s2, d2, len, a[1], 1, TIMESPEC_SIZE);
    } else if num == SYS_epoll_ctl as u64 {
        lemma_typed_moves(s1, d1, s2, d2, len, a[3], 1, EPOLL_EVENT_SIZE);
    } else {
        lemma_typed_moves(s1, d1, s2, d2, len, a[1], a[2], EPOLL_EVENT_SIZE);
        lemma_typed_moves(s1, d1, s2, d2, len, a[4], 1, SIGSET_SIZE);
    }
    if let Ok(x1) = decode_spec(s1, d1, len, num, a) {
        let x2 = decode_spec(s2, d2, len, num, a)->Ok_0;
        assert(x2 =~= x1.map_values(f));
    }
}

} // verus!
