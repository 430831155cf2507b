//! The syscalls that the guest stages for the host: what each puts in its
//! argument vector and regions, and how its result is read back.
use vstd::prelude::*;

use crate::guest::staging::{
    lens_of, Collected, Dir, RegionReq, Request, Slot, StagedSyscall,
};
use crate::host::{decode_spec, Arg};
use crate::item::{splice, word_bytes};
use crate::item::{word_at, word_result};
use crate::libc::{
    c_int, clockid_t, timespec, SYS_clock_gettime, SYS_close, SYS_dup, SYS_dup2, SYS_dup3,
    SYS_eventfd2, SYS_exit, SYS_exit_group, SYS_read, SYS_recvfrom, SYS_sync, SYS_write,
};
use crate::Result;

verus! {

/// The word that carries the C `int` `v` in an argument register: its sign
/// extension.
pub open spec fn int_word(v: i32) -> u64 {
    v as i64 as u64
}

fn to_word(v: i32) -> (r: u64)
    ensures
        r == int_word(v),
{
    #[verifier::truncate]
    (v as i64 as u64)
}

/// An argument vector of scalars only: `words`, then zeros.
pub open spec fn scalar_argv(words: Seq<u64>) -> Seq<Slot> {
    Seq::new(6, |i: int| if i < words.len() { Slot::Word(words[i]) } else { Slot::Word(0) })
}

/// Trait implemented by syscalls that are passed through directly to the
/// host: their arguments are scalars and their result is the return
/// register as it is.
pub trait PassthroughSyscall: Sized {
    /// The syscall number.
    spec fn spec_num(&self) -> i64;

    /// The argument registers.
    spec fn spec_argv(&self) -> Seq<u64>;

    /// The syscall number.
    fn num(&self) -> (r: i64)
        ensures
            r == self.spec_num(),
    ;

    /// Returns the argument vector registers.
    fn stage(&self) -> (r: [u64; 6])
        ensures
            r@ == self.spec_argv(),
    ;
}

/// A request of scalars only: number `num`, argument registers `argv`, and
/// no region.
pub fn scalar_request(num: i64, a: [u64; 6]) -> (r: Request)
    ensures
        r.wf(),
        r.num == num,
        r.regions@.len() == 0,
        r.argv@ == scalar_argv(a@),
{
    let r = Request {
        num,
        argv: [
            Slot::Word(a[0]),
            Slot::Word(a[1]),
            Slot::Word(a[2]),
            Slot::Word(a[3]),
            Slot::Word(a[4]),
            Slot::Word(a[5]),
        ],
        regions: Vec::new(),
    };
    assert(r.argv@ =~= scalar_argv(a@));
    r
}

/// The request of a passthrough syscall: its number and its argument
/// registers, and no region.
pub fn passthrough_request<T: PassthroughSyscall>(call: &T) -> (r: Request)
    ensures
        r.wf(),
        r.num == call.spec_num(),
        r.regions@.len() == 0,
        r.argv@ == scalar_argv(call.spec_argv()),
{
    let a = call.stage();
    scalar_request(call.num(), a)
}

/// The result of a passthrough syscall: the return register as the host
/// left it, by the Linux convention.
pub fn passthrough_collect(c: &Collected) -> (r: Result<u64>)
    ensures
        r == c.ret,
{
    c.ret
}

/// The result of a call whose value is of no interest: `Ok(())` where the
/// return register carries no `errno`.
pub open spec fn unit_result(ret: Result<u64>) -> Result<()> {
    match ret {
        Ok(_) => Ok(()),
        Err(e) => Err(e),
    }
}

/// Reads the result of a call whose value is of no interest.
pub fn collect_unit(c: &Collected) -> (r: Result<()>)
    ensures
        r == unit_result(c.ret),
{
    match c.ret {
        Ok(_) => Ok(()),
        Err(e) => Err(e),
    }
}

pub struct Close {
    pub fd: c_int,
}

pub struct Dup {
    pub oldfd: c_int,
}

pub struct Dup2 {
    pub oldfd: c_int,
    pub newfd: c_int,
}

pub struct Dup3 {
    pub oldfd: c_int,
    pub newfd: c_int,
    pub flags: c_int,
}

pub struct Eventfd2 {
    pub initval: c_int,
    pub flags: c_int,
}

pub struct Exit {
    pub status: c_int,
}

pub struct ExitGroup {
    pub status: c_int,
}

pub struct Sync;

impl PassthroughSyscall for Close {
    open spec fn spec_num(&self) -> i64 {
        SYS_close
    }

    open spec fn spec_argv(&self) -> Seq<u64> {
        seq![int_word(self.fd), 0, 0, 0, 0, 0]
    }

    fn num(&self) -> i64 {
        SYS_close
    }

    fn stage(&self) -> [u64; 6] {
        let r = [to_word(self.fd), 0, 0, 0, 0, 0];
        assert(r@ =~= self.spec_argv());
        r
    }
}

impl PassthroughSyscall for Dup {
    open spec fn spec_num(&self) -> i64 {
        SYS_dup
    }

    open spec fn spec_argv(&self) -> Seq<u64> {
        seq![int_word(self.oldfd), 0, 0, 0, 0, 0]
    }

    fn num(&self) -> i64 {
        SYS_dup
    }

    fn stage(&self) -> [u64; 6] {
        let r = [to_word(self.oldfd), 0, 0, 0, 0, 0];
        assert(r@ =~= self.spec_argv());
        r
    }
}

impl PassthroughSyscall for Dup2 {
    open spec fn spec_num(&self) -> i64 {
        SYS_dup2
    }

    open spec fn spec_argv(&self) -> Seq<u64> {
        seq![int_word(self.oldfd), int_word(self.newfd), 0, 0, 0, 0]
    }

    fn num(&self) -> i64 {
        SYS_dup2
    }

    fn stage(&self) -> [u64; 6] {
        let r = [to_word(self.oldfd), to_word(self.newfd), 0, 0, 0, 0];
        assert(r@ =~= self.spec_argv());
        r
    }
}

impl PassthroughSyscall for Dup3 {
    open spec fn spec_num(&self) -> i64 {
        SYS_dup3
    }

    open spec fn spec_argv(&self) -> Seq<u64> {
        seq![int_word(self.oldfd), int_word(self.newfd), int_word(self.flags), 0, 0, 0]
    }

    fn num(&self) -> i64 {
        SYS_dup3
    }

    fn stage(&self) -> [u64; 6] {
        let r = [to_word(self.oldfd), to_word(self.newfd), to_word(self.flags), 0, 0, 0];
        assert(r@ =~= self.spec_argv());
        r
    }
}

impl PassthroughSyscall for Eventfd2 {
    open spec fn spec_num(&self) -> i64 {
        SYS_eventfd2
    }

    open spec fn spec_argv(&self) -> Seq<u64> {
        seq![int_word(self.initval), int_word(self.flags), 0, 0, 0, 0]
    }

    fn num(&self) -> i64 {
        SYS_eventfd2
    }

    fn stage(&self) -> [u64; 6] {
        let r = [to_word(self.initval), to_word(self.flags), 0, 0, 0, 0];
        assert(r@ =~= self.spec_argv());
        r
    }
}

impl PassthroughSyscall for Exit {
    open spec fn spec_num(&self) -> i64 {
        SYS_exit
    }

    open spec fn spec_argv(&self) -> Seq<u64> {
        seq![int_word(self.status), 0, 0, 0, 0, 0]
    }

    fn num(&self) -> i64 {
        SYS_exit
    }

    fn stage(&self) -> [u64; 6] {
        let r = [to_word(self.status), 0, 0, 0, 0, 0];
        assert(r@ =~= self.spec_argv());
        r
    }
}

impl PassthroughSyscall for ExitGroup {
    open spec fn spec_num(&self) -> i64 {
        SYS_exit_group
    }

    open spec fn spec_argv(&self) -> Seq<u64> {
        seq![int_word(self.status), 0, 0, 0, 0, 0]
    }

    fn num(&self) -> i64 {
        SYS_exit_group
    }

    fn stage(&self) -> [u64; 6] {
        let r = [to_word(self.status), 0, 0, 0, 0, 0];
        assert(r@ =~= self.spec_argv());
        r
    }
}

impl PassthroughSyscall for Sync {
    open spec fn spec_num(&self) -> i64 {
        SYS_sync
    }

    open spec fn spec_argv(&self) -> Seq<u64> {
        seq![0, 0, 0, 0, 0, 0]
    }

    fn num(&self) -> i64 {
        SYS_sync
    }

    fn stage(&self) -> [u64; 6] {
        let r = [0, 0, 0, 0, 0, 0];
        assert(r@ =~= self.spec_argv());
        r
    }
}

/// Trait implemented by syscalls that stage a request for the host.
pub trait Syscall {
    /// Whether `r` is the request of this call.
    spec fn requests(&self, r: Request) -> bool;

    /// The request this call stages.
    fn request(&self) -> (r: Request)
        ensures
            r.wf(),
            self.requests(r),
    ;
}

/// `clock_gettime(clockid, tp)`: the host writes the time of `clockid`
/// into a `timespec` output region.
pub struct ClockGettime {
    pub clockid: clockid_t,
}

/// The `timespec` whose two words are the first sixteen bytes of `b`.
pub open spec fn timespec_of(b: Seq<u8>) -> timespec {
    timespec { tv_sec: word_at(b, 0) as i64, tv_nsec: word_at(b, 8) as i64 }
}

impl Syscall for ClockGettime {
    open spec fn requests(&self, r: Request) -> bool {
        &&& r.num == SYS_clock_gettime
        &&& r.argv@ == seq![Slot::Word(int_word(self.clockid)), Slot::Region(0), Slot::Word(0), Slot::Word(0), Slot::Word(0), Slot::Word(0)]
        &&& r.regions@.len() == 1
        &&& r.regions@[0].dir == Dir::Out
        &&& r.regions@[0].len == 16
    }

    fn request(&self) -> (r: Request) {
        let r = Request {
            num: SYS_clock_gettime,
            argv: [
                Slot::Word(to_word(self.clockid)),
                Slot::Region(0),
                Slot::Word(0),
                Slot::Word(0),
                Slot::Word(0),
                Slot::Word(0),
            ],
            regions: vec![RegionReq { dir: Dir::Out, len: 16, bytes: Vec::new() }],
        };
        assert(r.argv@ =~= seq![Slot::Word(int_word(self.clockid)), Slot::Region(0), Slot::Word(0), Slot::Word(0), Slot::Word(0), Slot::Word(0)]);
        r
    }
}

impl ClockGettime {
    /// The time that the host wrote, where the call succeeded: the
    /// `timespec` is read back only then.
    pub fn collect(c: &Collected) -> (r: Result<timespec>)
        requires
            c.outputs@.len() == 1,
            c.outputs@[0]@.len() == 16,
        ensures
            match c.ret {
                Ok(_) => r == Ok::<timespec, crate::Error>(timespec_of(c.outputs@[0]@)),
                Err(e) => r == Err::<timespec, crate::Error>(e),
            },
    {
        match c.ret {
            Ok(_) => {
                let b = &c.outputs[0];
                let sec = crate::item::read_word(b, 0);
                let nsec = crate::item::read_word(b, 8);
                Ok(
                    timespec {
                        tv_sec: #[verifier::truncate] (sec as i64),
                        tv_nsec: #[verifier::truncate] (nsec as i64),
                    },
                )
            },
            Err(e) => Err(e),
        }
    }
}

/// `read(fd, buf, count)`: the host reads up to `count` bytes into an
/// output region.
pub struct Read {
    pub fd: c_int,
    pub count: usize,
}

impl Syscall for Read {
    open spec fn requests(&self, r: Request) -> bool {
        &&& r.num == SYS_read
        &&& r.argv@ == seq![Slot::Word(int_word(self.fd)), Slot::Region(0), Slot::Word(self.count as u64), Slot::Word(0), Slot::Word(0), Slot::Word(0)]
        &&& r.regions@.len() == 1
        &&& r.regions@[0].dir == Dir::Out
        &&& r.regions@[0].len == self.count
    }

    fn request(&self) -> (r: Request) {
        let r = Request {
            num: SYS_read,
            argv: [
                Slot::Word(to_word(self.fd)),
                Slot::Region(0),
                Slot::Word(self.count as u64),
                Slot::Word(0),
                Slot::Word(0),
                Slot::Word(0),
            ],
            regions: vec![RegionReq { dir: Dir::Out, len: self.count, bytes: Vec::new() }],
        };
        assert(r.argv@ =~= seq![Slot::Word(int_word(self.fd)), Slot::Region(0), Slot::Word(self.count as u64), Slot::Word(0), Slot::Word(0), Slot::Word(0)]);
        r
    }
}

/// The number of bytes that a read or write of `cap` bytes reports, given
/// the return register: the host's count, bounded by `cap`.
pub open spec fn count_result(ret: Result<u64>, cap: int) -> Result<usize> {
    match ret {
        Ok(n) => Ok(if n < cap { n as usize } else { cap as usize }),
        Err(e) => Err(e),
    }
}

impl Read {
    /// Copies the bytes that the host read into the start of `buf`, no more
    /// than `buf` holds, and returns their number.
    pub fn collect(c: &Collected, buf: &mut Vec<u8>) -> (r: Result<usize>)
        requires
            c.outputs@.len() == 1,
            c.outputs@[0]@.len() == old(buf)@.len(),
        ensures
            r == count_result(c.ret, old(buf)@.len() as int),
            final(buf)@.len() == old(buf)@.len(),
            match r {
                Ok(n) => final(buf)@ == c.outputs@[0]@.subrange(0, n as int) + old(buf)@.subrange(
                    n as int,
                    old(buf)@.len() as int,
                ),
                Err(_) => final(buf)@ == old(buf)@,
            },
    {
        match c.ret {
            Ok(n) => {
                let cap = buf.len();
                let k = if n < cap as u64 {
                    n as usize
                } else {
                    cap
                };
                copy_prefix(buf, &c.outputs[0], k);
                Ok(k)
            },
            Err(e) => Err(e),
        }
    }
}

/// Copies the first `k` bytes of `src` over the first `k` of `dst`.
fn copy_prefix(dst: &mut Vec<u8>, src: &Vec<u8>, k: usize)
    requires
        k <= src@.len(),
        k <= old(dst)@.len(),
    ensures
        final(dst)@ == src@.subrange(0, k as int) + old(dst)@.subrange(k as int, old(dst)@.len() as int),
{
    let mut i: usize = 0;
    while i < k
        invariant
            0 <= i <= k,
            k <= src@.len(),
            k <= old(dst)@.len(),
            dst@ == src@.subrange(0, i as int) + old(dst)@.subrange(i as int, old(dst)@.len() as int),
        decreases k - i,
    {
        dst.set(i, src[i]);
        i = i + 1;
        assert(dst@ =~= src@.subrange(0, i as int) + old(dst)@.subrange(i as int, old(dst)@.len() as int));
    }
}

/// `write(fd, buf)`: the bytes go to the host in an input region.
pub struct Write {
    pub fd: c_int,
    pub buf: Vec<u8>,
}

impl Syscall for Write {
    open spec fn requests(&self, r: Request) -> bool {
        &&& r.num == SYS_write
        &&& r.argv@ == seq![Slot::Word(int_word(self.fd)), Slot::Region(0), Slot::Word(self.buf@.len() as u64), Slot::Word(0), Slot::Word(0), Slot::Word(0)]
        &&& r.regions@.len() == 1
        &&& r.regions@[0].dir == Dir::In
        &&& r.regions@[0].bytes@ == self.buf@
    }

    fn request(&self) -> (r: Request) {
        let bytes = copy_vec(&self.buf);
        let len = bytes.len();
        let r = Request {
            num: SYS_write,
            argv: [
                Slot::Word(to_word(self.fd)),
                Slot::Region(0),
                Slot::Word(len as u64),
                Slot::Word(0),
                Slot::Word(0),
                Slot::Word(0),
            ],
            regions: vec![RegionReq { dir: Dir::In, len, bytes }],
        };
        assert(r.argv@ =~= seq![Slot::Word(int_word(self.fd)), Slot::Region(0), Slot::Word(self.buf@.len() as u64), Slot::Word(0), Slot::Word(0), Slot::Word(0)]);
        r
    }
}

impl Write {
    /// The number of bytes that the host wrote, no more than were given.
    pub fn collect(&self, c: &Collected) -> (r: Result<usize>)
        ensures
            r == count_result(c.ret, self.buf@.len() as int),
    {
        match c.ret {
            Ok(n) => if n < self.buf.len() as u64 {
                Ok(n as usize)
            } else {
                Ok(self.buf.len())
            },
            Err(e) => Err(e),
        }
    }
}

/// A copy of `v`.
pub fn copy_vec(v: &Vec<u8>) -> (r: Vec<u8>)
    ensures
        r@ == v@,
{
    let mut r: Vec<u8> = Vec::new();
    let mut i: usize = 0;
    while i < v.len()
        invariant
            0 <= i <= v@.len(),
            r@ == v@.subrange(0, i as int),
        decreases v@.len() - i,
    {
        r.push(v[i]);
        i = i + 1;
        assert(r@ =~= v@.subrange(0, i as int));
    }
    assert(r@ =~= v@);
    r
}

/// `recvfrom(sockfd, buf, len, flags, src_addr, addrlen)`: the host receives
/// up to `len` bytes into an output region and, where `addr_cap` is given,
/// the peer's address into an output region of that many bytes, with its
/// length in an in-out word that starts as `addr_cap`.
pub struct Recvfrom {
    pub sockfd: c_int,
    pub len: usize,
    pub flags: c_int,
    pub addr_cap: Option<u32>,
}

/// The four little-endian bytes of `v`.
pub open spec fn u32_bytes(v: u32) -> Seq<u8> {
    seq![v as u8, (v >> 8u32) as u8, (v >> 16u32) as u8, (v >> 24u32) as u8]
}

fn u32_to_bytes(v: u32) -> (r: Vec<u8>)
    ensures
        r@ == u32_bytes(v),
{
    let r = vec![
        #[verifier::truncate] (v as u8),
        #[verifier::truncate] ((v >> 8u32) as u8),
        #[verifier::truncate] ((v >> 16u32) as u8),
        #[verifier::truncate] ((v >> 24u32) as u8),
    ];
    assert(r@ =~= u32_bytes(v));
    r
}

impl Syscall for Recvfrom {
    open spec fn requests(&self, r: Request) -> bool {
        &&& r.num == SYS_recvfrom
        &&& r.argv@[0] == Slot::Word(int_word(self.sockfd))
        &&& r.argv@[1] == Slot::Region(0)
        &&& r.argv@[2] == Slot::Word(self.len as u64)
        &&& r.argv@[3] == Slot::Word(int_word(self.flags))
        &&& r.regions@[0].dir == Dir::Out
        &&& r.regions@[0].len == self.len
        &&& match self.addr_cap {
            None => {
                &&& r.regions@.len() == 1
                &&& r.argv@[4] == Slot::Null
                &&& r.argv@[5] == Slot::Null
            },
            Some(cap) => {
                &&& r.regions@.len() == 3
                &&& r.argv@[4] == Slot::Region(1)
                &&& r.argv@[5] == Slot::Region(2)
                &&& r.regions@[1].dir == Dir::Out
                &&& r.regions@[1].len == cap
                &&& r.regions@[2].dir == Dir::InOut
                &&& r.regions@[2].bytes@ == u32_bytes(cap)
            },
        }
    }

    fn request(&self) -> (r: Request) {
        let mut regions = vec![RegionReq { dir: Dir::Out, len: self.len, bytes: Vec::new() }];
        let (src, addrlen) = match self.addr_cap {
            None => (Slot::Null, Slot::Null),
            Some(cap) => {
                regions.push(RegionReq { dir: Dir::Out, len: cap as usize, bytes: Vec::new() });
                regions.push(RegionReq { dir: Dir::InOut, len: 4, bytes: u32_to_bytes(cap) });
                (Slot::Region(1), Slot::Region(2))
            },
        };
        Request {
            num: SYS_recvfrom,
            argv: [
                Slot::Word(to_word(self.sockfd)),
                Slot::Region(0),
                Slot::Word(self.len as u64),
                Slot::Word(to_word(self.flags)),
                src,
                addrlen,
            ],
            regions,
        }
    }
}

/// What a `recvfrom` brought back.
#[derive(Clone, Debug)]
pub struct Received {
    /// The bytes received, no more than were asked for.
    pub data: Vec<u8>,
    /// The peer's address, no more bytes than its buffer holds.
    pub addr: Vec<u8>,
    /// The address length that the host reported.
    pub addrlen: u32,
}

/// The little-endian 32-bit number in the first four bytes of `b`.
pub open spec fn u32_of(b: Seq<u8>) -> u32 {
    crate::item::u32_at(b, 0)
}

/// The first `min(n, s.len())` bytes of `s`.
pub open spec fn clamped(s: Seq<u8>, n: int) -> Seq<u8> {
    if n < s.len() {
        s.subrange(0, n)
    } else {
        s
    }
}

impl Recvfrom {
    /// Reads back what the host received: the data, bounded by the buffer,
    /// and, where an address was asked for, the address bounded by its
    /// buffer and the length that the host reported.
    pub fn collect(&self, c: &Collected) -> (r: Result<Received>)
        requires
            c.outputs@.len() == if self.addr_cap is Some {
                3int
            } else {
                1int
            },
            c.outputs@[0]@.len() == self.len,
            self.addr_cap matches Some(cap) ==> c.outputs@[1]@.len() == cap
                && c.outputs@[2]@.len() == 4,
        ensures
            match c.ret {
                Ok(n) => r matches Ok(rec) && rec.data@ == clamped(c.outputs@[0]@, n as int)
                    && match self.addr_cap {
                    None => rec.addr@.len() == 0 && rec.addrlen == 0,
                    Some(cap) => rec.addrlen == u32_of(c.outputs@[2]@) && rec.addr@ == clamped(
                        c.outputs@[1]@,
                        rec.addrlen as int,
                    ),
                },
                Err(e) => r matches Err(f) && f == e,
            },
    {
        match c.ret {
            Ok(n) => {
                let data = prefix(&c.outputs[0], n);
                let (addr, addrlen) = match self.addr_cap {
                    None => (Vec::new(), 0u32),
                    Some(_) => {
                        let l = crate::item::read_u32(&c.outputs[2], 0);
                        (prefix(&c.outputs[1], l as u64), l)
                    },
                };
                Ok(Received { data, addr, addrlen })
            },
            Err(e) => Err(e),
        }
    }
}

/// The first `min(n, v.len())` bytes of `v`.
fn prefix(v: &Vec<u8>, n: u64) -> (r: Vec<u8>)
    ensures
        r@ == clamped(v@, n as int),
{
    let k = if n < v.len() as u64 {
        n as usize
    } else {
        v.len()
    };
    let mut r: Vec<u8> = Vec::new();
    let mut i: usize = 0;
    while i < k
        invariant
            0 <= i <= k,
            k <= v@.len(),
            r@ == v@.subrange(0, i as int),
        decreases k - i,
    {
        r.push(v[i]);
        i = i + 1;
        assert(r@ =~= v@.subrange(0, i as int));
    }
    assert(r@ =~= clamped(v@, n as int));
    r
}

/// How many argument registers passthrough syscall `num` takes.
pub open spec fn passthrough_arity(num: u64) -> int {
    if num == SYS_sync as u64 {
        0
    } else if num == SYS_dup2 as u64 || num == SYS_eventfd2 as u64 {
        2
    } else if num == SYS_dup3 as u64 {
        3
    } else {
        1
    }
}

/// Whether `num` is a scalar call that passes through to the host.
pub open spec fn is_passthrough_num(num: u64) -> bool {
    num == SYS_close as u64 || num == SYS_dup as u64 || num == SYS_dup2 as u64 || num
        == SYS_dup3 as u64 || num == SYS_eventfd2 as u64 || num == SYS_exit as u64 || num
        == SYS_exit_group as u64 || num == SYS_sync as u64
}

/// Passthrough identity: a passthrough syscall reaches the host with its
/// number and its argument registers exactly as the call gave them, and
/// the host makes its call with those registers as they are; what the host
/// leaves in the return register comes back to the guest unchanged, a value
/// as that value and a negated `errno` as that `errno`.
pub proof fn lemma_passthrough_identity<T: PassthroughSyscall>(
    call: T,
    req: Request,
    st: StagedSyscall,
    s: Seq<u8>,
    w: u64,
)
    requires
        req.num == call.spec_num(),
        req.regions@.len() == 0,
        req.argv@ == scalar_argv(call.spec_argv()),
        call.spec_argv().len() == 6,
        is_passthrough_num(call.spec_num() as u64),
        st.staged_from(req, st.header as int),
        st.end() <= s.len(),
    ensures
        st.num == call.spec_num() as u64,
        st.argv@ == call.spec_argv(),
        st.staged_size == 0,
        decode_spec(s, st.data(), 0, st.num, st.argv@) == Ok::<Seq<Arg>, crate::Error>(
            Seq::new(passthrough_arity(st.num) as nat, |i: int| Arg::Word(st.argv@[i])),
        ),
        word_result(
            word_at(splice(s, st.header + 72, word_bytes(w)), st.header + 72),
        ) == word_result(w),
{
    assert forall|j: int| 0 <= j < 6 implies st.argv@[j] == call.spec_argv()[j] by {
        assert(req.argv@[j] == Slot::Word(call.spec_argv()[j]));
    }
    assert(st.argv@ =~= call.spec_argv());
    assert(lens_of(req.regions@) =~= Seq::<usize>::empty());
    let a = st.argv@;
    let args = Seq::new(passthrough_arity(st.num) as nat, |i: int| Arg::Word(a[i]));
    assert(args.len() <= 3);
    if passthrough_arity(st.num) == 0 {
        assert(args =~= seq![]);
    } else if passthrough_arity(st.num) == 1 {
        assert(args =~= seq![Arg::Word(a[0])]);
    } else if passthrough_arity(st.num) == 2 {
        assert(args =~= seq![Arg::Word(a[0]), Arg::Word(a[1])]);
    } else {
        assert(args =~= seq![Arg::Word(a[0]), Arg::Word(a[1]), Arg::Word(a[2])]);
    }
    crate::item::lemma_word_at_splice(s, st.header + 72, w, st.header + 72);
}

} // verus!
