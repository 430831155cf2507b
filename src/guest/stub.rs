//! Calls that the guest answers itself, without the host ever seeing them.
use vstd::prelude::*;

use crate::libc::{
    c_int, c_uint, gid_t, pid_t, stat, uid_t, utsname, EAGAIN, EBADFD, EINVAL, ENOENT,
    GRND_NONBLOCK, GRND_RANDOM, STDERR_FILENO, STDIN_FILENO, STDOUT_FILENO, S_IFIFO,
};
use crate::Result;

verus! {

/// Fake GID returned by enarx.
pub const FAKE_GID: gid_t = 1000;

/// Fake PID returned by enarx.
pub const FAKE_PID: pid_t = 1000;

/// Fake TID returned by enarx.
pub const FAKE_TID: pid_t = 1;

/// Fake UID returned by enarx.
pub const FAKE_UID: uid_t = 1000;

/// The time stamps of the standard streams: 2020-01-20T09:00:18+0100.
pub const FAKE_TIME: i64 = 1_579_507_218;

/// The device number of major `x` and minor `y`.
pub open spec fn makedev_spec(x: u64, y: u64) -> u64 {
    ((x & 0xffff_f000u64) << 32u64) | ((x & 0x0000_0fffu64) << 8u64) | ((y & 0xffff_ff00u64)
        << 12u64) | (y & 0x0000_00ffu64)
}

/// The device number of major `x` and minor `y`.
pub fn makedev(x: u64, y: u64) -> (r: u64)
    ensures
        r == makedev_spec(x, y),
{
    ((x & 0xffff_f000u64) << 32u64) | ((x & 0x0000_0fffu64) << 8u64) | ((y & 0xffff_ff00u64)
        << 12u64) | (y & 0x0000_00ffu64)
}

/// The `stat` record of a standard stream: a FIFO readable and writable by
/// its owner, every field not named here zero.
pub open spec fn is_stream_stat(s: stat, fd: c_int) -> bool {
    &&& s.st_dev == if fd == STDIN_FILENO {
        0x19u64
    } else {
        0xcu64
    }
    &&& s.st_ino == 3
    &&& s.st_mode == S_IFIFO | 0o600u32
    &&& s.st_nlink == 1
    &&& s.st_uid == 1000
    &&& s.st_gid == 5
    &&& s.st_blksize == 4096
    &&& s.st_blocks == 0
    &&& s.st_rdev == 0x8800
    &&& s.st_size == 0
    &&& s.st_atime == FAKE_TIME && s.st_atime_nsec == 0
    &&& s.st_mtime == FAKE_TIME && s.st_mtime_nsec == 0
    &&& s.st_ctime == FAKE_TIME && s.st_ctime_nsec == 0
    &&& s.__pad0 == 0
    &&& s.__unused@ == seq![0i64, 0, 0]
}

/// `fstat(fd, statbuf)`: a synthetic FIFO record for the standard streams,
/// `EBADFD` for any other descriptor.
pub struct Fstat {
    pub fd: c_int,
}

impl Fstat {
    pub fn collect(&self, statbuf: &mut stat) -> (r: Result<()>)
        ensures
            if self.fd == STDIN_FILENO || self.fd == STDOUT_FILENO || self.fd == STDERR_FILENO {
                r is Ok && is_stream_stat(*final(statbuf), self.fd)
            } else {
                r == Err::<(), crate::Error>(EBADFD) && *final(statbuf) == *old(statbuf)
            },
    {
        if self.fd == STDIN_FILENO || self.fd == STDOUT_FILENO || self.fd == STDERR_FILENO {
            let mut p = stat::zeroed();
            let minor: u64 = if self.fd == 0 {
                0x19
            } else {
                0xc
            };
            p.st_dev = makedev(0, minor);
            assert(makedev_spec(0, 0x19) == 0x19u64) by (bit_vector);
            assert(makedev_spec(0, 0xc) == 0xcu64) by (bit_vector);
            assert(makedev_spec(0x88, 0) == 0x8800u64) by (bit_vector);
            p.st_ino = 3;
            p.st_mode = S_IFIFO | 0o600;
            p.st_nlink = 1;
            p.st_uid = 1000;
            p.st_gid = 5;
            p.st_blksize = 4096;
            p.st_blocks = 0;
            p.st_rdev = makedev(0x88, 0);
            p.st_size = 0;
            p.st_atime = FAKE_TIME;
            p.st_atime_nsec = 0;
            p.st_mtime = FAKE_TIME;
            p.st_mtime_nsec = 0;
            p.st_ctime = FAKE_TIME;
            p.st_ctime_nsec = 0;
            *statbuf = p;
            Ok(())
        } else {
            Err(EBADFD)
        }
    }
}

pub struct Getegid;

impl Getegid {
    pub fn collect(&self) -> (r: gid_t)
        ensures
            r == FAKE_GID,
    {
        FAKE_GID
    }
}

pub struct Geteuid;

impl Geteuid {
    pub fn collect(&self) -> (r: uid_t)
        ensures
            r == FAKE_UID,
    {
        FAKE_UID
    }
}

pub struct Getgid;

impl Getgid {
    pub fn collect(&self) -> (r: gid_t)
        ensures
            r == FAKE_GID,
    {
        FAKE_GID
    }
}

pub struct Getpid;

impl Getpid {
    pub fn collect(&self) -> (r: pid_t)
        ensures
            r == FAKE_PID,
    {
        FAKE_PID
    }
}

pub struct Getuid;

impl Getuid {
    pub fn collect(&self) -> (r: uid_t)
        ensures
            r == FAKE_UID,
    {
        FAKE_UID
    }
}

/// `set_tid_address(tidptr)`: the thread id is always the fake one.
pub struct SetTidAddress;

impl SetTidAddress {
    pub fn collect(&self) -> (r: pid_t)
        ensures
            r == FAKE_TID,
    {
        FAKE_TID
    }
}

/// `rt_sigprocmask(how, set, oldset, sigsetsize)`: accepted and ignored.
pub struct RtSigprocmask {
    pub how: c_int,
    pub sigsetsize: usize,
}

impl RtSigprocmask {
    pub fn collect(&self) -> (r: Result<()>)
        ensures
            r is Ok,
    {
        Ok(())
    }
}

/// `sigaltstack(ss, old_ss)`: accepted and ignored.
pub struct Sigaltstack;

impl Sigaltstack {
    pub fn collect(&self) -> (r: Result<()>)
        ensures
            r is Ok,
    {
        Ok(())
    }
}

/// The path that [`Readlink`] resolves.
pub open spec fn self_exe() -> Seq<u8> {
    seq![47u8, 112, 114, 111, 99, 47, 115, 101, 108, 102, 47, 101, 120, 101]
}

/// What the guest's executable link reads as: `"/init\0"`.
pub open spec fn init_path() -> Seq<u8> {
    seq![47u8, 105, 110, 105, 116, 0]
}

/// `readlink(pathname, buf)`: only `/proc/self/exe` exists, and it points
/// to `/init`.
pub struct Readlink {
    pub pathname: Vec<u8>,
}

impl Readlink {
    /// `ENOENT` for any other path; `EINVAL` where `buf` cannot hold the six
    /// bytes of `"/init\0"`; else those bytes at the start of `buf`, and 6.
    pub fn collect(&self, buf: &mut Vec<u8>) -> (r: Result<usize>)
        ensures
            final(buf)@.len() == old(buf)@.len(),
            if self.pathname@ != self_exe() {
                r == Err::<usize, crate::Error>(ENOENT) && final(buf)@ == old(buf)@
            } else if old(buf)@.len() < 6 {
                r == Err::<usize, crate::Error>(EINVAL) && final(buf)@ == old(buf)@
            } else {
                r == Ok::<usize, crate::Error>(6) && final(buf)@ == init_path() + old(buf)@.subrange(
                    6,
                    old(buf)@.len() as int,
                )
            },
    {
        let exe: [u8; 14] = [47, 112, 114, 111, 99, 47, 115, 101, 108, 102, 47, 101, 120, 101];
        assert(exe@ =~= self_exe());
        if self.pathname.len() != 14 {
            return Err(ENOENT);
        }
        let mut i: usize = 0;
        while i < 14
            invariant
                0 <= i <= 14,
                self.pathname@.len() == 14,
                exe@ == self_exe(),
                forall|j: int| 0 <= j < i ==> self.pathname@[j] == exe@[j],
            decreases 14 - i,
        {
            if self.pathname[i] != exe[i] {
                return Err(ENOENT);
            }
            i = i + 1;
        }
        assert(self.pathname@ =~= self_exe());
        if buf.len() < 6 {
            return Err(EINVAL);
        }
        let ghost b0 = buf@;
        buf.set(0, 47);
        buf.set(1, 105);
        buf.set(2, 110);
        buf.set(3, 105);
        buf.set(4, 116);
        buf.set(5, 0);
        assert(buf@ =~= init_path() + b0.subrange(6, b0.len() as int));
        Ok(6)
    }
}

/// `field` filled with the bytes of `with`, then zeros.
pub open spec fn filled(with: Seq<u8>) -> Seq<i8> {
    Seq::new(65, |i: int| if i < with.len() { with[i] as i8 } else { 0i8 })
}

/// Fills a `utsname` field with `with`, then zeros.
fn fill(buf: &mut [i8; 65], with: &[u8])
    requires
        with@.len() <= 65,
    ensures
        final(buf)@ == filled(with@),
{
    let mut i: usize = 0;
    while i < 65
        invariant
            0 <= i <= 65,
            with@.len() <= 65,
            buf@.len() == 65,
            forall|j: int| 0 <= j < i ==> buf@[j] == filled(with@)[j],
        decreases 65 - i,
    {
        let b: i8 = if i < with.len() {
            #[verifier::truncate] (with[i] as i8)
        } else {
            0
        };
        buf[i] = b;
        i = i + 1;
    }
    assert(buf@ =~= filled(with@));
}

/// The system name that the guest reports.
pub open spec fn uname_sysname() -> Seq<u8> {
    seq![76u8, 105, 110, 117, 120]
}

/// `uname(buf)`: "Linux" on "localhost.localdomain", release "5.6.0",
/// version "#1", machine "x86_64"; the domain name is left as it was.
pub struct Uname;

impl Uname {
    pub fn collect(&self, buf: &mut utsname) -> (r: Result<()>)
        ensures
            r is Ok,
            final(buf).sysname@ == filled(uname_sysname()),
            final(buf).nodename@ == filled(
                seq![108u8, 111, 99, 97, 108, 104, 111, 115, 116, 46, 108, 111, 99, 97, 108, 100, 111, 109, 97, 105, 110],
            ),
            final(buf).release@ == filled(seq![53u8, 46, 54, 46, 48]),
            final(buf).version@ == filled(seq![35u8, 49]),
            final(buf).machine@ == filled(seq![120u8, 56, 54, 95, 54, 52]),
            final(buf).domainname == old(buf).domainname,
    {
        let sysname: [u8; 5] = [76, 105, 110, 117, 120];
        let nodename: [u8; 21] = [
            108, 111, 99, 97, 108, 104, 111, 115, 116, 46, 108, 111, 99, 97, 108, 100, 111, 109,
            97, 105, 110,
        ];
        let release: [u8; 5] = [53, 46, 54, 46, 48];
        let version: [u8; 2] = [35, 49];
        let machine: [u8; 6] = [120, 56, 54, 95, 54, 52];
        fill(&mut buf.sysname, sysname.as_slice());
        fill(&mut buf.nodename, nodename.as_slice());
        fill(&mut buf.release, release.as_slice());
        fill(&mut buf.version, version.as_slice());
        fill(&mut buf.machine, machine.as_slice());
        assert(sysname@ =~= uname_sysname());
        assert(nodename@ =~= seq![108u8, 111, 99, 97, 108, 104, 111, 115, 116, 46, 108, 111, 99, 97, 108, 100, 111, 109, 97, 105, 110]);
        assert(release@ =~= seq![53u8, 46, 54, 46, 48]);
        assert(version@ =~= seq![35u8, 49]);
        assert(machine@ =~= seq![120u8, 56, 54, 95, 54, 52]);
        Ok(())
    }
}

/// `getrandom(buf, flags)`, answered from the hardware random number
/// generator of the guest, one 64-bit draw per eight bytes.
///
/// The draws are outside work: [`start`](Self::start) and
/// [`step`](Self::step) decide, and their caller draws.
pub struct Getrandom {
    pub flags: c_uint,
}

/// What `getrandom` does next.
#[derive(Clone, Copy, Debug, PartialEq, Eq)]
pub enum RandomStep {
    /// Draw again; this many bytes are filled.
    Draw(usize),
    /// Finished with this result.
    Done(Result<usize>),
}

/// The eight little-endian bytes of `v`, cut to `n`.
pub open spec fn draw_bytes(v: u64, n: int) -> Seq<u8> {
    crate::item::word_bytes(v).subrange(0, n)
}

impl Getrandom {
    /// Whether `flags` holds only `GRND_NONBLOCK` and `GRND_RANDOM`.
    pub open spec fn flags_known(flags: c_uint) -> bool {
        flags & !(GRND_NONBLOCK | GRND_RANDOM) == 0
    }

    /// The first step for a buffer of `len` bytes: `EINVAL` for unknown
    /// flags, done at once for an empty buffer, else a draw.
    pub fn start(&self, len: usize) -> (r: RandomStep)
        ensures
            !Self::flags_known(self.flags) ==> r == RandomStep::Done(Err(EINVAL)),
            Self::flags_known(self.flags) && len == 0 ==> r == RandomStep::Done(Ok(0)),
            Self::flags_known(self.flags) && len > 0 ==> r == RandomStep::Draw(0),
    {
        if self.flags & !(GRND_NONBLOCK | GRND_RANDOM) != 0 {
            RandomStep::Done(Err(EINVAL))
        } else if len == 0 {
            RandomStep::Done(Ok(0))
        } else {
            RandomStep::Draw(0)
        }
    }

    /// Takes the outcome of one draw with `filled` bytes of `buf` filled: a
    /// value fills the next eight bytes, or fewer at the end; a failed draw
    /// is `EAGAIN` under `GRND_NONBLOCK`, ends with the bytes filled so far
    /// under `GRND_RANDOM`, and is tried again otherwise.
    pub fn step(&self, buf: &mut Vec<u8>, filled: usize, draw: Option<u64>) -> (r: RandomStep)
        requires
            filled < old(buf)@.len(),
        ensures
            final(buf)@.len() == old(buf)@.len(),
            match draw {
                Some(v) => {
                    let n = if old(buf)@.len() - filled < 8 {
                        old(buf)@.len() - filled
                    } else {
                        8
                    };
                    &&& final(buf)@ == crate::item::splice(
                        old(buf)@,
                        filled as int,
                        draw_bytes(v, n),
                    )
                    &&& r == if filled + n == old(buf)@.len() {
                        RandomStep::Done(Ok((filled + n) as usize))
                    } else {
                        RandomStep::Draw((filled + n) as usize)
                    }
                },
                None => {
                    &&& final(buf)@ == old(buf)@
                    &&& r == if self.flags & GRND_NONBLOCK != 0 {
                        RandomStep::Done(Err(EAGAIN))
                    } else if self.flags & GRND_RANDOM != 0 {
                        RandomStep::Done(Ok(filled))
                    } else {
                        RandomStep::Draw(filled)
                    }
                },
            },
    {
        match draw {
            Some(v) => {
                let len = buf.len();
                let n = if len - filled < 8 {
                    len - filled
                } else {
                    8
                };
                let ghost b0 = buf@;
                let bytes = crate::item::word_to_bytes(v);
                let mut i: usize = 0;
                while i < n
                    invariant
                        0 <= i <= n <= 8,
                        filled + n <= len,
                        len == b0.len(),
                        bytes@ == crate::item::word_bytes(v),
                        buf@ == crate::item::splice(b0, filled as int, draw_bytes(v, i as int)),
                    decreases n - i,
                {
                    buf.set(filled + i, bytes[i]);
                    i = i + 1;
                    assert(buf@ =~= crate::item::splice(b0, filled as int, draw_bytes(v, i as int)));
                }
                if filled + n == len {
                    RandomStep::Done(Ok(filled + n))
                } else {
                    RandomStep::Draw(filled + n)
                }
            },
            None => {
                if self.flags & GRND_NONBLOCK != 0 {
                    RandomStep::Done(Err(EAGAIN))
                } else if self.flags & GRND_RANDOM != 0 {
                    RandomStep::Done(Ok(filled))
                } else {
                    RandomStep::Draw(filled)
                }
            },
        }
    }
}

} // verus!
