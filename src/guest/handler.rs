//! The guest's entry points: a handler that owns the block and the platform
//! through which the host is reached.
use vstd::prelude::*;

use crate::guest::staging::{
    batch_size, collect, commit_batch, lemma_region_in_span, lemma_span_monotonic, lens_of,
    padded, span, stage_batch, Collected, Dir, Request,
};
use crate::guest::stub::{
    Fstat, Getpid, Getuid, Readlink, Uname, FAKE_GID, FAKE_PID, FAKE_TID, FAKE_UID,
};
use crate::guest::syscall::{
    count_result, is_passthrough_num, passthrough_request, timespec_of, ClockGettime, Close,
    PassthroughSyscall, Read, Received, Recvfrom, Sync, Syscall, Write,
};
use crate::item::{word_at, word_result, HEADER_SIZE, SYSCALL_PAYLOAD_SIZE};
use crate::libc::{
    c_int, clockid_t, stat, timespec, utsname, EINVAL, ENOMEM, ENOSYS, SYS_close, SYS_dup,
    SYS_dup2, SYS_dup3, SYS_eventfd2, SYS_exit, SYS_exit_group, SYS_getegid, SYS_geteuid,
    SYS_getgid, SYS_getpid, SYS_getuid, SYS_set_tid_address, SYS_sync,
};
use crate::{Error, Result};

verus! {

/// What the guest needs of the machine it runs on.
pub trait Platform {
    /// Hands the block to the host, which runs its items and writes their
    /// results back, and returns once it has.
    fn sally(&mut self, block: &mut Vec<u8>) -> Result<()>;
}

/// Whether calls `reqs` fit in a block of `len` bytes.
pub open spec fn batch_fits(reqs: Seq<Request>, len: int) -> bool {
    len >= HEADER_SIZE && len % 8 == 0 && batch_size(reqs) + HEADER_SIZE <= len
}

/// The error with which staging `reqs` into `len` bytes fails.
pub open spec fn staging_error(reqs: Seq<Request>, len: int) -> Error {
    if len < HEADER_SIZE || len % 8 != 0 {
        EINVAL
    } else {
        ENOMEM
    }
}

/// Whether one call whose regions take `data_size` bytes fits in a block of
/// `len` bytes.
pub open spec fn single_fits(len: int, data_size: int) -> bool {
    len >= HEADER_SIZE && len % 8 == 0 && HEADER_SIZE + SYSCALL_PAYLOAD_SIZE + data_size
        + HEADER_SIZE <= len
}

/// The error of a call that does not fit in a block of `len` bytes.
pub open spec fn layout_error(len: int) -> Error {
    if len < HEADER_SIZE || len % 8 != 0 {
        EINVAL
    } else {
        ENOMEM
    }
}

/// The bytes of data that `call` stages: its buffer, and where it asks for
/// the peer's address, the address buffer and the word of its length.
pub open spec fn recvfrom_data_size(call: Recvfrom) -> int {
    padded(call.len as int) + match call.addr_cap {
        Some(cap) => padded(cap as int) + 8,
        None => 0,
    }
}

/// A batch of one call fits exactly where the call fits alone.
pub proof fn lemma_single_fits(req: Request, len: int)
    ensures
        batch_fits(seq![req], len) == single_fits(len, req.data_size()),
        staging_error(seq![req], len) == layout_error(len),
{
    let s = seq![req];
    assert(s.drop_last() =~= Seq::<Request>::empty());
    assert(s.last() == req);
    assert(batch_size(Seq::<Request>::empty()) == 0);
    assert(batch_size(s) == HEADER_SIZE + SYSCALL_PAYLOAD_SIZE + req.data_size());
}

/// Whether `c` is what call `k` of `reqs`, staged as a batch, collects
/// from block `s`: the return register of its item, and the bytes of each
/// of its output regions.
pub open spec fn result_at(s: Seq<u8>, reqs: Seq<Request>, k: int, c: Collected) -> bool {
    let h = batch_size(reqs.take(k));
    let data = h + HEADER_SIZE + SYSCALL_PAYLOAD_SIZE;
    let lens = lens_of(reqs[k].regions@);
    &&& c.ret == word_result(word_at(s, h + HEADER_SIZE + 56))
    &&& c.outputs@.len() == lens.len()
    &&& forall|j: int|
        0 <= j < lens.len() ==> #[trigger] c.outputs@[j]@ == if reqs[k].regions@[j].dir == Dir::In {
            Seq::<u8>::empty()
        } else {
            s.subrange(data + span(lens.take(j)), data + span(lens.take(j)) + lens[j])
        }
}

/// The guest's handler: the block and the platform.
pub struct Handler<P: Platform> {
    block: Vec<u8>,
    platform: P,
}

impl<P: Platform> Handler<P> {
    /// A handler over `block`, which the host reaches through `platform`.
    pub fn new(block: Vec<u8>, platform: P) -> (r: Handler<P>)
        ensures
            r.spec_block() == block@,
            r.spec_platform() == platform,
    {
        Handler { block, platform }
    }

    /// The platform.
    pub closed spec fn spec_platform(&self) -> P {
        self.platform
    }

    /// The bytes of the block.
    pub closed spec fn spec_block(&self) -> Seq<u8> {
        self.block@
    }

    /// The platform.
    pub fn platform(&self) -> (r: &P)
        ensures
            *r == self.spec_platform(),
    {
        &self.platform
    }

    /// The block.
    pub fn block(&self) -> (r: &Vec<u8>)
        ensures
            r@ == self.spec_block(),
    {
        &self.block
    }

    /// Runs a batch: stages the calls in order, commits them, hands the
    /// block to the host, and collects each call's result. Staging fails as
    /// [`stage_batch`] says; the platform's error is passed on; where the
    /// platform hands back a block of another size, `EINVAL`.
#[verifier::rlimit(80)]
    pub fn execute(&mut self, reqs: Vec<Request>) -> (r: Result<Vec<Collected>>)
        requires
            forall|k: int| 0 <= k < reqs@.len() ==> #[trigger] reqs@[k].wf(),
        ensures
            !batch_fits(reqs@, old(self).spec_block().len() as int) ==> r == Err::<
                Vec<Collected>,
                Error,
            >(staging_error(reqs@, old(self).spec_block().len() as int)),
            final(self).spec_block().len() != old(self).spec_block().len() ==> r == Err::<
                Vec<Collected>,
                Error,
            >(EINVAL),
            r matches Ok(cs) ==> {
                &&& batch_fits(reqs@, old(self).spec_block().len() as int)
                &&& final(self).spec_block().len() == old(self).spec_block().len()
                &&& cs@.len() == reqs@.len()
                &&& forall|k: int|
                    0 <= k < cs@.len() ==> result_at(
                        final(self).spec_block(),
                        reqs@,
                        k,
                        #[trigger] cs@[k],
                    )
            },
    {
        let ghost all = reqs@;
        let len = self.block.len();
        let b = stage_batch(len, reqs)?;
        let ghost calls = b.calls@;
        let committed = commit_batch(&mut self.block, b);
        let handed = self.platform.sally(&mut self.block);
        if self.block.len() != len {
            return Err(EINVAL);
        }
        handed?;
        let n = committed.len();
        let mut out: Vec<Collected> = Vec::new();
        let mut k: usize = 0;
        while k < n
            invariant
                n == committed@.len(),
                n == all.len(),
                calls.len() == n,
                0 <= k <= n,
                self.block@.len() == len,
                forall|j: int|
                    0 <= j < n ==> (#[trigger] committed@[j]).committed_from(calls[j])
                        && committed@[j].wf(len as int),
                forall|j: int|
                    0 <= j < n ==> (#[trigger] calls[j]).staged_from(all[j], batch_size(all.take(j))),
                out@.len() == k,
                forall|j: int| 0 <= j < k ==> result_at(self.block@, all, j, #[trigger] out@[j]),
            decreases n - k,
        {
            let c = collect(&self.block, &committed[k]);
            proof {
                let st = calls[k as int];
                let lens = lens_of(all[k as int].regions@);
                assert(st.staged_from(all[k as int], batch_size(all.take(k as int))));
                assert forall|j: int| 0 <= j < lens.len() implies #[trigger] c.outputs@[j]@ == if all[k as int].regions@[j].dir == Dir::In {
                    Seq::<u8>::empty()
                } else {
                    self.block@.subrange(st.data() + span(lens.take(j)), st.data() + span(lens.take(j)) + lens[j])
                } by {
                    assert(committed@[k as int].dirs@[j] == st.regions@[j].dir);
                    assert(committed@[k as int].lens@[j] == lens[j]);
                    assert(committed@[k as int].positions@[j] == st.positions@[j]);
                    assert(st.positions@[j] == st.data() + span(lens.take(j)));
                }
            }
            out.push(c);
            k = k + 1;
        }
        Ok(out)
    }

    /// Runs one call alone.
    fn run_one(&mut self, req: Request) -> (r: Result<Collected>)
        requires
            req.wf(),
        ensures
            !batch_fits(seq![req], old(self).spec_block().len() as int) ==> r == Err::<
                Collected,
                Error,
            >(staging_error(seq![req], old(self).spec_block().len() as int)),
            r matches Ok(c) ==> {
                &&& batch_fits(seq![req], old(self).spec_block().len() as int)
                &&& final(self).spec_block().len() == old(self).spec_block().len()
                &&& result_at(final(self).spec_block(), seq![req], 0, c)
            },
    {
        let ghost s = seq![req];
        let reqs = vec![req];
        assert(reqs@ =~= s);
        let mut cs = self.execute(reqs)?;
        assert(cs@.len() == 1);
        let c = cs.remove(0);
        Ok(c)
    }

    /// Runs a passthrough syscall and returns its return register.
    pub fn passthrough<T: PassthroughSyscall>(&mut self, call: &T) -> (r: Result<u64>)
        ensures
            !single_fits(old(self).spec_block().len() as int, 0) ==> r == Err::<u64, Error>(
                layout_error(old(self).spec_block().len() as int),
            ),
            r matches Ok(v) ==> word_result(word_at(final(self).spec_block(), 72)) == Ok::<
                u64,
                Error,
            >(v),
    {
        let req = passthrough_request(call);
        proof {
            lemma_single_fits(req, self.block@.len() as int);
            assert(lens_of(req.regions@) =~= Seq::<usize>::empty());
            assert(req.data_size() == 0);
            let s = seq![req];
            assert(s.take(0) =~= Seq::<Request>::empty());
            assert(s.drop_last() =~= Seq::<Request>::empty());
            assert(lens_of(req.regions@) =~= Seq::<usize>::empty());
        }
        let c = self.run_one(req)?;
        c.ret
    }

    /// `close(fd)`.
    pub fn close(&mut self, fd: c_int) -> (r: Result<()>)
        ensures
            !single_fits(old(self).spec_block().len() as int, 0) ==> r == Err::<(), Error>(
                layout_error(old(self).spec_block().len() as int),
            ),
            r matches Ok(_) ==> word_result(word_at(final(self).spec_block(), 72)) is Ok,
    {
        let v = self.passthrough(&Close { fd })?;
        Ok(())
    }

    /// `read(fd, buf)`: at most `buf.len()` bytes, at the start of `buf`.
    pub fn read(&mut self, fd: c_int, buf: &mut Vec<u8>) -> (r: Result<usize>)
        ensures
            final(buf)@.len() == old(buf)@.len(),
            !single_fits(old(self).spec_block().len() as int, padded(old(buf)@.len() as int))
                ==> r == Err::<usize, Error>(layout_error(old(self).spec_block().len() as int)),
            r matches Ok(n) ==> {
                &&& n <= old(buf)@.len()
                &&& Ok::<usize, Error>(n) == count_result(
                    word_result(word_at(final(self).spec_block(), 72)),
                    old(buf)@.len() as int,
                )
                &&& final(buf)@.subrange(0, n as int) == final(self).spec_block().subrange(
                    88,
                    88 + n,
                )
            },
    {
        let call = Read { fd, count: buf.len() };
        let req = call.request();
        let ghost s = seq![req];
        proof {
            lemma_single_fits(req, self.block@.len() as int);
            assert(s.take(0) =~= Seq::<Request>::empty());
            assert(lens_of(req.regions@).take(0) =~= Seq::<usize>::empty());
            assert(lens_of(req.regions@).drop_last() =~= Seq::<usize>::empty());
            let lens = lens_of(req.regions@);
            assert(lens.len() == 1);
            assert(lens[0] == buf@.len());
            assert(lens.drop_last() =~= Seq::<usize>::empty());
            assert(span(Seq::<usize>::empty()) == 0);
            assert(span(lens) == padded(lens[0] as int));
            assert(req.data_size() == padded(buf@.len() as int));
        }
        let c = self.run_one(req)?;
        assert(c.outputs@[0]@.len() == buf@.len());
        Read::collect(&c, buf)
    }

    /// `sync()`.
    pub fn sync(&mut self) -> (r: Result<()>)
        ensures
            !single_fits(old(self).spec_block().len() as int, 0) ==> r == Err::<(), Error>(
                layout_error(old(self).spec_block().len() as int),
            ),
            r matches Ok(_) ==> word_result(word_at(final(self).spec_block(), 72)) is Ok,
    {
        let v = self.passthrough(&Sync)?;
        Ok(())
    }

    /// `write(fd, buf)`: the number of bytes that the host wrote, no more
    /// than `buf` holds.
    pub fn write(&mut self, fd: c_int, buf: &Vec<u8>) -> (r: Result<usize>)
        ensures
            !single_fits(old(self).spec_block().len() as int, padded(buf@.len() as int)) ==> r
                == Err::<usize, Error>(layout_error(old(self).spec_block().len() as int)),
            r matches Ok(n) ==> Ok::<usize, Error>(n) == count_result(
                word_result(word_at(final(self).spec_block(), 72)),
                buf@.len() as int,
            ),
    {
        let call = Write { fd, buf: crate::guest::syscall::copy_vec(buf) };
        let req = call.request();
        proof {
            lemma_single_fits(req, self.block@.len() as int);
            assert(req.regions@[0].wf());
            assert(lens_of(req.regions@).drop_last() =~= Seq::<usize>::empty());
            let lens = lens_of(req.regions@);
            assert(lens.len() == 1);
            assert(lens[0] == buf@.len());
            assert(lens.drop_last() =~= Seq::<usize>::empty());
            assert(span(Seq::<usize>::empty()) == 0);
            assert(span(lens) == padded(lens[0] as int));
            assert(req.data_size() == padded(buf@.len() as int));
        }
        let c = self.run_one(req)?;
        call.collect(&c)
    }

    /// `clock_gettime(clockid, tp)`: `tp` is written only where the call
    /// succeeded.
    pub fn clock_gettime(&mut self, clockid: clockid_t, tp: &mut timespec) -> (r: Result<()>)
        ensures
            !single_fits(old(self).spec_block().len() as int, 16) ==> r == Err::<(), Error>(
                layout_error(old(self).spec_block().len() as int),
            ),
            r is Ok ==> *final(tp) == timespec_of(final(self).spec_block().subrange(88, 104)),
            r is Err ==> *final(tp) == *old(tp),
    {
        let call = ClockGettime { clockid };
        let req = call.request();
        proof {
            lemma_single_fits(req, self.block@.len() as int);
            let s = seq![req];
            assert(s.take(0) =~= Seq::<Request>::empty());
            let lens = lens_of(req.regions@);
            assert(lens.take(0) =~= Seq::<usize>::empty());
            assert(lens.drop_last() =~= Seq::<usize>::empty());
            assert(span(Seq::<usize>::empty()) == 0);
            assert(span(lens) == padded(lens[0] as int));
            assert(req.data_size() == 16);
        }
        let c = self.run_one(req)?;
        let t = ClockGettime::collect(&c)?;
        *tp = t;
        Ok(())
    }

    /// `recvfrom(sockfd, buf, len, flags, src_addr, addrlen)`: the data, no
    /// more than asked for, and the peer's address, no more than its buffer
    /// holds.
    pub fn recvfrom(&mut self, call: Recvfrom) -> (r: Result<Received>)
        ensures
            !single_fits(old(self).spec_block().len() as int, recvfrom_data_size(call)) ==> r
                == Err::<Received, Error>(layout_error(old(self).spec_block().len() as int)),
            r matches Ok(rec) ==> word_result(word_at(final(self).spec_block(), 72)) matches Ok(n)
                && rec.data@ == crate::guest::syscall::clamped(
                final(self).spec_block().subrange(88, 88 + call.len),
                n as int,
            ),
            r matches Ok(rec) ==> rec.data@.len() <= call.len && match call.addr_cap {
                Some(cap) => rec.addr@.len() <= cap,
                None => rec.addr@.len() == 0,
            },
    {
        let req = call.request();
        proof {
            lemma_single_fits(req, self.block@.len() as int);
            let lens = lens_of(req.regions@);
            assert(lens[0] == req.regions@[0].len);
            assert(span(Seq::<usize>::empty()) == 0);
            assert(lens.take(1).drop_last() =~= Seq::<usize>::empty());
            assert(span(lens.take(1)) == padded(call.len as int));
            if let Some(cap) = call.addr_cap {
                assert(req.regions@[2].wf());
                assert(lens[1] == cap);
                assert(lens[2] == 4);
                assert(lens.take(2).drop_last() =~= lens.take(1));
                assert(lens.take(3).drop_last() =~= lens.take(2));
                assert(lens.take(3) =~= lens);
                assert(lens.take(2).last() == lens[1]);
                assert(lens.take(3).last() == lens[2]);
                assert(span(lens.take(2)) == span(lens.take(1)) + padded(cap as int));
                assert(span(lens.take(3)) == span(lens.take(2)) + padded(4));
                assert(padded(4) == 8);
                assert(span(lens) == padded(call.len as int) + padded(cap as int) + 8);
            } else {
                assert(lens.take(1) =~= lens);
            }
            assert(req.data_size() == recvfrom_data_size(call));
        }
        let c = self.run_one(req)?;
        proof {
            let s = seq![req];
            assert(s.take(0) =~= Seq::<Request>::empty());
            let lens = lens_of(req.regions@);
            assert(s.drop_last() =~= Seq::<Request>::empty());
            assert forall|j: int| 0 <= j < lens.len() implies (#[trigger] c.outputs@[j])@.len() == lens[j] by {
                lemma_region_in_span(lens, j);
                lemma_span_monotonic(lens, j);
            }
            if call.addr_cap is Some {
                assert(lens[1] == req.regions@[1].len);
                assert(req.regions@[2].wf());
                assert(lens[2] == req.regions@[2].len);
                assert(c.outputs@[1]@.len() == lens[1]);
                assert(c.outputs@[2]@.len() == lens[2]);
            }
            assert(c.outputs@[0]@.len() == lens[0]);
            assert(lens.take(0) =~= Seq::<usize>::empty());
            assert(req.regions@[0].dir == Dir::Out);
        }
        call.collect(&c)
    }

    /// `fstat(fd, statbuf)`, answered by the guest.
    pub fn fstat(&mut self, fd: c_int, statbuf: &mut stat) -> (r: Result<()>)
        ensures
            if fd == 0 || fd == 1 || fd == 2 {
                r is Ok && crate::guest::stub::is_stream_stat(*final(statbuf), fd)
            } else {
                r == Err::<(), Error>(crate::libc::EBADFD) && *final(statbuf) == *old(statbuf)
            },
    {
        Fstat { fd }.collect(statbuf)
    }

    /// `readlink(pathname, buf)`, answered by the guest.
    pub fn readlink(&mut self, pathname: &Vec<u8>, buf: &mut Vec<u8>) -> (r: Result<usize>)
        ensures
            final(buf)@.len() == old(buf)@.len(),
            if pathname@ != crate::guest::stub::self_exe() {
                r == Err::<usize, Error>(crate::libc::ENOENT) && final(buf)@ == old(buf)@
            } else if old(buf)@.len() < 6 {
                r == Err::<usize, Error>(EINVAL) && final(buf)@ == old(buf)@
            } else {
                r == Ok::<usize, Error>(6) && final(buf)@ == crate::guest::stub::init_path()
                    + old(buf)@.subrange(6, old(buf)@.len() as int)
            },
    {
        Readlink { pathname: crate::guest::syscall::copy_vec(pathname) }.collect(buf)
    }

    /// `uname(buf)`, answered by the guest.
    pub fn uname(&mut self, buf: &mut utsname) -> (r: Result<()>)
        ensures
            r is Ok,
            final(buf).sysname@ == crate::guest::stub::filled(crate::guest::stub::uname_sysname()),
            final(buf).nodename@ == crate::guest::stub::filled(
                seq![108u8, 111, 99, 97, 108, 104, 111, 115, 116, 46, 108, 111, 99, 97, 108, 100, 111, 109, 97, 105, 110],
            ),
            final(buf).release@ == crate::guest::stub::filled(seq![53u8, 46, 54, 46, 48]),
            final(buf).version@ == crate::guest::stub::filled(seq![35u8, 49]),
            final(buf).machine@ == crate::guest::stub::filled(seq![120u8, 56, 54, 95, 54, 52]),
            final(buf).domainname == old(buf).domainname,
    {
        Uname.collect(buf)
    }

    /// `getpid()`, answered by the guest.
    pub fn getpid(&mut self) -> (r: c_int)
        ensures
            r == FAKE_PID,
    {
        Getpid.collect()
    }

    /// `getuid()`, answered by the guest.
    pub fn getuid(&mut self) -> (r: u32)
        ensures
            r == FAKE_UID,
    {
        Getuid.collect()
    }

    /// The raw entry: a request in the host's shape, the number and six
    /// argument registers, routed by number. The scalar calls that pass
    /// through go to the host and give their return register; the identity
    /// calls are answered by the guest; any other number is `ENOSYS`.
    pub fn syscall(&mut self, req: [u64; 7]) -> (r: Result<[u64; 2]>)
        ensures
            is_guest_identity(req@[0]) ==> r == Ok::<[u64; 2], Error>(
                [identity_value(req@[0]), 0],
            ),
            !is_passthrough_num(req@[0]) && !is_guest_identity(req@[0]) ==> r == Err::<
                [u64; 2],
                Error,
            >(ENOSYS),
            is_passthrough_num(req@[0]) && !single_fits(old(self).spec_block().len() as int, 0)
                ==> r == Err::<[u64; 2], Error>(layout_error(old(self).spec_block().len() as int)),
            is_passthrough_num(req@[0]) ==> (r matches Ok(v) ==> v@[1] == 0 && word_result(
                word_at(final(self).spec_block(), 72),
            ) == Ok::<u64, Error>(v@[0])),
    {
        let num = req[0];
        if num == SYS_getpid as u64 {
            Ok([FAKE_PID as u64, 0])
        } else if num == SYS_getuid as u64 || num == SYS_geteuid as u64 {
            Ok([FAKE_UID as u64, 0])
        } else if num == SYS_getgid as u64 || num == SYS_getegid as u64 {
            Ok([FAKE_GID as u64, 0])
        } else if num == SYS_set_tid_address as u64 {
            Ok([FAKE_TID as u64, 0])
        } else if num == SYS_close as u64 || num == SYS_dup as u64 || num == SYS_dup2 as u64
            || num == SYS_dup3 as u64 || num == SYS_eventfd2 as u64 || num == SYS_exit as u64
            || num == SYS_exit_group as u64 || num == SYS_sync as u64 {
            let r = crate::guest::syscall::scalar_request(
                num as i64,
                [req[1], req[2], req[3], req[4], req[5], req[6]],
            );
            proof {
                lemma_single_fits(r, self.block@.len() as int);
                let s = seq![r];
                assert(s.take(0) =~= Seq::<Request>::empty());
                assert(s.drop_last() =~= Seq::<Request>::empty());
                assert(lens_of(r.regions@) =~= Seq::<usize>::empty());
                assert(r.data_size() == 0);
            }
            let c = self.run_one(r)?;
            let v = c.ret?;
            Ok([v, 0])
        } else {
            Err(ENOSYS)
        }
    }

}

/// Whether `num` asks for an identity that the guest makes up.
pub open spec fn is_guest_identity(num: u64) -> bool {
    num == SYS_getpid as u64 || num == SYS_getuid as u64 || num == SYS_geteuid as u64 || num
        == SYS_getgid as u64 || num == SYS_getegid as u64 || num == SYS_set_tid_address as u64
}

/// The identity that the guest reports for `num`.
pub open spec fn identity_value(num: u64) -> u64 {
    if num == SYS_getpid as u64 {
        FAKE_PID as u64
    } else if num == SYS_set_tid_address as u64 {
        FAKE_TID as u64
    } else if num == SYS_getuid as u64 || num == SYS_geteuid as u64 {
        FAKE_UID as u64
    } else {
        FAKE_GID as u64
    }
}

/// Batch independence, on the guest's side: staging a call gives the same
/// argument vector and the same data size wherever in the block it stands,
/// and its regions keep their distance from its header.
pub proof fn lemma_stage_position_independent(
    req: Request,
    st1: crate::guest::staging::StagedSyscall,
    h1: int,
    st2: crate::guest::staging::StagedSyscall,
    h2: int,
)
    requires
        st1.staged_from(req, h1),
        st2.staged_from(req, h2),
    ensures
        st1.num == st2.num,
        st1.argv@ == st2.argv@,
        st1.staged_size == st2.staged_size,
        st1.positions@.len() == st2.positions@.len(),
        forall|k: int|
            0 <= k < st1.positions@.len() ==> st1.positions@[k] - h1 == #[trigger] st2.positions@[k]
                - h2,
{
    let o1 = st1.positions@.map_values(|p: usize| (p - st1.data()) as usize);
    let o2 = st2.positions@.map_values(|p: usize| (p - st2.data()) as usize);
    assert(o1 =~= o2);
    assert forall|j: int| 0 <= j < 6 implies st1.argv@[j] == st2.argv@[j] by {
        assert(st1.argv@[j] == crate::guest::staging::slot_word(req.argv@[j], o1));
        assert(st2.argv@[j] == crate::guest::staging::slot_word(req.argv@[j], o2));
    }
    assert(st1.argv@ =~= st2.argv@);
}

/// Batch independence, on collecting: what call `k` of a batch collects
/// depends only on the bytes of its own item. Where those bytes are the
/// same as those of the call staged alone at the start of another block,
/// the two collect the same result.
pub proof fn lemma_result_independent(s1: Seq<u8>, s2: Seq<u8>, reqs: Seq<Request>, k: int, c: Collected)
    requires
        0 <= k < reqs.len(),
        result_at(s1, reqs, k, c),
        batch_size(reqs.take(k)) + HEADER_SIZE + SYSCALL_PAYLOAD_SIZE + reqs[k].data_size()
            <= s1.len(),
        HEADER_SIZE + SYSCALL_PAYLOAD_SIZE + reqs[k].data_size() <= s2.len(),
        forall|i: int|
            0 <= i < HEADER_SIZE + SYSCALL_PAYLOAD_SIZE + reqs[k].data_size() ==> s2[i]
                == #[trigger] s1[batch_size(reqs.take(k)) + i],
    ensures
        result_at(s2, seq![reqs[k]], 0, c),
{
    let h = batch_size(reqs.take(k));
    let one = seq![reqs[k]];
    assert(one.take(0) =~= Seq::<Request>::empty());
    assert(one[0] == reqs[k]);
    let lens = lens_of(reqs[k].regions@);
    lemma_span_monotonic(lens, 0);
    crate::guest::staging::lemma_batch_size_monotonic(reqs, k);
    assert(s2[72] == s1[h + 72] && s2[73] == s1[h + 73] && s2[74] == s1[h + 74] && s2[75] == s1[h
        + 75] && s2[76] == s1[h + 76] && s2[77] == s1[h + 77] && s2[78] == s1[h + 78] && s2[79]
        == s1[h + 79]);
    assert forall|j: int| 0 <= j < lens.len() && reqs[k].regions@[j].dir != Dir::In implies s1.subrange(
        h + 88 + span(lens.take(j)),
        h + 88 + span(lens.take(j)) + lens[j],
    ) == s2.subrange(88 + span(lens.take(j)), 88 + span(lens.take(j)) + lens[j]) by {
        lemma_region_in_span(lens, j);
        lemma_span_monotonic(lens, j);
        let a = s1.subrange(h + 88 + span(lens.take(j)), h + 88 + span(lens.take(j)) + lens[j]);
        let b = s2.subrange(88 + span(lens.take(j)), 88 + span(lens.take(j)) + lens[j]);
        assert forall|i: int| 0 <= i < lens[j] implies a[i] == b[i] by {
            let x = 88 + span(lens.take(j)) + i;
            assert(0 <= x < HEADER_SIZE + SYSCALL_PAYLOAD_SIZE + reqs[k].data_size());
            assert(s2[x] == s1[h + x]);
            assert(a[i] == s1[h + x]);
            assert(b[i] == s2[x]);
        }
        assert(a =~= b);
    }
}

} // verus!
