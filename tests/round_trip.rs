use sallyport::guest::handler::{Handler, Platform};
use sallyport::guest::staging::{
    commit_batch, stage_batch, Dir, RegionReq, Request, Slot,
};
use sallyport::guest::syscall::{
    passthrough_request, Close, Read, Recvfrom, Sync, Syscall,
};
use sallyport::host::{
    decode_syscall, host_step, next_item, read_syscall, set_ret, Arg, HostCall, HostStep,
};
use sallyport::item::{read_word, Item};
use sallyport::libc::{
    EBADF, EFAULT, EINVAL, ENOMEM, ENOSYS, SYS_clock_gettime, SYS_close, SYS_read, SYS_recvfrom,
    SYS_sync, SYS_write,
};
use sallyport::Result;

/// A kernel simulated in memory: one file, a set of open descriptors, and a
/// peer that has sent a datagram.
struct FakeKernel {
    file: Vec<u8>,
    written: Vec<u8>,
    open: Vec<u64>,
    datagram: Vec<u8>,
    calls: Vec<i64>,
}

impl FakeKernel {
    fn new(file: &[u8], open: &[u64]) -> FakeKernel {
        FakeKernel {
            file: file.to_vec(),
            written: Vec::new(),
            open: open.to_vec(),
            datagram: b"recvfrom".to_vec(),
            calls: Vec::new(),
        }
    }

    fn word(a: &Arg) -> u64 {
        match a {
            Arg::Word(w) => *w,
            _ => panic!("expected a value"),
        }
    }

    fn pos(a: &Arg) -> usize {
        match a {
            Arg::Block(p) => *p,
            _ => panic!("expected a pointer"),
        }
    }

    fn errno(e: i32) -> u64 {
        (-(e as i64)) as u64
    }

    fn run(&mut self, call: &HostCall, block: &mut Vec<u8>) -> u64 {
        self.calls.push(call.num);
        let a = &call.args;
        if call.num == SYS_close {
            let fd = Self::word(&a[0]);
            match self.open.iter().position(|f| *f == fd) {
                Some(i) => {
                    self.open.remove(i);
                    0
                }
                None => Self::errno(EBADF),
            }
        } else if call.num == SYS_sync {
            0
        } else if call.num == SYS_read {
            let p = Self::pos(&a[1]);
            let n = (Self::word(&a[2]) as usize).min(self.file.len());
            block[p..p + n].copy_from_slice(&self.file[..n]);
            n as u64
        } else if call.num == SYS_write {
            let p = Self::pos(&a[1]);
            let n = Self::word(&a[2]) as usize;
            self.written.extend_from_slice(&block[p..p + n]);
            n as u64
        } else if call.num == SYS_recvfrom {
            let p = Self::pos(&a[1]);
            let n = (Self::word(&a[2]) as usize).min(self.datagram.len());
            block[p..p + n].copy_from_slice(&self.datagram[..n]);
            if let (Arg::Block(sa), Arg::Block(sl)) = (a[4], a[5]) {
                // AF_INET, port 65534, 127.0.0.1
                let addr = [2u8, 0, 0xff, 0xfe, 127, 0, 0, 1, 0, 0, 0, 0, 0, 0, 0, 0];
                let cap = u32::from_le_bytes(block[sl..sl + 4].try_into().unwrap()) as usize;
                let k = cap.min(addr.len());
                block[sa..sa + k].copy_from_slice(&addr[..k]);
                block[sl..sl + 4].copy_from_slice(&16u32.to_le_bytes());
            }
            n as u64
        } else {
            Self::errno(ENOSYS)
        }
    }
}

impl Platform for FakeKernel {
    fn sally(&mut self, block: &mut Vec<u8>) -> Result<()> {
        let mut pos = 0;
        loop {
            match host_step(block, pos)? {
                HostStep::Done => return Ok(()),
                HostStep::Skip { next } => pos = next,
                HostStep::Call { at, call, next } => {
                    let r = self.run(&call, block);
                    set_ret(block, at, r);
                    pos = next;
                }
            }
        }
    }
}

fn handler(words: usize, kernel: FakeKernel) -> Handler<FakeKernel> {
    Handler::new(vec![0xff; words * 8], kernel)
}

#[test]
fn close_passes_through() {
    let mut h = handler(16, FakeKernel::new(b"", &[7]));
    assert_eq!(h.close(7), Ok(()));
    // the descriptor is gone: closing it again fails
    assert_eq!(h.close(7), Err(EBADF));
}

#[test]
fn read_four_bytes() {
    let mut h = handler(32, FakeKernel::new(b"read", &[3]));
    let mut buf = vec![0u8; 4];
    assert_eq!(h.read(3, &mut buf), Ok(4));
    assert_eq!(buf, [0x72, 0x65, 0x61, 0x64]);
}

#[test]
fn write_five_bytes() {
    let mut h = handler(32, FakeKernel::new(b"", &[3]));
    assert_eq!(h.write(3, &b"write".to_vec()), Ok(5));
    assert_eq!(h.platform().written, b"write");
}

#[test]
fn recvfrom_with_address() {
    let mut h = handler(64, FakeKernel::new(b"", &[4]));
    let rec = h
        .recvfrom(Recvfrom { sockfd: 4, len: 8, flags: 0, addr_cap: Some(16) })
        .unwrap();
    assert_eq!(rec.data, b"recvfrom");
    assert_eq!(u16::from_le_bytes([rec.addr[0], rec.addr[1]]), 2);
    assert_eq!(rec.addr[2..8], [0xff, 0xfe, 127, 0, 0, 1]);
    assert_eq!(rec.addrlen, 16);
}

#[test]
fn sync_read_close_batch() {
    const EXPECTED: &[u8] = b"sync-read-close";
    let mut h = handler(64, FakeKernel::new(EXPECTED, &[5]));
    let reqs = vec![
        passthrough_request(&Sync),
        Read { fd: 5, count: 15 }.request(),
        passthrough_request(&Close { fd: 5 }),
    ];
    let cs = h.execute(reqs).unwrap();
    assert_eq!(cs.len(), 3);
    assert_eq!(cs[0].ret, Ok(0));
    let mut buf = vec![0u8; 15];
    assert_eq!(Read::collect(&cs[1], &mut buf), Ok(15));
    assert_eq!(buf, EXPECTED);
    assert_eq!(cs[2].ret, Ok(0));
    assert_eq!(h.close(5), Err(EBADF));
}

#[test]
fn batch_matches_separate_runs() {
    let mut one = handler(64, FakeKernel::new(b"abcdef", &[5, 6]));
    let cs = one
        .execute(vec![
            passthrough_request(&Sync),
            Read { fd: 5, count: 6 }.request(),
            passthrough_request(&Close { fd: 6 }),
        ])
        .unwrap();
    let mut apart = handler(64, FakeKernel::new(b"abcdef", &[5, 6]));
    let a = apart.execute(vec![passthrough_request(&Sync)]).unwrap();
    let b = apart.execute(vec![Read { fd: 5, count: 6 }.request()]).unwrap();
    let c = apart.execute(vec![passthrough_request(&Close { fd: 6 })]).unwrap();
    assert_eq!(cs[0].ret, a[0].ret);
    assert_eq!(cs[1].ret, b[0].ret);
    assert_eq!(cs[1].outputs, b[0].outputs);
    assert_eq!(cs[2].ret, c[0].ret);
}

#[test]
fn block_too_small_is_enomem() {
    let mut h = handler(8, FakeKernel::new(b"", &[]));
    assert_eq!(h.close(1), Err(ENOMEM));
}

#[test]
fn raw_entry_routes_by_number() {
    let mut h = handler(16, FakeKernel::new(b"", &[9]));
    assert_eq!(h.syscall([39, 0, 0, 0, 0, 0, 0]), Ok([1000, 0]));
    assert_eq!(h.syscall([218, 0, 0, 0, 0, 0, 0]), Ok([1, 0]));
    assert_eq!(h.syscall([SYS_close as u64, 9, 0, 0, 0, 0, 0]), Ok([0, 0]));
    assert_eq!(h.syscall([0, 0, 0, 0, 0, 0, 0]), Err(ENOSYS));
}

fn staged_block(len: usize, reqs: Vec<Request>) -> Vec<u8> {
    let b = stage_batch(len, reqs).unwrap();
    let mut block = vec![0u8; len];
    commit_batch(&mut block, b);
    block
}

fn three_calls() -> Vec<Request> {
    vec![
        passthrough_request(&Sync),
        Read { fd: 3, count: 5 }.request(),
        Request {
            num: SYS_write,
            argv: [Slot::Word(1), Slot::Region(0), Slot::Word(3), Slot::Word(0), Slot::Word(0), Slot::Word(0)],
            regions: vec![RegionReq { dir: Dir::In, len: 3, bytes: b"abc".to_vec() }],
        },
    ]
}

#[test]
fn header_sizes_sum_to_block() {
    let len = 512;
    let block = staged_block(len, three_calls());
    let mut pos = 0;
    let mut total = 0;
    let mut items = 0;
    loop {
        let size = read_word(&block, pos) as usize;
        total += 16 + size;
        match next_item(&block, pos).unwrap() {
            None => break,
            Some((Item::Syscall { .. }, next)) => {
                items += 1;
                pos = next
            }
            Some(_) => panic!("unexpected item"),
        }
    }
    assert_eq!(items, 3);
    assert_eq!(total, len);
}

#[test]
fn offsets_in_data_and_aligned() {
    let block = staged_block(512, three_calls());
    let mut pos = 0;
    while let Some((Item::Syscall { at, data, len }, next)) = next_item(&block, pos).unwrap() {
        let sc = read_syscall(&block, at);
        let call = decode_syscall(&block, data, len, &sc).unwrap();
        for a in &call.args {
            if let Arg::Block(p) = a {
                assert!(*p >= data && *p <= data + len);
                assert_eq!(p % 8, 0);
            }
        }
        pos = next;
    }
}

#[test]
fn commit_is_deterministic() {
    assert_eq!(staged_block(512, three_calls()), staged_block(512, three_calls()));
}

#[test]
fn committed_ret_is_enosys() {
    let block = staged_block(256, vec![passthrough_request(&Sync)]);
    let sc = read_syscall(&block, 16);
    assert_eq!(sc.num, SYS_sync as u64);
    assert_eq!(sc.ret, [(-(ENOSYS as i64)) as u64, 0]);
}

fn clock_item(offset: u64, len_words: usize) -> Vec<u8> {
    let mut block = staged_block(
        256,
        vec![Request {
            num: SYS_clock_gettime,
            argv: [Slot::Word(0), Slot::Region(0), Slot::Word(0), Slot::Word(0), Slot::Word(0), Slot::Word(0)],
            regions: vec![RegionReq { dir: Dir::Out, len: 16 * len_words, bytes: vec![] }],
        }],
    );
    let w = offset.to_le_bytes();
    block[16 + 16..16 + 24].copy_from_slice(&w);
    block
}

#[test]
fn misaligned_offset_is_efault() {
    let block = clock_item(0, 1);
    let sc = read_syscall(&block, 16);
    assert!(decode_syscall(&block, 88, 16, &sc).is_ok());
    let block = clock_item(1, 2);
    let sc = read_syscall(&block, 16);
    assert_eq!(decode_syscall(&block, 88, 32, &sc).err(), Some(EFAULT));
}

#[test]
fn region_past_data_is_efault() {
    let block = clock_item(8, 1);
    let sc = read_syscall(&block, 16);
    assert_eq!(decode_syscall(&block, 88, 16, &sc).err(), Some(EFAULT));
}

#[test]
fn unknown_number_is_enosys() {
    let mut block = staged_block(256, vec![passthrough_request(&Sync)]);
    block[16..24].copy_from_slice(&9999u64.to_le_bytes());
    let sc = read_syscall(&block, 16);
    assert_eq!(decode_syscall(&block, 88, 0, &sc).err(), Some(ENOSYS));
}

#[test]
fn passthrough_value_comes_back() {
    struct Answer(u64);
    impl Platform for Answer {
        fn sally(&mut self, block: &mut Vec<u8>) -> Result<()> {
            set_ret(block, 16, self.0);
            Ok(())
        }
    }
    let mut h = Handler::new(vec![0u8; 128], Answer(42));
    assert_eq!(h.passthrough(&sallyport::guest::syscall::Eventfd2 { initval: 0, flags: 0 }), Ok(42));
    let mut h = Handler::new(vec![0u8; 128], Answer((-(EBADF as i64)) as u64));
    assert_eq!(h.passthrough(&sallyport::guest::syscall::Dup { oldfd: 3 }), Err(EBADF));
}

#[test]
fn block_not_whole_words_is_einval() {
    let mut h = Handler::new(vec![0u8; 100], FakeKernel::new(b"", &[1]));
    assert_eq!(h.close(1), Err(EINVAL));
}

#[test]
fn malformed_items_are_einval() {
    // unknown kind
    let mut block = vec![0u8; 64];
    block[8] = 3;
    assert_eq!(next_item(&block, 0).err(), Some(EINVAL));
    // size past the end of the block
    let mut block = vec![0u8; 64];
    block[0] = 200;
    block[8] = 1;
    assert_eq!(next_item(&block, 0).err(), Some(EINVAL));
    // size not a whole number of words
    let mut block = vec![0u8; 128];
    block[0] = 73;
    block[8] = 1;
    assert_eq!(next_item(&block, 0).err(), Some(EINVAL));
    // no End item before the block ends
    let block = vec![0u8; 8];
    assert_eq!(next_item(&block, 0).err(), Some(EINVAL));
    // an End item
    let mut block = vec![0u8; 32];
    block[0] = 16;
    assert_eq!(next_item(&block, 0), Ok(None));
}

#[test]
fn refused_item_gets_errno_and_walk_goes_on() {
    // the first call's number is unknown to the host; the second is sync
    let mut block = staged_block(512, vec![passthrough_request(&Sync), passthrough_request(&Sync)]);
    block[16..24].copy_from_slice(&9999u64.to_le_bytes());
    let next = match host_step(&mut block, 0).unwrap() {
        HostStep::Skip { next } => next,
        other => panic!("unexpected step {:?}", other),
    };
    assert_eq!(read_syscall(&block, 16).ret[0], (-(ENOSYS as i64)) as u64);
    match host_step(&mut block, next).unwrap() {
        HostStep::Call { call, .. } => assert_eq!(call.num, SYS_sync),
        other => panic!("unexpected step {:?}", other),
    }
}
