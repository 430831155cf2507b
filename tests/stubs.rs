use sallyport::boot::{SevSecret, SEV_SECRET_MAX_SIZE};
use sallyport::guest::stub::{
    Fstat, Getegid, Getpid, Getrandom, Readlink, RandomStep, SetTidAddress, Uname,
};
use sallyport::item::{Header, Kind};
use sallyport::libc::{
    stat, utsname, EAGAIN, EBADFD, EINVAL, ENOENT, GRND_NONBLOCK, GRND_RANDOM, STDOUT_FILENO,
    S_IFIFO,
};

#[test]
fn fstat_stdout() {
    let mut st = stat::zeroed();
    assert_eq!(Fstat { fd: STDOUT_FILENO }.collect(&mut st), Ok(()));
    assert_eq!(st.st_mode, S_IFIFO | 0o600);
    assert_eq!(st.st_uid, 1000);
    assert_eq!(st.st_gid, 5);
    assert_eq!(st.st_blksize, 4096);
    assert_eq!(st.st_atime, 1_579_507_218);
    assert_eq!(st.st_dev, 0xc);
    assert_eq!(st.st_rdev, 0x8800);
}

#[test]
fn fstat_other_fd_is_ebadfd() {
    let mut st = stat::zeroed();
    assert_eq!(Fstat { fd: 3 }.collect(&mut st), Err(EBADFD));
}

#[test]
fn readlink_self_exe() {
    let mut buf = vec![0u8; 6];
    let r = Readlink { pathname: b"/proc/self/exe".to_vec() }.collect(&mut buf);
    assert_eq!(r, Ok(6));
    assert_eq!(buf, b"/init\0");
}

#[test]
fn readlink_errors() {
    let mut buf = vec![0u8; 5];
    let r = Readlink { pathname: b"/proc/self/exe".to_vec() }.collect(&mut buf);
    assert_eq!(r, Err(EINVAL));
    let mut buf = vec![0u8; 16];
    let r = Readlink { pathname: b"/etc/passwd".to_vec() }.collect(&mut buf);
    assert_eq!(r, Err(ENOENT));
}

#[test]
fn identities_are_fixed() {
    assert_eq!(Getpid.collect(), 1000);
    assert_eq!(Getegid.collect(), 1000);
    assert_eq!(SetTidAddress.collect(), 1);
}

#[test]
fn uname_fields() {
    let mut u = utsname::zeroed();
    assert_eq!(Uname.collect(&mut u), Ok(()));
    assert_eq!(u.sysname[..6], [76, 105, 110, 117, 120, 0]);
    assert_eq!(u.machine[..7], [120, 56, 54, 95, 54, 52, 0]);
}

/// Drives `getrandom` over a buffer with a given sequence of draws.
fn drive(g: &Getrandom, buf: &mut Vec<u8>, draws: &[Option<u64>]) -> Result<usize, i32> {
    let mut step = g.start(buf.len());
    let mut i = 0;
    loop {
        match step {
            RandomStep::Done(r) => return r,
            RandomStep::Draw(filled) => {
                step = g.step(buf, filled, draws[i]);
                i += 1;
            }
        }
    }
}

#[test]
fn getrandom_fills_sixty_four_bytes() {
    let g = Getrandom { flags: GRND_RANDOM };
    let draws: Vec<Option<u64>> = (1..=8u64).map(|i| Some(i * 0x0101_0101_0101_0101)).collect();
    let mut buf = vec![0u8; 64];
    assert_eq!(drive(&g, &mut buf, &draws), Ok(64));
    assert_ne!(buf, vec![0u8; 64]);
    assert_eq!(buf[0..8], [1; 8]);
    assert_eq!(buf[56..64], [8; 8]);
}

#[test]
fn getrandom_short_tail_and_retry() {
    let g = Getrandom { flags: 0 };
    let mut buf = vec![0u8; 3];
    assert_eq!(drive(&g, &mut buf, &[None, Some(0x0403_0201)]), Ok(3));
    assert_eq!(buf, [1, 2, 3]);
}

#[test]
fn getrandom_not_ready() {
    let mut buf = vec![0u8; 16];
    let g = Getrandom { flags: GRND_NONBLOCK };
    assert_eq!(drive(&g, &mut buf, &[Some(1), None]), Err(EAGAIN));
    let g = Getrandom { flags: GRND_RANDOM };
    assert_eq!(drive(&g, &mut buf, &[Some(1), None]), Ok(8));
    let g = Getrandom { flags: 4 };
    assert_eq!(drive(&g, &mut buf, &[]), Err(EINVAL));
}

#[test]
fn cbor_secret_length() {
    let mut s = SevSecret::default();
    s.data[0] = 0x45; // byte string of 5
    assert_eq!(s.try_len(), Some(6));
    assert_eq!(s.try_as_slice().map(|b| b.len()), Some(6));
    s.data[0] = 0x59; // byte string, 16-bit length
    s.data[1] = 0x01;
    s.data[2] = 0x00;
    assert_eq!(s.try_len(), Some(259));
    s.data[0] = 0x5a; // 32-bit length, too long for the secret
    s.data[1] = 0x00;
    s.data[2] = 0x01;
    s.data[3] = 0x00;
    s.data[4] = 0x00;
    assert_eq!(s.try_len(), None);
    s.data[0] = 0x5c; // reserved minor
    assert_eq!(s.try_len(), None);
    s.data[0] = 0x05; // not a byte string
    assert_eq!(s.try_len(), None);
    assert_eq!(SEV_SECRET_MAX_SIZE, 16384);
}

#[test]
fn kinds_and_headers() {
    assert_eq!(Kind::try_from(2), Ok(Kind::Gdbcall));
    assert_eq!(Kind::try_from(3), Err(EINVAL));
    let h = Header::try_from([72, 1]).unwrap();
    assert_eq!(h, Header { size: 72, kind: Kind::Syscall });
    assert_eq!(h.to_words(), [72, 1]);
}

#[test]
fn getrandom() {
    const LEN: usize = 64;
    let g = Getrandom { flags: GRND_RANDOM };
    let first: Vec<Option<u64>> = (0..8u64).map(|i| Some(0x9e37_79b9_7f4a_7c15u64.wrapping_mul(i + 1))).collect();
    let second: Vec<Option<u64>> = (0..8u64).map(|i| Some(0xc2b2_ae3d_27d4_eb4fu64.wrapping_mul(i + 3))).collect();
    let mut buf = vec![0u8; LEN];
    assert_eq!(drive(&g, &mut buf, &first), Ok(LEN));
    assert_ne!(buf, [0u8; LEN]);
    let mut buf_2 = vec![0u8; LEN];
    assert_eq!(drive(&g, &mut buf_2, &second), Ok(LEN));
    assert_ne!(buf_2, [0u8; LEN]);
    assert_ne!(buf_2, buf);
}
