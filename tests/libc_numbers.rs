#[test]
fn test_syscalls() {
    assert_eq!(libc::SYS_accept, sallyport::libc::SYS_accept, "SYS_accept");
    assert_eq!(libc::SYS_accept4, sallyport::libc::SYS_accept4, "SYS_accept4");
    assert_eq!(libc::SYS_arch_prctl, sallyport::libc::SYS_arch_prctl, "SYS_arch_prctl");
    assert_eq!(libc::SYS_bind, sallyport::libc::SYS_bind, "SYS_bind");
    assert_eq!(libc::SYS_brk, sallyport::libc::SYS_brk, "SYS_brk");
    assert_eq!(libc::SYS_clock_gettime, sallyport::libc::SYS_clock_gettime, "SYS_clock_gettime");
    assert_eq!(libc::SYS_close, sallyport::libc::SYS_close, "SYS_close");
    assert_eq!(libc::SYS_connect, sallyport::libc::SYS_connect, "SYS_connect");
    assert_eq!(libc::SYS_dup, sallyport::libc::SYS_dup, "SYS_dup");
    assert_eq!(libc::SYS_dup2, sallyport::libc::SYS_dup2, "SYS_dup2");
    assert_eq!(libc::SYS_dup3, sallyport::libc::SYS_dup3, "SYS_dup3");
    assert_eq!(libc::SYS_epoll_create1, sallyport::libc::SYS_epoll_create1, "SYS_epoll_create1");
    assert_eq!(libc::SYS_epoll_ctl, sallyport::libc::SYS_epoll_ctl, "SYS_epoll_ctl");
    assert_eq!(libc::SYS_epoll_pwait, sallyport::libc::SYS_epoll_pwait, "SYS_epoll_pwait");
    assert_eq!(libc::SYS_epoll_wait, sallyport::libc::SYS_epoll_wait, "SYS_epoll_wait");
    assert_eq!(libc::SYS_eventfd2, sallyport::libc::SYS_eventfd2, "SYS_eventfd2");
    assert_eq!(libc::SYS_exit, sallyport::libc::SYS_exit, "SYS_exit");
    assert_eq!(libc::SYS_exit_group, sallyport::libc::SYS_exit_group, "SYS_exit_group");
    assert_eq!(libc::SYS_fcntl, sallyport::libc::SYS_fcntl, "SYS_fcntl");
    assert_eq!(libc::SYS_fstat, sallyport::libc::SYS_fstat, "SYS_fstat");
    assert_eq!(libc::SYS_getegid, sallyport::libc::SYS_getegid, "SYS_getegid");
    assert_eq!(libc::SYS_geteuid, sallyport::libc::SYS_geteuid, "SYS_geteuid");
    assert_eq!(libc::SYS_getpid, sallyport::libc::SYS_getpid, "SYS_getpid");
    assert_eq!(libc::SYS_getuid, sallyport::libc::SYS_getuid, "SYS_getuid");
    assert_eq!(libc::SYS_getrandom, sallyport::libc::SYS_getrandom, "SYS_getrandom");
    assert_eq!(libc::SYS_getsockname, sallyport::libc::SYS_getsockname, "SYS_getsockname");
    assert_eq!(libc::SYS_ioctl, sallyport::libc::SYS_ioctl, "SYS_ioctl");
    assert_eq!(libc::SYS_listen, sallyport::libc::SYS_listen, "SYS_listen");
    assert_eq!(libc::SYS_madvise, sallyport::libc::SYS_madvise, "SYS_madvise");
    assert_eq!(libc::SYS_mmap, sallyport::libc::SYS_mmap, "SYS_mmap");
    assert_eq!(libc::SYS_mprotect, sallyport::libc::SYS_mprotect, "SYS_mprotect");
    assert_eq!(libc::SYS_munmap, sallyport::libc::SYS_munmap, "SYS_munmap");
    assert_eq!(libc::SYS_nanosleep, sallyport::libc::SYS_nanosleep, "SYS_nanosleep");
    assert_eq!(libc::SYS_open, sallyport::libc::SYS_open, "SYS_open");
    assert_eq!(libc::SYS_poll, sallyport::libc::SYS_poll, "SYS_poll");
    assert_eq!(libc::SYS_read, sallyport::libc::SYS_read, "SYS_read");
    assert_eq!(libc::SYS_readlink, sallyport::libc::SYS_readlink, "SYS_readlink");
    assert_eq!(libc::SYS_readv, sallyport::libc::SYS_readv, "SYS_readv");
    assert_eq!(libc::SYS_recvfrom, sallyport::libc::SYS_recvfrom, "SYS_recvfrom");
    assert_eq!(libc::SYS_rt_sigaction, sallyport::libc::SYS_rt_sigaction, "SYS_rt_sigaction");
    assert_eq!(libc::SYS_rt_sigprocmask, sallyport::libc::SYS_rt_sigprocmask, "SYS_rt_sigprocmask");
    assert_eq!(libc::SYS_set_tid_address, sallyport::libc::SYS_set_tid_address, "SYS_set_tid_address");
    assert_eq!(libc::SYS_sendto, sallyport::libc::SYS_sendto, "SYS_sendto");
    assert_eq!(libc::SYS_setsockopt, sallyport::libc::SYS_setsockopt, "SYS_setsockopt");
    assert_eq!(libc::SYS_sigaltstack, sallyport::libc::SYS_sigaltstack, "SYS_sigaltstack");
    assert_eq!(libc::SYS_socket, sallyport::libc::SYS_socket, "SYS_socket");
    assert_eq!(libc::SYS_sync, sallyport::libc::SYS_sync, "SYS_sync");
    assert_eq!(libc::SYS_uname, sallyport::libc::SYS_uname, "SYS_uname");
    assert_eq!(libc::SYS_write, sallyport::libc::SYS_write, "SYS_write");
    assert_eq!(libc::SYS_writev, sallyport::libc::SYS_writev, "SYS_writev");
}
