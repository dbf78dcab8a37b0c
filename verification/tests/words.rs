use onlyio::completion::{buffer_id, is_more, Cqe, TaskInfo};
use onlyio::runtime::{AF_INET, STREAM_SOCKET};
use onlyio::sqe::{build_entries, build_entry, Sqe};
use onlyio::task_slab::SlabIdx;
use onlyio::user_data::{
    decode_wbuf_udata, is_internal_cqe, is_wbuf_udata, wbuf_write_udata, UserDataPayload,
    CANCEL_UDATA, RWBUF_WRITE_UDATA, TIMEOUT_UDATA, WAKER_UDATA,
};

fn payload(task_idx: u32, syscall_nb: u16, response_gen: u16) -> UserDataPayload {
    UserDataPayload { task_idx: SlabIdx(task_idx), response_gen, syscall_nb }
}

#[test]
fn task_words_are_packed_from_the_top() {
    assert_eq!(payload(1, 2, 3).into_user_data(), 0x0000_0001_0002_0003);
    assert_eq!(payload(0, 0x8000, 0).into_user_data(), 0x8000_0000);
    assert_eq!(payload(0x7FFF_FFFF, 0xFFFF, 0xFFFF).into_user_data(), 0x7FFF_FFFF_FFFF_FFFF);
}

#[test]
fn task_words_come_back() {
    for p in [payload(0, 0, 0), payload(77, 0x8001, 12), payload(u32::MAX, 1, u16::MAX)] {
        assert_eq!(UserDataPayload::from_user_data(p.into_user_data()), p);
    }
    for w in [0u64, 0x1234_5678_9ABC_DEF0, u64::MAX] {
        assert_eq!(UserDataPayload::from_user_data(w).into_user_data(), w);
    }
}

#[test]
fn reserved_words_are_the_three_largest() {
    assert_eq!(TIMEOUT_UDATA, u64::MAX);
    assert_eq!(CANCEL_UDATA, u64::MAX - 1);
    assert_eq!(WAKER_UDATA, u64::MAX - 2);
    assert_eq!(RWBUF_WRITE_UDATA, (1 << 63) | (1 << 32));
    for w in [TIMEOUT_UDATA, CANCEL_UDATA, WAKER_UDATA, RWBUF_WRITE_UDATA] {
        assert!(is_internal_cqe(w));
        assert!(!is_wbuf_udata(w));
    }
    assert!(!is_internal_cqe(payload(0x7FFF_FFFF, 0xFFFF, 0xFFFF).into_user_data()));
}

#[test]
fn slot_words_name_their_slot() {
    assert_eq!(wbuf_write_udata(600), 0x8000_0000_0000_0258);
    for i in [0u32, 512, 1023, u32::MAX] {
        let w = wbuf_write_udata(i);
        assert!(is_internal_cqe(w));
        assert!(is_wbuf_udata(w));
        assert_eq!(decode_wbuf_udata(w), i);
    }
    assert!(!is_wbuf_udata(600));
}

#[test]
fn flags_tell_more_and_buffer() {
    assert!(is_more(2));
    assert!(is_more(0x0003_0003));
    assert!(!is_more(0));
    assert!(!is_more(0xFFFF_FFFD));
    assert_eq!(buffer_id(0x0005_0003), 5);
    assert_eq!(buffer_id(0xFFFF_0000), 0xFFFF);
    assert_eq!(buffer_id(0x0000_FFFF), 0);
}

#[test]
fn task_info_is_read_from_a_completion() {
    let cqe = Cqe { user_data: payload(3, 0x8004, 9).into_user_data(), result: -5, flags: 2 };
    let mut info = TaskInfo::from_cqe(&cqe);
    assert_eq!(info.tag.task_idx, SlabIdx(3));
    assert_eq!(info.tag.syscall_nb, 0x8004);
    assert_eq!(info.response_gen, 9);
    assert_eq!(info.result, -5);
    assert_eq!(info.flags, 2);
    info.set_to_next_task();
    assert_eq!(info.tag.syscall_nb, 5);
    assert_eq!(info.response_gen, 9);
}

#[test]
fn task_info_of_a_first_poll() {
    let info = TaskInfo::initial_poll(SlabIdx(4));
    assert_eq!(info.tag.task_idx, SlabIdx(4));
    assert_eq!(info.tag.syscall_nb, 0);
    assert_eq!(info.result, i32::MAX);
    assert_eq!(info.flags, 0);
    assert_eq!(info.response_gen, u16::MAX);
}

#[test]
fn entries_carry_their_operation_and_word() {
    let sqes = vec![
        Sqe::Read { fd: 3, len: 4096, buf_group: 0, user_data: 11 },
        Sqe::Accept { listen_fd: 4, user_data: 12 },
        Sqe::WriteFixed { fd: 5, addr: 0x1000, len: 7, buf_index: 513, user_data: 13 },
        Sqe::RecvMulti { fd: 6, buf_group: 0, user_data: 14 },
        Sqe::AcceptMulti { listen_fd: 7, user_data: 15 },
        Sqe::Connect { fd: 8, addr: 0x2000, addrlen: 16, user_data: 16 },
        Sqe::Socket { domain: 2, socket_type: 0x80801, protocol: 0, user_data: 17 },
    ];
    let entries = build_entries(&sqes);
    assert_eq!(entries.len(), 7);
    let codes = [
        io_uring::opcode::Read::CODE,
        io_uring::opcode::Accept::CODE,
        io_uring::opcode::WriteFixed::CODE,
        io_uring::opcode::RecvMulti::CODE,
        io_uring::opcode::AcceptMulti::CODE,
        io_uring::opcode::Connect::CODE,
        io_uring::opcode::Socket::CODE,
    ];
    for i in 0..7 {
        assert_eq!(entries[i].get_opcode(), codes[i] as u32);
        assert_eq!(entries[i].get_user_data(), 11 + i as u64);
    }
}

#[test]
fn entries_name_registered_files_and_buffers() {
    let flags = |sqe: Sqe| format!("{:?}", build_entry(&sqe));
    let read = flags(Sqe::Read { fd: 3, len: 4096, buf_group: 0, user_data: 1 });
    assert!(read.contains("flags: 33,"), "{}", read);
    let recv = flags(Sqe::RecvMulti { fd: 6, buf_group: 0, user_data: 1 });
    assert!(recv.contains("flags: 33,"), "{}", recv);
    let write =
        flags(Sqe::WriteFixed { fd: 5, addr: 4096, len: 7, buf_index: 513, user_data: 1 });
    assert!(write.contains("flags: 1,"), "{}", write);
    let connect = flags(Sqe::Connect { fd: 8, addr: 8192, addrlen: 16, user_data: 1 });
    assert!(connect.contains("flags: 1,"), "{}", connect);
    let accept = flags(Sqe::Accept { listen_fd: 4, user_data: 1 });
    assert!(accept.contains("flags: 0,"), "{}", accept);
}

#[test]
fn socket_constants_are_those_of_libc() {
    assert_eq!(AF_INET, libc::AF_INET);
    assert_eq!(STREAM_SOCKET, libc::SOCK_STREAM | libc::SOCK_NONBLOCK | libc::SOCK_CLOEXEC);
}
