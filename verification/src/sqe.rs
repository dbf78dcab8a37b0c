//! Submission queue entries: what the runtime asks the kernel to do.

use io_uring::squeue::Entry;
use vstd::prelude::*;

verus! {

/// A submission queue entry of the `io-uring` crate.
#[verifier::external_type_specification]
#[verifier::external_body]
pub struct ExEntry(io_uring::squeue::Entry);

/// A request to the kernel. Connections are named by their index in the table of
/// registered files, a listening socket by its file descriptor.
#[derive(Clone, Copy, Debug, PartialEq, Eq, Structural)]
pub enum Sqe {
    /// Read up to `len` bytes into a buffer that the kernel picks from `buf_group`.
    Read { fd: u32, len: u32, buf_group: u16, user_data: u64 },
    /// Accept one connection and register it.
    Accept { listen_fd: i32, user_data: u64 },
    /// Write `len` bytes at `addr`, which lie in the registered buffer `buf_index`.
    WriteFixed { fd: u32, addr: usize, len: u32, buf_index: u16, user_data: u64 },
    /// Receive again and again, each time into a buffer that the kernel picks.
    RecvMulti { fd: u32, buf_group: u16, user_data: u64 },
    /// Accept again and again, and register every connection.
    AcceptMulti { listen_fd: i32, user_data: u64 },
    /// Connect to the socket address of `addrlen` bytes at `addr`.
    Connect { fd: u32, addr: usize, addrlen: u32, user_data: u64 },
    /// Create a socket and register it.
    Socket { domain: i32, socket_type: i32, protocol: i32, user_data: u64 },
}

impl Sqe {
    /// The word that comes back with the completions of the request.
    pub open spec fn user_data(self) -> u64 {
        match self {
            Sqe::Read { user_data, .. } => user_data,
            Sqe::Accept { user_data, .. } => user_data,
            Sqe::WriteFixed { user_data, .. } => user_data,
            Sqe::RecvMulti { user_data, .. } => user_data,
            Sqe::AcceptMulti { user_data, .. } => user_data,
            Sqe::Connect { user_data, .. } => user_data,
            Sqe::Socket { user_data, .. } => user_data,
        }
    }
}

/// The word that `squeue::Entry::get_user_data` gives.
pub uninterp spec fn entry_word(entry: Entry) -> u64;

/// The entry that `opcode::Read` builds.
pub uninterp spec fn read_entry(
    fd: u32,
    len: u32,
    buf_group: u16,
    buffer_select: bool,
    user_data: u64,
) -> Entry;

/// The entry that `opcode::Accept` builds.
pub uninterp spec fn accept_entry(listen_fd: i32, auto_slot: bool, user_data: u64) -> Entry;

/// The entry that `opcode::WriteFixed` builds.
pub uninterp spec fn write_fixed_entry(
    fd: u32,
    addr: usize,
    len: u32,
    buf_index: u16,
    user_data: u64,
) -> Entry;

/// The entry that `opcode::RecvMulti` builds.
pub uninterp spec fn recv_multi_entry(fd: u32, buf_group: u16, user_data: u64) -> Entry;

/// The entry that `opcode::AcceptMulti` builds.
pub uninterp spec fn accept_multi_entry(
    listen_fd: i32,
    allocate_file_index: bool,
    user_data: u64,
) -> Entry;

/// The entry that `opcode::Connect` builds.
pub uninterp spec fn connect_entry(fd: u32, addr: usize, addrlen: u32, user_data: u64) -> Entry;

/// The entry that `opcode::Socket` builds.
pub uninterp spec fn socket_entry(
    domain: i32,
    socket_type: i32,
    protocol: i32,
    auto_slot: bool,
    user_data: u64,
) -> Entry;

/// The entry that stands for a request.
pub open spec fn entry_of(sqe: Sqe) -> Entry {
    match sqe {
        Sqe::Read { fd, len, buf_group, user_data } => read_entry(
            fd,
            len,
            buf_group,
            true,
            user_data,
        ),
        Sqe::Accept { listen_fd, user_data } => accept_entry(listen_fd, true, user_data),
        Sqe::WriteFixed { fd, addr, len, buf_index, user_data } => write_fixed_entry(
            fd,
            addr,
            len,
            buf_index,
            user_data,
        ),
        Sqe::RecvMulti { fd, buf_group, user_data } => recv_multi_entry(fd, buf_group, user_data),
        Sqe::AcceptMulti { listen_fd, user_data } => accept_multi_entry(listen_fd, true, user_data),
        Sqe::Connect { fd, addr, addrlen, user_data } => connect_entry(
            fd,
            addr,
            addrlen,
            user_data,
        ),
        Sqe::Socket { domain, socket_type, protocol, user_data } => socket_entry(
            domain,
            socket_type,
            protocol,
            true,
            user_data,
        ),
    }
}

/// `opcode::Read` on a registered file, without a buffer of its own; with
/// `buffer_select` it has the flag by which the kernel picks one from `buf_group`.
/// The entry is a function of the arguments, and carries the word.
#[verifier::external_body]
fn build_read(fd: u32, len: u32, buf_group: u16, buffer_select: bool, user_data: u64) -> (e: Entry)
    ensures
        e == read_entry(fd, len, buf_group, buffer_select, user_data),
        entry_word(e) == user_data,
{
    let flags = buffer_select.then_some(io_uring::squeue::Flags::BUFFER_SELECT);
    io_uring::opcode::Read::new(io_uring::types::Fixed(fd), std::ptr::null_mut(), len)
        .buf_group(buf_group)
        .build()
        .flags(flags.unwrap_or(io_uring::squeue::Flags::empty()))
        .user_data(user_data)
}

/// `opcode::Accept` on a file descriptor, without room for the peer's address;
/// with `auto_slot` into a slot of the file table that the kernel picks. The entry
/// is a function of the arguments, and carries the word.
#[verifier::external_body]
fn build_accept(listen_fd: i32, auto_slot: bool, user_data: u64) -> (e: Entry)
    ensures
        e == accept_entry(listen_fd, auto_slot, user_data),
        entry_word(e) == user_data,
{
    let fd = io_uring::types::Fd(listen_fd);
    io_uring::opcode::Accept::new(fd, std::ptr::null_mut(), std::ptr::null_mut())
        .file_index(auto_slot.then_some(io_uring::types::DestinationSlot::auto_target()))
        .build()
        .user_data(user_data)
}

/// `opcode::WriteFixed` on a registered file, from a registered buffer. The
/// entry is a function of the arguments, the address taken as a number, and carries the word.
#[verifier::external_body]
fn build_write_fixed(fd: u32, addr: usize, len: u32, buf_index: u16, user_data: u64) -> (e: Entry)
    ensures
        e == write_fixed_entry(fd, addr, len, buf_index, user_data),
        entry_word(e) == user_data,
{
    let buf = std::ptr::with_exposed_provenance(addr);
    io_uring::opcode::WriteFixed::new(io_uring::types::Fixed(fd), buf, len, buf_index)
        .build()
        .user_data(user_data)
}

/// `opcode::RecvMulti` on a registered file. The entry is a function of the
/// arguments, and carries the word.
#[verifier::external_body]
fn build_recv_multi(fd: u32, buf_group: u16, user_data: u64) -> (e: Entry)
    ensures
        e == recv_multi_entry(fd, buf_group, user_data),
        entry_word(e) == user_data,
{
    io_uring::opcode::RecvMulti::new(io_uring::types::Fixed(fd), buf_group)
        .build()
        .user_data(user_data)
}

/// `opcode::AcceptMulti` on a file descriptor. The entry is a function of the
/// arguments, and carries the word.
#[verifier::external_body]
fn build_accept_multi(listen_fd: i32, allocate_file_index: bool, user_data: u64) -> (e: Entry)
    ensures
        e == accept_multi_entry(listen_fd, allocate_file_index, user_data),
        entry_word(e) == user_data,
{
    io_uring::opcode::AcceptMulti::new(io_uring::types::Fd(listen_fd))
        .allocate_file_index(allocate_file_index)
        .build()
        .user_data(user_data)
}

/// `opcode::Connect` on a registered file. The entry is a function of the
/// arguments, the address taken as a number, and carries the word.
#[verifier::external_body]
fn build_connect(fd: u32, addr: usize, addrlen: u32, user_data: u64) -> (e: Entry)
    ensures
        e == connect_entry(fd, addr, addrlen, user_data),
        entry_word(e) == user_data,
{
    let sockaddr = std::ptr::with_exposed_provenance(addr);
    io_uring::opcode::Connect::new(io_uring::types::Fixed(fd), sockaddr, addrlen)
        .build()
        .user_data(user_data)
}

/// `opcode::Socket`; with `auto_slot` into a slot of the file table that the
/// kernel picks. The entry is a function of the arguments, and carries the word.
#[verifier::external_body]
fn build_socket(
    domain: i32,
    socket_type: i32,
    protocol: i32,
    auto_slot: bool,
    user_data: u64,
) -> (e: Entry)
    ensures
        e == socket_entry(domain, socket_type, protocol, auto_slot, user_data),
        entry_word(e) == user_data,
{
    io_uring::opcode::Socket::new(domain, socket_type, protocol)
        .file_index(auto_slot.then_some(io_uring::types::DestinationSlot::auto_target()))
        .build()
        .user_data(user_data)
}

/// Builds the entry for a request.
pub fn build_entry(sqe: &Sqe) -> (e: Entry)
    ensures
        e == entry_of(*sqe),
        entry_word(e) == sqe.user_data(),
{
    match *sqe {
        Sqe::Read { fd, len, buf_group, user_data } => {
            build_read(fd, len, buf_group, true, user_data)
        },
        Sqe::Accept { listen_fd, user_data } => build_accept(listen_fd, true, user_data),
        Sqe::WriteFixed { fd, addr, len, buf_index, user_data } => {
            build_write_fixed(fd, addr, len, buf_index, user_data)
        },
        Sqe::RecvMulti { fd, buf_group, user_data } => build_recv_multi(fd, buf_group, user_data),
        Sqe::AcceptMulti { listen_fd, user_data } => {
            build_accept_multi(listen_fd, true, user_data)
        },
        Sqe::Connect { fd, addr, addrlen, user_data } => {
            build_connect(fd, addr, addrlen, user_data)
        },
        Sqe::Socket { domain, socket_type, protocol, user_data } => {
            build_socket(domain, socket_type, protocol, true, user_data)
        },
    }
}

/// Builds the entries for all requests, in order.
pub fn build_entries(sqes: &Vec<Sqe>) -> (entries: Vec<Entry>)
    ensures
        entries@ == sqes@.map_values(|s: Sqe| entry_of(s)),
        forall|i: int|
            0 <= i < sqes@.len() ==> entry_word(#[trigger] entries@[i]) == sqes@[i].user_data(),
{
    let mut entries: Vec<Entry> = Vec::new();
    let mut i: usize = 0;
    while i < sqes.len()
        invariant
            i <= sqes@.len(),
            entries@.len() == i,
            forall|j: int| 0 <= j < i ==> #[trigger] entries@[j] == entry_of(sqes@[j]),
            forall|j: int|
                0 <= j < i ==> entry_word(#[trigger] entries@[j]) == sqes@[j].user_data(),
        decreases sqes.len() - i,
    {
        entries.push(build_entry(&sqes[i]));
        i = i + 1;
    }
    assert(entries@ =~= sqes@.map_values(|s: Sqe| entry_of(s)));
    entries
}

} // verus!
