//! The requests that the calls make, and what becomes of their completions.

use crate::buf_pool::{BufPool, RwBuffer, WBuffer};
use crate::buf_ring::RingUpdate;
use crate::calls::accept::{accept, accept_stream, AcceptFuture, AcceptStream};
use crate::calls::commit::{CommitFuture, CommitProgress, CommitWrite};
use crate::calls::read::{read, read_stream, ReadFuture, ReadStream};
use crate::calls::socket::{connect, SocketFuture};
use crate::calls::write::{WriteFuture, WriteMultipleFuture, WriteResult};
use crate::calls::CallError;
use crate::completion::Cause;
use crate::model::RuntimeView;
use crate::runtime::{Runtime, WriteTicket};
use crate::sqe::Sqe;
use crate::stream::{Progress, Stream};
use crate::task::TaskView;
use vstd::prelude::*;

verus! {

/// The task in progress, and what it is polled for.
pub open spec fn can_ask<F>(v: RuntimeView<F>) -> bool {
    v.polls.len() > 0 && v.slab.tasks[crate::laws::me(v)].rc < 0xFFFF
}

proof fn lemma_asked<F>(v: RuntimeView<F>, sqe: Sqe, mark: bool)
    requires
        v.wf(),
        can_ask(v),
    ensures
        crate::laws::requested(v, v.submitted(sqe, mark), mark),
        crate::laws::newest(v.submitted(sqe, mark)) == sqe,
        crate::laws::word_of_one(v, v.current_udata(false, 0)),
        crate::laws::word_of_many(v, v.current_udata(true, 0), 0),
{
    crate::laws::lemma_words(v, 0);
    crate::laws::lemma_marks(v.slab.tasks[crate::laws::me(v)].syscall_nb);
}

/// An accept is asked for once, on the socket that was named, and gives the file index
/// of the connection, or the error; a poll without a completion gives nothing.
pub proof fn law_accept<F>(
    listen_fd: i32,
    f: AcceptFuture,
    a: &mut AcceptFuture,
    rt: &mut Runtime<F>,
    first: Progress<Result<u32, CallError>>,
    b: &mut AcceptFuture,
    rt2: &mut Runtime<F>,
    second: Progress<Result<u32, CallError>>,
)
    requires
        call_ensures(accept, (listen_fd,), f),
        *old(a) == f,
        old(rt).wf(),
        can_ask(old(rt)@),
        call_ensures(AcceptFuture::poll::<F>, (a, rt), first),
        *old(b) == *final(a),
        call_ensures(AcceptFuture::poll::<F>, (b, rt2), second),
    ensures
        first is Pending,
        crate::laws::requested(old(rt)@, final(rt)@, false),
        crate::laws::newest(final(rt)@) matches Sqe::Accept { listen_fd: fd, user_data } && {
            &&& fd == listen_fd
            &&& crate::laws::word_of_one(old(rt)@, user_data)
        },
        final(rt2)@ == old(rt2)@,
        *final(b) == *old(b),
        ({
            let info = old(rt2)@.polls[old(rt2)@.polls.len() - 1].info;
            if info.cause != Cause::Completion {
                second is Pending
            } else if info.result < 0 {
                second matches Progress::Ready(Err(e)) && e.code == info.result
            } else {
                second matches Progress::Ready(Ok(fd)) && fd == info.result
            }
        }),
{
    lemma_asked(old(rt)@, crate::laws::newest(final(rt)@), false);
}

/// A read is asked for once, from the connection that was named, into a slot that the
/// kernel picks. The buffer that it gives has as many bytes as the completion says, is
/// of that connection, and stands in the slot that the upper half of the flags names;
/// of an error it gives the number.
pub proof fn law_read<F>(
    fd: u32,
    f: ReadFuture,
    a: &mut ReadFuture,
    rt: &mut Runtime<F>,
    first: Progress<Result<RwBuffer<1>, CallError>>,
    b: &mut ReadFuture,
    rt2: &mut Runtime<F>,
    second: Progress<Result<RwBuffer<1>, CallError>>,
)
    requires
        call_ensures(read, (fd,), f),
        *old(a) == f,
        old(rt).wf(),
        can_ask(old(rt)@),
        call_ensures(ReadFuture::poll::<F>, (a, rt), first),
        *old(b) == *final(a),
        call_ensures(ReadFuture::poll::<F>, (b, rt2), second),
    ensures
        first is Pending,
        crate::laws::requested(old(rt)@, final(rt)@, false),
        crate::laws::newest(final(rt)@) matches Sqe::Read { fd: d, len, buf_group, user_data } && {
            &&& d == fd
            &&& len == 4096
            &&& buf_group == 0
            &&& crate::laws::word_of_one(old(rt)@, user_data)
        },
        final(rt2)@ == old(rt2)@,
        *final(b) == *old(b),
        ({
            let info = old(rt2)@.polls[old(rt2)@.polls.len() - 1].info;
            if info.cause != Cause::Completion {
                second is Pending
            } else if info.result < 0 {
                second matches Progress::Ready(Err(e)) && e.code == info.result
            } else {
                second matches Progress::Ready(Ok(buf)) && {
                    &&& buf.bytes == info.result
                    &&& buf.fd_idx == fd
                    &&& buf.buf_idx == info.flags >> 16
                }
            }
        }),
{
    lemma_asked(old(rt)@, crate::laws::newest(final(rt)@), false);
    let flags = old(rt2)@.polls[old(rt2)@.polls.len() - 1].info.flags;
    assert(flags >> 16 == flags / 0x1_0000) by (bit_vector);
}

/// A stream of connections asks once, on the socket that was named. Every completion
/// brings the connection that it names, until one is an error or the last.
pub proof fn law_accept_stream<F>(
    listen_fd: i32,
    s: AcceptStream,
    a: &mut AcceptStream,
    rt: &mut Runtime<F>,
    first: Progress<Option<u32>>,
    b: &mut AcceptStream,
    rt2: &mut Runtime<F>,
    next: Progress<Option<u32>>,
)
    requires
        call_ensures(accept_stream, (listen_fd,), s),
        *old(a) == s,
        old(rt).wf(),
        can_ask(old(rt)@),
        call_ensures(<AcceptStream as Stream<F>>::poll_next, (a, rt), first),
        *old(b) == *final(a),
        call_ensures(<AcceptStream as Stream<F>>::poll_next, (b, rt2), next),
    ensures
        first is Pending,
        crate::laws::requested(old(rt)@, final(rt)@, true),
        crate::laws::newest(final(rt)@) matches Sqe::AcceptMulti { listen_fd: fd, user_data } && {
            &&& fd == listen_fd
            &&& crate::laws::word_of_many(old(rt)@, user_data, 0)
        },
        final(rt2)@ == old(rt2)@,
        final(b).listen_fd == listen_fd,
        ({
            let info = old(rt2)@.polls[old(rt2)@.polls.len() - 1].info;
            if info.cause != Cause::Completion {
                next is Pending && final(b).state == old(b).state
            } else if info.result < 0 {
                next matches Progress::Ready(None) && final(b).state is Done
            } else {
                &&& next matches Progress::Ready(Some(fd)) && fd == info.result
                &&& final(b).state is Done <==> info.flags & 2 == 0
                &&& final(b).state == old(b).state <==> info.flags & 2 != 0
            }
        }),
{
    lemma_asked(old(rt)@, crate::laws::newest(final(rt)@), true);
}

/// A stream of reads asks once, from the connection that was named. Every completion
/// brings a buffer with as many bytes as it says, of that connection, in the slot that
/// it names, until one is an error, the end or the last; and after a buffer the stream
/// does not take the same completion again.
pub proof fn law_read_stream<F>(
    fd: u32,
    s: ReadStream,
    a: &mut ReadStream,
    rt: &mut Runtime<F>,
    first: Progress<Option<RwBuffer<1>>>,
    b: &mut ReadStream,
    rt2: &mut Runtime<F>,
    next: Progress<Option<RwBuffer<1>>>,
    c: &mut ReadStream,
    rt3: &mut Runtime<F>,
    third: Progress<Option<RwBuffer<1>>>,
)
    requires
        call_ensures(read_stream, (fd,), s),
        *old(a) == s,
        old(rt).wf(),
        can_ask(old(rt)@),
        call_ensures(<ReadStream as Stream<F>>::poll_next, (a, rt), first),
        *old(b) == *final(a),
        call_ensures(<ReadStream as Stream<F>>::poll_next, (b, rt2), next),
        *old(c) == *final(b),
        call_ensures(<ReadStream as Stream<F>>::poll_next, (c, rt3), third),
    ensures
        first is Pending,
        crate::laws::requested(old(rt)@, final(rt)@, true),
        crate::laws::newest(final(rt)@) matches Sqe::RecvMulti { fd: d, buf_group, user_data } && {
            &&& d == fd
            &&& buf_group == 0
            &&& crate::laws::word_of_many(old(rt)@, user_data, 0)
        },
        final(rt2)@ == old(rt2)@,
        ({
            let info = old(rt2)@.polls[old(rt2)@.polls.len() - 1].info;
            if info.cause != Cause::Completion {
                next is Pending && *final(b) == *old(b)
            } else if info.result <= 0 {
                &&& next matches Progress::Ready(None)
                &&& third matches Progress::Ready(None)
                &&& final(rt3)@ == old(rt3)@
            } else {
                &&& next matches Progress::Ready(Some(buf)) && {
                    &&& buf.bytes == info.result
                    &&& buf.fd_idx == fd
                    &&& buf.buf_idx == info.flags >> 16
                }
                &&& final(rt3)@ == old(rt3)@
                &&& if info.flags & 2 != 0 {
                    &&& third is Pending
                    &&& *final(c) == *old(b)
                } else {
                    third matches Progress::Ready(None)
                }
            }
        }),
{
    lemma_asked(old(rt)@, crate::laws::newest(final(rt)@), true);
    let flags = old(rt2)@.polls[old(rt2)@.polls.len() - 1].info.flags;
    assert(flags >> 16 == flags / 0x1_0000) by (bit_vector);
}

/// A write is asked for once: of the slot at the position that was named among the write
/// slots, which the request names by its position in the whole table and its address, with
/// the length and the connection that were given. It gives the result of the completion.
pub proof fn law_write<F>(
    fd: u32,
    buf_id: u16,
    len: u32,
    f: WriteFuture,
    a: &mut WriteFuture,
    rt: &mut Runtime<F>,
    first: Progress<i32>,
    b: &mut WriteFuture,
    rt2: &mut Runtime<F>,
    second: Progress<i32>,
)
    requires
        call_ensures(crate::calls::write::write, (fd, buf_id, len), f),
        *old(a) == f,
        old(rt).wf(),
        can_ask(old(rt)@),
        buf_id < old(rt)@.pool.rc.len(),
        call_ensures(WriteFuture::poll::<F>, (a, rt), first),
        *old(b) == *final(a),
        call_ensures(WriteFuture::poll::<F>, (b, rt2), second),
    ensures
        first is Pending,
        crate::laws::requested(old(rt)@, final(rt)@, false),
        crate::laws::newest(final(rt)@) matches Sqe::WriteFixed {
            fd: d,
            addr,
            len: l,
            buf_index,
            user_data,
        } && {
            &&& d == fd
            &&& addr == old(rt)@.pool.base + (old(rt)@.pool.read_count + buf_id) * 4096
            &&& l == len
            &&& old(rt)@.pool.read_count + buf_id <= 0xFFFF ==> buf_index
                == old(rt)@.pool.read_count + buf_id
            &&& crate::laws::word_of_one(old(rt)@, user_data)
        },
        final(rt2)@ == old(rt2)@,
        *final(b) == *old(b),
        ({
            let info = old(rt2)@.polls[old(rt2)@.polls.len() - 1].info;
            if info.cause != Cause::Completion {
                second is Pending
            } else {
                second matches Progress::Ready(n) && n == info.result
            }
        }),
{
    lemma_asked(old(rt)@, crate::laws::newest(final(rt)@), false);
    lemma_address(old(rt)@, old(rt)@.pool.read_count + buf_id);
}

proof fn lemma_address<F>(v: RuntimeView<F>, i: int)
    requires
        v.wf(),
        0 <= i < v.pool.total(),
    ensures
        v.pool.address(1, i) == v.pool.base + i * 4096,
        0 <= v.pool.address(1, i) <= usize::MAX,
{
    assert(0 <= i * 4096 && i * 4096 + 4096 <= v.pool.total() * 4096) by (nonlinear_arith)
        requires
            0 <= i < v.pool.total(),
    ;
}

/// A connection is made in three polls: a TCP socket is asked for, then its connection to
/// the address at the place that was given, and then its file index is handed out. The
/// address says the family, the port and the IP, most significant byte first.
pub proof fn law_connect<F>(
    ip: [u8; 4],
    port: u16,
    f: SocketFuture,
    place: usize,
    a: &mut SocketFuture,
    rt: &mut Runtime<F>,
    first: Progress<u32>,
    b: &mut SocketFuture,
    rt2: &mut Runtime<F>,
    second: Progress<u32>,
    c: &mut SocketFuture,
    rt3: &mut Runtime<F>,
    third: Progress<u32>,
)
    requires
        call_ensures(connect, (ip, port), f),
        *old(a) == f,
        old(rt).wf(),
        can_ask(old(rt)@),
        call_ensures(SocketFuture::poll::<F>, (a, rt, place), first),
        *old(b) == *final(a),
        old(rt2).wf(),
        can_ask(old(rt2)@),
        old(rt2)@.polls[old(rt2)@.polls.len() - 1].info.cause == Cause::Completion,
        call_ensures(SocketFuture::poll::<F>, (b, rt2, place), second),
        *old(c) == *final(b),
        old(rt3)@.polls[old(rt3)@.polls.len() - 1].info.cause == Cause::Completion,
        call_ensures(SocketFuture::poll::<F>, (c, rt3, place), third),
    ensures
        f matches SocketFuture::CreateSocket { addr } && {
            &&& addr.family == 2
            &&& addr.port@[0] * 256 + addr.port@[1] == port
            &&& addr.addr == ip
        },
        first is Pending,
        crate::laws::requested(old(rt)@, final(rt)@, false),
        crate::laws::newest(final(rt)@) matches Sqe::Socket {
            domain,
            socket_type,
            protocol,
            user_data,
        } && {
            &&& domain == 2
            &&& socket_type == 0x8_0801
            &&& protocol == 0
            &&& crate::laws::word_of_one(old(rt)@, user_data)
        },
        second is Pending,
        crate::laws::requested(old(rt2)@, final(rt2)@, false),
        ({
            let slot = old(rt2)@.polls[old(rt2)@.polls.len() - 1].info.result as u32;
            &&& crate::laws::newest(final(rt2)@) matches Sqe::Connect {
                fd,
                addr,
                addrlen,
                user_data,
            } && {
                &&& fd == slot
                &&& addr == place
                &&& addrlen == 16
                &&& crate::laws::word_of_one(old(rt2)@, user_data)
            }
            &&& third matches Progress::Ready(fd) && fd == slot
        }),
        final(rt3)@ == old(rt3)@,
{
    lemma_asked(old(rt)@, crate::laws::newest(final(rt)@), false);
    lemma_asked(old(rt2)@, crate::laws::newest(final(rt2)@), false);
}

/// A socket or its connection is not taken before its completion has come.
pub proof fn law_connect_waits<F>(
    f: &mut SocketFuture,
    rt: &mut Runtime<F>,
    place: usize,
    r: Progress<u32>,
)
    requires
        *old(f) is Connecting,
        old(rt)@.polls[old(rt)@.polls.len() - 1].info.cause != Cause::Completion,
        call_ensures(SocketFuture::poll::<F>, (f, rt, place), r),
    ensures
        r is Pending,
        *final(f) == *old(f),
        final(rt)@ == old(rt)@,
{
}

/// A slot that is written without waiting is written to the connection that was named,
/// with the length that was given, from its own position and address, under the word that
/// names it. Its references stay.
pub proof fn law_submit_without_waiting<F>(
    buf: WBuffer<1>,
    rt: &mut Runtime<F>,
    fd_idx: u32,
    len: u32,
)
    requires
        old(rt).wf(),
        old(rt)@.pool.in_use(buf@),
        call_ensures(WBuffer::<1>::submit::<F>, (buf, rt, fd_idx, len), ()),
    ensures
        final(rt)@ == (RuntimeView { pending: final(rt)@.pending, ..old(rt)@ }),
        final(rt)@.pending == old(rt)@.pending.push(crate::laws::newest(final(rt)@)),
        crate::laws::newest(final(rt)@) matches Sqe::WriteFixed {
            fd,
            addr,
            len: l,
            buf_index,
            user_data,
        } && {
            &&& fd == fd_idx
            &&& addr == old(rt)@.pool.base + buf@ * 4096
            &&& l == len
            &&& buf@ <= 0xFFFF ==> buf_index == buf@
            &&& user_data >> 32 == 0x8000_0000
            &&& user_data & 0xFFFF_FFFF == buf@ as u64
        },
{
    lemma_address(old(rt)@, buf@ as int);
    let low = buf@ as u64;
    let w = (0x8000_0000_0000_0000 + low) as u64;
    assert(low <= 0xFFFF_FFFF && w == 0x8000_0000_0000_0000u64 + low ==> w >> 32 == 0x8000_0000
        && w & 0xFFFF_FFFF == low) by (bit_vector);
}

/// The requests of a fan-out: as many as connections, behind those that were queued before,
/// and at every position a write of the given length from the given slot to the connection
/// at that position, with that position in its word.
pub open spec fn fanned_out<F>(
    v: RuntimeView<F>,
    w: RuntimeView<F>,
    fds: Seq<u32>,
    slot: u32,
    len: u32,
) -> bool {
    let t = v.slab.tasks[crate::laws::me(v)];
    &&& w.pending.len() == v.pending.len() + fds.len()
    &&& forall|i: int| 0 <= i < v.pending.len() ==> w.pending[i] == v.pending[i]
    &&& forall|g: int|
        0 <= g < fds.len() ==> {
            &&& #[trigger] w.pending[v.pending.len() + g] matches Sqe::WriteFixed {
                fd,
                addr,
                len: l,
                buf_index,
                user_data,
            }
            &&& fd == fds[g]
            &&& addr == v.pool.base + slot * 4096
            &&& l == len
            &&& slot <= 0xFFFF ==> buf_index == slot
            &&& crate::laws::word_of_many(v, user_data, g as u16)
        }
    &&& w == (RuntimeView {
        pending: w.pending,
        ..crate::laws::with_record(
            v,
            crate::laws::me(v),
            TaskView {
                rc: (t.rc + fds.len()) as u16,
                syscall_nb: t.syscall_nb | 0x8000,
                ..t
            },
        )
    })
}

proof fn lemma_fan_out<F>(v: RuntimeView<F>, fds: Seq<u32>, slot: u32, len: u32)
    requires
        v.wf(),
        v.may_submit(fds.len()),
        v.pool.in_use(slot),
    ensures
        fanned_out(
            v,
            v.submitted_batch(crate::runtime::batch_writes(v, fds, slot, len)),
            fds,
            slot,
            len,
        ),
{
    let sqes = crate::runtime::batch_writes(v, fds, slot, len);
    let w = v.submitted_batch(sqes);
    lemma_address(v, slot as int);
    crate::laws::lemma_marks(v.slab.tasks[crate::laws::me(v)].syscall_nb);
    assert forall|g: int| 0 <= g < fds.len() implies {
        &&& #[trigger] w.pending[v.pending.len() + g] matches Sqe::WriteFixed {
            fd,
            addr,
            len: l,
            buf_index,
            user_data,
        }
        &&& fd == fds[g]
        &&& addr == v.pool.base + slot * 4096
        &&& l == len
        &&& slot <= 0xFFFF ==> buf_index == slot
        &&& crate::laws::word_of_many(v, user_data, g as u16)
    } by {
        assert(w.pending[v.pending.len() + g] == sqes[g]);
        crate::laws::lemma_words(v, g as u16);
    }
}

/// A fan-out makes one request for every connection, and no other.
pub proof fn law_fan_out_requests<F>(
    rt: &mut Runtime<F>,
    fds: &Vec<u32>,
    buffer: &WBuffer<1>,
    len: u32,
)
    requires
        old(rt).wf(),
        old(rt)@.may_submit(fds@.len()),
        old(rt)@.pool.in_use(buffer@),
        call_ensures(Runtime::<F>::submit_multiple_write, (rt, fds, buffer, len), ()),
    ensures
        fanned_out(old(rt)@, final(rt)@, fds@, buffer@, len),
        final(rt)@.pending.len() == old(rt)@.pending.len() + fds@.len(),
        final(rt)@.pool == old(rt)@.pool,
{
    lemma_fan_out(old(rt)@, fds@, buffer@, len);
}

/// At every position of a fan-out stands the write for the connection at that position: to that
/// connection, of the length that was given, from the slot that was given, and with a word whose
/// lowest 16 bits are the position and whose upper half is the task in progress.
pub proof fn law_fan_out_request<F>(
    rt: &mut Runtime<F>,
    fds: &Vec<u32>,
    buffer: &WBuffer<1>,
    len: u32,
    g: int,
)
    requires
        old(rt).wf(),
        old(rt)@.may_submit(fds@.len()),
        old(rt)@.pool.in_use(buffer@),
        call_ensures(Runtime::<F>::submit_multiple_write, (rt, fds, buffer, len), ()),
        0 <= g < fds@.len(),
    ensures
        final(rt)@.pending[old(rt)@.pending.len() + g] matches Sqe::WriteFixed {
            fd,
            addr,
            len: l,
            buf_index,
            user_data,
        } && {
            &&& fd == fds@[g]
            &&& addr == old(rt)@.pool.base + buffer@ * 4096
            &&& l == len
            &&& buffer@ <= 0xFFFF ==> buf_index == buffer@
            &&& user_data & 0xFFFF == g
            &&& (user_data >> 16) & 0xFFFF == (old(rt)@.polls.last().info.tag.syscall_nb
                | 0x8000) as u64
            &&& user_data >> 32 == old(rt)@.polls.last().info.tag.task_idx.0 as u64
        },
{
    lemma_fan_out(old(rt)@, fds@, buffer@, len);
    assert(fanned_out(old(rt)@, final(rt)@, fds@, buffer@, len));
}

/// An error that comes back with the position `g` is reported, first of all reports of that answer,
/// for the connection that the request at position `g` was made to.
pub proof fn law_fan_out_answers_the_right_connection<F>(
    fds: Vec<u32>,
    slot: WBuffer<1>,
    len: u32,
    f: WriteMultipleFuture,
    a: &mut WriteMultipleFuture,
    rt: &mut Runtime<F>,
    first: Progress<Vec<WriteResult>>,
    b: &mut WriteMultipleFuture,
    rt2: &mut Runtime<F>,
    second: Progress<Vec<WriteResult>>,
    g: int,
)
    requires
        call_ensures(WBuffer::<1>::write_multiple, (slot, fds, len), f),
        *old(a) == f,
        old(rt).wf(),
        old(rt)@.may_submit(fds@.len()),
        old(rt)@.pool.in_use(slot@),
        call_ensures(WriteMultipleFuture::poll::<F>, (a, rt), first),
        *old(b) == *final(a),
        0 <= g < fds@.len(),
        old(rt2)@.polls.len() > 0,
        old(rt2)@.polls.last().info.cause == Cause::Completion,
        old(rt2)@.polls.last().info.response_gen == g,
        old(rt2)@.polls.last().info.result < 0,
        call_ensures(WriteMultipleFuture::poll::<F>, (b, rt2), second),
    ensures
        final(rt)@.pending[old(rt)@.pending.len() + g] matches Sqe::WriteFixed { fd, .. } && {
            &&& fd == fds@[g]
            &&& fds@.len() == 1 ==> (second matches Progress::Ready(all) && all@.len() > 0
                && all@[0] == (WriteResult::Failed { fd }))
            &&& fds@.len() > 1 ==> (*final(b) matches WriteMultipleFuture::Pending {
                faileds,
                ..
            } && faileds@.len() > 0 && faileds@[0] == (WriteResult::Failed { fd }))
        },
{
    lemma_fan_out(old(rt)@, fds@, slot@, len);
    assert(fanned_out(old(rt)@, final(rt)@, fds@, slot@, len));
}

/// What a fan-out or the write of an answer holds is what it hands out in the end.
pub proof fn law_what_is_held_is_handed_out(
    f: WriteMultipleFuture,
    b: Option<WBuffer<1>>,
    w: CommitWrite,
    t: Option<WriteTicket>,
)
    requires
        call_ensures(WriteMultipleFuture::into_buffer, (f,), b),
        call_ensures(CommitWrite::into_ticket, (w,), t),
    ensures
        f matches WriteMultipleFuture::Init { buffer, .. } ==> b == Some(buffer),
        f matches WriteMultipleFuture::Pending { buffer, .. } ==> b == Some(buffer),
        f is Poisoned ==> b is None,
        w matches CommitWrite::Init { ticket, .. } ==> t == Some(ticket),
        w matches CommitWrite::Pending { ticket } ==> t == Some(ticket),
        w is Done ==> t is None,
{
}

/// The wait for a committed answer is made of what it was given.
pub proof fn law_commit_of_parts(
    addr: usize,
    buf_idx: u32,
    fd_idx: u32,
    len: u32,
    f: CommitFuture<1>,
)
    requires
        call_ensures(
            crate::calls::commit::make_commit_future::<1>,
            (addr, buf_idx, fd_idx, len),
            f,
        ),
    ensures
        f matches CommitFuture::Init { addr: a, buf_idx: b, fd_idx: d, len: l } && {
            &&& a == addr
            &&& b == buf_idx
            &&& d == fd_idx
            &&& l == len
        },
{
}

/// The first poll of a fan-out makes its requests. A later one takes the completion whose
/// position is `g` as the answer of the connection that the request with that position was
/// made to: it is reported as failed exactly if the result is an error, as partial
/// exactly if the result is not the length, and always under its own index. The reports of
/// all answers come with the last one, those of earlier answers first.
pub proof fn law_fan_out<F>(
    fds: Vec<u32>,
    slot: WBuffer<1>,
    len: u32,
    f: WriteMultipleFuture,
    a: &mut WriteMultipleFuture,
    rt: &mut Runtime<F>,
    first: Progress<Vec<WriteResult>>,
)
    requires
        call_ensures(WBuffer::<1>::write_multiple, (slot, fds, len), f),
        *old(a) == f,
        old(rt).wf(),
        old(rt)@.may_submit(fds@.len()),
        old(rt)@.pool.in_use(slot@),
        call_ensures(WriteMultipleFuture::poll::<F>, (a, rt), first),
    ensures
        first is Pending,
        fanned_out(old(rt)@, final(rt)@, fds@, slot@, len),
        *final(a) matches WriteMultipleFuture::Pending {
            in_flight_count,
            fds: open,
            faileds,
            len: l,
            buffer,
        } && {
            &&& in_flight_count == fds@.len()
            &&& open@ == fds@
            &&& faileds@.len() == 0
            &&& l == len
            &&& buffer == slot
        },
{
    lemma_fan_out(old(rt)@, fds@, slot@, len);
}

/// An answer to a fan-out: see [`law_fan_out`].
pub proof fn law_fan_out_answer<F>(
    a: &mut WriteMultipleFuture,
    rt: &mut Runtime<F>,
    r: Progress<Vec<WriteResult>>,
    count: u16,
    fds: Vec<u32>,
    before: Vec<WriteResult>,
    len: u32,
    slot: WBuffer<1>,
    g: int,
    result: i32,
    reports: Seq<WriteResult>,
)
    requires
        *old(a) == (WriteMultipleFuture::Pending {
            in_flight_count: count,
            fds,
            faileds: before,
            len,
            buffer: slot,
        }),
        count > 0,
        old(rt)@.polls.len() > 0,
        old(rt)@.polls[old(rt)@.polls.len() - 1].info.cause == Cause::Completion,
        g == old(rt)@.polls[old(rt)@.polls.len() - 1].info.response_gen,
        result == old(rt)@.polls[old(rt)@.polls.len() - 1].info.result,
        g < fds@.len(),
        call_ensures(WriteMultipleFuture::poll::<F>, (a, rt), r),
        // What is known of the reports by then.
        r matches Progress::Ready(all) ==> reports == all@,
        r is Pending ==> (*final(a) matches WriteMultipleFuture::Pending { faileds, .. }
            && faileds@ == reports),
    ensures
        *final(a) matches WriteMultipleFuture::Pending {
            in_flight_count: count1,
            fds: open,
            len: l,
            buffer,
            ..
        } && {
            &&& count1 == count - 1
            &&& open@.len() == fds@.len()
            &&& open@[g] == u32::MAX
            &&& forall|i: int| 0 <= i < fds@.len() && i != g ==> #[trigger] open@[i] == fds@[i]
            &&& l == len
            &&& buffer == slot
        },
        r is Ready <==> count == 1,
        // The reports of earlier answers stand first, then those of this one.
        ({
            let n = before@.len() as int;
            let fd = fds@[g];
            &&& forall|i: int| 0 <= i < n ==> #[trigger] reports[i] == before@[i]
            &&& result == len ==> reports.len() == n
            &&& 0 <= result && result != len ==> reports.len() == n + 1 && reports[n] == (
            WriteResult::Partial { fd, len: result as u32 })
            &&& result < 0 ==> {
                &&& reports.len() >= n + 1
                &&& reports[n] == (WriteResult::Failed { fd })
                &&& result as u32 == len ==> reports.len() == n + 1
                &&& result as u32 != len ==> reports.len() == n + 2 && reports[n + 1] == (
                WriteResult::Partial { fd, len: result as u32 })
            }
        }),
        // While answers are awaited the runtime stays as it is; after the last one the task
        // moves on to its next number.
        count > 1 ==> final(rt)@ == old(rt)@,
        count == 1 ==> final(rt)@ == old(rt)@.batch_finished(),
{
}

/// A fan-out does not take anything but a completion for an answer.
pub proof fn law_fan_out_waits<F>(
    a: &mut WriteMultipleFuture,
    rt: &mut Runtime<F>,
    r: Progress<Vec<WriteResult>>,
)
    requires
        *old(a) is Pending,
        old(rt)@.polls[old(rt)@.polls.len() - 1].info.cause != Cause::Completion,
        call_ensures(WriteMultipleFuture::poll::<F>, (a, rt), r),
    ensures
        r is Pending,
        *final(a) == *old(a),
        final(rt)@ == old(rt)@,
{
}

/// After the last of several completions the task moves on: its number, in its record and
/// in what it knows, is one more, without the mark. Nothing else changes.
pub proof fn law_batch_is_over<F>(rt: &mut Runtime<F>)
    requires
        old(rt).wf(),
        old(rt)@.polls.len() > 0,
        call_ensures(Runtime::<F>::advance_syscall_nb, (rt,), ()),
    ensures
        final(rt)@ == old(rt)@.batch_finished(),
        ({
            let v = old(rt)@;
            let w = final(rt)@;
            let n = v.polls.len() - 1;
            let t = v.slab.tasks[crate::laws::me(v)];
            &&& w.polls.len() == v.polls.len()
            &&& forall|i: int| 0 <= i < n ==> #[trigger] w.polls[i] == v.polls[i]
            &&& w.polls[n].release == v.polls[n].release
            &&& w.polls[n].info.tag.task_idx == v.polls[n].info.tag.task_idx
            &&& w.polls[n].info.tag.syscall_nb == (crate::laws::my_nb(v) & 0x7FFF) + 1
            &&& w.polls[n].info.result == v.polls[n].info.result
            &&& w.polls[n].info.flags == v.polls[n].info.flags
            &&& w.polls[n].info.response_gen == v.polls[n].info.response_gen
            &&& w.polls[n].info.cause == v.polls[n].info.cause
            &&& w == (RuntimeView {
                polls: w.polls,
                ..crate::laws::with_record(
                    v,
                    crate::laws::me(v),
                    TaskView { syscall_nb: ((t.syscall_nb & 0x7FFF) + 1) as u16, ..t },
                )
            })
        }),
{
    crate::laws::lemma_marks(crate::laws::my_nb(old(rt)@));
    crate::laws::lemma_marks(old(rt)@.slab.tasks[crate::laws::me(old(rt)@)].syscall_nb);
}

/// A committed answer: what is written are the first `len` bytes of the slot that held the
/// question, to the connection that the question came from, under the word of the task that
/// writes. The task that commits has a reference and a write more, and nothing else changes.
pub proof fn law_commit_writes_the_slot<F>(
    buf: RwBuffer<1>,
    pool: &BufPool<1>,
    len: u32,
    f: CommitFuture<1>,
    a: &mut CommitFuture<1>,
    rt: &mut Runtime<F>,
    p: CommitProgress,
    write: CommitWrite,
    b: &mut CommitWrite,
    rt2: &mut Runtime<F>,
    r: Progress<()>,
)
    requires
        pool.wf(),
        buf.buf_idx < pool@.read_count,
        call_ensures(RwBuffer::<1>::commit, (buf, pool, len), f),
        *old(a) == f,
        old(rt).wf(),
        can_ask(old(rt)@),
        call_ensures(CommitFuture::<1>::poll::<F>, (a, rt), p),
        p == CommitProgress::Spawn(write),
        *old(b) == write,
        old(rt2).wf(),
        can_ask(old(rt2)@),
        call_ensures(CommitWrite::poll::<F>, (b, rt2), r),
    ensures
        ({
            let v = old(rt)@;
            let t = v.slab.tasks[crate::laws::me(v)];
            &&& t.writes < 0xFFFF
            &&& final(rt)@ == crate::laws::with_record(
                v,
                crate::laws::me(v),
                TaskView { rc: (t.rc + 1) as u16, writes: (t.writes + 1) as u16, ..t },
            )
        }),
        r is Pending,
        crate::laws::requested(old(rt2)@, final(rt2)@, false),
        crate::laws::newest(final(rt2)@) matches Sqe::WriteFixed {
            fd,
            addr,
            len: l,
            buf_index,
            user_data,
        } && {
            &&& fd == buf.fd_idx
            &&& addr == pool@.base + buf.buf_idx * 4096
            &&& l == len
            &&& buf.buf_idx <= 0xFFFF ==> buf_index == buf.buf_idx
            &&& crate::laws::word_of_one(old(rt2)@, user_data)
        },
        // The write knows for which task and slot it runs.
        *final(b) matches CommitWrite::Pending { ticket } && ticket@.task == crate::laws::me(
            old(rt)@,
        ) && ticket@.buf_idx == buf.buf_idx,
        // The commit waits for that slot.
        *final(a) == (CommitFuture::<1>::Pending { buf_idx: buf.buf_idx }),
{
    crate::model::law_polled_task_is_held(old(rt)@);
    assert(old(rt)@.slot_ok(crate::laws::me(old(rt)@)));
    lemma_asked(old(rt2)@, crate::laws::newest(final(rt2)@), false);
    assert(0 <= buf.buf_idx * 4096 && buf.buf_idx * 4096 + 4096 <= pool@.total() * 4096)
        by (nonlinear_arith)
        requires
            0 <= buf.buf_idx < pool@.total(),
    ;
}

/// The poll of the write for its completion wakes the task that has committed the answer
/// with the result of this very write, behind all that were woken before. Whatever stands
/// on the list by then stays as it is.
pub proof fn law_write_ends_with_its_result<F>(
    b: &mut CommitWrite,
    rt: &mut Runtime<F>,
    r: Progress<()>,
    ticket: WriteTicket,
)
    requires
        *old(b) == (CommitWrite::Pending { ticket }),
        old(rt).wf(),
        old(rt)@.polls.len() > 0,
        old(rt)@.writing(ticket@.task),
        call_ensures(CommitWrite::poll::<F>, (b, rt), r),
    ensures
        ({
            let v = old(rt)@;
            let w = final(rt)@;
            let info = v.polls[v.polls.len() - 1].info;
            if info.cause != Cause::Completion {
                r is Pending && *final(b) == *old(b) && w == v
            } else {
                &&& r is Ready
                &&& ended(v, w, ticket@.task, ticket@.buf_idx, info.result)
            }
        }),
{
}

/// The write of a committed answer of task `k` in slot `buf_idx` has ended with `result`: one
/// wake-up more, at the end, that says so; one write less of that task; and nothing else.
pub open spec fn ended<F>(
    v: RuntimeView<F>,
    w: RuntimeView<F>,
    k: u32,
    buf_idx: u32,
    result: i32,
) -> bool {
    let t = v.slab.tasks[k];
    let n = v.wakes.len() as int;
    &&& w.wakes.len() == n + 1
    &&& forall|i: int| 0 <= i < n ==> #[trigger] w.wakes[i] == v.wakes[i]
    &&& w.wakes[n].task_idx.0 == k
    &&& w.wakes[n].result == result
    &&& w.wakes[n].cause == Cause::Written(buf_idx)
    &&& w == (RuntimeView {
        wakes: w.wakes,
        ..crate::laws::with_record(v, k, TaskView { writes: (t.writes - 1) as u16, ..t })
    })
}

/// The end of a write puts one wake-up behind all that stand on the list, however many those are:
/// it names the task that has committed the answer, the slot, and the result of this very write.
/// The others stay as they are, in their order.
pub proof fn law_end_write<F>(rt: &mut Runtime<F>, ticket: WriteTicket, result: i32)
    requires
        old(rt).wf(),
        old(rt)@.writing(ticket@.task),
        call_ensures(Runtime::<F>::end_write, (rt, ticket, result), ()),
    ensures
        ended(old(rt)@, final(rt)@, ticket@.task, ticket@.buf_idx, result),
        final(rt)@.wakes.len() == old(rt)@.wakes.len() + 1,
        final(rt)@.wakes.drop_last() == old(rt)@.wakes,
        final(rt)@.wakes.last().task_idx.0 == ticket@.task,
        final(rt)@.wakes.last().result == result,
        final(rt)@.wakes.last().cause == Cause::Written(ticket@.buf_idx),
        final(rt)@.ring == old(rt)@.ring,
{
    assert(final(rt)@.wakes.drop_last() =~= old(rt)@.wakes);
}

/// Two writes that complete in the same turn: each task is woken with the result of its own
/// write, in the order in which the writes have completed.
pub proof fn law_two_writes_end<F>(
    a: &mut Runtime<F>,
    one: WriteTicket,
    x: i32,
    b: &mut Runtime<F>,
    two: WriteTicket,
    y: i32,
)
    requires
        old(a).wf(),
        old(a)@.writing(one@.task),
        call_ensures(Runtime::<F>::end_write, (a, one, x), ()),
        *old(b) == *final(a),
        old(b)@.writing(two@.task),
        call_ensures(Runtime::<F>::end_write, (b, two, y), ()),
    ensures
        ({
            let n = old(a)@.wakes.len() as int;
            let list = final(b)@.wakes;
            &&& list.len() == n + 2
            &&& list[n].task_idx.0 == one@.task && list[n].result == x
            &&& list[n + 1].task_idx.0 == two@.task && list[n + 1].result == y
            &&& list[n].cause == Cause::Written(one@.buf_idx)
            &&& list[n + 1].cause == Cause::Written(two@.buf_idx)
        }),
{
}

/// A commit resolves in the poll for the end of its own write, with the result of that write.
/// Exactly then its slot is lent to the kernel again: the entry of the slot at the tail of the
/// ring, and the tail one further. In any other poll nothing happens.
pub proof fn law_commit_resolves<F>(
    a: &mut CommitFuture<1>,
    rt: &mut Runtime<F>,
    p: CommitProgress,
    buf_idx: u32,
)
    requires
        *old(a) == (CommitFuture::<1>::Pending { buf_idx }),
        old(rt).wf(),
        old(rt)@.polls.len() > 0,
        buf_idx < old(rt)@.pool.read_count,
        call_ensures(CommitFuture::<1>::poll::<F>, (a, rt), p),
    ensures
        ({
            let v = old(rt)@;
            let w = final(rt)@;
            let info = v.polls[v.polls.len() - 1].info;
            if info.cause != Cause::Written(buf_idx) {
                p is Waiting && *final(a) == *old(a) && w == v
            } else {
                &&& p matches CommitProgress::Ready(result, update) && {
                    &&& result == info.result
                    &&& lent_again(v, w, buf_idx, update)
                }
                &&& *final(a) is Done
            }
        }),
{
    lemma_lent(old(rt)@, buf_idx);
}

/// The read slot `buf_idx` is lent to the kernel again, `update` says how, and nothing else
/// changes.
pub open spec fn lent_again<F>(
    v: RuntimeView<F>,
    w: RuntimeView<F>,
    buf_idx: u32,
    update: RingUpdate,
) -> bool {
    let n = v.ring.entries.len() as int;
    let p = v.ring.tail as int % n;
    &&& w == (RuntimeView { ring: w.ring, ..v })
    &&& w.ring.entries.len() == n
    &&& w.ring.entries[p].addr == v.pool.base + buf_idx * 4096
    &&& w.ring.entries[p].len == 4096
    &&& w.ring.entries[p].bid == buf_idx
    &&& forall|i: int| 0 <= i < n && i != p ==> #[trigger] w.ring.entries[i] == v.ring.entries[i]
    &&& w.ring.tail == (v.ring.tail + 1) % 0x1_0000
    &&& update.offset == 16 * p
    &&& update.entry == w.ring.entries[p]
    &&& update.tail == w.ring.tail
}

proof fn lemma_lent<F>(v: RuntimeView<F>, buf_idx: u32)
    requires
        v.wf(),
        buf_idx < v.pool.read_count,
    ensures
        0 <= v.ring.position() < v.ring.entries.len(),
        v.pool.address(1, buf_idx as int) == v.pool.base + buf_idx * 4096,
        0 <= v.pool.address(1, buf_idx as int) <= usize::MAX,
        buf_idx <= 0xFFFF,
        v.ring.position() * 16 <= usize::MAX,
{
    lemma_address(v, buf_idx as int);
}

/// A read slot that is given back without an answer is lent to the kernel at once.
pub proof fn law_slot_is_lent_again<F>(
    a: &mut Runtime<F>,
    buf_idx: u32,
    update: RingUpdate,
    b: &mut Runtime<F>,
    buf: RwBuffer<1>,
    update2: RingUpdate,
)
    requires
        old(a).wf(),
        buf_idx < old(a)@.pool.read_count,
        call_ensures(Runtime::<F>::release_read_buf, (a, buf_idx), update),
        old(b).wf(),
        buf.buf_idx < old(b)@.pool.read_count,
        call_ensures(RwBuffer::<1>::release::<F>, (buf, b), update2),
    ensures
        lent_again(old(a)@, final(a)@, buf_idx, update),
        lent_again(old(b)@, final(b)@, buf.buf_idx, update2),
{
    lemma_lent(old(a)@, buf_idx);
    lemma_lent(old(b)@, buf.buf_idx);
}

} // verus!
