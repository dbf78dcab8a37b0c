//! Reading from connections, once or again and again.

use crate::buf_pool::RwBuffer;
use crate::calls::CallError;
use crate::completion::{buffer_id, is_more, Cause};
use crate::runtime::Runtime;
use crate::sqe::Sqe;
use crate::stream::{Progress, Stream};
use vstd::prelude::*;

verus! {

/// The wait for what a connection sends next.
pub enum ReadFuture {
    /// The request is still to be made.
    Init(u32),
    /// The completion is awaited.
    Pending(u32),
}

/// Reads once from a connection.
pub fn read(fd: u32) -> (f: ReadFuture)
    ensures
        f == ReadFuture::Init(fd),
{
    ReadFuture::Init(fd)
}

/// The read slot that the completion of a read has filled.
pub open spec fn filled_slot(fd: u32, result: i32, flags: u32) -> RwBuffer<1> {
    RwBuffer {
        buf_idx: crate::completion::picked_buffer(flags),
        fd_idx: fd,
        bytes: result as u32,
    }
}

impl ReadFuture {
    /// The connection.
    pub open spec fn fd(self) -> u32 {
        match self {
            ReadFuture::Init(fd) => fd,
            ReadFuture::Pending(fd) => fd,
        }
    }

    /// The first poll makes the request, the next one takes the slot that the
    /// kernel has filled, or the error.
    pub fn poll<F>(&mut self, rt: &mut Runtime<F>) -> (r: Progress<Result<RwBuffer<1>, CallError>>)
        requires
            old(rt).wf(),
            old(rt)@.polling(),
            *old(self) is Init ==> old(rt)@.may_submit(1),
            *old(self) is Pending && old(rt)@.current().cause == Cause::Completion
                && old(rt)@.current().result >= 0 ==> crate::completion::picked_buffer(
                old(rt)@.current().flags,
            ) < old(rt)@.pool.read_count,
        ensures
            final(rt).wf(),
            *final(self) == ReadFuture::Pending(old(self).fd()),
            *old(self) is Init ==> {
                &&& r is Pending
                &&& final(rt)@ == old(rt)@.submitted(
                    Sqe::Read {
                        fd: old(self).fd(),
                        len: crate::buf_pool::buf_size(1) as u32,
                        buf_group: crate::runtime::BUF_GROUP,
                        user_data: old(rt)@.current_udata(false, 0),
                    },
                    false,
                )
            },
            *old(self) is Pending ==> final(rt)@ == old(rt)@,
            *old(self) is Pending && old(rt)@.current().cause != Cause::Completion ==> r is Pending,
            *old(self) is Pending && old(rt)@.current().cause == Cause::Completion ==> {
                &&& r == Progress::Ready(
                    if old(rt)@.current().result < 0 {
                        Err(CallError { code: old(rt)@.current().result })
                    } else {
                        Ok(
                            filled_slot(
                                old(self).fd(),
                                old(rt)@.current().result,
                                old(rt)@.current().flags,
                            ),
                        )
                    },
                )
            },
    {
        match *self {
            ReadFuture::Init(fd) => {
                rt.submit_read(fd);
                *self = ReadFuture::Pending(fd);
                Progress::Pending
            },
            ReadFuture::Pending(fd) => {
                if !rt.is_completion() {
                    return Progress::Pending;
                }
                let bytes: i32 = rt.current_result();
                if bytes < 0 {
                    return Progress::Ready(Err(CallError { code: bytes }));
                }
                let buf_id: u32 = buffer_id(rt.current_cqe_flags());
                let buf = rt.buffer().checkout_read(buf_id, fd, bytes as u32);
                Progress::Ready(Ok(buf))
            },
        }
    }
}

/// How far a stream of reads has got.
#[derive(Clone, Copy, Debug, PartialEq, Eq, Structural)]
pub enum ReadStreamState {
    /// The request is still to be made.
    Init,
    /// The next completion brings a buffer.
    Running,
    /// A buffer was delivered: the next poll waits for a new completion, and does
    /// not take the one at hand a second time.
    NeedSuspend,
    /// Nothing will come any more.
    Done,
}

/// What a connection sends, buffer by buffer.
pub struct ReadStream {
    pub fd: u32,
    pub state: ReadStreamState,
}

impl ReadStream {
    /// A stream that has not made its request yet.
    pub fn new(fd: u32) -> (s: Self)
        ensures
            s == (ReadStream { fd, state: ReadStreamState::Init }),
    {
        ReadStream { fd, state: ReadStreamState::Init }
    }
}

/// What a connection sends, buffer by buffer.
pub fn read_stream(fd: u32) -> (s: ReadStream)
    ensures
        s == (ReadStream { fd, state: ReadStreamState::Init }),
{
    ReadStream::new(fd)
}

impl<F> Stream<F> for ReadStream {
    /// A read slot that the kernel has filled.
    type Item = RwBuffer<1>;

    open spec fn poll_requires(&self, rt: &Runtime<F>) -> bool {
        &&& rt.wf()
        &&& self.state is Init ==> rt@.may_submit(1)
        &&& self.state is Running ==> {
            &&& rt@.polling()
            &&& rt@.current().cause == Cause::Completion && rt@.current().result > 0
                ==> crate::completion::picked_buffer(rt@.current().flags) < rt@.pool.read_count
        }
    }

    open spec fn poll_ensures(
        before: Self,
        after: Self,
        rt_before: Runtime<F>,
        rt_after: Runtime<F>,
        r: Progress<Option<RwBuffer<1>>>,
    ) -> bool {
        let result = rt_before@.current().result;
        let flags = rt_before@.current().flags;
        &&& rt_after.wf()
        &&& after.fd == before.fd
        &&& match before.state {
            ReadStreamState::Init => {
                &&& r is Pending
                &&& after.state is Running
                &&& rt_after@ == rt_before@.submitted(
                    Sqe::RecvMulti {
                        fd: before.fd,
                        buf_group: crate::runtime::BUF_GROUP,
                        user_data: rt_before@.current_udata(true, 0),
                    },
                    true,
                )
            },
            ReadStreamState::Running => if rt_before@.current().cause != Cause::Completion {
                &&& rt_after@ == rt_before@
                &&& r is Pending
                &&& after.state is Running
            } else {
                &&& rt_after@ == rt_before@
                &&& r == Progress::Ready(
                    if result <= 0 {
                        None
                    } else {
                        Some(filled_slot(before.fd, result, flags))
                    },
                )
                &&& after.state == (if result <= 0 || !crate::completion::more_to_come(flags) {
                    ReadStreamState::Done
                } else {
                    ReadStreamState::NeedSuspend
                })
            },
            ReadStreamState::NeedSuspend => {
                &&& rt_after@ == rt_before@
                &&& r is Pending
                &&& after.state is Running
            },
            ReadStreamState::Done => {
                &&& rt_after@ == rt_before@
                &&& r == Progress::Ready(None::<RwBuffer<1>>)
                &&& after.state is Done
            },
        }
    }

    fn poll_next(&mut self, rt: &mut Runtime<F>) -> (r: Progress<Option<RwBuffer<1>>>) {
        match self.state {
            ReadStreamState::Init => {
                rt.submit_recv_multishot(self.fd);
                self.state = ReadStreamState::Running;
                Progress::Pending
            },
            ReadStreamState::Running => {
                if !rt.is_completion() {
                    return Progress::Pending;
                }
                let result: i32 = rt.current_result();
                if result <= 0 {
                    self.state = ReadStreamState::Done;
                    return Progress::Ready(None);
                }
                let flags: u32 = rt.current_cqe_flags();
                let buf = rt.buffer().checkout_read(buffer_id(flags), self.fd, result as u32);
                self.state = if is_more(flags) {
                    ReadStreamState::NeedSuspend
                } else {
                    ReadStreamState::Done
                };
                Progress::Ready(Some(buf))
            },
            ReadStreamState::NeedSuspend => {
                self.state = ReadStreamState::Running;
                Progress::Pending
            },
            ReadStreamState::Done => Progress::Ready(None),
        }
    }
}

/// A stream of reads delivers a completion at most once: after a buffer, the
/// next poll has none, whatever the task knows by then.
pub proof fn law_read_stream_delivers_once<F>(
    s0: ReadStream,
    s1: ReadStream,
    s2: ReadStream,
    rt0: Runtime<F>,
    rt1: Runtime<F>,
    rt2: Runtime<F>,
    rt3: Runtime<F>,
    first: Progress<Option<RwBuffer<1>>>,
    second: Progress<Option<RwBuffer<1>>>,
)
    requires
        <ReadStream as Stream<F>>::poll_ensures(s0, s1, rt0, rt1, first),
        <ReadStream as Stream<F>>::poll_ensures(s1, s2, rt2, rt3, second),
        first matches Progress::Ready(Some(_)),
    ensures
        second is Pending || second == Progress::Ready(None::<RwBuffer<1>>),
{
}

/// A stream of reads delivers nothing but completions: in a poll that comes for
/// another reason, such as the end of a committed write, it delivers no buffer and
/// stays as it was.
pub proof fn law_read_stream_delivers_completions_only<F>(
    s0: ReadStream,
    s1: ReadStream,
    rt0: Runtime<F>,
    rt1: Runtime<F>,
    r: Progress<Option<RwBuffer<1>>>,
)
    requires
        <ReadStream as Stream<F>>::poll_ensures(s0, s1, rt0, rt1, r),
        rt0@.current().cause != Cause::Completion,
    ensures
        r matches Progress::Ready(item) ==> item is None && s0.state is Done,
        s0.state is Running ==> s1 == s0 && rt1@ == rt0@,
{
}

/// Once a stream of reads has ended, it stays so.
pub proof fn law_read_stream_stays_ended<F>(
    s0: ReadStream,
    s1: ReadStream,
    s2: ReadStream,
    rt0: Runtime<F>,
    rt1: Runtime<F>,
    rt2: Runtime<F>,
    rt3: Runtime<F>,
    first: Progress<Option<RwBuffer<1>>>,
    second: Progress<Option<RwBuffer<1>>>,
)
    requires
        <ReadStream as Stream<F>>::poll_ensures(s0, s1, rt0, rt1, first),
        <ReadStream as Stream<F>>::poll_ensures(s1, s2, rt2, rt3, second),
        first == Progress::Ready(None::<RwBuffer<1>>),
    ensures
        second == Progress::Ready(None::<RwBuffer<1>>),
        rt3@ == rt2@,
{
}

/// The last buffer of a stream of reads is delivered, and the end comes with the
/// poll after it.
pub proof fn law_read_stream_delivers_the_last<F>(
    s0: ReadStream,
    s1: ReadStream,
    s2: ReadStream,
    rt0: Runtime<F>,
    rt1: Runtime<F>,
    rt2: Runtime<F>,
    rt3: Runtime<F>,
    first: Progress<Option<RwBuffer<1>>>,
    second: Progress<Option<RwBuffer<1>>>,
)
    requires
        <ReadStream as Stream<F>>::poll_ensures(s0, s1, rt0, rt1, first),
        <ReadStream as Stream<F>>::poll_ensures(s1, s2, rt2, rt3, second),
        s0.state is Running,
        rt0@.current().cause == Cause::Completion,
        rt0@.current().result > 0,
        !crate::completion::more_to_come(rt0@.current().flags),
    ensures
        first == Progress::Ready(
            Some(filled_slot(s0.fd, rt0@.current().result, rt0@.current().flags)),
        ),
        second == Progress::Ready(None::<RwBuffer<1>>),
{
}

} // verus!
