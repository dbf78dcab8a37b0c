//! Accepting connections, one or many.

use crate::calls::CallError;
use crate::completion::{is_more, Cause};
use crate::runtime::Runtime;
use crate::sqe::Sqe;
use crate::stream::{Progress, Stream};
use vstd::prelude::*;

verus! {

/// The wait for one connection.
pub struct AcceptFuture {
    pub listen_fd: i32,
    pub submitted: bool,
}

/// Waits for one connection on a listening socket.
pub fn accept(listen_fd: i32) -> (f: AcceptFuture)
    ensures
        f == (AcceptFuture { listen_fd, submitted: false }),
{
    AcceptFuture { listen_fd, submitted: false }
}

impl AcceptFuture {
    /// The first poll makes the request, the next one takes the index of the
    /// accepted connection in the table of registered files.
    pub fn poll<F>(&mut self, rt: &mut Runtime<F>) -> (r: Progress<Result<u32, CallError>>)
        requires
            old(rt).wf(),
            old(rt)@.polling(),
            !old(self).submitted ==> old(rt)@.may_submit(1),
        ensures
            final(rt).wf(),
            *final(self) == (AcceptFuture { submitted: true, ..*old(self) }),
            !old(self).submitted ==> {
                &&& r is Pending
                &&& final(rt)@ == old(rt)@.submitted(
                    Sqe::Accept {
                        listen_fd: old(self).listen_fd,
                        user_data: old(rt)@.current_udata(false, 0),
                    },
                    false,
                )
            },
            old(self).submitted ==> final(rt)@ == old(rt)@,
            old(self).submitted && old(rt)@.current().cause != Cause::Completion ==> r is Pending,
            old(self).submitted && old(rt)@.current().cause == Cause::Completion ==> r
                == Progress::Ready(crate::calls::file_index_of(old(rt)@.current().result)),
    {
        if !self.submitted {
            rt.submit_accept(self.listen_fd);
            self.submitted = true;
            return Progress::Pending;
        }
        if !rt.is_completion() {
            return Progress::Pending;
        }
        let result: i32 = rt.current_result();
        if result < 0 {
            Progress::Ready(Err(CallError { code: result }))
        } else {
            Progress::Ready(Ok(result as u32))
        }
    }
}

/// How far a stream of connections has got.
#[derive(Clone, Copy, Debug, PartialEq, Eq, Structural)]
pub enum AcceptStreamState {
    /// The request is still to be made.
    Init,
    /// Every completion brings a connection.
    Running,
    /// No connection will come any more.
    Done,
}

/// The connections that come in on a listening socket.
pub struct AcceptStream {
    pub listen_fd: i32,
    pub state: AcceptStreamState,
}

impl AcceptStream {
    /// A stream that has not made its request yet.
    pub fn new(listen_fd: i32) -> (s: Self)
        ensures
            s == (AcceptStream { listen_fd, state: AcceptStreamState::Init }),
    {
        AcceptStream { listen_fd, state: AcceptStreamState::Init }
    }
}

/// The connections that come in on a listening socket.
pub fn accept_stream(listen_fd: i32) -> (s: AcceptStream)
    ensures
        s == (AcceptStream { listen_fd, state: AcceptStreamState::Init }),
{
    AcceptStream::new(listen_fd)
}

impl<F> Stream<F> for AcceptStream {
    /// The index of a connection in the table of registered files.
    type Item = u32;

    open spec fn poll_requires(&self, rt: &Runtime<F>) -> bool {
        &&& rt.wf()
        &&& self.state is Init ==> rt@.may_submit(1)
        &&& self.state is Running ==> rt@.polling()
    }

    open spec fn poll_ensures(
        before: Self,
        after: Self,
        rt_before: Runtime<F>,
        rt_after: Runtime<F>,
        r: Progress<Option<u32>>,
    ) -> bool {
        let result = rt_before@.current().result;
        let flags = rt_before@.current().flags;
        &&& rt_after.wf()
        &&& after.listen_fd == before.listen_fd
        &&& match before.state {
            AcceptStreamState::Init => {
                &&& r is Pending
                &&& after.state is Running
                &&& rt_after@ == rt_before@.submitted(
                    Sqe::AcceptMulti {
                        listen_fd: before.listen_fd,
                        user_data: rt_before@.current_udata(true, 0),
                    },
                    true,
                )
            },
            AcceptStreamState::Running => if rt_before@.current().cause != Cause::Completion {
                &&& rt_after@ == rt_before@
                &&& r is Pending
                &&& after.state is Running
            } else {
                &&& rt_after@ == rt_before@
                &&& r == Progress::Ready(
                    if result < 0 {
                        None
                    } else {
                        Some(result as u32)
                    },
                )
                &&& after.state == (if result < 0 || !crate::completion::more_to_come(flags) {
                    AcceptStreamState::Done
                } else {
                    AcceptStreamState::Running
                })
            },
            AcceptStreamState::Done => {
                &&& rt_after@ == rt_before@
                &&& r == Progress::Ready(None::<u32>)
                &&& after.state is Done
            },
        }
    }

    fn poll_next(&mut self, rt: &mut Runtime<F>) -> (r: Progress<Option<u32>>) {
        match self.state {
            AcceptStreamState::Init => {
                rt.submit_accept_multishot(self.listen_fd);
                self.state = AcceptStreamState::Running;
                Progress::Pending
            },
            AcceptStreamState::Running => {
                if !rt.is_completion() {
                    return Progress::Pending;
                }
                let result: i32 = rt.current_result();
                if result < 0 {
                    self.state = AcceptStreamState::Done;
                    return Progress::Ready(None);
                }
                if !is_more(rt.current_cqe_flags()) {
                    self.state = AcceptStreamState::Done;
                }
                Progress::Ready(Some(result as u32))
            },
            AcceptStreamState::Done => Progress::Ready(None),
        }
    }
}

/// Once a stream of connections has ended, it stays so.
pub proof fn law_accept_stream_stays_ended<F>(
    s0: AcceptStream,
    s1: AcceptStream,
    s2: AcceptStream,
    rt0: Runtime<F>,
    rt1: Runtime<F>,
    rt2: Runtime<F>,
    rt3: Runtime<F>,
    first: Progress<Option<u32>>,
    second: Progress<Option<u32>>,
)
    requires
        <AcceptStream as Stream<F>>::poll_ensures(s0, s1, rt0, rt1, first),
        <AcceptStream as Stream<F>>::poll_ensures(s1, s2, rt2, rt3, second),
        first == Progress::Ready(None::<u32>),
    ensures
        second == Progress::Ready(None::<u32>),
        rt3@ == rt2@,
{
}

/// The last connection of a stream is delivered, and the end comes with the poll
/// after it.
pub proof fn law_accept_stream_delivers_the_last<F>(
    s0: AcceptStream,
    s1: AcceptStream,
    s2: AcceptStream,
    rt0: Runtime<F>,
    rt1: Runtime<F>,
    rt2: Runtime<F>,
    rt3: Runtime<F>,
    first: Progress<Option<u32>>,
    second: Progress<Option<u32>>,
)
    requires
        <AcceptStream as Stream<F>>::poll_ensures(s0, s1, rt0, rt1, first),
        <AcceptStream as Stream<F>>::poll_ensures(s1, s2, rt2, rt3, second),
        s0.state is Running,
        rt0@.current().cause == Cause::Completion,
        rt0@.current().result >= 0,
        !crate::completion::more_to_come(rt0@.current().flags),
    ensures
        first == Progress::Ready(Some(rt0@.current().result as u32)),
        second == Progress::Ready(None::<u32>),
{
}

} // verus!
