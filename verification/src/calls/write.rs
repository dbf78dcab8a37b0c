//! Writing a slot of the write pool to one connection or to many.

use crate::buf_pool::WBuffer;
use crate::completion::Cause;
use crate::model::RuntimeView;
use crate::runtime::Runtime;
use crate::sqe::Sqe;
use crate::stream::Progress;
use crate::user_data::wbuf_write_udata;
use vstd::prelude::*;

verus! {

/// The wait for a write.
#[derive(Clone, Copy, Debug, PartialEq, Eq, Structural)]
pub enum WriteFuture {
    /// The request is still to be made.
    Init { fd: u32, buf_id: u16, len: u32 },
    /// The completion is awaited.
    Pending,
}

/// Writes `len` bytes of the write slot number `buf_id` to a connection.
pub fn write(fd: u32, buf_id: u16, len: u32) -> (f: WriteFuture)
    ensures
        f == (WriteFuture::Init { fd, buf_id, len }),
{
    WriteFuture::Init { fd, buf_id, len }
}

impl WriteFuture {
    /// The first poll makes the request, the next one takes the number of bytes
    /// written, or a negative error number.
    pub fn poll<F>(&mut self, rt: &mut Runtime<F>) -> (r: Progress<i32>)
        requires
            old(rt).wf(),
            old(rt)@.polling(),
            *old(self) matches WriteFuture::Init { fd, buf_id, len } ==> old(rt)@.may_submit(1)
                && buf_id < old(rt)@.pool.rc.len(),
        ensures
            final(rt).wf(),
            *final(self) is Pending,
            match *old(self) {
                WriteFuture::Init { fd, buf_id, len } => {
                    &&& r is Pending
                    &&& final(rt)@ == old(rt)@.submitted(
                        Sqe::WriteFixed {
                            fd,
                            addr: old(rt)@.pool.address(
                                1,
                                old(rt)@.pool.read_count + buf_id,
                            ) as usize,
                            len,
                            buf_index: (old(rt)@.pool.read_count + buf_id) as u16,
                            user_data: old(rt)@.current_udata(false, 0),
                        },
                        false,
                    )
                },
                WriteFuture::Pending => {
                    &&& final(rt)@ == old(rt)@
                    &&& r == (if old(rt)@.current().cause == Cause::Completion {
                        Progress::Ready(old(rt)@.current().result)
                    } else {
                        Progress::Pending
                    })
                },
            },
    {
        match *self {
            WriteFuture::Init { fd, buf_id, len } => {
                rt.submit_write(fd, buf_id, len);
                *self = WriteFuture::Pending;
                Progress::Pending
            },
            WriteFuture::Pending => if rt.is_completion() {
                Progress::Ready(rt.current_result())
            } else {
                Progress::Pending
            },
        }
    }
}

/// A write that did not go through as a whole.
#[derive(Clone, Copy, Debug, PartialEq, Eq, Structural)]
pub enum WriteResult {
    /// The write to this connection has failed.
    Failed { fd: u32 },
    /// Another number of bytes was written than asked for; for a failed write it
    /// is the error number, read as unsigned.
    Partial { fd: u32, len: u32 },
}

/// What is reported about a write of `len` bytes to `fd` that gave `result`.
pub open spec fn report(fd: u32, len: u32, result: i32) -> Seq<WriteResult> {
    let failed = if result < 0 {
        seq![WriteResult::Failed { fd }]
    } else {
        Seq::empty()
    };
    if result as u32 != len {
        failed.push(WriteResult::Partial { fd, len: result as u32 })
    } else {
        failed
    }
}

/// The mark of a connection whose write has completed.
pub const ANSWERED: u32 = u32::MAX;

/// The wait for the writes of one slot to many connections.
pub enum WriteMultipleFuture {
    /// The requests are still to be made.
    Init { fds: Vec<u32>, buffer: WBuffer<1>, len: u32 },
    /// `in_flight_count` completions are awaited. The slot is held as long as the
    /// future is there, also when no completion is awaited any more.
    Pending {
        in_flight_count: u16,
        fds: Vec<u32>,
        faileds: Vec<WriteResult>,
        len: u32,
        buffer: WBuffer<1>,
    },
    /// What stands here while a poll is under way.
    Poisoned,
}

/// Writes `len` bytes of one slot to every connection in `fds`.
pub fn write_multiple(fds: Vec<u32>, buffer: WBuffer<1>, len: u32) -> (f: WriteMultipleFuture)
    ensures
        f == (WriteMultipleFuture::Init { fds, buffer, len }),
{
    WriteMultipleFuture::Init { fds, buffer, len }
}

impl WBuffer<1> {
    /// Writes `len` bytes of the slot to every connection in `fds`.
    pub fn write_multiple(self, fds: Vec<u32>, len: u32) -> (f: WriteMultipleFuture)
        ensures
            f == (WriteMultipleFuture::Init { fds, buffer: self, len }),
    {
        write_multiple(fds, self, len)
    }

    /// Writes `len` bytes of the slot to a connection without waiting for it. The
    /// reference stays counted until the completion has come.
    pub fn submit<F>(self, rt: &mut Runtime<F>, fd_idx: u32, len: u32)
        requires
            old(rt).wf(),
            old(rt)@.pool.in_use(self@),
        ensures
            final(rt).wf(),
            final(rt)@ == (RuntimeView {
                pending: old(rt)@.pending.push(
                    Sqe::WriteFixed {
                        fd: fd_idx,
                        addr: old(rt)@.pool.address(1, self@ as int) as usize,
                        len,
                        buf_index: self@ as u16,
                        user_data: (crate::user_data::INTERNAL_FLAG + self@) as u64,
                    },
                ),
                ..old(rt)@
            }),
    {
        let user_data: u64 = wbuf_write_udata(self.slot_index());
        let sqe = self.write(rt.buffer(), fd_idx, len, user_data);
        rt.sqe_queue_push(sqe);
    }
}

impl WriteMultipleFuture {
    /// When the future may be polled: there is room for the requests; or the
    /// completion at hand answers a request that was not answered before.
    pub open spec fn poll_requires<F>(self, v: RuntimeView<F>) -> bool {
        match self {
            WriteMultipleFuture::Init { fds, buffer, len } => {
                &&& v.may_submit(fds@.len())
                &&& v.pool.in_use(buffer@)
            },
            WriteMultipleFuture::Pending { in_flight_count, fds, faileds, len, buffer } => {
                &&& v.polling()
                &&& in_flight_count > 0
                &&& v.current().cause == Cause::Completion ==> {
                    &&& v.current().response_gen < fds@.len()
                    &&& fds@[v.current().response_gen as int] != ANSWERED
                }
            },
            WriteMultipleFuture::Poisoned => false,
        }
    }

    /// The count of the awaited completions is right: as many as connections that
    /// have not answered.
    pub open spec fn counts_open(self) -> bool {
        match self {
            WriteMultipleFuture::Init { fds, .. } => !fds@.contains(ANSWERED),
            WriteMultipleFuture::Pending { in_flight_count, fds, .. } => in_flight_count
                == unanswered(fds@),
            WriteMultipleFuture::Poisoned => true,
        }
    }

    /// The first poll makes the requests. Every later one takes the result of
    /// one of them; the last gives the reports on all writes that did not go
    /// through, in the order of their completions. The slot stays with the future.
    pub fn poll<F>(&mut self, rt: &mut Runtime<F>) -> (r: Progress<Vec<WriteResult>>)
        requires
            old(rt).wf(),
            old(self).poll_requires(old(rt)@),
        ensures
            final(rt).wf(),
            match *old(self) {
                WriteMultipleFuture::Init { fds, buffer, len } => {
                    &&& r is Pending
                    &&& final(rt)@ == old(rt)@.submitted_batch(
                        crate::runtime::batch_writes(old(rt)@, fds@, buffer@, len),
                    )
                    &&& *final(self) matches WriteMultipleFuture::Pending {
                        in_flight_count,
                        fds: fds1,
                        faileds,
                        len: len1,
                        buffer: buffer1,
                    }
                    &&& in_flight_count == fds@.len()
                    &&& fds1 == fds
                    &&& faileds@ == Seq::<WriteResult>::empty()
                    &&& len1 == len
                    &&& buffer1 == buffer
                },
                WriteMultipleFuture::Pending { in_flight_count, fds, faileds, len, buffer } => {
                    let g = old(rt)@.current().response_gen as int;
                    let reports = faileds@ + report(fds@[g], len, old(rt)@.current().result);
                    if old(rt)@.current().cause != Cause::Completion {
                        &&& r is Pending
                        &&& final(rt)@ == old(rt)@
                        &&& *final(self) == *old(self)
                    } else {
                        &&& *final(self) matches WriteMultipleFuture::Pending {
                            in_flight_count: count1,
                            fds: fds1,
                            faileds: faileds1,
                            len: len1,
                            buffer: buffer1,
                        }
                        &&& count1 == in_flight_count - 1
                        &&& fds1@ == fds@.update(g, ANSWERED)
                        &&& len1 == len
                        &&& buffer1 == buffer
                        &&& if count1 == 0 {
                            &&& r matches Progress::Ready(all)
                            &&& all@ == reports
                            &&& faileds1@ == Seq::<WriteResult>::empty()
                            &&& final(rt)@ == old(rt)@.batch_finished()
                        } else {
                            &&& r is Pending
                            &&& faileds1@ == reports
                            &&& final(rt)@ == old(rt)@
                        }
                    }
                },
                WriteMultipleFuture::Poisoned => true,
            },
            old(self).counts_open() ==> final(self).counts_open(),
            final(self).slot() == old(self).slot(),
            final(rt)@.pool == old(rt)@.pool,
    {
        let mut state = WriteMultipleFuture::Poisoned;
        std::mem::swap(self, &mut state);
        match state {
            WriteMultipleFuture::Init { fds, buffer, len } => {
                proof {
                    if !fds@.contains(ANSWERED) {
                        law_no_answer_at_first(fds@);
                    }
                }
                rt.submit_multiple_write(&fds, &buffer, len);
                *self = WriteMultipleFuture::Pending {
                    in_flight_count: fds.len() as u16,
                    fds,
                    faileds: Vec::new(),
                    len,
                    buffer,
                };
                Progress::Pending
            },
            WriteMultipleFuture::Pending { in_flight_count, fds, faileds, len, buffer } => {
                if !rt.is_completion() {
                    *self = WriteMultipleFuture::Pending {
                        in_flight_count,
                        fds,
                        faileds,
                        len,
                        buffer,
                    };
                    return Progress::Pending;
                }
                let mut fds = fds;
                let mut faileds = faileds;
                let ghost before = faileds@;
                let in_flight_count: u16 = in_flight_count - 1;
                let info = rt.current_task();
                let g: usize = info.response_gen as usize;
                let fd: u32 = fds[g];
                proof {
                    law_answers_count_down(fds@, g as int);
                }
                fds.set(g, ANSWERED);
                if info.result < 0 {
                    faileds.push(WriteResult::Failed { fd });
                }
                if info.result as u32 != len {
                    faileds.push(WriteResult::Partial { fd, len: info.result as u32 });
                }
                assert(faileds@ =~= before + report(fd, len, info.result));
                if in_flight_count == 0 {
                    rt.advance_syscall_nb();
                    *self = WriteMultipleFuture::Pending {
                        in_flight_count,
                        fds,
                        faileds: Vec::new(),
                        len,
                        buffer,
                    };
                    return Progress::Ready(faileds);
                }
                *self = WriteMultipleFuture::Pending {
                    in_flight_count,
                    fds,
                    faileds,
                    len,
                    buffer,
                };
                Progress::Pending
            },
            WriteMultipleFuture::Poisoned => Progress::Ready(Vec::new()),
        }
    }

    /// Ends the life of the future; the slot that is handed out is to be released.
    pub fn into_buffer(self) -> (b: Option<WBuffer<1>>)
        ensures
            b == (match self {
                WriteMultipleFuture::Init { buffer, .. } => Some(buffer),
                WriteMultipleFuture::Pending { buffer, .. } => Some(buffer),
                WriteMultipleFuture::Poisoned => None,
            }),
    {
        match self {
            WriteMultipleFuture::Init { buffer, .. } => Some(buffer),
            WriteMultipleFuture::Pending { buffer, .. } => Some(buffer),
            WriteMultipleFuture::Poisoned => None,
        }
    }
}

impl WriteMultipleFuture {
    /// The slot that the future holds.
    pub open spec fn slot(self) -> Option<u32> {
        match self {
            WriteMultipleFuture::Init { buffer, .. } => Some(buffer@),
            WriteMultipleFuture::Pending { buffer, .. } => Some(buffer@),
            WriteMultipleFuture::Poisoned => None,
        }
    }
}

/// The number of connections that have not answered yet.
pub open spec fn unanswered(fds: Seq<u32>) -> nat
    decreases fds.len(),
{
    if fds.len() == 0 {
        0
    } else {
        unanswered(fds.drop_last()) + (if fds.last() == ANSWERED {
            0nat
        } else {
            1
        })
    }
}

/// Every answer makes the number of open ones smaller by one.
pub proof fn law_answers_count_down(fds: Seq<u32>, g: int)
    requires
        0 <= g < fds.len(),
        fds[g] != ANSWERED,
    ensures
        unanswered(fds) == unanswered(fds.update(g, ANSWERED)) + 1,
    decreases fds.len(),
{
    let after = fds.update(g, ANSWERED);
    if g < fds.len() - 1 {
        law_answers_count_down(fds.drop_last(), g);
        assert(after.drop_last() =~= fds.drop_last().update(g, ANSWERED));
    } else {
        assert(after.drop_last() =~= fds.drop_last());
    }
}

/// At first every connection is open, if none has the index that serves as mark.
pub proof fn law_no_answer_at_first(fds: Seq<u32>)
    requires
        !fds.contains(ANSWERED),
    ensures
        unanswered(fds) == fds.len(),
    decreases fds.len(),
{
    if fds.len() > 0 {
        assert(fds[fds.len() - 1] != ANSWERED);
        assert forall|x: u32| #[trigger] fds.drop_last().contains(x) implies fds.contains(x) by {
            let i = fds.drop_last().index_of(x);
            assert(fds[i] == x);
        }
        law_no_answer_at_first(fds.drop_last());
    }
}

/// The connections after those at the positions `answers` have answered, one
/// after the other.
pub open spec fn after_answers(fds: Seq<u32>, answers: Seq<int>) -> Seq<u32>
    decreases answers.len(),
{
    if answers.len() == 0 {
        fds
    } else {
        after_answers(fds, answers.drop_last()).update(answers.last(), ANSWERED)
    }
}

/// Whatever the order in which the connections answer, every answer finds the
/// connection that its request was made to, a connection that has answered is
/// marked, and the wait is over with the answer that comes last, not before.
pub proof fn law_fan_out_takes_every_answer_once(fds: Seq<u32>, answers: Seq<int>)
    requires
        !fds.contains(ANSWERED),
        answers.no_duplicates(),
        forall|i: int| 0 <= i < answers.len() ==> 0 <= #[trigger] answers[i] < fds.len(),
    ensures
        after_answers(fds, answers).len() == fds.len(),
        unanswered(after_answers(fds, answers)) == fds.len() - answers.len(),
        forall|g: int|
            0 <= g < fds.len() ==> #[trigger] after_answers(fds, answers)[g] == (
            if answers.contains(g) {
                ANSWERED
            } else {
                fds[g]
            }),
    decreases answers.len(),
{
    if answers.len() == 0 {
        law_no_answer_at_first(fds);
    } else {
        let rest = answers.drop_last();
        let g = answers.last();
        assert(rest.no_duplicates());
        law_fan_out_takes_every_answer_once(fds, rest);
        assert(!rest.contains(g)) by {
            if rest.contains(g) {
                let i = rest.index_of(g);
                assert(answers[i] == answers[answers.len() - 1]);
            }
        }
        let before = after_answers(fds, rest);
        assert(before[g] == fds[g]);
        assert(fds.contains(fds[g]));
        law_answers_count_down(before, g);
        assert forall|h: int| 0 <= h < fds.len() implies #[trigger] after_answers(fds, answers)[h]
            == (if answers.contains(h) {
            ANSWERED
        } else {
            fds[h]
        }) by {
            assert(answers.contains(g)) by {
                assert(answers[answers.len() - 1] == g);
            }
            if rest.contains(h) {
                let i = rest.index_of(h);
                assert(answers[i] == h);
            }
            if answers.contains(h) && h != g {
                let i = answers.index_of(h);
                assert(rest[i] == h);
            }
            assert(before[h] == (if rest.contains(h) {
                ANSWERED
            } else {
                fds[h]
            }));
        }
    }
}

/// A write is reported on exactly if it did not write `len` bytes, and as failed
/// exactly if its result is an error number.
pub proof fn law_report_is_empty_on_success(fd: u32, len: u32, result: i32)
    ensures
        report(fd, len, result).len() == 0 <==> result == len,
        result < 0 <==> report(fd, len, result).contains(WriteResult::Failed { fd }),
{
    let reports = report(fd, len, result);
    assert(result < 0 ==> result as u32 == result + 0x1_0000_0000) by (bit_vector);
    if result < 0 {
        assert(reports[0] == WriteResult::Failed { fd });
    } else if reports.contains(WriteResult::Failed { fd }) {
        let i = reports.index_of(WriteResult::Failed { fd });
        assert(reports[i] == WriteResult::Failed { fd });
    }
}

} // verus!
