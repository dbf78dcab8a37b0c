//! The calls that a task can wait for. Each one is a state machine that is polled
//! with the runtime at hand: the first poll makes the request, a later one takes
//! the result of the completion. A poll that comes for another reason than a
//! completion finds nothing to take, and the call goes on waiting.

pub mod accept;
pub mod commit;
pub mod read;
pub mod socket;
pub mod write;

use vstd::prelude::*;

verus! {

/// A call has failed with this negative error number.
#[derive(Clone, Copy, Debug, PartialEq, Eq, Structural)]
pub struct CallError {
    pub code: i32,
}

/// The index of a registered file, or the error, in the result of a completion.
pub open spec fn file_index_of(result: i32) -> Result<u32, CallError> {
    if result < 0 {
        Err(CallError { code: result })
    } else {
        Ok(result as u32)
    }
}

} // verus!
