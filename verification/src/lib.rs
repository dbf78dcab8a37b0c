//! The decision-making core of a single-threaded asynchronous runtime built on
//! `io_uring`: task records and their reference counts, the slab that holds
//! them, the buffer pool, the submission queue entries and the event loop, each
//! as a state machine with a verified contract.

pub mod buf_pool;
pub mod buf_ring;
pub mod calls;
pub mod completion;
pub mod laws;
pub mod ledger;
pub mod model;
pub mod refs;
pub mod runtime;
pub mod sqe;
pub mod stream;
pub mod task;
pub mod task_slab;
pub mod turns;
pub mod user_data;

pub use calls::accept::{accept, accept_stream};
pub use calls::read::{read, read_stream};
pub use runtime::block_on;
