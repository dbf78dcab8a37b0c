# onlyio

The decision-making core of a single-threaded asynchronous runtime on `io_uring`,
verified with Verus.

The library holds tasks, buffers and queues, and says what is to be done next.
Polling a future, entering the kernel and sharing memory with it are left to the
code around it in `app/`, which asks the library before and tells it afterwards.

| Module | What it holds |
|---|---|
| `user_data` | the 64-bit word that travels with every request |
| `task`, `task_slab` | task records with their reference counts, and the slab they stand in |
| `buf_pool`, `buf_ring` | read and write slots, and the ring that lends read slots to the kernel |
| `sqe`, `completion` | requests and completions, and the entries of the `io-uring` crate behind them |
| `model` | the state of the runtime as a mathematical value, and its transitions |
| `runtime` | the runtime itself: every operation is one transition of the model |
| `turns` | what holds over several steps of the event loop |
| `ledger` | the account of references over any run of events |
| `stream`, `calls` | accepting, reading, writing, committing and connecting, as state machines |

A turn of the event loop:

1. poll the woken tasks until none is left, and take in the completions that waited
   for a committed answer to be written;
2. poll once every task that had yielded before;
3. remove the tasks without a reference, and stop if no task is left;
4. submit the requests and enter the kernel;
5. take in the completions.

```text
user_data: [ 32 bits: task_idx ][ 16 bits: syscall_nb ][ 16 bits: response_gen ]
```

Requires Linux 5.19 or later to run.
