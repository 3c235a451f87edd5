# async_server

A small HTTP server built on a hand-written task runtime. Every server in it
reads a request up to its blank line (`\r\n\r\n`) and answers with a fixed
`Hello world!` response.

- `src/` is the verified library:
  - `http`: detecting the end of a request, and the response bytes (the
    busy-loop server's greeting is capitalized);
  - `connection`: one connection as a state machine (register, read,
    write, flush), with its transition table for each way a server drives
    it and laws over sequences of events;
  - `listener`: the listening task as a state machine;
  - `pool`: removing finished connections from a list by index;
  - `runtime`: wakers, the `Future` trait, the task context and the
    first-in first-out scheduler, with what each poll does stated over
    the tasks' own `poll_spec`; a task is dropped once neither the run
    queue nor a waker registered with the reactor refers to it;
  - `reactor`: which task a ready file descriptor wakes;
  - `select`: racing two futures;
  - `blocking`: the state shared with a thread doing blocking work.
- `app/` is the program: sockets, epoll, signals, threads and tokio, each
  driving the library's state machines.
- `tests/` exercises the library on concrete values.
