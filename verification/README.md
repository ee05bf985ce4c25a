# beanstalkd_rs

A client of [beanstalkd](https://beanstalkd.github.io/), a work queue, whose protocol is
verified with Verus.

- `src/` is the protocol: the bytes of every request, the meaning of every reply, and the
  exchange of the two as a state machine that says what to write or read next. Every function
  is proved to meet its contract. `src/laws.rs` states what holds of the protocol as a whole.
- `app/` carries the exchanges out over TCP and Unix sockets: `Connection` has one method for
  each command.
- `tests/` runs the protocol on recorded exchanges.

A server that sends a line which starts like an answer and then breaks off, such as `KICKED`
without a number, is not answered for: `exchange::accepts` tells such replies from the others.
