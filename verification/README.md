# sqlite_transport

A database file as a queue: a send inserts a row, a receive takes and marks the
oldest unclaimed rows in one transaction, and the row is the claim.

The library in `src/` is written in Verus and makes the decisions: which
statement is run and what is bound to it, in which order a call goes about its
work, what a row's origin is and which row an origin names, in which order rows
are handed out, whether an engine's error is worth a second try, and what a
claim comes to. How a path stands in a URI, how a failure of the file system is
judged and what a round reports of its arrivals come from the transports around
it. It touches no file. A call is a `Session`: it names a piece of
work, is told what came of it, and goes on until it is finished.

- `text`: decimal numbers, and the mark that parts an origin
- `error`: failures, and how the engine's errors are judged
- `arrived`: rows, the Streams that they carry, and their order
- `statement`: the SQL of the one table
- `place`: the directory that a file lies in
- `session`: a call, step by step
- `claim`: the claim on a row
- `transport`: the queue itself, and the rounds of a loopback
- `table`: the table as the laws speak of it
- `laws`: what is proved of the queue as a whole: how calls start (`starts`),
  what a call changes and how the calls of several nodes fall in line (`calls`),
  the order of Streams (`order`), what becomes of rows (`rows`), what several
  calls give together (`takes`), and rounds (`rounds`)

`app/` does the work of the sessions on real files. `tests/` does it on the
engine in memory.
