# sharded_server

A sharded TCP server that answers Fibonacci requests, and a client that
benchmarks it. Each shard runs on a core of its own and keeps a cache of its
own. A request goes to the one shard that its number belongs to, and the whole
connection moves there if need be.

- `src/` holds, with proofs: which shard a number belongs to, how requests are
  read and answers are written, what a shard caches and what it drops, what
  becomes of a connection after each outcome, and what the benchmark adds up.
- `app/` does the work that touches the outside world: sockets, threads, the
  executors, the clock and the floating point figures of the reports. It also
  settles two small things by itself: the server goes on after a failed accept,
  and the client's progress report stops once the time of the benchmark is up.
- `tests/` runs the library on concrete values.

Each shard's cache is an `lru::LruCache`: when it is full, the number that was
not asked for for the longest time goes. What the proofs take for granted about
it, about the random numbers of `rand`, about `String::from_utf8_lossy` and about
the clock is written down next to the calls.

    sharded_server server
    sharded_server client

Then, for a request by hand:

    $ nc localhost 10000
    42
    Reply from shard 2: received value 42 and fibonacci 267914296
