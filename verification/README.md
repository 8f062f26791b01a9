# rushtle

A tunnel for TCP connections, DNS queries and datagrams. A client redirects traffic for
some networks to itself, and forwards it in ssnet frames over the standard input and output
of a remote command; a server at the other end opens the connections.

* `src/` is the verified library. It decides and does no input or output: frames, payloads
  and configuration are bytes and text, and everything that takes turns with the outside
  world is a state machine that says what to do next and is told what came of it.
* `tests/` runs the library on concrete values.
* `app/` is the program around it: sockets, processes, signals, the command line, logs.

Each function states in its contract what it returns, over mathematical models (`*View`
types, `Seq`, `Map`). What holds across functions stands as public proof functions, next to
what they are about: frames read back as they were written, streams arrive byte for byte,
the bootstrap is taken off the stream and no more, rules that were installed are removed.

Two facts about the standard library are taken on trust, in `src/text.rs`: what
`String::push` does, and which bytes `str::from_utf8` accepts.
