# socket_forward

A TCP greeting server that, when it is asked to shut down, hands each open
client connection over to a sibling server on the same port by passing the
socket's file descriptor across a Unix socket. A client connects and prints
the greetings it receives; after a hand-over it keeps receiving them from the
sibling.

- `src/` is the verified library (Verus): socket file naming and parsing,
  choice of a fresh server id, discovery of sibling sockets in the socket
  folder, the round-robin hand-over plan (a refused connection is offered to
  the next sibling), the registry of saved connections, the acknowledgment check,
  connection ids, and the decisions of the server's tasks.
- `app/` is the program around it: command line, sockets, signals, the
  asynchronous tasks that perform the I/O the library decides on.
- `tests/` exercises the library on concrete values.

Run `cargo run -- server` in more than one terminal, connect a client with
`cargo run -- client -t 127.0.0.1:3000`, then stop the server the client is
connected to with ctrl-c.
