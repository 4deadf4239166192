# sync_server

A server that keeps a number of virtual guests in step: it waits for them on
a UNIX socket, starts them together, waits until each has spent its budget,
and relays the requests of a control shell (stop, start, snapshot, fence,
...) to every guest.

- `src/` is the verified library:
  - `server/circular_buffer.rs`: the fixed-size ring buffer that holds the
    messages for the guests, with its abstract state;
    `server/buffer_laws.rs`: what sequences of pushes and reads do, among
    them that each reader receives every accepted value once, in push order.
  - `server/guest.rs`: the round of a guest's thread, as a step function.
  - `server/message.rs`: the requests of the shell and the messages of the
    guests, and what the server does with each request.
  - `server/frame.rs`: the frames written to and read from the guests.
  - `commands/`: command definitions, argument types and their reading.
  - `control.rs`: the commands of the control shell and their messages.
  - `shell/`: the first, line-based control shell; `text.rs`: trimming and
    splitting lines.
- `app/` holds the program: argument handling, logging, sockets, threads and
  the terminal.
