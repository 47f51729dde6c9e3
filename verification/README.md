# ap-kcp

The verified core of a tunnel that carries TCP connections over KCP, and the program around it.

- `src/udp.rs`: the UDP listener, a state machine that sorts datagrams by remote address into
  sessions, and the laws that it keeps.
- `src/history.rs`: the laws of the listener over whole runs: which datagrams end up in which
  session.
- `src/sessions.rs`: the table of sessions behind it.
- `src/channel.rs`: what is taken for granted about the packet channels of `async_channel`.
- `src/server.rs`: which sessions a server lets go when a new one comes.
- `src/tunnel.rs`: the order in which connections are taken, carried and shut down.
- `src/options.rs`: verbosity, cipher, mode and the choice of a remote address.
- `app/`: sockets, tasks and the command line. The KCP transport itself is supplied by an
  implementation of `transport::Transport`.
