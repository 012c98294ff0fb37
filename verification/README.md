# my_tcp

A transport protocol carried over UDP datagrams: connection setup,
sliding send and receive windows bounded by their buffers, acknowledgements
that advertise the room left in the receive window, and graceful or abortive
teardown.  A timer table for retransmission timeouts is provided; the socket
manager does not yet arm timers, retransmit lost packets, or limit its
sending by the window its peer advertises.

- `src/` is the verified library (module `transport`):
  - `packet`: the transport packet and its wire format, with both round trips
    of packing and unpacking proved;
  - `socket`: addresses, socket ids and socket states;
  - `udp_utils`: the packet commands the manager hands to the UDP sender;
  - `manager`: the socket manager as a state machine: each task (a socket
    call, a received packet, a scheduled send) maps the sockets to new
    sockets and a list of actions, stated exactly over a model of the
    sockets and proved to keep every socket's windows consistent and every
    socket's local port allocated; a port is freed when its last socket
    leaves;
  - `timer`: the table of retransmission timers;
  - `theorems`: properties that span several tasks (connection setup, data
    delivery, segmentation, closing, stale acknowledgements, port
    ownership).
- `app/` is the node program: threads, channels, UDP sockets and the
  command line; it runs the manager's task loop and carries out its actions.
- `tests/` exercises the library on concrete values.
