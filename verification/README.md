# stress_client

A load generator for a game server: it logs in many simulated players, lets each
walk at random, and shows and logs how long the server takes to answer.

- `src/` is the library, verified with Verus: packet layouts, the cutting of a byte
  stream into packets, the bookkeeping of delays, the rule that admits and drops
  players, the roster, the reports and the tick clock.
- `app/` is the program around it: command line, sockets, terminal and log files.
- `tests/` run the library on concrete values.

A move is stamped with the low 32 bits of the time in milliseconds since 1970. The
server sends the stamp back with the new position, and the difference to the clock is
the delay. On the wire integers are little-endian, and the first byte of a packet is
its size.
