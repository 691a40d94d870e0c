# p2pssh

A peer-to-peer SSH tunnel over [iroh](https://iroh.computer/), with its rules
verified by Verus.

- `src/` is the verified library. It holds the command line, key files and peer
  IDs, the rules for letting peers in, the set-up of endpoints, the limit on
  connections, and the forwarding of streams. Calls into `lexopt` and `iroh` stand
  behind small wrappers, whose contracts say what is relied on.
- `app/` is the program around it: files, sockets, signals and logging. It does
  what the library says.
- `tests/` runs the library, with the real `lexopt` and `iroh`.

The proof functions whose names start with `law_` state what holds of the library
as a whole, for example that a server with a file of authorized keys lets in the
peers listed there and no others, that a peer ID names the peer it belongs to, or
that forwarding neither loses nor reorders anything.
