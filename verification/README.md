# tokad

A node of a distributed hash table in the manner of Kademlia, with a terminal in front of it. What
a node decides and computes is verified with Verus; what it does to the outside world is ordinary
Rust around it.

- `src/` is the verified library. `hash`, `bytes`, `routing` and `order` hold the identifier space
  and its metric. `proto` and `data` hold the messages and the checks on them, `clock` instants,
  `text` and `wrap` the texts that are shown. `tokad`, `table` and `keeping` hold the state of a
  node: its routing table and the values that it keeps. `lookup` is the search for nodes and
  values and `course` what holds of a whole one, `sending` hands values on, `server` holds the
  answers to other nodes, `client` what is sent to them and learned of them, `error` what can go
  wrong. `command`, `console`, `tui` and `screen` are the user interface without the terminal.
- `app/` is the program: connections, timers, the terminal.
- `tests/` runs the library.

Nothing in the library reads an address, a socket or a terminal. Where the outside world decides,
a function takes the outcome as an argument: whether a text is an IP address, whether a node
answered, what a location resolves to. The clock, random numbers, BLAKE3 digests, the bounded
queue of the console, the division of the screen and the width of typed text come from outside
through small functions whose contracts are trusted; each says in its comment what is trusted.
