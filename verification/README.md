# ipv8plus

An overlay network in which every node has a 16-byte address, a signed
certificate and a tunnel to its peers, written in Rust and verified with Verus.

The library under `src/` holds the rules of the network: each executable
function has a contract, and what holds of several functions together is stated
as a public proof function. What it takes from outside (signatures, hashes,
base64, JSON texts, random numbers, an LRU cache, a hash map, a small vector)
stands behind a few trusted functions, whose doc comments say what is claimed
of each.

| module     | contents |
|------------|----------|
| `codec`    | headers on the wire, extension headers, fragmentation and reassembly |
| `compat`   | adapting IP packets to the tunnel: hop counts, segment sizes, checksums, ICMP reports |
| `fec`      | rebuilding a lost frame from a parity frame |
| `firewall` | rules on protocol, port, source and direction, with forwarding |
| `cert`, `pop` | certificates, and proofs that a key is held |
| `zone`     | a zone server: it lets nodes in, rotates keys and issues certificates |
| `resolver` | where a node is: registrations, candidate entries, caches, stores, rows of a table |
| `ans`      | which agent serves: cards, names, capabilities, leases |
| `node`     | a node: arguments, the ways of a packet, roaming, slots for registered I/O, enrolment |
| `messages`, `rpc` | the messages of the services and the errors that answer them |
| `ffi`, `cli` | values at the C boundary, arguments of the service programs |
| `crypto`, `table`, `text`, `wire` | what the others share |

Times are handed in as integers, and no function of the library reads a clock,
a file or a socket: the program under `app/` does, and calls the library on
what it read. `tests/` runs the library with the outside crates linked.
