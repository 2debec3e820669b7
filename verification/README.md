# tonmon

The verified core of a service that watches TON addresses for WebSocket clients, and the program
around it. A client subscribes to an address; when a transaction of the address is found, the
service gets its trace with all that is below it, keeps one transaction of each account in it, and
sends the trace to everyone who is subscribed.

- `src/` is the library. Verus proves the contract of every function, except for the few wrappers
  around calls of outside crates and the standard library: their contracts are believed, and the two
  that only change the type of a JSON document have none.
  - `subscription/`: who is subscribed to what, what goes to whom, and how the watched addresses
    follow the subscriptions.
  - `ton/`: the watched addresses, reading and keeping traces, addresses, and when an attempt to
    reach the network is repeated.
  - `websocket/`: the messages, and what follows from what a client sends.
  - `reports.rs`, `settings.rs`: the answers over plain HTTP, and the settings.
  - `utils/`: JSON documents, texts, identifiers and errors.
- `app/` is the program: sockets, HTTP, timers and tasks. It performs what the library decides and
  hands back what came of it.
- `tests/` runs the library with the outside crates linked.

What is believed of `dashmap`, `serde_json`, `tonlib-core`, `hex`, `uuid` and the standard library
is said in the doc comment of each wrapper, under "Trusted".

Functions named `law_...` state what holds of several operations together: that each subscriber
gets a trace once, that dropping a subscription undoes making it, that a closed connection leaves
no subscription behind, that no transaction is announced by two checks, and the like. One of them
states a limit: a subscription asks for its address each time, and only the last one gives it up, so
an address that several are subscribed to at once stays watched when nobody is left.
