# crypto-gotham-relay

A relay of the Gotham mixnet, with its decisions verified by Verus.

A relay receives packets of a fixed size, peels one layer of encryption off each
and forwards it after a delay. This project is the relay's logic and the sender's,
and the program that runs them.

## Layout

- `src/` is the library. Every function in it has a contract. Verus proves it, except
  for the short functions around calls into other crates, whose contracts it
  believes (see below). The promises that hold over several calls stand beside them
  as proof functions (`replay::laws`, `rate_limit::laws`, `process::laws`,
  `client::laws`, and in the other modules).
- `tests/` runs the library on concrete values.
- `app/` is the program `gotham-relay`: sockets, files, HTTP, the command line and
  the glue to the protocol core (`crypto_gotham`, `crypto_gotham_directory`), which
  is a separate crate. It takes no decisions of its own.

## What the library leaves to its caller

The library performs no I/O and holds no codec of its own. What only the protocol
core can compute is handed in as a function: parsing and opening a header, peeling
and wrapping a layer, sealing an envelope, checking a possession proof. The
contracts say what those functions are handed and what is done with what they
return. Random draws and readings from the network are handed in as values.

A few calls into other crates stand in `src/` behind items that Verus believes
without proof: clocks and durations of `std`, X25519 (`x25519-dalek`), hexadecimal
(`hex`), JSON values (`serde_json`), Noise handshakes and links (`snow`) and erasing
keys (`zeroize`). Each says in its doc comment what it claims.

## Units

Rates are millionths of a packet per second. Times inside contracts are
nanoseconds.
