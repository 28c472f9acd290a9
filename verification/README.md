# copybot_hot

The rules of a bot that copies the trades of leaders on a prediction market: what the
books say, which fill came first, what a lane may buy and sell, what it has realised, when
it stops, and how orders are signed, raced, rested and cancelled.

Amounts are integers. Prices, shares and dollars count millionths; what a lane has paid
or realised counts units of twelve places. `units::Qty` is an amount as it arrives from
outside, where it may be no number at all, and `units::Reading` is one where it matters
which of those values it is. Times are given to every function that needs
one; nothing in the library reads a clock, a file or a socket.

- `src/` is the library, with a contract on every function. `table` is the map that the
  other modules use, `text`, `units`, `numerals`, `words` and `big` are how texts and numbers
  are written and read, `json` is the value that frames, rows and answers come as, `journal`
  reads files of one record a line, `digests` holds the hashes and signatures.
- `tests/` has one file a module.
- `app/` is what surrounds the library: clocks, files, sockets and requests.
