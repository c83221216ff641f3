# ipfs_offchain

IPFS requests for the offchain workers of a blockchain node, verified with Verus.

- `src/` is the library. It keeps track of requests between the API that offchain
  workers call and the worker that runs the requests, offers handles on requests to
  runtime code, and plans the connections that a list of wanted peers asks for. It
  performs no input or output: what happens outside is an argument, and what has to
  be sent is left in an outbox.
- `app/` connects the library to channels, futures, the clock and the chain.
- `tests/` runs the library.
