# hermes

A small publish/subscribe framework for embedded communication: nodes
exchange COBS-framed packets over byte links (serial, USB, shared memory,
in-process queues).

- `src/` is the verified library (Verus): the message and packet types,
  the `Link` abstraction with a bounded vector link and a queue-pair link,
  the look-ahead window that cuts a byte stream into frames, the progress
  of a frame being written, and the node's choice of links to publish to
  and order to poll them in.
- `app/` drives the library: the node and link futures, the postcard
  codec, the shared ring-buffer and USB links, and a serial command-line
  tool.
- `tests/` exercises the library.
