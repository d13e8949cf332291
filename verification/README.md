# AudioLink

Broadcast audio over IP: up to 64 mono channels per link, 20 ms Opus frames at 48 kHz in RTP-style
UDP packets, a timestamp-aligned jitter buffer, a patch matrix, a web interface, and an optional
rendezvous server for endpoints behind NAT.

- `src/` is the library: the wire format, tokens, the handshake and its watchdog, the jitter buffer,
  loss and restart detection, routing, settings, the command line, the rules of the web interface,
  both sides of the rendezvous service. Every function in it is verified with Verus against the
  contract that stands above its body. The functions named `law_...` are theorems about several
  functions at once; `delivery.rs` and `restart.rs` hold those that span the whole path, from what
  one end encodes to what the other plays, and from a form in the browser to the link that follows.
- `app/` is the program around it: sockets, audio devices, codecs, resampling, HTTP, files, threads.
  Installed as `audiolinkd` it is the endpoint; installed as `audiolink-cloud` it is the rendezvous
  server.
- `tests/` run the library.

What the library takes on trust are a few calls into `std` (UTF-8, lower case, the clock) and into
`serde_json` (a quoted string, a field of an object). Each stands in a function of its own, whose
comment says what is claimed.
