# vox_node

The decisions of a peer-to-peer messaging node, written in Verus and proved.

A node keeps channels (rooms with an append-only log, per-sender keys and a trust keyring),
joins them over invite links, reconciles their logs with peers and anchors, relays circuits
and hole-punch signals for others, terminates TCP behind a user-space interface, and serves
programs on the same machine over a control socket.

## Layout

- `src/` is the library. Every function states what it returns or changes, and Verus proves
  it. What only the outside world can do (the store, the network, the cryptography, the
  clock) comes in as a plain value, and what has to be done goes out as one.
- `tests/` runs the library on concrete values.
- `app/` is ordinary Rust around the library: sockets, tasks, files and the TCP stack.

## The library

| Modules | What they hold |
| --- | --- |
| `cbor`, `hash`, `identity`, `table`, `text`, `lists`, `error` | encodings and small collections |
| `api`, `actor` | commands, events, views, and what the node decides about them |
| `channel`, `content`, `anchor` | a room's state, its log and segments, and an anchor's copy |
| `link`, `bootstrap`, `joinstream`, `keypackage`, `headless` | invitations, joins, keys |
| `circuitstream`, `coordstream` | relayed circuits and hole punching |
| `app`, `appipc`, `ipc`, `nameipc` | application streams and the control socket |
| `interface` | the bookkeeping of the user-space TCP stack |

Functions named `law_...` state what holds of several operations together: that what is
written is read back, that nothing is shown without consent, that no limit is passed.

The library calls `sha2`, `hkdf`, `zeroize` and `smoltcp`. Each call stands in a function of
its own, whose contract is believed and not proved; its comment says what is claimed.
