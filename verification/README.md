# tui_majo

Table logic of a terminal riichi mahjong game with a LAN / peer-to-peer
multiplayer mode and a zero-trust ("mental poker") mode, verified with Verus.

## Layout

- `src/` — the verified library.
  - `domain`, `score`, `player`: seats, calls and actions; fu, base points,
    rounding and payment distribution; the AI fallbacks for discards, calls
    and timeouts.
  - `mental_poker`: permutations for the joint shuffle, and the ledger every
    player keeps of the zero-trust table (draws, discards, calls, concealed
    and added kans), with the laws that keep all mirrors in step.
  - `net::room`: the room's seating rules (join, ready, leave, reconnect,
    start) and the zero-trust session label.
  - `net::mp`: the zero-trust player's phases and commands.
  - `net::p2p`: room modes, wire records, identify metadata, the lobby
    browser's state, the host's swarm bookkeeping, the joiner's handshake and
    protocol message routing.
  - `net::discovery`: LAN discovery over mDNS (names, TXT properties, the
    table of resolved rooms).
- `tests/` — tests run against the compiled library.
- `app/` — what runs around it: serde wire forms, curve point encodings,
  randomness and time, the room task, the browser, host and LAN glue over
  libp2p, tokio and mdns-sd.

## Not included

The library does not contain the zero-trust cryptography (ElGamal masking,
Schnorr and DLEQ proofs, the inner-product and cut-and-choose shuffle
arguments, the joint key, threshold decryption and the shuffle/decrypt
sessions), the zero-trust player actor, host-authoritative play (the game
engine), the WebSocket server and client, the libp2p swarm tasks themselves,
or the room region: the code they are built on (ElGamal, the Fiat–Shamir
transcript, the wire codec, the card mapping, win validation, the engine,
the client/server protocol messages, the swarm builder and the region type)
is not part of this code base. The ledger moves those parts drive, the
seating rules, the lobby and discovery state, and the swarm bookkeeping are.
