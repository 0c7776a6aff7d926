# ivlan

A virtual network among hosts that know each other by their public keys. Each host gives every
peer an IPv4 and an IPv6 address of its own choice, and rewrites the addresses of packets as they
arrive.

- `src/` is the library, verified with Verus.
  - `addr`, `checksum`, `ip_util`, `patch_laws`: addresses, Internet checksums, and the rewriting
    of packets.
  - `key`, `ascii85`, `base64_text`, `remote_id`, `sk_serde`, `pk_serde`, `util`: keys and their
    texts.
  - `auth`, `accept`: the request to be let in, its answer, and the stages of a new connection.
  - `allocation`, `peer_map`, `state`, `state_laws`: the peers and their addresses.
  - `frame`, `outbound`, `inbound`, `send`: the way of a packet from one host to another.
- `tests/` runs the library.
- `app/` is the program around it: the device, the connections, the calls of clients, and the
  configuration file. Its device comes from the `tun-rs` crate.

Functions marked `external_body` make the calls into other crates. Their contracts are not proved;
the comment above each says what it takes for granted.
