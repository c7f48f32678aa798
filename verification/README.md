# quic

The transport machinery of QUIC (RFC 9000, RFC 9001, RFC 9002), written and proved in Verus.

The library holds the wire formats, packet protection, streams and flow control, loss
recovery, congestion control and pacing, connection migration, and the rules by which a
connection reacts to packets and frames. It does no input or output. The caller hands in the
current time, the results of the TLS handshake and the real-valued products of congestion
control, and is told what to do next.

## Layout

- `src/` is the verified library.
  - `varint`, `packet`, `frame`, `frame_types`, `payload`: wire formats.
  - `aead`, `key_derivation`, `header_protection`, `protection`, `encryption`, `crypto_impl`,
    `crypto_enhanced`, `reassembly`: keys, packet protection and handshake data.
  - `stream`, `flow_control`, `transport`: streams and limits.
  - `ack_manager`, `sent_packets`, `retransmission`, `probes`, `recovery`: acknowledgments and
    loss recovery.
  - `congestion`, `bbr`, `cubic`, `ecn`, `pacing`: congestion control.
  - `connection`, `transfer`, `migration`: connections and paths.
  - `buffer`, `addr`, `time`, `error`: shared types.
- `tests/` exercises the library with the real `bytes` and `ring`.
- `app/` joins the library to the clock, to TLS, to the network and to floating point.

## What is taken on trust

The calls into `bytes` (`src/buffer.rs`), into `ring` (`src/aead.rs`, `src/packet.rs`) and into
`String::from_utf8_lossy` (`src/connection.rs`) are described by contracts that are not proved.
