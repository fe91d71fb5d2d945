# rkl network configuration

A verified library for the network configuration of an rkl node:

- `src/key.rs` reads and writes subnet keys (`10.0.1.0-24&fc00::-64`); reading
  back a written key gives its networks back (proved), unless the IPv6 address
  is written in the IPv4-mapped dotted form (`::ffff:a.b.c.d`).
- `src/subnet.rs` computes the contents of the subnet file (`subnet.env`) and
  reads the networks listed in its bytes, which `dotenvy` parses into entries.
  Proved: the entries of a written file list the networks written; `dotenvy`
  reads those entries back from the file's bytes, in order, each value
  beginning with the written one (`dotenvy` may append what the process
  environment holds under the empty name, so no more is stated).
- `src/receiver.rs` holds the receiver's builder, the configuration messages
  and the steps they ask for (the first that fails ends the handling), and the
  start/stop decisions of the service and what a failed start or stop leaves.
- `src/net.rs` and `src/text.rs` hold the networks, their CIDR text and the
  character-level pieces underneath.

`app/` carries out what the library decides: it writes the file, reads its
bytes, and runs the receiver and the service with tokio.
