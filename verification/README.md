# oe4

Ethereum RLP serialization and runloop agents, verified with Verus.

- `src/encoding.rs`: the RLP format as spec functions, the state of a stream being
  filled, the laws of list encoding, and the lengths of encoded items.
- `src/ser.rs`: `EthereumRlpSerializer`, which writes onto `rlp::RlpStream` through
  trusted wrappers whose contracts are stated over that state.
- `src/agent.rs`: `Repeat`, the phases of an agent, and the decisions of its worker,
  abort and poll.
- `src/keys.rs`: the check of the local node's secp256k1 secret key.
- `app/`: the serde `Serializer` impl, the async agent and runloop, unix-socket nodes,
  the devp2p network interface and the service's `main`.
