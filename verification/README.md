# accensa_contracts

The rules of the Accensa payment contracts as a verified library:

- `multi_asset`: state channels that escrow several tokens, with per-asset
  conservation, signed states, a challenge window and atomic settlement.
  `channel_laws` states what holds over the whole life of a channel.
- `dust`: sweeping the remainders of refund escrows that closed long ago.
- `incremental_merkle`: an append-only Merkle tree that keeps only its frontier;
  `merkle` holds the batch tree that it agrees with.
- `crypto`: canonical Ed25519 signatures.
- `cross_chain`: guardian sets and the messages they sign.
- `address`, `bytes`, `dispute`, `error`, `sorted_map`, `token`, `xdr`: what the
  others share.

A call works on plain values: what the contract found in its storage and on the
ledger comes in (`ChannelEnv`, `VaultEnv`, `CrossChainBridge`), and what the
ledger has to do comes out as a list, in order. `app/` reads and writes the
ledger around the library.

Hashing, signature verification and XDR encoding are done by `sha2`,
`ed25519-dalek` and `soroban-sdk`; each such call stands behind one small
function whose contract says what is relied on.
