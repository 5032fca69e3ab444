# solana_bridge

The on-chain half of a token bridge between Solana and the Incognito chain,
as a library whose behaviour is stated in contracts and proved with Verus.

- `src/error.rs` — the bridge's errors, their custom codes, and the program
  errors reported to the runtime.
- `src/bytes.rs` — fixed-width integers and byte arrays read from byte slices.
- `src/instruction.rs` — decoding instruction data into shield and unshield
  instructions.
- `src/state.rs` — the beacon list account layout (pack and unpack, with
  round-trip lemmas) and the vault's record of spent transaction ids.
- `src/processor.rs` — the decisions of each instruction: account checks,
  beacon instruction decoding, beacon signature checks, replay protection,
  vault authority derivation.
- `src/runtime.rs` — the calls into `solana_program` and `spl_token`
  (Keccak-256, secp256k1 key recovery, program addresses, token accounts),
  each with the contract the library relies on.
- `app/` — the program entrypoint: account iteration, account data
  serialization, token transfers and logging around the library's decisions.
