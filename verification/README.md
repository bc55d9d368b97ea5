# coinswap_wallet

A Bitcoin wallet that takes part in coinswaps, written in Verus. The library under `src/` holds the wallet's
decisions; each function carries a contract, and Verus proves that the code keeps it. The program under
`app/` talks to the node or the Electrum server, to the disk and to the user.

- Keys and scripts: `keys`, `multisig`, `checksum`, `descriptor`, `addresses`, `raw_tx`, `signing`
- The wallet's state: `store`, `swapcoin`, `wallet`, `assoc`, `open`
- What the wallet owns: `classify`, `listing`, `spend_info`
- What it spends: `grouping`, `coin_select`, `spending`
- Swaps that ended early or well: `recovery`, `sweep`, `confirm`
- The chain: `backend`, `electrum`, `sync`, `import`, `watch`, `next_address`
- Decoys that hide the wallet's scripts from a server: `decoy`, `query`, `random`, `clock`
- The command line: `cli`

Properties that span several functions are stated as proof functions whose names begin with `law_`.

Calls into `bitcoin`, `secp256k1`, `bip39`, `rust-coinselect` and the standard library stand in small functions
marked `external_body`. Their doc comments say what is claimed of the outside code.
