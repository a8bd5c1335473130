# q3x_backend

The verified core of a multi-signature wallet service for the Internet
Computer. Each wallet keeps a set of signers, a signing threshold, a queue of
proposed messages with the signers who approved each, and metadata for queued
messages; signers, messages and metadata are stored encrypted under the
wallet's identity-based encryption key (VetKD).

Layout:

- `src/` is the library, verified with Verus.
  - `codec.rs`: hexadecimal and decimal text, byte-string helpers.
  - `collections.rs`: a byte-keyed map and a set of texts, with their views.
  - `crypto.rs`: the trusted boundary to `candid`, `ic_vetkeys` and
    `ic_ledger_types`.
  - `vetkey.rs`: seeds, key names, and reading keys from the key service.
  - `privacy.rs`: encryption and decryption of signers, messages, metadata
    and whole wallets.
  - `wallet.rs`: a wallet and its operations.
  - `command.rs`: the special messages (add or remove a signer, set the
    threshold, transfer tokens) and their reading.
  - `registry.rs`: the service's state and each request as a step on it.
  - `laws.rs`: properties that hold across operations.
- `tests/`: tests of the library.
- `app/`: the canister around the library: endpoints, calls to the
  management canister (VetKD keys, threshold ECDSA) and to the ledger.
