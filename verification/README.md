# KageB

Four real orders go in. One group trade comes out. No fake trades.

KageB is a reference prototype for traders who do not want each order to travel beside their public
wallet. A trader signs and encrypts a one-lot order on their own machine. A batch of at least four
funded participants is locked by two of three keypers, the orders are opened with two shares, opposing
orders cancel inside the pool, and only the residual reaches the venue. It uses synthetic assets, it is
custodial, and it is not safe for real funds.

The library under `src/` is written in Verus. Every rule of the protocol is an executable function with
a contract that Verus proves; the promises that span functions are public proof functions whose names
start with `law_`. What the library takes from outside crates (hashes, signatures, threshold
encryption, encodings, token layouts) stands behind small wrappers whose doc comments say what is
trusted.

## Layout

| Where | What |
| --- | --- |
| `src/domain.rs`, `src/ledger.rs`, `src/commitment.rs` | orders, netting of a batch, content roots |
| `src/admission.rs`, `src/account.rs`, `src/suspension.rs`, `src/journal.rs` | reservations, accounts, suspended keys and signed locks, with their file formats |
| `src/crypto.rs`, `src/batch.rs`, `src/shares.rs`, `src/member.rs` | authorizations, encrypted submissions, admission, decryption shares, joining an epoch |
| `src/snapshot.rs`, `src/lock.rs`, `src/lockwire.rs`, `src/program.rs` | what a keyper checks before it signs a lock |
| `src/intents.rs`, `src/settlement.rs`, `src/request.rs` | what settling a locked batch comes to, and what keypers sign |
| `src/keyper.rs`, `src/client.rs` | frames of keyper processes, client requests and responses |
| `src/observer.rs`, `src/evidence*.rs`, `src/publish.rs`, `src/run.rs`, `src/fixture.rs` | what a public observer sees, and evidence of a settled epoch |
| `src/signing.rs`, `src/threshold.rs`, `src/hash.rs`, `src/encodings.rs`, `src/tokens.rs`, `src/transaction.rs` | the outside crates, behind wrappers |
| `tests/` | tests of the library from outside |
| `app/` | the command line: files, processes, the RPC client and the on-chain program's encodings |

The on-chain program's own encodings, digests and derived addresses come from the `kageb-program`
crate. The library takes what that crate computes as plain values; `app/` makes the calls.
