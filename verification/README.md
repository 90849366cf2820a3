# deilephila

A verified core for a peer-to-peer social network. Every account is an Ed25519 key that signs a
chain of events: posts, edits, deletions, profiles and follows. The newest event of a chain is
announced by a signed head record. Nodes fetch the chains of the accounts that they follow, block
by block, and show them as a timeline.

`src/` is the library. Every function in it states what it does in `requires` and `ensures`, and
Verus proves it.

| module       | what it holds                                                                  |
|--------------|--------------------------------------------------------------------------------|
| `util`       | hexadecimal and decimal text, the clock, random bytes                          |
| `cid`        | content identifiers                                                            |
| `dag_cbor`   | DAG-CBOR values and their canonical bytes                                      |
| `event`      | events, their blocks, their signatures and the links of a chain                |
| `identity`   | key pairs, signatures, signed events                                           |
| `keystore`   | a seed sealed under a passphrase                                               |
| `head`       | head records: signing, choosing the newest, forks                              |
| `chain`      | the state that a chain of events describes                                     |
| `projection` | what events in any order of arrival make of posts and profiles                 |
| `order`      | the orders in which lists are shown                                            |
| `table`      | rows found by a text key                                                       |
| `store`      | events, posts, accounts, head records, follows, forks and progress             |
| `sync`       | the session that fetches a chain, one block after another                      |
| `network`    | wire messages, records in the hash table, the decisions of the network loop    |
| `app`        | the active account and the commands of the program                             |

What relates several functions stands as public proof functions, next to what they speak of and in
`store/laws.rs`, `sync/laws.rs` and `sync/convergence.rs`.

The calls into other crates (hashes, signatures, key derivation, encryption, DAG-CBOR, CIDs, the
clock and the random source) are small functions marked `external_body`. Their contracts are not
proved; the comment above each says what it claims.

`app/` is the program around the library: the swarm, the database and the keystore file, and
commands that are read as lines of JSON.
