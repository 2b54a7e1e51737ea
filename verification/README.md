# realtps

Transactions-per-second figures for block chains.

An importer stores blocks, chain by chain, and computes for each chain how many
transactions per second it has carried over the last week, counted from the
newest block back. Walks over long stretches of blocks are summed up in *block
runs*, which are cached.

## Layout

`src/` is the library. It is verified with Verus, but for its calls into other
crates, which are trusted to do what is stated of them:

| trusted | what it calls |
| --- | --- |
| `db::random_suffix` | `rand::random` |
| `hashes::near_hash_text` | `Display` of `near_primitives::hash::CryptoHash` |
| `hashes::tendermint_hash_text` | `Display` of `tendermint::Hash` |
| `client::height_value` | `tendermint::block::Height::try_from` and `value` |
| `solana::vote_program_key` | `solana_sdk::vote::program::id` |
| `solana::decode_text` | `EncodedTransaction::decode` of `solana_transaction_status` |

`solana::decoded_transaction` is the name of what the last one gives, and
`client::ExTendermintError` declares `tendermint::Error`. The modules:

| module | what it holds |
| --- | --- |
| `chain` | chains, known by name |
| `db` | the records of a chain, their files, and the steps of writing and reading one |
| `blockrun` | the sender that builds runs from blocks and sends them with the cached ones |
| `blockrun_laws` | what holds of a sender over its whole course |
| `merge` | merging of short neighbouring runs |
| `calculate` | counts from blocks, counts from runs, and rates |
| `agreement` | what both counts come to, and that they are the same |
| `pipeline` | that the runs built, merged and cached count the same as the blocks |
| `client` | what is kept of the blocks of NEAR, Stellar, Ethereum-like and Tendermint chains |
| `solana` | what is kept of the blocks of Solana |
| `hashes`, `text` | the texts of hashes and numbers |
| `totals` | sums that saturate |
| `error` | errors and what they say |

Whatever needs the disk, the network or a task runs outside. The library holds
the decisions as state machines: a machine says what it wants done, is told what
came of it, and says what it wants next.

`app/` is that outside: the store on disk, the tasks, the clients of the nodes,
and the division that turns a count and its seconds into a floating-point rate.

`tests/` runs the library on concrete values.
