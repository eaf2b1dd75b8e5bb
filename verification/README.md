# casper_dao

Verified building blocks of the Casper DAO contracts, written in Verus.

`src/` is the verified library:

- `mapping`, `vec_mapping`, `indexed`, `list`, `sequence`: the storage structures of
  the contracts (key-value dictionary, per-key lists, value index, list of distinct
  items, identifier counter), held in memory, each with a mathematical view that
  the contracts of its operations speak of.
- `numeric`: 512-bit and 256-bit amounts held as limbs, with arithmetic done by
  `casper-types`' `U512` and `U256` and stated over the numbers they stand for.
- `address`, `dictionary_key`: addresses, call-stack decoding and dictionary keys.
- `voting`: a governance voting: its phases, stakes, quorum and result.
- `engine`: the voting engine: votings, ballots and voters; voting, slashing,
  binding ballots, and finishing a voting: its checks, its result, the formal
  voting that follows a passing informal one, the reputation that finishing
  returns, mints and burns, and the contract calls a voting was created with,
  handed out once when its formal voting passes.
- `slashing`, `repo_voter`: the slashing and repository voters: the calls their
  votings carry, and the creation of those votings.

`app/` holds what talks to the Casper host: named keys, dictionaries, the call
stack, the block clock, contract calls and reverts, the conversions between
the host's types and the library's plain values, and the contract calls that a
passing voting makes.
