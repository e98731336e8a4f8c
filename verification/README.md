# voting_contract

Solidity's `Ballot.sol` as a CosmWasm contract, with its rules proved in Verus.

- `src/` is the verified library. `state.rs` models the ballot (chairperson,
  proposals, voter records) and its abstract view; `contract.rs` holds each
  call twice, as a spec function giving the outcome and as the executable
  function proved to produce it; `laws.rs` proves what holds across calls
  (votes are conserved, a used vote is final, each voter has one turn, the
  ballot never changes shape, delegation chains collapse, the ballot
  invariant holds, queries are determined by the ballot); `cosmos.rs` declares the CosmWasm items the logic uses.
- `app/` is the contract around it: entry points, storage layout, JSON
  message shapes.
- `tests/` runs the library against CosmWasm's mock address checks.
