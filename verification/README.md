# liholiswano_contract

The rules of a Liholiswano rotating-savings group, verified with Verus, and
the Soroban contract that runs them on Stellar.

Members join a group with collateral, contribute every round and bid (in
basis points of the pot) for it. The highest bid wins the pot less its bid;
the bid amount is shared, rounded down, among the other active members and
what the rounding leaves goes to the group's reserve. A member that defaults
loses its collateral to the reserve, and what the collateral does not cover
of what it still owes is logged as bad debt.

## Layout

- `src/types.rs`: groups, members, addresses and token transfers, each with
  the mathematical value the contracts speak of.
- `src/model.rs`: what every operation does to a group, as spec functions,
  and the well-formedness that every group satisfies.
- `src/members.rs`, `src/group.rs`, `src/settle.rs`: the operations, each
  proved to do what the model says.
- `src/limits.rs`: whether an operation would leave the range of its numbers.
- `src/contract.rs`: the contract's entry points, on the group that storage
  holds under an id.
- `src/laws.rs`: what holds across operations: the pot is paid out exactly,
  defaults log exactly the uncovered debt, every operation keeps a group well
  formed, and what one operation records the next one reads.
- `src/ledger.rs`: the Soroban host vector that settling lists the eligible
  members in.
- `app/lib.rs`: the Soroban contract: authorization, storage and the token
  transfers that the library asks for.
- `tests/`: the scenarios, run against a small in-memory ledger.
