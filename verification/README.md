# lottery

The verified core of a ticket lottery program for Solana.

- `src/` is the library, verified with Verus:
  - `pubkey.rs`: 32-byte account addresses;
  - `state.rs`: the application settings, the lottery round, its buyers and
    winners, their mathematical views, and the round invariant (every ticket
    accounted for exactly once, distinct buyers under the per-buyer cap,
    winners drawn from the buyers);
  - `lottery.rs`: creating settings and rounds, selling tickets, revealing
    winners;
  - `randomness_tools.rs`: the SHA-256-based number used to draw tickets;
  - `claim.rs`: locating the accounts of past rounds when a prize is claimed;
  - `error.rs`: the error codes.
- `app/` is the Anchor program around it: account validation, token
  transfers, logging and account (de)serialisation.
- `tests/` exercises the library on concrete values.
