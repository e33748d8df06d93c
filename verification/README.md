# pricebridge

A price oracle layer for Soroban. Whitelisted updaters submit ABI-encoded price
updates in the Chainlink feed format. Each update is decoded, checked against
the rules of its feed and, if it passes, stored with a short history. Contracts
read fresh prices, time-weighted averages and prices normalized to 18 decimals.

The library is written in Verus: every function carries a contract, and the
contracts are proved.

## Layout

- `src/error.rs`: the errors and their numbers.
- `src/abi.rs`: decoding updates and encoding answers, as big-endian words.
- `src/arith.rs`: scaling, deviation in basis points, time-weighted averages.
- `src/history.rs`: the snapshots of a feed, in a vector of the Soroban host.
- `src/table.rs`: a map from byte strings to values.
- `src/storage.rs`: what is stored between calls, and what a call finds around it.
- `src/rules.rs`: what each call answers and changes, stated over stored values.
- `src/bridge.rs`: the calls.
- `src/laws.rs`: what holds across calls.
- `app/`: the Soroban contract around the library: authorization, the ledger's
  clock and the instance storage.
- `tests/`: scenarios and exact values.

## Calls without an answer

`submit`, `get_twap`, `get_price_abi` and `normalize` require that the numbers on
the way fit the machine's. `submit_checked`, `get_twap_checked`,
`get_price_abi_checked` and `arith::checked_normalize` require no such thing and
answer `None` instead; the contract aborts there.

## Outside code

The ABI coder, the conversions of 256-bit numbers and the host vector are called
through small functions whose contracts are believed. They stand in `src/abi.rs`
and `src/history.rs`, each marked `external_body` and described where it stands.
