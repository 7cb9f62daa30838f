# backrun

A bot that watches pending swaps on constant-product exchanges. Where a swap moves
the price of a pool, it borrows from a pool of the same tokens on another exchange,
sells into the moved one, pays back, and sends both transactions to builders as one
bundle.

`src/` is the verified core, written in Verus:

- `u256`, `address`, `text`, `table`, `clock`: numbers, addresses, text, tables, time
- `amm`: the arithmetic of constant-product pools and its laws
- `curve`: the profit of a loan before rounding, a curve made of two hyperbolas
- `search`: narrowing a range by thirds, and how much of the best value that keeps
- `pool`: pools, the pending swap, and the best loan between two pools
- `registry`, `discovery`, `market`: which pools exist, and what is known of them
- `resolve`, `opportunity`, `bundle`: from a swap to two pools, a call and its price
- `abi`, `calldata`: the bytes of calls and replies
- `simulation`, `nonce`, `trades`: what happens next in a simulation, to the nonce
  counter, and to a submitted trade
- `config`, `owner`: settings, and whether the wallet may run the contract

`app/` is the program around it: the node, the virtual machine, the builders, the
dashboard and the file of trades. The dashboard serves `dashboard.html` from the
working directory.
