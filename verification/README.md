# perps

A perpetual-futures market in which the order of execution is a rule of the program. Deposits,
withdrawals and oracle prices take effect at once. Everything that touches the book waits in a queue
until a later slot and then runs by `(slot, priority, sequence number)`: liquidations first, then
cancels, then new orders, then takes. A maker who cancels in the slot in which a taker goes for the
order is always first.

## Layout

- `src/` is the verified library. `src/lib.rs` lists its modules.
- `tests/` runs it on concrete values.
- `app/` is the on-chain program around it: it reads the state out of its account, calls
  `PerpsProgram::checked_process`, and writes the state back.

## What is stated

The view of a `PerpsState` is a `Market`: balances and positions as sequences, the two sides of the
book and the queue as maps. Each instruction is a function from market to market (`taken`,
`cancelled`, `placed`, `liquidated`, `enqueued`, `cranked`, `handled`), and the executable functions
are proved to compute it. The modules named `*_laws` prove what follows for all inputs, for example
that a cancelled order is not filled, that a take goes from the best price on and never beyond its
limit, and that what is queued does not run in its own slot.

The book and the queue live in `sokoban` red-black trees. What the library believes of them without
proof stands in `src/order_tree.rs` and `src/queue_tree.rs`, as the contracts of the functions that
call them.

Where sums or products of a position would exceed 64 bits, or the slot is not known, the functions
named `checked_*` say so; the others require that it does not happen.
