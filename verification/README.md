# liquidity_pool_factory

A liquidity-pool factory for Soroban whose decisions are verified with Verus.

- `src/` is the verified library: the pause bitmask (`pause`), addresses as
  their XDR bytes and the order of a token pair (`address`), the emergency
  guard (`guard`), the registered pools (`registry`), the host call behind a
  trusted wrapper (`host`: the deploy salt of a pair)
  and the factory's state and operations with their laws (`factory`).
- `app/` is the Soroban contract: it loads and stores the state in instance
  storage, deploys and initialises pools, checks authorisation, and calls the
  library for every decision.
- `tests/` runs the library on concrete values.

The emergency guard is set up once with its admins; any listed admin may
pause or resume operations, and a query on a mask answers whether any of its
operations is paused.
