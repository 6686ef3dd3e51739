# hgl_sim

The core of a hardware simulation engine, verified with Verus.

`src/` is the verified library:

- `bit`, `bv`, `bytes`, `u8_ops`, `bit_range`: single bits, fixed-width
  bit vectors with wrapping arithmetic, and bit selections within bytes
- `traits`, `fmt`, `sim_format_value`: simulation values and their text in
  hexadecimal or binary
- `edge_mask`, `clock`, `clock_array`: clock edges, the schedule of the
  edges of a set of clocks over time, and the edges each instance sees
- `index`, `indexed_vec`, `named_array`, `names`: arrays found by key,
  strings, and names within namespaces
- `simulation`: the control state of a simulation (names, clocks, run
  state)
- `sync`: the state machines of the barrier between the main thread and
  worker threads
- `port`, `utils`: port descriptions, masks, storage sizes, gcd and lcm
- `models`: simulation models of small components (an ALU, a counter, a
  register, a memory, a nested-structure model, a GPIO block behind an APB
  target) as next-state and output functions, and the decisions of a model
  that runs in a thread of its own

`app/` holds what runs around the library: the barrier's locks, condition
variables and threads; component instances, driven as trait objects; values
reached through `Any`; serde forms of bits and bit vectors; and the models
registered as components, with the thread, lock and timer of the threaded
model; and the aggregate value traits, whose std operator supertraits the
verifier does not take as bounds.
