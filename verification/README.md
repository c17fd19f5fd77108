# fyrox_ai_free

AI building blocks for games — a condition-driven state machine, a behavior tree and a
shared blackboard — written in Verus, with the behaviour of each operation stated in its
contract and proved.

## Layout

- `src/` — the verified library.
  - `string_map.rs`: a map keyed by strings (a `Vec` of distinct keys), viewed as a `Map`.
  - `blackboard.rs`: `BlackboardValue` and `Blackboard`.
  - `state_machine/`: conditions (`condition.rs`), states and their actions (`state.rs`),
    transitions (`transition.rs`) and `AiStateMachine` with its tick (`mod.rs`).
  - `behavior_tree/`: nodes and their evaluation (`node.rs`), what a tick means as a spec
    function over plain values (`semantics.rs`), the pre-order runtime layout (`layout.rs`)
    and `BehaviorTree` (`mod.rs`).
  - `validate.rs`: static checks of machines and trees.
- `tests/` — tests of the library on concrete values.
- `app/` — host-side glue: the `f32` comparator, times in seconds, and serde-enabled copies
  of the data types for save/load.

## Conventions

Times are whole microseconds (`u64`, saturating). Floats are kept as the bit patterns of
`f32` values; a comparison between two floats is answered by a comparator the caller passes
to `tick` / `evaluate` (`app::float_compare` is the real one).
