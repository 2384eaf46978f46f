# tiny-metal-llm

The host-side logic of a small LLM runtime, written in Verus with its
behaviour stated in contracts and proved.

## Layout

- `src/` — the verified library.
  - `text` — character-level helpers (trimming, ASCII case, decimal
    numbers, lexicographic order) shared by the rest.
  - `error` — the error type and its messages.
  - `tensor` — element types and tensor descriptions.
  - `model` — model configuration, the named weight collection and its
    binary file format (with the round-trip law), the plan of INT8
    conversion, the order and shape checks of taking a transformer's
    weights, the assembly checks, and the bookkeeping of the key/value
    cache.
  - `import` — reading `.safetensors` checkpoints (through the
    `safetensors` crate) and mapping Llama checkpoints to the runtime's
    weight names.
  - `chat` — roles, messages, conversations, the SmolLM2 ChatML template
    and prompt preparation.
  - `agent` — the tool registry view, reading the action a model chose,
    the decision and answer prompts, and the step-by-step agent run.
  - `document` — documents and their chunking into overlapping windows.
  - `generation` — generation settings and their validation, the greedy
    token choice over logit bit patterns and the stopping rules of
    generation.
- `tests/` — tests of the library.
- `app/` — the command-line program (`import`, `inspect`): file access,
  JSON configuration files, floating-point conversions between F32, F16
  and INT8 storage, and the random sampler.

Floating-point values appear in the library only as their IEEE-754 bit
patterns; arithmetic on them happens in `app/`.
