# gpt2_rs

A small GPT-2 inference engine whose integer and control logic is verified
with Verus.

- `src/` is the verified library:
  - `sampling`: greedy choice of the next token on the bit patterns of the
    `f32` logits (first largest value, IEEE-754 comparison).
  - `generation`: the decisions of greedy generation (step budget,
    end-of-sequence token, context length), with the laws a run obeys.
  - `names`: the names of the per-layer tensors, `h.<layer>.<suffix>`.
  - `weights`: reading the weight tensors out of a safetensors archive as
    little-endian `f32` bit patterns, after checking that the size the
    archive header declares fits in a `usize`.
  - `tokenizer`: the conversions between the tokenizer's `u32` ids and the
    model's `usize` tokens.
- `app/` is the program: file reading and memory mapping, the calls into the
  `tokenizers` crate, the configuration,
  and the floating-point forward pass (embeddings, attention, MLP, layer norm,
  softmax), which drives the library's generation loop.
