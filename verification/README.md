# rwkv_web

Browser front end for RWKV language models running on WebGPU through
`web_rwkv`, with its decision logic verified in Verus.

- `src/` — the verified library:
  - `model` — model description and the per-layer quantisation plan;
  - `loader` — named weight tensors and their lookup;
  - `rank`, `sampler` — ranking of probabilities and token choice;
  - `cache` — prompt cache with longest-prefix lookup;
  - `session` — the session's prompt cache (cached states keep the model's
    state length) and filling state/output buffers from a lookup;
  - `state` — which backed-up recurrent state belongs to which state id;
  - `infer` — when an inference loop is done.
- `app/` — the JavaScript bindings, GPU calls and floating-point sampling
  arithmetic, built on the library.
- `tests/` — tests of the library on concrete values.
