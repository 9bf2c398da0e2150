# quantize

Block quantization of `f32` tensors: symmetric, asymmetric and adaptive
(per-block bit width) schemes with `f32`, `f16` or `bf16` scales, bit-packed
codes, a pickle format, and a WikiText-2 / matmul benchmark suite.

## Layout

- `src/` — the library, verified with Verus. It holds everything that is
  integer or byte logic: code ranges and clamping (`bits`), the LSB-first
  two's-complement bit stream (`packed`), the tensor layout and adaptive block
  packing (`quantized`), scale widths (`scale`), schemes and their validation
  (`scheme`), errors and their messages (`error`), the pickle state
  (`pickle`, `inner`), input-array checks (`input`), and the bookkeeping of the
  benchmarks: rolling perplexity windows (`perplexity`), the decode prompt
  (`decode`), the extracted layers and their shapes (`weights`), the causal
  mask (`cache`), 4-bit code saturation (`layers`), corpus assembly
  (`corpus`), command-line parsing (`args`), the README table splice
  (`readme`) and the benchmark input generator (`throughput`).
- `app/` — plain Rust around it: the floating-point side of the quantizers
  (choosing scales, rounding, reconstructing, fitting), the Python bindings
  (pyo3 / numpy), the chapter demos, and the benchmark programs (candle,
  tokenizers, hf-hub, ureq).
- `tests/` — tests of the library on concrete values.

The central properties are proved in `src/`: packing then unpacking gives the
codes back when they fit the width, unpacked codes repack to the same bytes
(for single-width and adaptive tensors), a pickled tensor or scheme reads back
as itself, and a saturated 4-bit code is exactly one at either end of the grid.
