# qwen_engine

The verified core of a CPU inference engine for hybrid-attention language models
(full attention and gated linear attention, mixtures of experts), written in
Verus.

* `src/` is the library. Every function carries a contract, and Verus proves all
  of them but those of the calls into outside code. These are trusted: the
  wrappers round [candle](https://crates.io/crates/candle-core)'s block sizes
  (`gguf`), [safetensors](https://crates.io/crates/safetensors)
  (`prompt_cache::format`), [serde_json](https://crates.io/crates/serde_json)
  (`config_json`) and `char::to_lowercase` (`palindrome`), and what is said of
  `char::is_alphanumeric` (`palindrome`) and `String::push` (`text`).
  - `config`, `config_json`, `loader`, `gguf`, `limits`: what a model's files must
    hold, and the first thing that is wrong with them.
  - `arithmetic`, `qgemm`, `qgemm_rows`, `qwen`: the decoder's kernels, proved to
    the last bit over an arithmetic of which nothing is assumed; the state that a
    sequence carries; which tensors make a layer and a model; the course of a pass.
  - `ngram`: prompt-lookup drafting.
  - `prompt_cache`: the on-disk cache of sequence state: keys, index, eviction and
    the format of an entry, and what a whole lookup comes to.
  - `residency`: the warm-up that reads every expert once.
  - `options`, `serve`, `infer`, `run_report`, `bench`, `gguf_bench`,
    `verify_bench`, `depth_bench`, `policy_bench`, `matmul_bench`, `compare`,
    `profile`: what the programs decide and report.
  - `text`, `words`, `order`, `buffers`, `palindrome`: small tools.
* `app/` is ordinary Rust: the command line, files, threads, and the tensor
  products of candle.
* `tests/` runs the library, the outside crates linked.
