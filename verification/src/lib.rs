//! Verified core of a small inference engine for hybrid-attention language
//! models: prompt-lookup drafting, the on-disk prompt cache, checkpoint and
//! configuration checks, the kernels of the decoder, the state that a sequence
//! carries from pass to pass, and what the programs around them decide.
//!
//! Every item carries a contract that is proved. The kernels are written over
//! an arithmetic of which nothing is assumed (see [`arithmetic`]), so what is
//! proved of them holds of floating-point numbers to the last bit. File access,
//! threads and the products with compressed matrices live outside this crate
//! and hand plain values in.

pub mod arithmetic;
pub mod bench;
pub mod buffers;
pub mod compare;
pub mod config;
pub mod config_json;
pub mod depth_bench;
pub mod gguf;
pub mod gguf_bench;
pub mod infer;
pub mod limits;
pub mod loader;
pub mod loader_laws;
pub mod matmul_bench;
pub mod ngram;
pub mod options;
pub mod order;
pub mod palindrome;
pub mod policy_bench;
pub mod profile;
pub mod prompt_cache;
pub mod qgemm;
pub mod qgemm_laws;
pub mod qgemm_rows;
pub mod qwen;
pub mod residency;
pub mod run_report;
pub mod serve;
pub mod sums;
pub mod text;
pub mod verify_bench;
pub mod words;
