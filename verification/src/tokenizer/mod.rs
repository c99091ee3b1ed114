//! Tokenizers of the SentencePiece (Llama) and byte-level BPE (GPT-2/Qwen2)
//! families.

pub mod bpe;
pub mod error;
pub mod expressao;
pub mod facade;
pub mod fila;
pub mod gguf;
pub mod leis;
pub mod leis_fusao;
pub mod leis_marcadores;
pub mod leis_vocab;
pub mod pretok;
pub mod spm;
pub mod texto;
pub mod vocab;

pub use error::TokenizerError;
pub use facade::Tokenizer;
pub use vocab::Vocab;
