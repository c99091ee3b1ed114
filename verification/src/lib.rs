//! Inference runtime for language models on AMD GPUs: the tokenizer and the
//! planning side of the Vulkan backend, with machine-checked contracts.
//!
//! Nothing here talks to a device or to the operating system. Every function
//! works on plain values; the surrounding program performs the actions that
//! the library decides on.

pub mod tokenizer;
pub mod vulkan;
