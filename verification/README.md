# llama_rs

A verified core for running language models on GPUs through Vulkan: the
tokenizers, and everything that is decided on the host before a command reaches
the device.

## Layout

- `src/tokenizer/` — vocabulary read from GGUF metadata, byte-level BPE and
  SentencePiece encoding, pre-tokenization, decoding.
- `src/vulkan/` — memory suballocation, repacking and upload of weights, the
  choice of devices, how layers are split over them, the plan of dispatches of a
  block of tokens, the barriers between them, the commands that a step records,
  and the state of a session (snapshots, rollback, speculative decoding).
- `app/` — the driver around it: `ash` calls, files, environment variables,
  threads, and whatever computes with floating point.
- `tests/` — tests of the library.

Every item of `src/` is verified with Verus. Functions state their results over
mathematical models (`Seq`, `int`, views of the data types). What holds across
functions stands in public proof functions whose names begin with `lei_`.

## What is trusted

The pattern matcher of the tokenizers is the `regex` crate. It is called
through three small functions in `src/tokenizer/expressao.rs`, whose contracts
are believed. `src/tokenizer/texto.rs` holds the contracts of three functions of
the standard library: `String::push`, `char::from_u32` and
`String::from_utf8_lossy`.
