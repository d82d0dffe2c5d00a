//! A two-pass assembler for a small register machine, together with a decoder
//! for the serial frames the machine's UART emits.
//!
//! Source text is split into token lines, a first pass maps every label to the
//! index of the instruction that follows it, and a second pass packs each
//! instruction into a 32-bit word.
pub mod text;
pub mod isa;
pub mod tokenizer;
pub mod parser;
pub mod labels;
pub mod encoder;
pub mod assembler;
pub mod uart;
