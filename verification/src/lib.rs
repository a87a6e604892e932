//! A two-pass assembler for a small accumulator-based 32-bit instruction set.
//!
//! Source text is parsed into instructions, each instruction is encoded into
//! one or more memory words, label references are patched with the address of
//! the word that defines the label, and the image is padded to a fixed length
//! and rendered as one line of eight hexadecimal digits per word.

pub mod assemble;
pub mod codegen;
pub mod error;
pub mod literal;
pub mod hex;
pub mod instruction;
pub mod lexer;
pub mod linker;
pub mod emit;
pub mod parser;
pub mod text;

pub use assemble::assemble;
pub use assemble::Config;
pub use codegen::inst_word;
pub use codegen::Bin;
pub use emit::bin_hexedln;
pub use error::AsmError;
pub use error::SyntaxError;
pub use error::UnsupportedFeature;
pub use hex::hex_decode;
pub use hex::hex_encode;
pub use instruction::Flags;
pub use instruction::InstType;
pub use instruction::Instruction;
pub use instruction::Param;
pub use lexer::params;
pub use lexer::parse_params;
pub use lexer::remove_comments;
pub use linker::finalize_bin;
pub use literal::parse_value;
pub use parser::parse_asm;
pub use parser::parse_line;
