//! The whole run: from source text to the text of the memory image.

use vstd::prelude::*;
use crate::codegen::Bin;
use crate::codegen::BinView;
use crate::codegen::generate_spec;
use crate::emit::bin_hexedln;
use crate::emit::hex_line;
use crate::emit::hexedln_spec;
use crate::emit::lemma_hexedln_lines;
use crate::emit::lemma_zero_line;
use crate::emit::line_at;
use crate::error::AsmError;
use crate::error::AsmErrorView;
use crate::error::result_view;
use crate::lexer::remove_comments;
use crate::lexer::remove_comments_spec;
use crate::linker::finalize_bin;
use crate::linker::finalize_spec;
use crate::linker::image_spec;
use crate::linker::image_word;
use crate::linker::all_resolved;
use crate::linker::lemma_all_resolved;
use crate::parser::parse_asm;
use crate::parser::parse_asm_spec;

verus! {

/// The length of the memory where none is given.
pub const DEFAULT_LEN: usize = 256;

/// What a run is given: where the source is, where the result goes, and the
/// length of the memory in words.
#[derive(Debug, PartialEq, Eq)]
pub struct Config {
    /// The path of the source.
    pub src: String,
    /// The path of the result. Without one the result is printed.
    pub dest: Option<String>,
    /// The length of the memory.
    pub len: usize,
}

/// The words that a source text generates, before any label is resolved; or
/// the first error of parsing or encoding.
pub open spec fn generated_words(source: Seq<char>) -> Result<Seq<BinView>, AsmErrorView> {
    match parse_asm_spec(remove_comments_spec(source)) {
        Err(e) => Err(e),
        Ok(insts) => generate_spec(insts),
    }
}

/// The text of the memory image of a source text, or the first error on the
/// way: comments out, lines to instructions, instructions to words, labels
/// to addresses, words to `len`, words to text.
pub open spec fn assemble_spec(source: Seq<char>, len: usize) -> Result<Seq<char>, AsmErrorView> {
    match generated_words(source) {
        Err(e) => Err(e),
        Ok(words) => match finalize_spec(words, len) {
            Err(e) => Err(e),
            Ok(image) => Ok(hexedln_spec(image)),
        },
    }
}

/// The text of the memory image of the words.
pub open spec fn image_text(words: Seq<BinView>, len: usize) -> Seq<char> {
    hexedln_spec(image_spec(words, len))
}

/// Assembles a source text for a memory of `len` words. On success the text
/// has `len` lines; on failure there is the first error and no text.
pub fn assemble(source: &str, len: usize) -> (res: Result<String, AsmError>)
    ensures
        result_view(res) == assemble_spec(source@, len),
{
    let text = remove_comments(source);
    let insts = match parse_asm(text.as_str()) {
        Ok(insts) => insts,
        Err(e) => {
            return Err(e);
        },
    };
    let words = match Bin::from(insts.as_slice(), 0) {
        Ok(words) => words,
        Err(e) => {
            return Err(e);
        },
    };
    match finalize_bin(words, len) {
        Ok(image) => Ok(bin_hexedln(image)),
        Err(e) => Err(e),
    }
}

impl Config {
    /// A run with the memory of the default length.
    pub fn new(src: String, dest: Option<String>) -> (res: Config)
        ensures
            res == (Config { src, dest, len: DEFAULT_LEN }),
    {
        Config { src, dest, len: DEFAULT_LEN }
    }

    /// Assembles the source text for the memory of this run.
    pub fn assemble(&self, source: &str) -> (res: Result<String, AsmError>)
        ensures
            result_view(res) == assemble_spec(source@, self.len),
    {
        assemble(source, self.len)
    }
}

/// Where a source text generates more words than the memory holds, and every
/// label that is referred to is defined, assembling fails with the error
/// that names the number of words and the length of the memory.
pub proof fn lemma_capacity_violation(source: Seq<char>, len: usize, words: Seq<BinView>)
    requires
        generated_words(source) == Ok::<Seq<BinView>, AsmErrorView>(words),
        all_resolved(words),
        words.len() > len,
    ensures
        assemble_spec(source, len) == Err::<Seq<char>, AsmErrorView>(
            AsmErrorView::CapacityError { generated: words.len(), len: len as nat },
        ),
{
    lemma_all_resolved(words);
}

/// Where a source text generates no more words than the memory holds, and
/// every label that is referred to is defined, the text of the image has
/// exactly `len` lines of nine characters, the line of each generated word
/// is that of the word once patched, and every line behind them reads
/// `00000000`.
pub proof fn lemma_padding(source: Seq<char>, len: usize, words: Seq<BinView>)
    requires
        generated_words(source) == Ok::<Seq<BinView>, AsmErrorView>(words),
        all_resolved(words),
        words.len() <= len,
    ensures
        assemble_spec(source, len) == Ok::<Seq<char>, AsmErrorView>(image_text(words, len)),
        image_text(words, len).len() == 9 * len,
        forall|at: int|
            0 <= at < words.len() ==> #[trigger] line_at(image_text(words, len), at) == hex_line(
                image_word(words, at).word,
            ),
        forall|at: int|
            words.len() <= at < len ==> #[trigger] line_at(image_text(words, len), at)
                == "00000000\n"@,
{
    lemma_all_resolved(words);
    lemma_hexedln_lines(image_spec(words, len));
    lemma_zero_line();
}

} // verus!
