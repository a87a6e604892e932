//! The memory image as text: one line of eight hexadecimal digits for each
//! word.

use vstd::prelude::*;
use crate::codegen::Bin;
use crate::codegen::BinView;
use crate::hex::hex_encode;
use crate::hex::hex_encode_spec;

verus! {

/// The line of a word: its eight digits and a line feed.
pub open spec fn hex_line(word: u32) -> Seq<char> {
    Seq::new(
        9,
        |k: int|
            if k < 8 {
                hex_encode_spec(word)[k] as char
            } else {
                '\n'
            },
    )
}

/// The lines of the words, one after another.
pub open spec fn hexedln_spec(words: Seq<BinView>) -> Seq<char>
    decreases words.len(),
{
    if words.len() == 0 {
        Seq::empty()
    } else {
        hexedln_spec(words.drop_last()) + hex_line(words.last().word)
    }
}

/// The line of a text that begins at the character `9 * at`.
pub open spec fn line_at(text: Seq<char>, at: int) -> Seq<char> {
    text.subrange(9 * at, 9 * at + 9)
}

/// The text of the words has nine characters for each word, and its line at
/// the place of a word is the line of that word.
pub proof fn lemma_hexedln_lines(words: Seq<BinView>)
    ensures
        hexedln_spec(words).len() == 9 * words.len(),
        forall|at: int|
            0 <= at < words.len() ==> #[trigger] line_at(hexedln_spec(words), at) == hex_line(
                words[at].word,
            ),
    decreases words.len(),
{
    if words.len() > 0 {
        let front = words.drop_last();
        lemma_hexedln_lines(front);
        let text = hexedln_spec(words);
        assert forall|at: int| 0 <= at < words.len() implies #[trigger] line_at(text, at)
            == hex_line(words[at].word) by {
            if at < front.len() {
                assert(line_at(text, at) =~= line_at(hexedln_spec(front), at));
                assert(front[at] == words[at]);
            } else {
                assert(line_at(text, at) =~= hex_line(words.last().word));
            }
        }
    }
}

/// The line of the word zero reads `00000000`.
pub proof fn lemma_zero_line()
    ensures
        hex_line(0) == "00000000\n"@,
{
    reveal_strlit("00000000\n");
    reveal_with_fuel(crate::hex::hex_digits, 9);
    assert(hex_line(0) =~= "00000000\n"@);
}

/// Renders the words, each as eight upper-case hexadecimal digits on a line
/// of its own. Every line ends with a line feed, the last one too.
pub fn bin_hexedln(bin: Vec<Bin>) -> (res: String)
    ensures
        res@ == hexedln_spec(bin.deep_view()),
{
    let mut res = String::new();
    let mut at: usize = 0;
    assert(bin.deep_view().subrange(0, 0) =~= Seq::<BinView>::empty());
    while at < bin.len()
        invariant
            at <= bin.len(),
            res@ == hexedln_spec(bin.deep_view().subrange(0, at as int)),
        decreases bin.len() - at,
    {
        let ghost before = res@;
        let ghost word = bin@[at as int].word;
        let digits = hex_encode(bin[at].word);
        let mut k: usize = 0;
        while k < 8
            invariant
                k <= 8,
                digits@ == hex_encode_spec(word),
                digits@.len() == 8,
                res@ == before + hex_line(word).subrange(0, k as int),
            decreases 8 - k,
        {
            res.push(digits[k] as char);
            assert(res@ =~= before + hex_line(word).subrange(0, k as int + 1));
            k += 1;
        }
        res.push('\n');
        assert(res@ =~= before + hex_line(word));
        proof {
            let done = bin.deep_view().subrange(0, at as int);
            let next = bin.deep_view().subrange(0, at as int + 1);
            assert(next.drop_last() =~= done);
            assert(next.last().word == word);
        }
        at += 1;
    }
    assert(bin.deep_view().subrange(0, at as int) =~= bin.deep_view());
    res
}

} // verus!
