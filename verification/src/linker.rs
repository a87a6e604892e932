//! Label resolution and the sizing of the memory image. Each word that refers
//! to a label gets the address of the word that defines the label; then the
//! words are brought to the length of the memory.

use vstd::prelude::*;
use crate::codegen::Bin;
use crate::codegen::BinView;
use crate::codegen::inst_word_spec;
use crate::codegen::lemma_inst_word_fields;
use crate::codegen::plain_word;
use crate::error::AsmError;
use crate::error::AsmErrorView;
use crate::error::result_view;

verus! {

/// The address of a label: the place of the last word that defines it.
pub open spec fn label_address(words: Seq<BinView>, label: Seq<char>) -> Option<int>
    decreases words.len(),
{
    if words.len() == 0 {
        None
    } else if words.last().pointee == Some(label) {
        Some(words.len() - 1)
    } else {
        label_address(words.drop_last(), label)
    }
}

/// The address of a label is the place of a word that defines it, and no
/// word after that one defines it. A label has no address only where no word
/// defines it.
pub proof fn lemma_label_address(words: Seq<BinView>, label: Seq<char>)
    ensures
        match label_address(words, label) {
            Some(at) => {
                &&& 0 <= at < words.len()
                &&& words[at].pointee == Some(label)
                &&& forall|j: int| at < j < words.len() ==> words[j].pointee != Some(label)
            },
            None => forall|j: int| 0 <= j < words.len() ==> words[j].pointee != Some(label),
        },
    decreases words.len(),
{
    if words.len() > 0 && words.last().pointee != Some(label) {
        let front = words.drop_last();
        lemma_label_address(front, label);
        assert(forall|j: int| 0 <= j < front.len() ==> front[j] == words[j]);
    }
}

/// An address as it is put into a word: its low 24 bits.
pub open spec fn address_bits(address: int) -> u32 {
    (address % 0x100_0000) as u32
}

/// The labels that a word refers to.
pub open spec fn references(word: BinView) -> Seq<Seq<char>> {
    match word.pointer {
        Some(labels) => labels,
        None => Seq::empty(),
    }
}

/// The first of the labels that has no address.
pub open spec fn first_undefined(words: Seq<BinView>, labels: Seq<Seq<char>>) -> Option<
    Seq<char>,
>
    decreases labels.len(),
{
    if labels.len() == 0 {
        None
    } else {
        match first_undefined(words, labels.drop_last()) {
            Some(label) => Some(label),
            None => if label_address(words, labels.last()) is None {
                Some(labels.last())
            } else {
                None
            },
        }
    }
}

/// The first label without address that one of the first `upto` words refers
/// to.
pub open spec fn undefined_label(words: Seq<BinView>, upto: int) -> Option<Seq<char>>
    decreases upto,
{
    if upto <= 0 {
        None
    } else {
        match undefined_label(words, upto - 1) {
            Some(label) => Some(label),
            None => first_undefined(words, references(words[upto - 1])),
        }
    }
}

/// The value of a word after the addresses of the labels have been combined
/// into it by bitwise or.
pub open spec fn patch(words: Seq<BinView>, value: u32, labels: Seq<Seq<char>>) -> u32
    decreases labels.len(),
{
    if labels.len() == 0 {
        value
    } else {
        patch(words, value, labels.drop_last()) | address_bits(
            label_address(words, labels.last()).unwrap_or(0),
        )
    }
}

/// The word at `at` of the memory image: the patched word where one was
/// generated, zero behind them. No word of the image refers to a label or
/// defines one.
pub open spec fn image_word(words: Seq<BinView>, at: int) -> BinView {
    if 0 <= at < words.len() {
        plain_word(patch(words, words[at].word, references(words[at])), None)
    } else {
        plain_word(0, None)
    }
}

/// The memory image: `len` words.
pub open spec fn image_spec(words: Seq<BinView>, len: usize) -> Seq<BinView> {
    Seq::new(len as nat, |at: int| image_word(words, at))
}

/// The memory image of `len` words, or why there is none: a label without
/// address, or else more words than the memory holds.
pub open spec fn finalize_spec(words: Seq<BinView>, len: usize) -> Result<
    Seq<BinView>,
    AsmErrorView,
> {
    match undefined_label(words, words.len() as int) {
        Some(label) => Err(AsmErrorView::LinkError { label }),
        None => if words.len() > len {
            Err(AsmErrorView::CapacityError { generated: words.len(), len: len as nat })
        } else {
            Ok(image_spec(words, len))
        },
    }
}

/// Whether every label that a word refers to has an address.
pub open spec fn all_resolved(words: Seq<BinView>) -> bool {
    forall|at: int, k: int|
        0 <= at < words.len() && 0 <= k < references(words[at]).len() ==> label_address(
            words,
            #[trigger] references(words[at])[k],
        ) is Some
}

/// None of the labels lacks an address exactly where each has one; the label
/// that is named lacks one.
proof fn lemma_first_undefined_none(words: Seq<BinView>, labels: Seq<Seq<char>>)
    ensures
        first_undefined(words, labels) is None <==> forall|k: int|
            0 <= k < labels.len() ==> label_address(words, #[trigger] labels[k]) is Some,
        first_undefined(words, labels) matches Some(label) ==> label_address(words, label)
            is None,
    decreases labels.len(),
{
    if labels.len() > 0 {
        let front = labels.drop_last();
        lemma_first_undefined_none(words, front);
        assert(forall|k: int| 0 <= k < front.len() ==> front[k] == labels[k]);
        if first_undefined(words, front) is None && label_address(words, labels.last()) is Some {
            assert forall|k: int| 0 <= k < labels.len() implies label_address(
                words,
                #[trigger] labels[k],
            ) is Some by {
                if k < front.len() {
                    assert(front[k] == labels[k]);
                }
            }
        }
    }
}

/// No label of the first `upto` words lacks an address exactly where each
/// has one; the label that is named lacks one.
proof fn lemma_undefined_label_none(words: Seq<BinView>, upto: int)
    requires
        0 <= upto <= words.len(),
    ensures
        undefined_label(words, upto) is None <==> forall|at: int, k: int|
            0 <= at < upto && 0 <= k < references(words[at]).len() ==> label_address(
                words,
                #[trigger] references(words[at])[k],
            ) is Some,
        undefined_label(words, upto) matches Some(label) ==> label_address(words, label)
            is None,
    decreases upto,
{
    if upto > 0 {
        lemma_undefined_label_none(words, upto - 1);
        lemma_first_undefined_none(words, references(words[upto - 1]));
    }
}

/// Resolving names a label exactly where some word refers to a label that no
/// word defines, and the label that it names is not defined.
pub proof fn lemma_all_resolved(words: Seq<BinView>)
    ensures
        undefined_label(words, words.len() as int) is None <==> all_resolved(words),
        undefined_label(words, words.len() as int) matches Some(label) ==> forall|j: int|
            0 <= j < words.len() ==> words[j].pointee != Some(label),
{
    lemma_undefined_label_none(words, words.len() as int);
    match undefined_label(words, words.len() as int) {
        Some(label) => {
            lemma_label_address(words, label);
        },
        None => {},
    }
}

/// When there is an image, and which error there is when there is none: a
/// link error exactly where a label lacks its definition; else a capacity
/// error exactly where there are more words than `len`; else an image of
/// `len` words.
pub proof fn lemma_finalize_cases(words: Seq<BinView>, len: usize)
    ensures
        finalize_spec(words, len) is Ok <==> all_resolved(words) && words.len() <= len,
        finalize_spec(words, len) matches Ok(image) ==> image.len() == len,
        finalize_spec(words, len) matches Err(e) ==> (e is LinkError <==> !all_resolved(words)),
        finalize_spec(words, len) matches Err(e) ==> (e is CapacityError <==> all_resolved(words)
            && words.len() > len),
{
    lemma_all_resolved(words);
}

/// A reference to a label that no word defines makes resolving fail.
pub proof fn lemma_unresolved_reference(words: Seq<BinView>, len: usize, at: int, k: int)
    requires
        0 <= at < words.len(),
        0 <= k < references(words[at]).len(),
        forall|j: int| 0 <= j < words.len() ==> words[j].pointee != Some(references(words[at])[k]),
    ensures
        finalize_spec(words, len) matches Err(e) && e is LinkError,
{
    let label = references(words[at])[k];
    lemma_label_address(words, label);
    lemma_all_resolved(words);
    assert(label_address(words, references(words[at])[k]) is None);
}

/// Patching leaves the indirect flag and the opcode of a word as they are.
pub proof fn lemma_patch_keeps_opcode(words: Seq<BinView>, value: u32, labels: Seq<Seq<char>>)
    ensures
        patch(words, value, labels) & 0xff00_0000 == value & 0xff00_0000,
    decreases labels.len(),
{
    if labels.len() > 0 {
        lemma_patch_keeps_opcode(words, value, labels.drop_last());
        let before = patch(words, value, labels.drop_last());
        let bits = address_bits(label_address(words, labels.last()).unwrap_or(0));
        assert(bits < 0x100_0000);
        assert((before | bits) & 0xff00_0000 == before & 0xff00_0000) by (bit_vector)
            requires
                bits < 0x100_0000,
        ;
    }
}

/// A word whose value field is zero and that refers to one label holds, once
/// patched, the address of the label in its value field.
pub proof fn lemma_patch_sets_address(words: Seq<BinView>, value: u32, label: Seq<char>)
    requires
        value & 0xff_ffff == 0,
        label_address(words, label) is Some,
    ensures
        patch(words, value, seq![label]) & 0xff_ffff == address_bits(
            label_address(words, label).unwrap(),
        ),
{
    let labels = seq![label];
    assert(labels.drop_last() =~= Seq::<Seq<char>>::empty());
    assert(patch(words, value, labels.drop_last()) == value);
    let bits = address_bits(label_address(words, label).unwrap());
    assert(bits < 0x100_0000);
    assert((value | bits) & 0xff_ffff == bits) by (bit_vector)
        requires
            value & 0xff_ffff == 0,
            bits < 0x100_0000,
    ;
}

/// The word of an opcode instruction that refers to a label holds, once
/// patched, the indirect flag in bit 31, the opcode in bits 30 to 24 and the
/// low 24 bits of the address of the label below them.
pub proof fn lemma_reference_word_fields(
    words: Seq<BinView>,
    opcode: u32,
    indirect: u32,
    label: Seq<char>,
)
    requires
        opcode < 128,
        indirect <= 1,
        label_address(words, label) is Some,
    ensures
        patch(words, inst_word_spec(0, opcode, indirect), seq![label]) >> 31u32 == indirect,
        (patch(words, inst_word_spec(0, opcode, indirect), seq![label]) >> 24u32) & 0x7f
            == opcode,
        patch(words, inst_word_spec(0, opcode, indirect), seq![label]) & 0xff_ffff
            == address_bits(label_address(words, label).unwrap()),
{
    let word = inst_word_spec(0, opcode, indirect);
    let patched = patch(words, word, seq![label]);
    lemma_inst_word_fields(0, opcode, indirect);
    lemma_patch_keeps_opcode(words, word, seq![label]);
    lemma_patch_sets_address(words, word, label);
    assert(patched >> 31u32 == word >> 31u32 && (patched >> 24u32) & 0x7f == (word >> 24u32)
        & 0x7f) by (bit_vector)
        requires
            patched & 0xff00_0000 == word & 0xff00_0000,
    ;
}

/// The address of a label among the words.
pub fn find_label(bin: &Vec<Bin>, label: &String) -> (res: Option<usize>)
    ensures
        match res {
            Some(at) => label_address(bin.deep_view(), label@) == Some(at as int),
            None => label_address(bin.deep_view(), label@) is None,
        },
{
    let mut k: usize = bin.len();
    assert(bin.deep_view().subrange(0, k as int) =~= bin.deep_view());
    while k > 0
        invariant
            k <= bin.len(),
            label_address(bin.deep_view(), label@) == label_address(
                bin.deep_view().subrange(0, k as int),
                label@,
            ),
        decreases k,
    {
        let ghost part = bin.deep_view().subrange(0, k as int);
        k -= 1;
        assert(part.drop_last() =~= bin.deep_view().subrange(0, k as int));
        assert(part.last() == bin@[k as int].deep_view());
        match &bin[k].pointee {
            Some(name) => {
                if *name == *label {
                    return Some(k);
                }
            },
            None => {},
        }
    }
    None
}

/// The value of a word once the addresses of its labels are in it, or the
/// first of its labels that has no address.
fn patch_word(bin: &Vec<Bin>, at: usize) -> (res: Result<u32, String>)
    requires
        at < bin.len(),
    ensures
        match res {
            Ok(value) => {
                &&& first_undefined(bin.deep_view(), references(bin.deep_view()[at as int]))
                    is None
                &&& value == patch(
                    bin.deep_view(),
                    bin.deep_view()[at as int].word,
                    references(bin.deep_view()[at as int]),
                )
            },
            Err(label) => first_undefined(
                bin.deep_view(),
                references(bin.deep_view()[at as int]),
            ) == Some(label@),
        },
{
    let mut value: u32 = bin[at].word;
    match &bin[at].pointer {
        None => Ok(value),
        Some(labels) => {
            let ghost all = labels.deep_view();
            assert(all == references(bin.deep_view()[at as int]));
            let mut j: usize = 0;
            assert(all.subrange(0, 0) =~= Seq::<Seq<char>>::empty());
            while j < labels.len()
                invariant
                    j <= labels.len(),
                    at < bin.len(),
                    all == labels.deep_view(),
                    all == references(bin.deep_view()[at as int]),
                    first_undefined(bin.deep_view(), all.subrange(0, j as int)) is None,
                    value == patch(bin.deep_view(), bin@[at as int].word, all.subrange(0, j as int)),
                decreases labels.len() - j,
            {
                let ghost done = all.subrange(0, j as int);
                let ghost next = all.subrange(0, j as int + 1);
                assert(next.drop_last() =~= done);
                assert(next.last() == labels@[j as int]@);
                match find_label(bin, &labels[j]) {
                    None => {
                        proof {
                            lemma_first_undefined_prefix(bin.deep_view(), all, j as int + 1);
                        }
                        return Err(labels[j].clone());
                    },
                    Some(address) => {
                        value = value | (address % 0x100_0000) as u32;
                    },
                }
                j += 1;
            }
            assert(all.subrange(0, j as int) =~= all);
            Ok(value)
        },
    }
}

/// A label without address among a beginning of the labels is the first such
/// label among all of them.
proof fn lemma_first_undefined_prefix(words: Seq<BinView>, labels: Seq<Seq<char>>, k: int)
    requires
        0 <= k <= labels.len(),
        first_undefined(words, labels.subrange(0, k)) is Some,
    ensures
        first_undefined(words, labels) == first_undefined(words, labels.subrange(0, k)),
    decreases labels.len() - k,
{
    if k == labels.len() {
        assert(labels.subrange(0, k) =~= labels);
    } else {
        assert(labels.drop_last().subrange(0, k) =~= labels.subrange(0, k));
        lemma_first_undefined_prefix(words, labels.drop_last(), k);
    }
}

/// A label without address among the first words is the first such label
/// among all of them.
proof fn lemma_undefined_label_prefix(words: Seq<BinView>, k: int, upto: int)
    requires
        0 <= k <= upto,
        undefined_label(words, k) is Some,
    ensures
        undefined_label(words, upto) == undefined_label(words, k),
    decreases upto - k,
{
    if k < upto {
        lemma_undefined_label_prefix(words, k, upto - 1);
    }
}

/// Resolves the labels and brings the words to the length of the memory.
///
/// A label that is referred to and nowhere defined ends the run: the error
/// names the first such label, in the order of the words. More words than
/// `len` end it too, after that. Else each word holds its value combined
/// with the addresses of its labels, and words of zero fill the image up to
/// `len`.
pub fn finalize_bin(bin: Vec<Bin>, len: usize) -> (res: Result<Vec<Bin>, AsmError>)
    ensures
        result_view(res) == finalize_spec(bin.deep_view(), len),
{
    let ghost words = bin.deep_view();
    let mut image: Vec<Bin> = Vec::new();
    let mut at: usize = 0;
    while at < bin.len()
        invariant
            at <= bin.len(),
            words == bin.deep_view(),
            undefined_label(words, at as int) is None,
            image.len() == at,
            forall|k: int| 0 <= k < at ==> image@[k].deep_view() == image_word(words, k),
        decreases bin.len() - at,
    {
        match patch_word(&bin, at) {
            Err(label) => {
                proof {
                    lemma_undefined_label_prefix(words, at as int + 1, words.len() as int);
                }
                return Err(AsmError::LinkError { label });
            },
            Ok(value) => {
                image.push(Bin::new(value, None, None));
            },
        }
        at += 1;
    }
    if bin.len() > len {
        return Err(AsmError::CapacityError { generated: bin.len(), len });
    }
    while image.len() < len
        invariant
            bin.len() <= image.len() <= len,
            words == bin.deep_view(),
            forall|k: int| 0 <= k < image.len() ==> image@[k].deep_view() == image_word(words, k),
        decreases len - image.len(),
    {
        image.push(Bin::new(0, None, None));
    }
    assert(image.deep_view() =~= image_spec(words, len));
    Ok(image)
}

} // verus!
