//! Encoding of instructions into memory words.

use vstd::prelude::*;
use vstd::pervasive::unreached;
use crate::error::AsmError;
use crate::error::AsmErrorView;
use crate::error::SyntaxError;
use crate::error::SyntaxErrorView;
use crate::error::UnsupportedFeature;
use crate::error::result_view;
use crate::instruction::Flags;
use crate::instruction::Instruction;
use crate::instruction::InstructionView;
use crate::instruction::InstType;
use crate::instruction::InstTypeView;
use crate::instruction::Param;
use crate::instruction::ParamView;
use crate::instruction::is_indirect_spec;
use crate::instruction::opcode_spec;
use crate::literal::parse_value;
use crate::literal::parse_value_spec;
use crate::text::text_is;
use crate::text::to_chars;

verus! {

/// The word of an opcode instruction: the indirect flag in bit 31, the opcode
/// in bits 30 to 24 and the value in the low 24 bits. The three parts are
/// combined as they are given; nothing is masked.
pub open spec fn inst_word_spec(value: u32, opcode: u32, i: u32) -> u32 {
    (((i << 7u32) | opcode) << 24u32) | value
}

/// Packs an indirect flag, an opcode and a value into one word.
pub fn inst_word(value: u32, opcode: u32, i: u32) -> (word: u32)
    ensures
        word == inst_word_spec(value, opcode, i),
{
    let mut res: u32 = 0;
    res = res | i;
    assert(0u32 | i == i) by (bit_vector);
    res = (res << 7) | opcode;
    res = (res << 24) | value;
    res
}

/// A word packed from parts that fit their fields gives each part back.
pub proof fn lemma_inst_word_fields(value: u32, opcode: u32, i: u32)
    requires
        value < 0x100_0000,
        opcode < 128,
        i <= 1,
    ensures
        inst_word_spec(value, opcode, i) >> 31u32 == i,
        (inst_word_spec(value, opcode, i) >> 24u32) & 0x7f == opcode,
        inst_word_spec(value, opcode, i) & 0xff_ffff == value,
{
    assert(((((i << 7u32) | opcode) << 24u32) | value) >> 31u32 == i) by (bit_vector)
        requires
            value < 0x100_0000,
            opcode < 128,
            i <= 1,
    ;
    assert((((((i << 7u32) | opcode) << 24u32) | value) >> 24u32) & 0x7f == opcode)
        by (bit_vector)
        requires
            value < 0x100_0000,
            opcode < 128,
            i <= 1,
    ;
    assert(((((i << 7u32) | opcode) << 24u32) | value) & 0xff_ffff == value) by (bit_vector)
        requires
            value < 0x100_0000,
            opcode < 128,
            i <= 1,
    ;
}

/// One word of memory as it is generated: its value, the labels whose
/// addresses are still to be patched into it, and the label whose address is
/// the place of this word.
#[derive(Debug, PartialEq, Eq)]
pub struct Bin {
    /// The value.
    pub word: u32,
    /// The labels that the word refers to.
    pub pointer: Option<Vec<String>>,
    /// The label that the word defines.
    pub pointee: Option<String>,
}

/// The mathematical value of a `Bin`.
pub struct BinView {
    pub word: u32,
    pub pointer: Option<Seq<Seq<char>>>,
    pub pointee: Option<Seq<char>>,
}

impl DeepView for Bin {
    type V = BinView;

    open spec fn deep_view(&self) -> BinView {
        BinView {
            word: self.word,
            pointer: self.pointer.deep_view(),
            pointee: self.pointee.deep_view(),
        }
    }
}

/// The operand that is encoded: the first, or an empty literal where the
/// instruction has none.
pub open spec fn first_param(params: Seq<ParamView>) -> ParamView {
    if params.len() > 0 {
        params[0]
    } else {
        ParamView::Literal(Seq::empty())
    }
}

/// A word without reference that defines `label`.
pub open spec fn plain_word(word: u32, label: Option<Seq<char>>) -> BinView {
    BinView { word, pointer: None, pointee: label }
}

/// A word that refers to `target` and defines `label`.
pub open spec fn reference_word(word: u32, target: Seq<char>, label: Option<Seq<char>>) -> BinView {
    BinView { word, pointer: Some(seq![target]), pointee: label }
}

/// The words of a string: one for each character, holding its code point
/// modulo 256; the first defines `label`.
pub open spec fn text_words(text: Seq<char>, label: Option<Seq<char>>) -> Seq<BinView> {
    Seq::new(
        text.len(),
        |k: int|
            plain_word(
                (text[k] as u32 % 256) as u32,
                if k == 0 {
                    label
                } else {
                    None
                },
            ),
    )
}

/// The bit of the indirect flag.
pub open spec fn indirect_bit(flags: Seq<char>) -> u32 {
    if is_indirect_spec(flags) {
        1
    } else {
        0
    }
}

/// The words of a directive.
pub open spec fn encode_directive_spec(
    name: Seq<char>,
    operand: ParamView,
    label: Option<Seq<char>>,
) -> Result<Seq<BinView>, AsmErrorView> {
    if name == ".zero"@ {
        Ok(seq![plain_word(0, label)])
    } else if name == ".data"@ {
        match operand {
            ParamView::StringLiteral(text) => Ok(text_words(text, label)),
            ParamView::Label(target) => Ok(seq![reference_word(0, target, label)]),
            ParamView::Literal(text) => match parse_value_spec(text) {
                Ok(value) => Ok(seq![plain_word(value, label)]),
                Err(e) => Err(e),
            },
            _ => Err(AsmErrorView::SyntaxError(SyntaxErrorView::InvalidDataOperand)),
        }
    } else {
        Err(AsmErrorView::SyntaxError(SyntaxErrorView::UnknownInstruction(name)))
    }
}

/// The word of an opcode instruction.
pub open spec fn encode_opcode_spec(
    opcode: u32,
    flags: Seq<char>,
    operand: ParamView,
    label: Option<Seq<char>>,
) -> Result<Seq<BinView>, AsmErrorView> {
    match operand {
        ParamView::Literal(text) => match parse_value_spec(text) {
            Ok(value) => Ok(seq![plain_word(inst_word_spec(value, opcode, indirect_bit(flags)), label)]),
            Err(e) => Err(e),
        },
        ParamView::Indirect(text) => match parse_value_spec(text) {
            Ok(value) => Ok(seq![plain_word(inst_word_spec(value, opcode, 1), label)]),
            Err(e) => Err(e),
        },
        ParamView::Label(target) => Ok(
            seq![reference_word(inst_word_spec(0, opcode, indirect_bit(flags)), target, label)],
        ),
        ParamView::Expression(_) => Err(
            AsmErrorView::UnsupportedFeature(UnsupportedFeature::ExpressionOperand),
        ),
        ParamView::StringLiteral(_) => Err(
            AsmErrorView::SyntaxError(SyntaxErrorView::InvalidOperand),
        ),
    }
}

/// The words of one instruction, or why it cannot be encoded.
pub open spec fn encode_spec(inst: InstructionView) -> Result<Seq<BinView>, AsmErrorView> {
    match inst.t {
        InstTypeView::Dot(name) => encode_directive_spec(
            name,
            first_param(inst.params),
            inst.label,
        ),
        _ => encode_opcode_spec(
            opcode_spec(inst.t).unwrap(),
            inst.flags,
            first_param(inst.params),
            inst.label,
        ),
    }
}

/// The words of the instructions one after another, or the error of the first
/// instruction that cannot be encoded.
pub open spec fn generate_spec(insts: Seq<InstructionView>) -> Result<Seq<BinView>, AsmErrorView>
    decreases insts.len(),
{
    if insts.len() == 0 {
        Ok(Seq::empty())
    } else {
        match generate_spec(insts.drop_last()) {
            Err(e) => Err(e),
            Ok(words) => match encode_spec(insts.last()) {
                Err(e) => Err(e),
                Ok(more) => Ok(words + more),
            },
        }
    }
}

/// Whether a word that refers to labels refers to exactly one and has
/// nothing in its value field, so that the address can be combined into it.
pub open spec fn is_placeholder(word: BinView) -> bool {
    word.pointer matches Some(labels) ==> labels.len() == 1 && word.word & 0xff_ffff == 0
}

/// Every word that code generation gives with a reference is a placeholder.
pub proof fn lemma_generate_placeholders(insts: Seq<InstructionView>)
    ensures
        generate_spec(insts) matches Ok(words) ==> forall|k: int|
            0 <= k < words.len() ==> is_placeholder(#[trigger] words[k]),
    decreases insts.len(),
{
    if insts.len() > 0 {
        lemma_generate_placeholders(insts.drop_last());
        lemma_encode_placeholders(insts.last());
    }
}

/// Every word that an instruction gives with a reference is a placeholder.
pub proof fn lemma_encode_placeholders(inst: InstructionView)
    ensures
        encode_spec(inst) matches Ok(words) ==> forall|k: int|
            0 <= k < words.len() ==> is_placeholder(#[trigger] words[k]),
{
    assert(0u32 & 0xff_ffff == 0) by (bit_vector);
    assert(forall|opcode: u32, i: u32|
        #![trigger inst_word_spec(0, opcode, i)]
        inst_word_spec(0, opcode, i) & 0xff_ffff == 0) by {
        assert(forall|opcode: u32, i: u32|
            (#[trigger] (((i << 7u32) | opcode) << 24u32) | 0u32) & 0xff_ffff == 0)
            by (bit_vector);
    }
}

/// A copy of the label.
fn clone_label(label: &Option<String>) -> (res: Option<String>)
    ensures
        res == *label,
{
    match label {
        Some(name) => Some(name.clone()),
        None => None,
    }
}

/// The one word as a vector.
fn single(word: Bin) -> (res: Vec<Bin>)
    ensures
        res.deep_view() == seq![word.deep_view()],
{
    let mut res: Vec<Bin> = Vec::new();
    res.push(word);
    assert(res.deep_view() =~= seq![word.deep_view()]);
    res
}

/// A reference to the one label.
fn reference(target: &String) -> (res: Option<Vec<String>>)
    ensures
        res.deep_view() == Some(seq![target@]),
{
    let mut names: Vec<String> = Vec::new();
    names.push(target.clone());
    assert(names.deep_view() =~= seq![target@]);
    Some(names)
}

/// The words of a string, the first with the label.
fn text_to_words(text: &String, label: &Option<String>) -> (res: Vec<Bin>)
    ensures
        res.deep_view() == text_words(text@, label.deep_view()),
{
    let chars = to_chars(text.as_str());
    let mut res: Vec<Bin> = Vec::new();
    let mut k: usize = 0;
    while k < chars.len()
        invariant
            k <= chars.len(),
            chars@ == text@,
            res.deep_view() == text_words(text@, label.deep_view()).subrange(0, k as int),
        decreases chars.len() - k,
    {
        let value: u32 = chars[k] as u32 % 256;
        let pointee = if k == 0 {
            clone_label(label)
        } else {
            None
        };
        let ghost before = res.deep_view();
        res.push(Bin::new(value, None, pointee));
        assert(res.deep_view() =~= before.push(res@[k as int].deep_view()));
        k += 1;
        assert(res.deep_view() =~= text_words(text@, label.deep_view()).subrange(0, k as int));
    }
    assert(res.deep_view() =~= text_words(text@, label.deep_view()));
    res
}

/// The words of the directive of the given name.
fn encode_directive(name: &String, operand: &Param, label: &Option<String>) -> (res: Result<
    Vec<Bin>,
    AsmError,
>)
    ensures
        result_view(res) == encode_directive_spec(name@, operand.deep_view(), label.deep_view()),
{
    if text_is(name.as_str(), ".zero") {
        Ok(single(Bin::new(0, None, clone_label(label))))
    } else if text_is(name.as_str(), ".data") {
        match operand {
            Param::StringLiteral(text) => Ok(text_to_words(text, label)),
            Param::Label(target) => Ok(
                single(Bin::new(0, reference(target), clone_label(label))),
            ),
            Param::Literal(text) => match parse_value(text.as_str()) {
                Ok(value) => Ok(single(Bin::new(value, None, clone_label(label)))),
                Err(e) => Err(e),
            },
            _ => Err(AsmError::SyntaxError(SyntaxError::InvalidDataOperand)),
        }
    } else {
        Err(AsmError::SyntaxError(SyntaxError::UnknownInstruction(name.clone())))
    }
}

/// The word of the instruction with the given opcode.
fn encode_opcode(opcode: u32, flags: &Flags, operand: &Param, label: &Option<String>) -> (res:
    Result<Vec<Bin>, AsmError>)
    ensures
        result_view(res) == encode_opcode_spec(
            opcode,
            flags.deep_view(),
            operand.deep_view(),
            label.deep_view(),
        ),
{
    let indirect: u32 = if flags.is_indirect() {
        1
    } else {
        0
    };
    match operand {
        Param::Literal(text) => match parse_value(text.as_str()) {
            Ok(value) => Ok(
                single(Bin::new(inst_word(value, opcode, indirect), None, clone_label(label))),
            ),
            Err(e) => Err(e),
        },
        Param::Indirect(text) => match parse_value(text.as_str()) {
            Ok(value) => Ok(single(Bin::new(inst_word(value, opcode, 1), None, clone_label(label)))),
            Err(e) => Err(e),
        },
        Param::Label(target) => Ok(
            single(
                Bin::new(inst_word(0, opcode, indirect), reference(target), clone_label(label)),
            ),
        ),
        Param::Expression(_) => Err(
            AsmError::UnsupportedFeature(UnsupportedFeature::ExpressionOperand),
        ),
        Param::StringLiteral(_) => Err(AsmError::SyntaxError(SyntaxError::InvalidOperand)),
    }
}

impl Bin {
    /// A word with the given value, references and label.
    pub fn new(word: u32, pointer: Option<Vec<String>>, pointee: Option<String>) -> (res: Self)
        ensures
            res == (Bin { word, pointer, pointee }),
    {
        Self { word, pointer, pointee }
    }

    /// The words of one instruction. Only the first operand counts; an
    /// instruction without operands is encoded as with an empty literal.
    pub fn encode(inst: &Instruction) -> (res: Result<Vec<Bin>, AsmError>)
        ensures
            result_view(res) == encode_spec(inst.deep_view()),
    {
        let empty = Param::Literal(String::new());
        let operand: &Param = if inst.params.len() > 0 {
            &inst.params[0]
        } else {
            &empty
        };
        assert(operand.deep_view() == first_param(inst.deep_view().params));
        match &inst.t {
            InstType::Dot(name) => encode_directive(name, operand, &inst.label),
            kind => match kind.opcode() {
                Some(opcode) => encode_opcode(opcode, &inst.flags, operand, &inst.label),
                None => unreached(),
            },
        }
    }

    /// The words of the instructions, in order. The first instruction that
    /// cannot be encoded ends the run with its error. `offset` is the address
    /// that the first word will have; no word depends on it.
    pub fn from(src: &[Instruction], offset: u32) -> (res: Result<Vec<Self>, AsmError>)
        ensures
            result_view(res) == generate_spec(src.deep_view()),
    {
        let mut bin: Vec<Bin> = Vec::new();
        let mut k: usize = 0;
        assert(src.deep_view().subrange(0, 0) =~= Seq::<InstructionView>::empty());
        assert(bin.deep_view() =~= Seq::<BinView>::empty());
        while k < src.len()
            invariant
                k <= src.len(),
                generate_spec(src.deep_view().subrange(0, k as int)) == Ok::<
                    Seq<BinView>,
                    AsmErrorView,
                >(bin.deep_view()),
            decreases src.len() - k,
        {
            let ghost done = src.deep_view().subrange(0, k as int);
            let ghost next = src.deep_view().subrange(0, k as int + 1);
            assert(next.drop_last() =~= done);
            assert(next.last() == src@[k as int].deep_view());
            match Bin::encode(&src[k]) {
                Err(e) => {
                    proof {
                        lemma_generate_error(src.deep_view(), k as int + 1);
                    }
                    return Err(e);
                },
                Ok(mut words) => {
                    let ghost before = bin.deep_view();
                    let ghost more = words.deep_view();
                    bin.append(&mut words);
                    assert(bin.deep_view() =~= before + more);
                },
            }
            k += 1;
        }
        assert(src.deep_view().subrange(0, k as int) =~= src.deep_view());
        Ok(bin)
    }
}

/// Once a beginning of the instructions fails, the whole fails in the same
/// way.
pub proof fn lemma_generate_error(insts: Seq<InstructionView>, k: int)
    requires
        0 <= k <= insts.len(),
        generate_spec(insts.subrange(0, k)) is Err,
    ensures
        generate_spec(insts) == generate_spec(insts.subrange(0, k)),
    decreases insts.len() - k,
{
    if k == insts.len() {
        assert(insts.subrange(0, k) =~= insts);
    } else {
        assert(insts.drop_last().subrange(0, k) =~= insts.subrange(0, k));
        lemma_generate_error(insts.drop_last(), k);
    }
}

} // verus!
