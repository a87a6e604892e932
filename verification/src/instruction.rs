//! Instructions as the parser leaves them: the kind, the flags, the label
//! that the instruction defines and its operands.

use vstd::prelude::*;
use crate::text::from_chars;
use crate::text::range_is;

verus! {

/// The kind of an instruction: a directive with its name, or an opcode.
#[derive(Debug, PartialEq, Eq)]
pub enum InstType {
    /// A directive, `.zero` or `.data`.
    Dot(String),
    And,
    Or,
    Inc,
    Dec,
    Add,
    Sub,
    Xor,
    Not,
    Shr,
    Ashr,
    Ror,
    Rcr,
    Shl,
    Ashl,
    Rol,
    Rcl,
    /// Halts the machine.
    Hlt,
    /// Loads the accumulator.
    Lac,
    /// Loads the temporary register.
    Ltr,
    /// Writes the accumulator to memory.
    Wac,
    /// Reads memory at the accumulator into the accumulator.
    Rac,
    /// Jumps.
    Jmp,
    /// Jumps if the zero flag is set.
    Je,
    /// Jumps if the zero flag is clear.
    Jne,
    /// Jumps if the sign flag is clear.
    Jg,
    /// Jumps if the sign flag is set.
    Jl,
    /// Sends the accumulator to the output register.
    Out,
    /// Enables interrupts.
    Ion,
    /// Disables interrupts.
    Iof,
    /// Does nothing.
    Nop,
}

/// The mathematical value of an `InstType`.
pub enum InstTypeView {
    Dot(Seq<char>),
    And,
    Or,
    Inc,
    Dec,
    Add,
    Sub,
    Xor,
    Not,
    Shr,
    Ashr,
    Ror,
    Rcr,
    Shl,
    Ashl,
    Rol,
    Rcl,
    Hlt,
    Lac,
    Ltr,
    Wac,
    Rac,
    Jmp,
    Je,
    Jne,
    Jg,
    Jl,
    Out,
    Ion,
    Iof,
    Nop,
}

impl DeepView for InstType {
    type V = InstTypeView;

    open spec fn deep_view(&self) -> InstTypeView {
        match *self {
            InstType::Dot(name) => InstTypeView::Dot(name@),
            InstType::And => InstTypeView::And,
            InstType::Or => InstTypeView::Or,
            InstType::Inc => InstTypeView::Inc,
            InstType::Dec => InstTypeView::Dec,
            InstType::Add => InstTypeView::Add,
            InstType::Sub => InstTypeView::Sub,
            InstType::Xor => InstTypeView::Xor,
            InstType::Not => InstTypeView::Not,
            InstType::Shr => InstTypeView::Shr,
            InstType::Ashr => InstTypeView::Ashr,
            InstType::Ror => InstTypeView::Ror,
            InstType::Rcr => InstTypeView::Rcr,
            InstType::Shl => InstTypeView::Shl,
            InstType::Ashl => InstTypeView::Ashl,
            InstType::Rol => InstTypeView::Rol,
            InstType::Rcl => InstTypeView::Rcl,
            InstType::Hlt => InstTypeView::Hlt,
            InstType::Lac => InstTypeView::Lac,
            InstType::Ltr => InstTypeView::Ltr,
            InstType::Wac => InstTypeView::Wac,
            InstType::Rac => InstTypeView::Rac,
            InstType::Jmp => InstTypeView::Jmp,
            InstType::Je => InstTypeView::Je,
            InstType::Jne => InstTypeView::Jne,
            InstType::Jg => InstTypeView::Jg,
            InstType::Jl => InstTypeView::Jl,
            InstType::Out => InstTypeView::Out,
            InstType::Ion => InstTypeView::Ion,
            InstType::Iof => InstTypeView::Iof,
            InstType::Nop => InstTypeView::Nop,
        }
    }
}

/// The number of each opcode; a directive has none.
pub open spec fn opcode_spec(t: InstTypeView) -> Option<u32> {
    match t {
        InstTypeView::Dot(_) => None,
        InstTypeView::And => Some(0u32),
        InstTypeView::Or => Some(1u32),
        InstTypeView::Inc => Some(2u32),
        InstTypeView::Dec => Some(3u32),
        InstTypeView::Add => Some(4u32),
        InstTypeView::Sub => Some(5u32),
        InstTypeView::Xor => Some(6u32),
        InstTypeView::Not => Some(7u32),
        InstTypeView::Shr => Some(8u32),
        InstTypeView::Ashr => Some(9u32),
        InstTypeView::Ror => Some(10u32),
        InstTypeView::Rcr => Some(11u32),
        InstTypeView::Shl => Some(12u32),
        InstTypeView::Ashl => Some(13u32),
        InstTypeView::Rol => Some(14u32),
        InstTypeView::Rcl => Some(15u32),
        InstTypeView::Wac => Some(16u32),
        InstTypeView::Jmp => Some(17u32),
        InstTypeView::Je => Some(18u32),
        InstTypeView::Jne => Some(19u32),
        InstTypeView::Jg => Some(20u32),
        InstTypeView::Jl => Some(21u32),
        InstTypeView::Rac => Some(22u32),
        InstTypeView::Nop => Some(121u32),
        InstTypeView::Iof => Some(122u32),
        InstTypeView::Ion => Some(123u32),
        InstTypeView::Out => Some(124u32),
        InstTypeView::Ltr => Some(125u32),
        InstTypeView::Lac => Some(126u32),
        InstTypeView::Hlt => Some(127u32),
    }
}

/// Every opcode number fits the seven bits that a word has for it.
pub proof fn lemma_opcode_range(t: InstTypeView)
    ensures
        opcode_spec(t) matches Some(n) ==> n < 128,
        opcode_spec(t) is None <==> t is Dot,
{
}

impl InstType {
    /// The number of the opcode; `None` for a directive.
    pub fn opcode(&self) -> (res: Option<u32>)
        ensures
            res == opcode_spec(self.deep_view()),
    {
        match self {
            InstType::Dot(_) => None,
            InstType::And => Some(0),
            InstType::Or => Some(1),
            InstType::Inc => Some(2),
            InstType::Dec => Some(3),
            InstType::Add => Some(4),
            InstType::Sub => Some(5),
            InstType::Xor => Some(6),
            InstType::Not => Some(7),
            InstType::Shr => Some(8),
            InstType::Ashr => Some(9),
            InstType::Ror => Some(10),
            InstType::Rcr => Some(11),
            InstType::Shl => Some(12),
            InstType::Ashl => Some(13),
            InstType::Rol => Some(14),
            InstType::Rcl => Some(15),
            InstType::Wac => Some(16),
            InstType::Jmp => Some(17),
            InstType::Je => Some(18),
            InstType::Jne => Some(19),
            InstType::Jg => Some(20),
            InstType::Jl => Some(21),
            InstType::Rac => Some(22),
            InstType::Nop => Some(121),
            InstType::Iof => Some(122),
            InstType::Ion => Some(123),
            InstType::Out => Some(124),
            InstType::Ltr => Some(125),
            InstType::Lac => Some(126),
            InstType::Hlt => Some(127),
        }
    }
}

/// The addressing modifiers of an instruction, one character each. Only `i`,
/// for indirect addressing, means anything.
#[derive(Debug, PartialEq, Eq)]
pub struct Flags(pub Vec<char>);

impl DeepView for Flags {
    type V = Seq<char>;

    open spec fn deep_view(&self) -> Seq<char> {
        self.0@
    }
}

/// Whether the modifiers ask for indirect addressing.
pub open spec fn is_indirect_spec(flags: Seq<char>) -> bool {
    flags.contains('i')
}

impl Flags {
    /// No modifier.
    pub fn none() -> (res: Flags)
        ensures
            res.deep_view() == Seq::<char>::empty(),
    {
        Flags(Vec::new())
    }

    /// The modifier for indirect addressing alone.
    pub fn indirect() -> (res: Flags)
        ensures
            res.deep_view() == seq!['i'],
    {
        let mut v: Vec<char> = Vec::new();
        v.push('i');
        assert(v@ =~= seq!['i']);
        Flags(v)
    }

    /// Whether the modifier for indirect addressing is among them.
    pub fn is_indirect(&self) -> (res: bool)
        ensures
            res == is_indirect_spec(self.deep_view()),
    {
        let mut k: usize = 0;
        while k < self.0.len()
            invariant
                k <= self.0.len(),
                forall|j: int| 0 <= j < k ==> self.0@[j] != 'i',
            decreases self.0.len() - k,
        {
            if self.0[k] == 'i' {
                return true;
            }
            k += 1;
        }
        false
    }
}

/// An operand, classified by its form.
#[derive(Debug, PartialEq, Eq)]
pub enum Param {
    /// An expression. Reserved: no source text gives one, and none can be
    /// encoded.
    Expression(Box<Param>),
    /// A numeric literal, not yet read.
    Literal(String),
    /// A reference to a label, by its name.
    Label(String),
    /// A numeric literal in square brackets, for indirect addressing.
    Indirect(String),
    /// The text of a string in double quotes.
    StringLiteral(String),
}

/// The mathematical value of a `Param`.
pub enum ParamView {
    Expression(Box<ParamView>),
    Literal(Seq<char>),
    Label(Seq<char>),
    Indirect(Seq<char>),
    StringLiteral(Seq<char>),
}

/// The value of an operand, through every level of an expression.
pub open spec fn param_view(p: Param) -> ParamView
    decreases p,
{
    match p {
        Param::Expression(inner) => ParamView::Expression(Box::new(param_view(*inner))),
        Param::Literal(text) => ParamView::Literal(text@),
        Param::Label(name) => ParamView::Label(name@),
        Param::Indirect(text) => ParamView::Indirect(text@),
        Param::StringLiteral(text) => ParamView::StringLiteral(text@),
    }
}

impl DeepView for Param {
    type V = ParamView;

    open spec fn deep_view(&self) -> ParamView {
        param_view(*self)
    }
}

/// One statement of the source.
#[derive(Debug, PartialEq, Eq)]
pub struct Instruction {
    /// The directive or opcode.
    pub t: InstType,
    /// The addressing modifiers.
    pub flags: Flags,
    /// The label that the first word of this instruction defines.
    pub label: Option<String>,
    /// The operands, in order. Only the first is encoded.
    pub params: Vec<Param>,
}

/// The mathematical value of an `Instruction`.
pub struct InstructionView {
    pub t: InstTypeView,
    pub flags: Seq<char>,
    pub label: Option<Seq<char>>,
    pub params: Seq<ParamView>,
}

impl DeepView for Instruction {
    type V = InstructionView;

    open spec fn deep_view(&self) -> InstructionView {
        InstructionView {
            t: self.t.deep_view(),
            flags: self.flags.deep_view(),
            label: self.label.deep_view(),
            params: self.params.deep_view(),
        }
    }
}

/// The keyword table: what each mnemonic stands for, and whether it is one of
/// the aliases that ask for indirect addressing. Case matters.
pub open spec fn keyword_spec(m: Seq<char>) -> Option<(InstTypeView, bool)> {
    if m == ".zero"@ || m == ".data"@ {
        Some((InstTypeView::Dot(m), false))
    } else if m == "and"@ {
        Some((InstTypeView::And, false))
    } else if m == "or"@ {
        Some((InstTypeView::Or, false))
    } else if m == "inc"@ {
        Some((InstTypeView::Inc, false))
    } else if m == "dec"@ {
        Some((InstTypeView::Dec, false))
    } else if m == "add"@ {
        Some((InstTypeView::Add, false))
    } else if m == "sub"@ {
        Some((InstTypeView::Sub, false))
    } else if m == "xor"@ {
        Some((InstTypeView::Xor, false))
    } else if m == "not"@ {
        Some((InstTypeView::Not, false))
    } else if m == "shr"@ {
        Some((InstTypeView::Shr, false))
    } else if m == "ashr"@ {
        Some((InstTypeView::Ashr, false))
    } else if m == "ror"@ {
        Some((InstTypeView::Ror, false))
    } else if m == "rcr"@ {
        Some((InstTypeView::Rcr, false))
    } else if m == "shl"@ {
        Some((InstTypeView::Shl, false))
    } else if m == "ashl"@ {
        Some((InstTypeView::Ashl, false))
    } else if m == "rol"@ {
        Some((InstTypeView::Rol, false))
    } else if m == "rcl"@ {
        Some((InstTypeView::Rcl, false))
    } else if m == "hlt"@ {
        Some((InstTypeView::Hlt, false))
    } else if m == "lac"@ {
        Some((InstTypeView::Lac, false))
    } else if m == "laci"@ {
        Some((InstTypeView::Lac, true))
    } else if m == "ltr"@ {
        Some((InstTypeView::Ltr, false))
    } else if m == "wac"@ {
        Some((InstTypeView::Wac, false))
    } else if m == "rac"@ {
        Some((InstTypeView::Rac, false))
    } else if m == "jmp"@ {
        Some((InstTypeView::Jmp, false))
    } else if m == "je"@ {
        Some((InstTypeView::Je, false))
    } else if m == "jne"@ {
        Some((InstTypeView::Jne, false))
    } else if m == "jg"@ {
        Some((InstTypeView::Jg, false))
    } else if m == "jl"@ {
        Some((InstTypeView::Jl, false))
    } else if m == "jmpi"@ {
        Some((InstTypeView::Jmp, true))
    } else if m == "jei"@ {
        Some((InstTypeView::Je, true))
    } else if m == "jnei"@ {
        Some((InstTypeView::Jne, true))
    } else if m == "jgi"@ {
        Some((InstTypeView::Jg, true))
    } else if m == "jli"@ {
        Some((InstTypeView::Jl, true))
    } else if m == "out"@ {
        Some((InstTypeView::Out, false))
    } else if m == "ion"@ {
        Some((InstTypeView::Ion, false))
    } else if m == "iof"@ {
        Some((InstTypeView::Iof, false))
    } else if m == "nop"@ {
        Some((InstTypeView::Nop, false))
    } else {
        None
    }
}

/// Looks `v[start..end]` up in the keyword table.
pub(crate) fn keyword(v: &Vec<char>, start: usize, end: usize) -> (res: Option<(InstType, bool)>)
    requires
        start <= end <= v.len(),
    ensures
        match res {
            Some((t, indirect)) => keyword_spec(v@.subrange(start as int, end as int)) == Some(
                (t.deep_view(), indirect),
            ),
            None => keyword_spec(v@.subrange(start as int, end as int)) is None,
        },
{
    if range_is(v, start, end, ".zero") || range_is(v, start, end, ".data") {
        Some((InstType::Dot(from_chars(v, start, end)), false))
    } else if range_is(v, start, end, "and") {
        Some((InstType::And, false))
    } else if range_is(v, start, end, "or") {
        Some((InstType::Or, false))
    } else if range_is(v, start, end, "inc") {
        Some((InstType::Inc, false))
    } else if range_is(v, start, end, "dec") {
        Some((InstType::Dec, false))
    } else if range_is(v, start, end, "add") {
        Some((InstType::Add, false))
    } else if range_is(v, start, end, "sub") {
        Some((InstType::Sub, false))
    } else if range_is(v, start, end, "xor") {
        Some((InstType::Xor, false))
    } else if range_is(v, start, end, "not") {
        Some((InstType::Not, false))
    } else if range_is(v, start, end, "shr") {
        Some((InstType::Shr, false))
    } else if range_is(v, start, end, "ashr") {
        Some((InstType::Ashr, false))
    } else if range_is(v, start, end, "ror") {
        Some((InstType::Ror, false))
    } else if range_is(v, start, end, "rcr") {
        Some((InstType::Rcr, false))
    } else if range_is(v, start, end, "shl") {
        Some((InstType::Shl, false))
    } else if range_is(v, start, end, "ashl") {
        Some((InstType::Ashl, false))
    } else if range_is(v, start, end, "rol") {
        Some((InstType::Rol, false))
    } else if range_is(v, start, end, "rcl") {
        Some((InstType::Rcl, false))
    } else if range_is(v, start, end, "hlt") {
        Some((InstType::Hlt, false))
    } else if range_is(v, start, end, "lac") {
        Some((InstType::Lac, false))
    } else if range_is(v, start, end, "laci") {
        Some((InstType::Lac, true))
    } else if range_is(v, start, end, "ltr") {
        Some((InstType::Ltr, false))
    } else if range_is(v, start, end, "wac") {
        Some((InstType::Wac, false))
    } else if range_is(v, start, end, "rac") {
        Some((InstType::Rac, false))
    } else if range_is(v, start, end, "jmp") {
        Some((InstType::Jmp, false))
    } else if range_is(v, start, end, "je") {
        Some((InstType::Je, false))
    } else if range_is(v, start, end, "jne") {
        Some((InstType::Jne, false))
    } else if range_is(v, start, end, "jg") {
        Some((InstType::Jg, false))
    } else if range_is(v, start, end, "jl") {
        Some((InstType::Jl, false))
    } else if range_is(v, start, end, "jmpi") {
        Some((InstType::Jmp, true))
    } else if range_is(v, start, end, "jei") {
        Some((InstType::Je, true))
    } else if range_is(v, start, end, "jnei") {
        Some((InstType::Jne, true))
    } else if range_is(v, start, end, "jgi") {
        Some((InstType::Jg, true))
    } else if range_is(v, start, end, "jli") {
        Some((InstType::Jl, true))
    } else if range_is(v, start, end, "out") {
        Some((InstType::Out, false))
    } else if range_is(v, start, end, "ion") {
        Some((InstType::Ion, false))
    } else if range_is(v, start, end, "iof") {
        Some((InstType::Iof, false))
    } else if range_is(v, start, end, "nop") {
        Some((InstType::Nop, false))
    } else {
        None
    }
}

} // verus!
