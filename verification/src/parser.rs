//! From lines to instructions. A line is blank, defines a label for the
//! instruction that follows, or holds one instruction.

use vstd::prelude::*;
use crate::error::AsmError;
use crate::error::AsmErrorView;
use crate::error::SyntaxError;
use crate::error::SyntaxErrorView;
use crate::error::result_view;
use crate::instruction::Flags;
use crate::instruction::Instruction;
use crate::instruction::InstructionView;
use crate::instruction::keyword;
use crate::instruction::keyword_spec;
use crate::lexer::params;
use crate::lexer::params_spec;
use crate::lexer::parse_params;
use crate::lexer::parse_params_spec;
use crate::text::find;
use crate::text::find_char;
use crate::text::from_chars;
use crate::text::lemma_find_char_suffix;
use crate::text::lemma_find_char_unique;
use crate::text::to_chars;
use crate::text::token_end;
use crate::text::token_len;
use crate::text::trim;
use crate::text::trim_range;

verus! {

/// The mnemonic of a line: its first token.
pub open spec fn mnemonic(line: Seq<char>) -> Seq<char> {
    trim(line).subrange(0, token_len(trim(line)))
}

/// The name that a label line defines: what stands between the `$` that
/// begins the line and the first `:` after it, without the white space around
/// it. `None` where no `:` follows.
pub open spec fn label_name(line: Seq<char>) -> Option<Seq<char>> {
    let t = trim(line);
    let colon = find_char(t, 1, ':');
    if colon < t.len() {
        Some(trim(t.subrange(1, colon)))
    } else {
        None
    }
}

/// The modifiers that the keyword table gives an instruction.
pub open spec fn keyword_flags(indirect: bool) -> Seq<char> {
    if indirect {
        seq!['i']
    } else {
        Seq::empty()
    }
}

/// What one line does: the instruction that it gives, if any, and the label
/// that is pending after it.
///
/// A blank line changes nothing. A line that begins with `$` makes its name
/// the pending label, in place of one that was pending. Any other line gives
/// an instruction, which takes the pending label with it.
pub open spec fn parse_line_spec(line: Seq<char>, pending: Option<Seq<char>>) -> Result<
    (Option<InstructionView>, Option<Seq<char>>),
    AsmErrorView,
> {
    let t = trim(line);
    if t.len() == 0 {
        Ok((None, pending))
    } else if t[0] == '$' {
        match label_name(line) {
            Some(name) => Ok((None, Some(name))),
            None => Err(AsmErrorView::SyntaxError(SyntaxErrorView::MalformedLabel)),
        }
    } else {
        match keyword_spec(mnemonic(line)) {
            None => Err(
                AsmErrorView::SyntaxError(SyntaxErrorView::UnknownInstruction(mnemonic(line))),
            ),
            Some((t, indirect)) => match parse_params_spec(params_spec(line)) {
                Err(e) => Err(e),
                Ok(params) => Ok(
                    (
                        Some(
                            InstructionView {
                                t,
                                flags: keyword_flags(indirect),
                                label: pending,
                                params,
                            },
                        ),
                        None,
                    ),
                ),
            },
        }
    }
}

/// Reads one line, given the label that is pending before it.
pub fn parse_line(line: &str, label: Option<String>) -> (res: Result<
    (Option<Instruction>, Option<String>),
    AsmError,
>)
    ensures
        result_view(res) == parse_line_spec(line@, label.deep_view()),
{
    let v = to_chars(line);
    let (a, b) = trim_range(&v, 0, v.len());
    assert(v@.subrange(0, v.len() as int) =~= v@);
    let ghost t = v@.subrange(a as int, b as int);
    if a == b {
        return Ok((None, label));
    }
    if v[a] == '$' {
        let mut i: usize = a + 1;
        while i < b && v[i] != ':'
            invariant
                a < i <= b <= v.len(),
                t == v@.subrange(a as int, b as int),
                forall|j: int| 1 <= j < i - a ==> t[j] != ':',
            decreases b - i,
        {
            i += 1;
        }
        proof {
            lemma_find_char_unique(t, 1, ':', i - a);
        }
        if i == b {
            return Err(AsmError::SyntaxError(SyntaxError::MalformedLabel));
        }
        let (c, d) = trim_range(&v, a + 1, i);
        assert(t.subrange(1, i - a) =~= v@.subrange(a as int + 1, i as int));
        return Ok((None, Some(from_chars(&v, c, d))));
    }
    let e = token_end(&v, a, b);
    assert(t.subrange(0, token_len(t)) =~= v@.subrange(a as int, e as int));
    match keyword(&v, a, e) {
        None => Err(
            AsmError::SyntaxError(SyntaxError::UnknownInstruction(from_chars(&v, a, e))),
        ),
        Some((t, indirect)) => match parse_params(params(line)) {
            Err(e) => Err(e),
            Ok(params) => {
                let flags = if indirect {
                    Flags::indirect()
                } else {
                    Flags::none()
                };
                Ok((Some(Instruction { t, flags, label, params }), None))
            },
        },
    }
}

/// The lines of a text: what stands between its line feeds.
pub open spec fn lines_of(s: Seq<char>) -> Seq<Seq<char>>
    decreases s.len(),
{
    let end = find_char(s, 0, '\n');
    if 0 <= end < s.len() {
        seq![s.subrange(0, end)] + lines_of(s.subrange(end + 1, s.len() as int))
    } else {
        seq![s]
    }
}

/// The instructions `head`, followed by those of `tail` where it has any.
pub open spec fn prepend(
    head: Seq<InstructionView>,
    tail: Result<Seq<InstructionView>, AsmErrorView>,
) -> Result<Seq<InstructionView>, AsmErrorView> {
    match tail {
        Ok(rest) => Ok(head + rest),
        Err(e) => Err(e),
    }
}

/// The instruction of a line as a sequence of one or none.
pub open spec fn seq_of(inst: Option<InstructionView>) -> Seq<InstructionView> {
    match inst {
        Some(i) => seq![i],
        None => Seq::empty(),
    }
}

/// The instructions of the lines in order, the pending label handed from
/// each line to the next; or the error of the first line that has one.
pub open spec fn parse_lines(lines: Seq<Seq<char>>, pending: Option<Seq<char>>) -> Result<
    Seq<InstructionView>,
    AsmErrorView,
>
    decreases lines.len(),
{
    if lines.len() == 0 {
        Ok(Seq::empty())
    } else {
        match parse_line_spec(lines[0], pending) {
            Err(e) => Err(e),
            Ok((inst, next)) => prepend(seq_of(inst), parse_lines(lines.drop_first(), next)),
        }
    }
}

/// Once some lines fail, they fail in the same way whatever lines follow
/// them.
pub proof fn lemma_parse_lines_error(
    lines: Seq<Seq<char>>,
    more: Seq<Seq<char>>,
    pending: Option<Seq<char>>,
)
    requires
        parse_lines(lines, pending) is Err,
    ensures
        parse_lines(lines + more, pending) == parse_lines(lines, pending),
    decreases lines.len(),
{
    let all = lines + more;
    assert(all[0] == lines[0]);
    assert(all.drop_first() =~= lines.drop_first() + more);
    match parse_line_spec(lines[0], pending) {
        Err(_) => {},
        Ok((_, next)) => {
            lemma_parse_lines_error(lines.drop_first(), more, next);
        },
    }
}

/// The instructions of a source text.
pub open spec fn parse_asm_spec(src: Seq<char>) -> Result<Seq<InstructionView>, AsmErrorView> {
    parse_lines(lines_of(src), None)
}

/// Reads a source text, comments already taken out, line by line. The first
/// line in error ends the run; nothing after it is read.
pub fn parse_asm(src: &str) -> (res: Result<Vec<Instruction>, AsmError>)
    ensures
        result_view(res) == parse_asm_spec(src@),
{
    let v = to_chars(src);
    let n = v.len();
    let mut insts: Vec<Instruction> = Vec::new();
    let mut label: Option<String> = None;
    let mut pos: usize = 0;
    assert(v@.subrange(0, n as int) =~= v@);
    assert(insts.deep_view() =~= Seq::<InstructionView>::empty());
    loop
        invariant_except_break
            pos <= n == v.len(),
            v@ == src@,
            parse_asm_spec(src@) == prepend(
                insts.deep_view(),
                parse_lines(lines_of(v@.subrange(pos as int, n as int)), label.deep_view()),
            ),
        ensures
            parse_asm_spec(src@) == Ok::<Seq<InstructionView>, AsmErrorView>(insts.deep_view()),
        decreases n - pos,
    {
        let ghost s = v@.subrange(pos as int, n as int);
        let ghost before = insts.deep_view();
        let end = find(&v, pos, '\n');
        let line = from_chars(&v, pos, end);
        proof {
            lemma_find_char_suffix(v@, pos as int, '\n');
            assert(s.subrange(0, end - pos) =~= line@);
            assert(lines_of(s)[0] == line@);
            if end < n {
                assert(s.subrange(end - pos + 1, s.len() as int) =~= v@.subrange(
                    end as int + 1,
                    n as int,
                ));
                assert(lines_of(s).drop_first() =~= lines_of(
                    v@.subrange(end as int + 1, n as int),
                ));
            } else {
                assert(lines_of(s).drop_first() =~= Seq::<Seq<char>>::empty());
            }
        }
        match parse_line(line.as_str(), label) {
            Err(e) => {
                return Err(e);
            },
            Ok((inst, next)) => {
                let ghost tail = parse_lines(lines_of(s).drop_first(), next.deep_view());
                match inst {
                    Some(i) => {
                        insts.push(i);
                        assert(insts.deep_view() =~= before + seq_of(Some(i.deep_view())));
                    },
                    None => {
                        assert(insts.deep_view() =~= before + seq_of(None));
                    },
                }
                proof {
                    let head = seq_of(inst.deep_view());
                    match tail {
                        Ok(rest) => {
                            assert(before + (head + rest) =~= (before + head) + rest);
                        },
                        Err(_) => {},
                    }
                    assert(prepend(before, prepend(head, tail)) == prepend(before + head, tail));
                }
                label = next;
            },
        }
        if end >= n {
            assert(insts.deep_view() + Seq::<InstructionView>::empty() =~= insts.deep_view());
            break;
        }
        pos = end + 1;
    }
    Ok(insts)
}

} // verus!
