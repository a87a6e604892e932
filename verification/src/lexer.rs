//! From text to tokens: comments are taken out, the operands of a line are
//! split, and each operand is classified by its form.

use vstd::prelude::*;
use crate::error::AsmError;
use crate::error::AsmErrorView;
use crate::error::UnsupportedFeature;
use crate::error::result_view;
use crate::instruction::Param;
use crate::instruction::ParamView;
use crate::text::from_chars;
use crate::text::lemma_trim_bounds;
use crate::text::to_chars;
use crate::text::token_end;
use crate::text::token_len;
use crate::text::trim;
use crate::text::trim_range;

verus! {

/// The text from `from` on without its comments. A comment begins with `//`
/// and ends before the next line feed, or with the text.
pub open spec fn strip_comments(s: Seq<char>, from: int, in_comment: bool) -> Seq<char>
    recommends
        0 <= from,
    decreases s.len() - from,
{
    if from >= s.len() {
        Seq::empty()
    } else if in_comment {
        if s[from] == '\n' {
            seq!['\n'] + strip_comments(s, from + 1, false)
        } else {
            strip_comments(s, from + 1, true)
        }
    } else if s[from] == '/' && from + 1 < s.len() && s[from + 1] == '/' {
        strip_comments(s, from + 1, true)
    } else {
        seq![s[from]] + strip_comments(s, from + 1, false)
    }
}

/// The text without its comments.
pub open spec fn remove_comments_spec(s: Seq<char>) -> Seq<char> {
    strip_comments(s, 0, false)
}

/// Whether the text holds `//` nowhere.
pub open spec fn comment_free(s: Seq<char>) -> bool {
    forall|i: int| 0 <= i && i + 1 < s.len() ==> !(#[trigger] s[i] == '/' && s[i + 1] == '/')
}

/// What is left of a text holds no `//`, and begins with a line feed where
/// it was cut out of a comment.
proof fn lemma_stripped_is_comment_free(s: Seq<char>, from: int, in_comment: bool)
    requires
        0 <= from <= s.len(),
    ensures
        comment_free(strip_comments(s, from, in_comment)),
        strip_comments(s, from, in_comment).len() > 0 ==> {
            let first = strip_comments(s, from, in_comment)[0];
            if in_comment {
                first == '\n'
            } else {
                first == '\n' || first == s[from]
            }
        },
    decreases s.len() - from,
{
    if from < s.len() {
        let starts = !in_comment && s[from] == '/' && from + 1 < s.len() && s[from + 1] == '/';
        let ends = in_comment && s[from] == '\n';
        let next = starts || (in_comment && !ends);
        lemma_stripped_is_comment_free(s, from + 1, next);
        if !next {
            let rest = strip_comments(s, from + 1, false);
            let out = strip_comments(s, from, in_comment);
            assert(out =~= seq![s[from]] + rest);
            assert forall|i: int| 0 <= i && i + 1 < out.len() implies !(#[trigger] out[i] == '/'
                && out[i + 1] == '/') by {
                if i > 0 {
                    assert(out[i] == rest[i - 1]);
                    assert(out[i + 1] == rest[i]);
                }
            }
        }
    }
}

/// Of a text that holds no `//` everything is left.
proof fn lemma_comment_free_is_kept(s: Seq<char>, from: int)
    requires
        0 <= from <= s.len(),
        comment_free(s),
    ensures
        strip_comments(s, from, false) == s.subrange(from, s.len() as int),
    decreases s.len() - from,
{
    if from < s.len() {
        lemma_comment_free_is_kept(s, from + 1);
        assert(!(s[from] == '/' && s[from + 1] == '/') || from + 1 >= s.len());
        assert(seq![s[from]] + s.subrange(from + 1, s.len() as int) =~= s.subrange(
            from,
            s.len() as int,
        ));
    } else {
        assert(s.subrange(from, s.len() as int) =~= Seq::<char>::empty());
    }
}

/// What is left of a text holds no `//`; a text that holds none is left as
/// it is; so taking the comments out twice is taking them out once.
pub proof fn lemma_remove_comments(s: Seq<char>)
    ensures
        comment_free(remove_comments_spec(s)),
        comment_free(s) ==> remove_comments_spec(s) == s,
        remove_comments_spec(remove_comments_spec(s)) == remove_comments_spec(s),
{
    lemma_stripped_is_comment_free(s, 0, false);
    if comment_free(s) {
        lemma_comment_free_is_kept(s, 0);
        assert(s.subrange(0, s.len() as int) =~= s);
    }
    let once = remove_comments_spec(s);
    lemma_comment_free_is_kept(once, 0);
    assert(once.subrange(0, once.len() as int) =~= once);
}

/// Takes the comments out of the text: each `//` goes with all that follows
/// it on its line. The line feeds stay.
pub fn remove_comments(src: &str) -> (res: String)
    ensures
        res@ == remove_comments_spec(src@),
{
    let v = to_chars(src);
    let n = v.len();
    let mut res = String::new();
    let mut in_comment = false;
    let mut i: usize = 0;
    while i < n
        invariant
            i <= n == v.len(),
            v@ == src@,
            remove_comments_spec(src@) == res@ + strip_comments(v@, i as int, in_comment),
        decreases n - i,
    {
        let c = v[i];
        let ghost before = res@;
        if in_comment {
            if c == '\n' {
                res.push(c);
                in_comment = false;
                assert(before + (seq!['\n'] + strip_comments(v@, i as int + 1, false)) =~= res@
                    + strip_comments(v@, i as int + 1, false));
            }
        } else if c == '/' && i + 1 < n && v[i + 1] == '/' {
            in_comment = true;
        } else {
            res.push(c);
            assert(before + (seq![c] + strip_comments(v@, i as int + 1, false)) =~= res@
                + strip_comments(v@, i as int + 1, false));
        }
        i += 1;
    }
    assert(res@ + Seq::<char>::empty() =~= res@);
    res
}

/// The operands of a line as one text: the line without the white space
/// around it and without its first token, the mnemonic, then again without
/// the white space around it.
pub open spec fn operand_text(line: Seq<char>) -> Seq<char> {
    let t = trim(line);
    trim(t.subrange(token_len(t), t.len() as int))
}

/// Where the splitting of operands stands: the operands that are complete,
/// the one that is being read, whether a string is open, and whether the last
/// character was a backslash that escapes the next.
pub struct SplitState {
    pub done: Seq<Seq<char>>,
    pub current: Seq<char>,
    pub in_string: bool,
    pub escape: bool,
}

/// The state before the first character.
pub open spec fn split_start() -> SplitState {
    SplitState { done: Seq::empty(), current: Seq::empty(), in_string: false, escape: false }
}

/// The state after one more character. After a backslash, `n` stands for a
/// line feed and every other character for itself. Else a backslash escapes
/// what follows, a double quote opens or closes a string and stays in the
/// operand, and a comma outside a string ends the operand.
pub open spec fn split_step(st: SplitState, c: char) -> SplitState {
    if st.escape {
        SplitState {
            done: st.done,
            current: st.current.push(
                if c == 'n' {
                    '\n'
                } else {
                    c
                },
            ),
            in_string: st.in_string,
            escape: false,
        }
    } else if c == '\\' {
        SplitState { done: st.done, current: st.current, in_string: st.in_string, escape: true }
    } else if c == '"' {
        SplitState {
            done: st.done,
            current: st.current.push(c),
            in_string: !st.in_string,
            escape: false,
        }
    } else if c == ',' && !st.in_string {
        SplitState {
            done: st.done.push(st.current),
            current: Seq::empty(),
            in_string: false,
            escape: false,
        }
    } else {
        SplitState {
            done: st.done,
            current: st.current.push(c),
            in_string: st.in_string,
            escape: false,
        }
    }
}

/// The state after all of `s`.
pub open spec fn split_fold(s: Seq<char>) -> SplitState
    decreases s.len(),
{
    if s.len() == 0 {
        split_start()
    } else {
        split_step(split_fold(s.drop_last()), s.last())
    }
}

/// The operands that the text splits into: those that a comma ended, and the
/// last one, which the end of the text ends.
pub open spec fn split_operands(s: Seq<char>) -> Seq<Seq<char>> {
    split_fold(s).done.push(split_fold(s).current)
}

/// Each text without the white space around it.
pub open spec fn trim_each(tokens: Seq<Seq<char>>) -> Seq<Seq<char>> {
    Seq::new(tokens.len(), |k: int| trim(tokens[k]))
}

/// The operands of a line, each without the white space around it.
pub open spec fn params_spec(line: Seq<char>) -> Seq<Seq<char>> {
    trim_each(split_operands(operand_text(line)))
}

/// The characters as a string, without the white space around them.
fn trimmed(v: &Vec<char>) -> (res: String)
    ensures
        res@ == trim(v@),
{
    let (a, b) = trim_range(v, 0, v.len());
    assert(v@.subrange(0, v.len() as int) =~= v@);
    from_chars(v, a, b)
}

/// Splits the operands of a line at the commas outside strings. There is
/// always at least one operand, empty where nothing follows the mnemonic.
pub fn params(line: &str) -> (res: Vec<String>)
    ensures
        res.deep_view() == params_spec(line@),
        res.len() >= 1,
{
    let v = to_chars(line);
    let (a, b) = trim_range(&v, 0, v.len());
    assert(v@.subrange(0, v.len() as int) =~= v@);
    let e = token_end(&v, a, b);
    let ghost t = v@.subrange(a as int, b as int);
    assert(t.subrange(token_len(t), t.len() as int) =~= v@.subrange(e as int, b as int));
    let (c, d) = trim_range(&v, e, b);
    let ghost text = v@.subrange(c as int, d as int);
    assert(text == operand_text(line@));
    let mut res: Vec<String> = Vec::new();
    let mut current: Vec<char> = Vec::new();
    let mut in_string = false;
    let mut escape = false;
    let mut i: usize = c;
    assert(text.subrange(0, 0) =~= Seq::<char>::empty());
    assert(res.deep_view() =~= trim_each(split_start().done));
    while i < d
        invariant
            c <= i <= d <= v.len(),
            text == v@.subrange(c as int, d as int),
            res.deep_view() == trim_each(split_fold(text.subrange(0, i - c)).done),
            current@ == split_fold(text.subrange(0, i - c)).current,
            in_string == split_fold(text.subrange(0, i - c)).in_string,
            escape == split_fold(text.subrange(0, i - c)).escape,
        decreases d - i,
    {
        let ch = v[i];
        proof {
            let prev = text.subrange(0, i - c);
            let next = text.subrange(0, i - c + 1);
            assert(next.drop_last() =~= prev);
            assert(next.last() == ch);
        }
        let ghost st = split_fold(text.subrange(0, i - c));
        if escape {
            current.push(if ch == 'n' {
                '\n'
            } else {
                ch
            });
            escape = false;
        } else if ch == '\\' {
            escape = true;
        } else if ch == '"' {
            current.push(ch);
            in_string = !in_string;
        } else if ch == ',' && !in_string {
            let token = trimmed(&current);
            let ghost before = res.deep_view();
            res.push(token);
            assert(res.deep_view() =~= before.push(trim(st.current)));
            assert(before.push(trim(st.current)) =~= trim_each(st.done.push(st.current)));
            current = Vec::new();
        } else {
            current.push(ch);
        }
        i += 1;
    }
    assert(text.subrange(0, d - c) =~= text);
    let ghost st = split_fold(text);
    let token = trimmed(&current);
    let ghost before = res.deep_view();
    res.push(token);
    assert(res.deep_view() =~= before.push(trim(st.current)));
    assert(before.push(trim(st.current)) =~= trim_each(st.done.push(st.current)));
    res
}

/// The operand that a text stands for. In this order: `%` begins a register,
/// which is refused; `$` begins a label; square brackets hold an indirect
/// literal; double quotes hold a string; anything else is a literal.
pub open spec fn classify_spec(raw: Seq<char>) -> Result<ParamView, AsmErrorView> {
    let s = trim(raw);
    if s.len() > 0 && s[0] == '%' {
        Err(AsmErrorView::UnsupportedFeature(UnsupportedFeature::RegisterOperand))
    } else if s.len() > 0 && s[0] == '$' {
        Ok(ParamView::Label(trim(s.drop_first())))
    } else if s.len() >= 2 && s[0] == '[' && s.last() == ']' {
        Ok(ParamView::Indirect(s.subrange(1, s.len() - 1)))
    } else if s.len() >= 2 && s[0] == '"' && s.last() == '"' {
        Ok(ParamView::StringLiteral(s.subrange(1, s.len() - 1)))
    } else {
        Ok(ParamView::Literal(s))
    }
}

/// White space around an operand does not change what it stands for.
pub proof fn lemma_classify_trimmed(raw: Seq<char>)
    ensures
        classify_spec(trim(raw)) == classify_spec(raw),
{
    lemma_trim_bounds(raw);
}

/// The operands that the texts stand for, or the error of the first text
/// that stands for none.
pub open spec fn parse_params_spec(raw: Seq<Seq<char>>) -> Result<Seq<ParamView>, AsmErrorView>
    decreases raw.len(),
{
    if raw.len() == 0 {
        Ok(Seq::empty())
    } else {
        match parse_params_spec(raw.drop_last()) {
            Err(e) => Err(e),
            Ok(params) => match classify_spec(raw.last()) {
                Err(e) => Err(e),
                Ok(param) => Ok(params.push(param)),
            },
        }
    }
}

/// Once a beginning of the texts fails, the whole fails in the same way.
pub proof fn lemma_parse_params_error(raw: Seq<Seq<char>>, k: int)
    requires
        0 <= k <= raw.len(),
        parse_params_spec(raw.subrange(0, k)) is Err,
    ensures
        parse_params_spec(raw) == parse_params_spec(raw.subrange(0, k)),
    decreases raw.len() - k,
{
    if k == raw.len() {
        assert(raw.subrange(0, k) =~= raw);
    } else {
        assert(raw.drop_last().subrange(0, k) =~= raw.subrange(0, k));
        lemma_parse_params_error(raw.drop_last(), k);
    }
}

/// Classifies one operand by its form.
pub fn classify(raw: &str) -> (res: Result<Param, AsmError>)
    ensures
        result_view(res) == classify_spec(raw@),
{
    let v = to_chars(raw);
    let (a, b) = trim_range(&v, 0, v.len());
    assert(v@.subrange(0, v.len() as int) =~= v@);
    let ghost s = v@.subrange(a as int, b as int);
    if a < b && v[a] == '%' {
        Err(AsmError::UnsupportedFeature(UnsupportedFeature::RegisterOperand))
    } else if a < b && v[a] == '$' {
        let (c, d) = trim_range(&v, a + 1, b);
        assert(s.drop_first() =~= v@.subrange(a as int + 1, b as int));
        Ok(Param::Label(from_chars(&v, c, d)))
    } else if b - a >= 2 && v[a] == '[' && v[b - 1] == ']' {
        assert(s.subrange(1, s.len() - 1) =~= v@.subrange(a as int + 1, b as int - 1));
        Ok(Param::Indirect(from_chars(&v, a + 1, b - 1)))
    } else if b - a >= 2 && v[a] == '"' && v[b - 1] == '"' {
        assert(s.subrange(1, s.len() - 1) =~= v@.subrange(a as int + 1, b as int - 1));
        Ok(Param::StringLiteral(from_chars(&v, a + 1, b - 1)))
    } else {
        Ok(Param::Literal(from_chars(&v, a, b)))
    }
}

/// Classifies the operands in order. The first one that cannot be
/// classified ends the run with its error.
pub fn parse_params(v: Vec<String>) -> (res: Result<Vec<Param>, AsmError>)
    ensures
        result_view(res) == parse_params_spec(v.deep_view()),
{
    let mut res: Vec<Param> = Vec::new();
    let mut k: usize = 0;
    assert(v.deep_view().subrange(0, 0) =~= Seq::<Seq<char>>::empty());
    assert(res.deep_view() =~= Seq::<ParamView>::empty());
    while k < v.len()
        invariant
            k <= v.len(),
            parse_params_spec(v.deep_view().subrange(0, k as int)) == Ok::<
                Seq<ParamView>,
                AsmErrorView,
            >(res.deep_view()),
        decreases v.len() - k,
    {
        let ghost done = v.deep_view().subrange(0, k as int);
        let ghost next = v.deep_view().subrange(0, k as int + 1);
        assert(next.drop_last() =~= done);
        assert(next.last() == v@[k as int]@);
        match classify(v[k].as_str()) {
            Err(e) => {
                proof {
                    lemma_parse_params_error(v.deep_view(), k as int + 1);
                }
                return Err(e);
            },
            Ok(param) => {
                let ghost before = res.deep_view();
                res.push(param);
                assert(res.deep_view() =~= before.push(param.deep_view()));
            },
        }
        k += 1;
    }
    assert(v.deep_view().subrange(0, k as int) =~= v.deep_view());
    Ok(res)
}

} // verus!
