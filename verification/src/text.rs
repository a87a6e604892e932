//! Characters and character sequences: white space, trimming, and the
//! conversions between strings and vectors of characters.

use vstd::prelude::*;

verus! {

/// Taken on trust, not proved: `String::push` of the standard library puts
/// the character behind the characters that the string holds, and leaves
/// those as they are.
pub assume_specification[ std::string::String::push ](s: &mut std::string::String, c: char)
    ensures
        final(s)@ == old(s)@.push(c),
;

/// The characters of a string, in order.
pub(crate) fn to_chars(s: &str) -> (v: Vec<char>)
    ensures
        v@ == s@,
{
    let mut v: Vec<char> = Vec::new();
    for c in it: s.chars()
        invariant
            it.seq() == s@,
            v@ == s@.take(it.index() as int),
    {
        v.push(c);
    }
    v
}

/// The string made of the characters of `v` from `start` up to `end`.
pub(crate) fn from_chars(v: &Vec<char>, start: usize, end: usize) -> (s: String)
    requires
        start <= end <= v.len(),
    ensures
        s@ == v@.subrange(start as int, end as int),
{
    let mut s = String::new();
    let mut i: usize = start;
    while i < end
        invariant
            start <= i <= end <= v.len(),
            s@ == v@.subrange(start as int, i as int),
        decreases end - i,
    {
        s.push(v[i]);
        i += 1;
    }
    s
}

/// White space: the characters with the Unicode property `White_Space`.
pub open spec fn is_space(c: char) -> bool {
    let n = c as u32;
    ||| 0x09 <= n <= 0x0d
    ||| n == 0x20
    ||| n == 0x85
    ||| n == 0xa0
    ||| n == 0x1680
    ||| 0x2000 <= n <= 0x200a
    ||| n == 0x2028
    ||| n == 0x2029
    ||| n == 0x202f
    ||| n == 0x205f
    ||| n == 0x3000
}

/// Whether the character is white space.
pub(crate) fn is_whitespace(c: char) -> (b: bool)
    ensures
        b == is_space(c),
{
    let n: u32 = c as u32;
    (0x09 <= n && n <= 0x0d) || n == 0x20 || n == 0x85 || n == 0xa0 || n == 0x1680 || (0x2000 <= n
        && n <= 0x200a) || n == 0x2028 || n == 0x2029 || n == 0x202f || n == 0x205f || n == 0x3000
}

/// The sequence without its leading white space.
pub open spec fn trim_start(s: Seq<char>) -> Seq<char>
    decreases s.len(),
{
    if s.len() > 0 && is_space(s[0]) {
        trim_start(s.drop_first())
    } else {
        s
    }
}

/// The sequence without its trailing white space.
pub open spec fn trim_end(s: Seq<char>) -> Seq<char>
    decreases s.len(),
{
    if s.len() > 0 && is_space(s.last()) {
        trim_end(s.drop_last())
    } else {
        s
    }
}

/// The sequence without its leading and trailing white space.
pub open spec fn trim(s: Seq<char>) -> Seq<char> {
    trim_end(trim_start(s))
}

/// Trimming gives a part of the sequence that neither starts nor ends with
/// white space.
pub proof fn lemma_trim_bounds(s: Seq<char>)
    ensures
        trim(s).len() <= s.len(),
        trim(s).len() > 0 ==> !is_space(trim(s)[0]) && !is_space(trim(s).last()),
        trim(trim(s)) == trim(s),
{
    lemma_trim_start_props(s);
    lemma_trim_end_props(trim_start(s));
    let t = trim(s);
    if t.len() > 0 {
        assert(t[0] == trim_start(s)[0]);
    }
}

/// What is left after the leading white space is a suffix that does not start
/// with white space.
pub proof fn lemma_trim_start_props(s: Seq<char>)
    ensures
        trim_start(s).len() <= s.len(),
        trim_start(s) == s.subrange(s.len() - trim_start(s).len(), s.len() as int),
        trim_start(s).len() > 0 ==> !is_space(trim_start(s)[0]),
    decreases s.len(),
{
    if s.len() > 0 && is_space(s[0]) {
        lemma_trim_start_props(s.drop_first());
        let t = trim_start(s);
        assert(t =~= s.subrange(s.len() - t.len(), s.len() as int));
    } else {
        assert(s =~= s.subrange(0, s.len() as int));
    }
}

/// What is left after the trailing white space is a prefix that does not end
/// with white space.
pub proof fn lemma_trim_end_props(s: Seq<char>)
    ensures
        trim_end(s).len() <= s.len(),
        trim_end(s) == s.subrange(0, trim_end(s).len() as int),
        trim_end(s).len() > 0 ==> !is_space(trim_end(s).last()),
    decreases s.len(),
{
    if s.len() > 0 && is_space(s.last()) {
        lemma_trim_end_props(s.drop_last());
        let t = trim_end(s);
        assert(t =~= s.subrange(0, t.len() as int));
    } else {
        assert(s =~= s.subrange(0, s.len() as int));
    }
}

/// The bounds of the part of `v[start..end]` that is left after trimming.
pub(crate) fn trim_range(v: &Vec<char>, start: usize, end: usize) -> (r: (usize, usize))
    requires
        start <= end <= v.len(),
    ensures
        start <= r.0 <= r.1 <= end,
        v@.subrange(r.0 as int, r.1 as int) == trim(v@.subrange(start as int, end as int)),
{
    let mut a: usize = start;
    while a < end && is_whitespace(v[a])
        invariant
            start <= a <= end <= v.len(),
            trim_start(v@.subrange(start as int, end as int)) == trim_start(
                v@.subrange(a as int, end as int),
            ),
        decreases end - a,
    {
        assert(v@.subrange(a as int, end as int).drop_first() =~= v@.subrange(
            a as int + 1,
            end as int,
        ));
        a += 1;
    }
    let mut b: usize = end;
    while a < b && is_whitespace(v[b - 1])
        invariant
            a <= b <= end <= v.len(),
            trim_end(v@.subrange(a as int, end as int)) == trim_end(
                v@.subrange(a as int, b as int),
            ),
        decreases b - a,
    {
        assert(v@.subrange(a as int, b as int).drop_last() =~= v@.subrange(
            a as int,
            b as int - 1,
        ));
        b -= 1;
    }
    (a, b)
}

/// The first index from `from` on that holds `c`, or the length of `s` where
/// none does.
pub open spec fn find_char(s: Seq<char>, from: int, c: char) -> int
    recommends
        0 <= from,
    decreases s.len() - from,
{
    if from >= s.len() {
        s.len() as int
    } else if s[from] == c {
        from
    } else {
        find_char(s, from + 1, c)
    }
}

/// What `find_char` gives lies between `from` and the length, nothing before
/// it holds `c`, and it holds `c` unless it is the length.
pub proof fn lemma_find_char_props(s: Seq<char>, from: int, c: char)
    requires
        0 <= from <= s.len(),
    ensures
        from <= find_char(s, from, c) <= s.len(),
        forall|j: int| from <= j < find_char(s, from, c) ==> s[j] != c,
        find_char(s, from, c) < s.len() ==> s[find_char(s, from, c)] == c,
    decreases s.len() - from,
{
    if from < s.len() && s[from] != c {
        lemma_find_char_props(s, from + 1, c);
    }
}

/// An index with these three properties is what `find_char` gives.
pub proof fn lemma_find_char_unique(s: Seq<char>, from: int, c: char, i: int)
    requires
        0 <= from <= i <= s.len(),
        forall|j: int| from <= j < i ==> s[j] != c,
        i < s.len() ==> s[i] == c,
    ensures
        find_char(s, from, c) == i,
    decreases i - from,
{
    if from < i {
        lemma_find_char_unique(s, from + 1, c, i);
    }
}

/// Searching a part of a sequence from its start is searching the sequence
/// from where the part begins.
pub proof fn lemma_find_char_suffix(s: Seq<char>, from: int, c: char)
    requires
        0 <= from <= s.len(),
    ensures
        find_char(s.subrange(from, s.len() as int), 0, c) == find_char(s, from, c) - from,
{
    lemma_find_char_props(s, from, c);
    let i = find_char(s, from, c);
    lemma_find_char_unique(s.subrange(from, s.len() as int), 0, c, i - from);
}

/// The first index from `from` on that holds `c`, or the length.
pub(crate) fn find(v: &Vec<char>, from: usize, c: char) -> (i: usize)
    requires
        from <= v.len(),
    ensures
        from <= i <= v.len(),
        i == find_char(v@, from as int, c),
{
    let mut i: usize = from;
    while i < v.len() && v[i] != c
        invariant
            from <= i <= v.len(),
            forall|j: int| from <= j < i ==> v@[j] != c,
        decreases v.len() - i,
    {
        i += 1;
    }
    proof {
        lemma_find_char_unique(v@, from as int, c, i as int);
    }
    i
}

/// The length of the first token: the index of the first white space, or the
/// length of `s` where there is none.
pub open spec fn token_len(s: Seq<char>) -> int
    decreases s.len(),
{
    if s.len() == 0 || is_space(s[0]) {
        0
    } else {
        1 + token_len(s.drop_first())
    }
}

/// The first token of `v[start..end]` ends where this gives.
pub(crate) fn token_end(v: &Vec<char>, start: usize, end: usize) -> (i: usize)
    requires
        start <= end <= v.len(),
    ensures
        start <= i <= end,
        i - start == token_len(v@.subrange(start as int, end as int)),
{
    let mut i: usize = start;
    while i < end && !is_whitespace(v[i])
        invariant
            start <= i <= end <= v.len(),
            token_len(v@.subrange(start as int, end as int)) == i - start + token_len(
                v@.subrange(i as int, end as int),
            ),
        decreases end - i,
    {
        assert(v@.subrange(i as int, end as int).drop_first() =~= v@.subrange(
            i as int + 1,
            end as int,
        ));
        i += 1;
    }
    i
}

/// Whether `v[start..end]` spells the given text.
pub(crate) fn range_is(v: &Vec<char>, start: usize, end: usize, text: &str) -> (b: bool)
    requires
        start <= end <= v.len(),
    ensures
        b == (v@.subrange(start as int, end as int) == text@),
{
    let mut i: usize = start;
    for c in it: text.chars()
        invariant
            start <= i <= end <= v.len(),
            it.seq() == text@,
            i - start == it.index(),
            forall|k: int| 0 <= k < it.index() ==> v@[start + k] == text@[k],
    {
        if i >= end {
            return false;
        }
        if v[i] != c {
            assert(v@.subrange(start as int, end as int)[i - start] != text@[i - start]);
            return false;
        }
        i += 1;
    }
    assert(i == end ==> v@.subrange(start as int, end as int) =~= text@);
    i == end
}

/// Whether the two texts are the same.
pub(crate) fn text_is(a: &str, b: &str) -> (same: bool)
    ensures
        same == (a@ == b@),
{
    let v = to_chars(a);
    assert(v@.subrange(0, v.len() as int) =~= v@);
    range_is(&v, 0, v.len(), b)
}

} // verus!
