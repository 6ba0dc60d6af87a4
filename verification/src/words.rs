//! Whitespace, word boundaries and escape sequences.

use vstd::prelude::*;

verus! {

/// Whether `c` has the Unicode property White_Space.
pub open spec fn is_space(c: char) -> bool {
    let n = c as u32;
    ||| 0x09 <= n <= 0x0D
    ||| n == 0x20
    ||| n == 0x85
    ||| n == 0xA0
    ||| n == 0x1680
    ||| 0x2000 <= n <= 0x200A
    ||| n == 0x2028
    ||| n == 0x2029
    ||| n == 0x202F
    ||| n == 0x205F
    ||| n == 0x3000
}

/// `char::is_whitespace`: true exactly of the characters with the Unicode
/// property White_Space.
pub assume_specification[ char::is_whitespace ](c: char) -> (b: bool)
    ensures
        b == is_space(c),
;

/// The first index at or after `i` whose character is whitespace (`space`
/// true) or is not (`space` false); the end of the text where there is none.
pub open spec fn first_from(t: Seq<char>, i: int, space: bool) -> int
    decreases t.len() - i,
{
    if i < 0 || i >= t.len() {
        t.len() as int
    } else if is_space(t[i]) == space {
        i
    } else {
        first_from(t, i + 1, space)
    }
}

/// What `first_from` finds lies at or after `i`, no character before it from
/// `i` on is of the kind sought, and the character there is, unless it is the
/// end of the text.
pub proof fn lemma_first_from(t: Seq<char>, i: int, space: bool)
    requires
        0 <= i <= t.len(),
    ensures
        i <= first_from(t, i, space) <= t.len(),
        forall|k: int| i <= k < first_from(t, i, space) ==> is_space(t[k]) != space,
        first_from(t, i, space) < t.len() ==> is_space(t[first_from(t, i, space)]) == space,
    decreases t.len() - i,
{
    if i < t.len() && is_space(t[i]) != space {
        lemma_first_from(t, i + 1, space);
    }
}

/// Where a word motion to the right ends: past the whitespace at `i`, then
/// past the word that follows.
pub open spec fn word_right(t: Seq<char>, i: int) -> int {
    first_from(t, first_from(t, i, false), true)
}

/// The last index at or before `i` that is 0 or whose character is not
/// whitespace.
pub open spec fn back_over_space(t: Seq<char>, i: int) -> int
    decreases i,
{
    if i > 0 && is_space(t[i]) {
        back_over_space(t, i - 1)
    } else {
        i
    }
}

/// The start of the run of characters other than whitespace that ends just
/// before `i`.
pub open spec fn run_start(t: Seq<char>, i: int) -> int
    decreases i,
{
    if i > 0 && !is_space(t[i - 1]) {
        run_start(t, i - 1)
    } else {
        i
    }
}

/// Where a word motion to the left ends: back over the whitespace before
/// `i`, then to the start of the word before it. At index 0 it stays.
pub open spec fn word_left(t: Seq<char>, i: int) -> int {
    if i <= 0 {
        0
    } else {
        run_start(t, back_over_space(t, i - 1))
    }
}

/// A word motion to the left ends at the start of the text or behind a
/// whitespace character, and between its end and `i` stand characters other
/// than whitespace followed by whitespace only.
pub proof fn lemma_word_left(t: Seq<char>, i: int)
    requires
        0 < i <= t.len(),
    ensures
        0 <= word_left(t, i) <= back_over_space(t, i - 1) < i,
        word_left(t, i) > 0 ==> is_space(t[word_left(t, i) - 1]),
        forall|k: int| word_left(t, i) <= k < back_over_space(t, i - 1) ==> !is_space(t[k]),
        forall|k: int| back_over_space(t, i - 1) < k < i ==> is_space(t[k]),
{
    lemma_back_over_space(t, i - 1);
    lemma_run_start(t, back_over_space(t, i - 1));
}

/// Between what `back_over_space` finds and `i` stands whitespace only.
pub proof fn lemma_back_over_space(t: Seq<char>, i: int)
    requires
        0 <= i < t.len(),
    ensures
        0 <= back_over_space(t, i) <= i,
        forall|k: int| back_over_space(t, i) < k <= i ==> is_space(t[k]),
        back_over_space(t, i) > 0 ==> !is_space(t[back_over_space(t, i)]),
    decreases i,
{
    if i > 0 && is_space(t[i]) {
        lemma_back_over_space(t, i - 1);
    }
}

/// Between what `run_start` finds and `i` stands no whitespace, and
/// whitespace stands before it unless it is the start of the text.
pub proof fn lemma_run_start(t: Seq<char>, i: int)
    requires
        0 <= i <= t.len(),
    ensures
        0 <= run_start(t, i) <= i,
        forall|k: int| run_start(t, i) <= k < i ==> !is_space(t[k]),
        run_start(t, i) > 0 ==> is_space(t[run_start(t, i) - 1]),
    decreases i,
{
    if i > 0 && !is_space(t[i - 1]) {
        lemma_run_start(t, i - 1);
    }
}

/// The index that a word motion to the right reaches from `i`.
pub fn word_right_from(chars: &Vec<char>, i: usize) -> (j: usize)
    requires
        i <= chars.len(),
    ensures
        j == word_right(chars@, i as int),
        i <= j <= chars.len(),
        j < chars.len() ==> is_space(chars@[j as int]),
{
    proof {
        lemma_first_from(chars@, i as int, false);
        lemma_first_from(chars@, first_from(chars@, i as int, false), true);
    }
    let mut k: usize = i;
    while k < chars.len() && chars[k].is_whitespace()
        invariant
            i <= k <= chars.len(),
            first_from(chars@, k as int, false) == first_from(chars@, i as int, false),
        decreases chars.len() - k,
    {
        k += 1;
    }
    let ghost mid = k;
    while k < chars.len() && !chars[k].is_whitespace()
        invariant
            mid <= k <= chars.len(),
            first_from(chars@, k as int, true) == first_from(chars@, mid as int, true),
        decreases chars.len() - k,
    {
        k += 1;
    }
    k
}

/// The index that a word motion to the left reaches from `i`.
pub fn word_left_from(chars: &Vec<char>, i: usize) -> (j: usize)
    requires
        i <= chars.len(),
    ensures
        j == word_left(chars@, i as int),
        j <= i,
        j > 0 ==> is_space(chars@[j - 1]),
{
    proof {
        if i > 0 {
            lemma_word_left(chars@, i as int);
        }
    }
    if i == 0 {
        return 0;
    }
    let mut k: usize = i - 1;
    while k > 0 && chars[k].is_whitespace()
        invariant
            k < i <= chars.len(),
            back_over_space(chars@, k as int) == back_over_space(chars@, i - 1),
        decreases k,
    {
        k -= 1;
    }
    let ghost mid = k;
    while k > 0 && !chars[k - 1].is_whitespace()
        invariant
            k <= mid < chars.len(),
            run_start(chars@, k as int) == run_start(chars@, mid as int),
        decreases k,
    {
        k -= 1;
    }
    k
}

/// The text with each backslash that is followed by `code` replaced, together
/// with `code`, by `with`, going from left to right; a pair that was replaced
/// is not looked at again.
pub open spec fn replace_escape(s: Seq<char>, code: char, with: char) -> Seq<char>
    decreases s.len(),
{
    if s.len() == 0 {
        s
    } else if s.len() >= 2 && s[0] == '\\' && s[1] == code {
        seq![with] + replace_escape(s.skip(2), code, with)
    } else {
        seq![s[0]] + replace_escape(s.skip(1), code, with)
    }
}

/// The text with its escape sequences resolved, one kind after the other:
/// backslash and `n` to a newline, backslash and `t` to a tab, backslash and
/// `r` to a carriage return, and last two backslashes to one.
pub open spec fn unescaped(s: Seq<char>) -> Seq<char> {
    replace_escape(
        replace_escape(replace_escape(replace_escape(s, 'n', '\n'), 't', '\t'), 'r', '\r'),
        '\\',
        '\\',
    )
}

/// Resolving one kind of escape sequence never makes a text longer.
pub proof fn lemma_replace_escape_len(s: Seq<char>, code: char, with: char)
    ensures
        replace_escape(s, code, with).len() <= s.len(),
    decreases s.len(),
{
    if s.len() == 0 {
    } else if s.len() >= 2 && s[0] == '\\' && s[1] == code {
        lemma_replace_escape_len(s.skip(2), code, with);
    } else {
        lemma_replace_escape_len(s.skip(1), code, with);
    }
}

/// Resolving the escape sequences never makes a text longer.
pub proof fn lemma_unescaped_len(s: Seq<char>)
    ensures
        unescaped(s).len() <= s.len(),
{
    let a = replace_escape(s, 'n', '\n');
    let b = replace_escape(a, 't', '\t');
    let c = replace_escape(b, 'r', '\r');
    lemma_replace_escape_len(s, 'n', '\n');
    lemma_replace_escape_len(a, 't', '\t');
    lemma_replace_escape_len(b, 'r', '\r');
    lemma_replace_escape_len(c, '\\', '\\');
}

/// One kind of escape sequence resolved.
pub fn replace_escape_in(s: &Vec<char>, code: char, with: char) -> (out: Vec<char>)
    ensures
        out@ == replace_escape(s@, code, with),
{
    let mut out: Vec<char> = Vec::new();
    let mut i: usize = 0;
    assert(s@.skip(0) =~= s@);
    assert(out@ + replace_escape(s@, code, with) =~= replace_escape(s@, code, with));
    while i < s.len()
        invariant
            i <= s.len(),
            out@ + replace_escape(s@.skip(i as int), code, with) == replace_escape(
                s@,
                code,
                with,
            ),
        decreases s.len() - i,
    {
        let ghost rest = s@.skip(i as int);
        let ghost before = out@;
        if s[i] == '\\' && i + 1 < s.len() && s[i + 1] == code {
            out.push(with);
            assert(rest.skip(2) =~= s@.skip(i + 2));
            assert(out@ + replace_escape(s@.skip(i + 2), code, with) =~= before
                + (seq![with] + replace_escape(rest.skip(2), code, with)));
            i += 2;
        } else {
            out.push(s[i]);
            assert(rest.skip(1) =~= s@.skip(i + 1));
            assert(out@ + replace_escape(s@.skip(i + 1), code, with) =~= before
                + (seq![s@[i as int]] + replace_escape(rest.skip(1), code, with)));
            i += 1;
        }
    }
    assert(s@.skip(s@.len() as int) =~= Seq::<char>::empty());
    assert(out@ + Seq::<char>::empty() =~= out@);
    out
}

/// The escape sequences of a text resolved.
pub fn unescape(s: &Vec<char>) -> (out: Vec<char>)
    ensures
        out@ == unescaped(s@),
        out@.len() <= s@.len(),
{
    proof {
        lemma_unescaped_len(s@);
    }
    let a = replace_escape_in(s, 'n', '\n');
    let b = replace_escape_in(&a, 't', '\t');
    let c = replace_escape_in(&b, 'r', '\r');
    replace_escape_in(&c, '\\', '\\')
}

} // verus!
