//! What the text functions promise: what they take off, where they split, and which
//! number a numeral stands for.

use crate::text::{
    after_first_word, decimal, digits_value, first_word, is_digit, is_whitespace, lowered,
    numeral_value, signed_decimal, strip_line_end, trim_end, trim_start, trimmed, word_len,
};
use vstd::prelude::*;

verus! {

proof fn lemma_start_taken_off(s: Seq<char>) -> (a: int)
    ensures
        0 <= a <= s.len(),
        trim_start(s) == s.skip(a),
        forall|i: int| 0 <= i < a ==> is_whitespace(#[trigger] s[i]),
        a < s.len() ==> !is_whitespace(s[a]),
    decreases s.len(),
{
    if s.len() > 0 && is_whitespace(s[0]) {
        let a = lemma_start_taken_off(s.drop_first());
        assert(s.drop_first().skip(a) =~= s.skip(a + 1));
        assert forall|i: int| 0 <= i < a + 1 implies is_whitespace(#[trigger] s[i]) by {
            if i > 0 {
                assert(s.drop_first()[i - 1] == s[i]);
            }
        }
        a + 1
    } else {
        assert(s.skip(0) =~= s);
        0
    }
}

proof fn lemma_end_taken_off(s: Seq<char>) -> (b: int)
    ensures
        0 <= b <= s.len(),
        trim_end(s) == s.take(b),
        forall|i: int| b <= i < s.len() ==> is_whitespace(#[trigger] s[i]),
        b > 0 ==> !is_whitespace(s[b - 1]),
    decreases s.len(),
{
    if s.len() > 0 && is_whitespace(s.last()) {
        let b = lemma_end_taken_off(s.drop_last());
        assert(s.drop_last().take(b) =~= s.take(b));
        assert forall|i: int| b <= i < s.len() implies is_whitespace(#[trigger] s[i]) by {
            if i < s.len() - 1 {
                assert(s.drop_last()[i] == s[i]);
            }
        }
        if b > 0 {
            assert(s.drop_last()[b - 1] == s[b - 1]);
        }
        b
    } else {
        assert(s.take(s.len() as int) =~= s);
        s.len() as int
    }
}

/// Whether a part of a text is all of it but for space around it.
pub open spec fn is_core(s: Seq<char>, a: int, b: int) -> bool {
    &&& 0 <= a <= b <= s.len()
    &&& forall|i: int| 0 <= i < a ==> is_whitespace(#[trigger] s[i])
    &&& forall|i: int| b <= i < s.len() ==> is_whitespace(#[trigger] s[i])
    &&& a < b ==> !is_whitespace(s[a]) && !is_whitespace(s[b - 1])
}

/// Trimming takes off the space at both ends of a text, all of it and nothing else.
pub proof fn law_trimming_takes_off_the_space(s: Seq<char>) -> (at: (int, int))
    ensures
        is_core(s, at.0, at.1),
        trimmed(s) == s.subrange(at.0, at.1),
{
    let a = lemma_start_taken_off(s);
    let front = s.skip(a);
    let b = lemma_end_taken_off(front);
    assert(front.take(b) =~= s.subrange(a, a + b));
    assert forall|i: int| a + b <= i < s.len() implies is_whitespace(#[trigger] s[i]) by {
        assert(front[i - a] == s[i]);
    }
    if b > 0 {
        assert(front[b - 1] == s[a + b - 1]);
    }
    (a, a + b)
}

proof fn lemma_word_len(s: Seq<char>)
    ensures
        word_len(s) <= s.len(),
        forall|i: int| 0 <= i < word_len(s) ==> !is_whitespace(#[trigger] s[i]),
        word_len(s) < s.len() ==> is_whitespace(s[word_len(s) as int]),
    decreases s.len(),
{
    if s.len() > 0 && !is_whitespace(s[0]) {
        lemma_word_len(s.drop_first());
        assert forall|i: int| 0 <= i < word_len(s) implies !is_whitespace(#[trigger] s[i]) by {
            if i > 0 {
                assert(s.drop_first()[i - 1] == s[i]);
            }
        }
    }
}

/// The first word starts where the leading space ends, and ends where space or the
/// text's end follows. The rest is what follows it.
pub proof fn law_the_first_word_ends_at_space(s: Seq<char>) -> (at: (int, int))
    ensures
        0 <= at.0 <= at.1 <= s.len(),
        forall|i: int| 0 <= i < at.0 ==> is_whitespace(#[trigger] s[i]),
        forall|i: int| at.0 <= i < at.1 ==> !is_whitespace(#[trigger] s[i]),
        at.1 < s.len() ==> is_whitespace(s[at.1]),
        at.0 == at.1 ==> at.0 == s.len(),
        first_word(s) == s.subrange(at.0, at.1),
        after_first_word(s) == s.skip(at.1),
{
    let a = lemma_start_taken_off(s);
    let body = s.skip(a);
    lemma_word_len(body);
    let n = word_len(body) as int;
    assert(body.take(n) =~= s.subrange(a, a + n));
    assert(body.skip(n) =~= s.skip(a + n));
    assert forall|i: int| a <= i < a + n implies !is_whitespace(#[trigger] s[i]) by {
        assert(body[i - a] == s[i]);
    }
    if n < body.len() {
        assert(body[n] == s[a + n]);
    }
    (a, a + n)
}

/// Whether a text is one word.
pub open spec fn is_word(v: Seq<char>) -> bool {
    v.len() > 0 && forall|i: int| 0 <= i < v.len() ==> !is_whitespace(#[trigger] v[i])
}

/// Whether a text is nothing but space.
pub open spec fn is_gap(s: Seq<char>) -> bool {
    forall|i: int| 0 <= i < s.len() ==> is_whitespace(#[trigger] s[i])
}

/// Whether a text ends a word before it: it is empty or starts with space.
pub open spec fn ends_word(s: Seq<char>) -> bool {
    s.len() > 0 ==> is_whitespace(s[0])
}

/// The first word is found behind any space, whatever follows it, and trimming the
/// text first makes no difference.
pub proof fn law_a_word_is_found(gap: Seq<char>, word: Seq<char>, rest: Seq<char>)
    requires
        is_gap(gap),
        is_word(word),
        ends_word(rest),
    ensures
        first_word(gap + word + rest) == word,
        after_first_word(gap + word + rest) == rest,
        first_word(trimmed(gap + word + rest)) == word,
        after_first_word(trimmed(gap + word + rest)) == trim_end(rest),
{
    let s = gap + word + rest;
    let (a, b) = law_the_first_word_ends_at_space(s);
    let g = gap.len() as int;
    let e = g + word.len();
    lemma_word_bounds(gap, word, rest, s, a, b);
    assert(s.subrange(g, e) =~= word);
    assert(s.skip(e) =~= rest);
    let t = trimmed(s);
    lemma_start_is(s, g);
    let front = s.skip(g);
    assert(front =~= word + rest);
    let c = lemma_end_taken_off(front);
    let d = lemma_end_taken_off(rest);
    let w = word.len() as int;
    assert(!is_whitespace(word[w - 1]));
    assert(front[w - 1] == word[w - 1]);
    assert(c >= w);
    if c < w + d {
        assert(front[w + d - 1] == rest[d - 1]);
    }
    if c > w + d {
        assert(front[c - 1] == rest[c - 1 - w]);
    }
    assert(t =~= word + rest.take(d));
    let empty = Seq::<char>::empty();
    assert(t =~= empty + word + rest.take(d));
    let (x, y) = law_the_first_word_ends_at_space(t);
    assert(ends_word(rest.take(d)));
    lemma_word_bounds(empty, word, rest.take(d), t, x, y);
    assert(t.subrange(0, w) =~= word);
    assert(t.skip(w) =~= rest.take(d));
}

proof fn lemma_start_is(s: Seq<char>, g: int)
    requires
        0 <= g < s.len(),
        forall|i: int| 0 <= i < g ==> is_whitespace(#[trigger] s[i]),
        !is_whitespace(s[g]),
    ensures
        trim_start(s) == s.skip(g),
{
    let a = lemma_start_taken_off(s);
    if a < g {
        assert(is_whitespace(s[a]));
    }
}

proof fn lemma_word_bounds(
    gap: Seq<char>,
    word: Seq<char>,
    rest: Seq<char>,
    s: Seq<char>,
    a: int,
    b: int,
)
    requires
        is_gap(gap),
        is_word(word),
        ends_word(rest),
        s == gap + word + rest,
        0 <= a <= b <= s.len(),
        forall|i: int| 0 <= i < a ==> is_whitespace(#[trigger] s[i]),
        forall|i: int| a <= i < b ==> !is_whitespace(#[trigger] s[i]),
        b < s.len() ==> is_whitespace(s[b]),
        a == b ==> a == s.len(),
    ensures
        a == gap.len(),
        b == gap.len() + word.len(),
        forall|i: int| 0 <= i < gap.len() ==> is_whitespace(#[trigger] s[i]),
        !is_whitespace(s[gap.len() as int]),
{
    let g = gap.len() as int;
    let w = word.len() as int;
    assert forall|i: int| 0 <= i < g implies is_whitespace(#[trigger] s[i]) by {
        assert(s[i] == gap[i]);
    }
    assert forall|i: int| g <= i < g + w implies !is_whitespace(#[trigger] s[i]) by {
        assert(s[i] == word[i - g]);
    }
    if rest.len() > 0 {
        assert(s[g + w] == rest[0]);
    }
    if a < g {
        assert(is_whitespace(s[a]));
    }
    if a > g {
        assert(!is_whitespace(s[g]));
    }
    if b > g + w {
        assert(!is_whitespace(s[g + w]));
    }
    if b < g + w {
        assert(is_whitespace(s[b]));
    }
}

/// Taking off the line end takes off carriage returns and line feeds at the end, all
/// of them and nothing else.
pub proof fn law_a_line_end_is_taken_off(s: Seq<char>) -> (b: int)
    ensures
        0 <= b <= s.len(),
        strip_line_end(s) == s.take(b),
        forall|i: int| b <= i < s.len() ==> (#[trigger] s[i] == '\r' || s[i] == '\n'),
        b > 0 ==> s[b - 1] != '\r' && s[b - 1] != '\n',
    decreases s.len(),
{
    if s.len() > 0 && (s.last() == '\r' || s.last() == '\n') {
        let b = law_a_line_end_is_taken_off(s.drop_last());
        assert(s.drop_last().take(b) =~= s.take(b));
        assert forall|i: int| b <= i < s.len() implies (#[trigger] s[i] == '\r' || s[i]
            == '\n') by {
            if i < s.len() - 1 {
                assert(s.drop_last()[i] == s[i]);
            }
        }
        b
    } else {
        assert(s.take(s.len() as int) =~= s);
        s.len() as int
    }
}

/// Lowering a text keeps its length, moves each capital ASCII letter to its small
/// one, keeps every other character, and does no more the second time.
pub proof fn law_only_capitals_are_lowered(s: Seq<char>, i: int)
    requires
        0 <= i < s.len(),
    ensures
        lowered(s).len() == s.len(),
        'A' <= s[i] <= 'Z' ==> lowered(s)[i] as u32 == s[i] as u32 + 32,
        !('A' <= s[i] <= 'Z') ==> lowered(s)[i] == s[i],
        lowered(lowered(s)) == lowered(s),
{
    assert(lowered(lowered(s)) =~= lowered(s));
}

/// Whether a text is a run of decimal digits.
pub open spec fn is_digits(s: Seq<char>) -> bool {
    s.len() > 0 && forall|i: int| 0 <= i < s.len() ==> '0' <= #[trigger] s[i] <= '9'
}

/// A single digit stands for itself, and a digit behind a numeral adds itself to ten
/// times that, as long as the number can be held. A plus sign before the digits makes
/// no difference.
pub proof fn law_digits_count_by_ten(s: Seq<char>, c: char)
    requires
        is_digits(s),
        '0' <= c <= '9',
    ensures
        numeral_value(seq![c]) == Some((c as u32 - '0' as u32) as usize),
        numeral_value(s.push(c)) == match numeral_value(s) {
            Some(n) => if 10 * n + (c as u32 - '0' as u32) <= usize::MAX {
                Some((10 * n + (c as u32 - '0' as u32)) as usize)
            } else {
                None
            },
            None => None,
        },
        numeral_value(seq!['+'] + s) == numeral_value(s),
{
    let t = s.push(c);
    assert(t.drop_last() =~= s);
    assert('0' <= s[0] <= '9');
    assert(t[0] == s[0]);
    assert forall|i: int| 0 <= i < t.len() implies is_digit(#[trigger] t[i]) by {
        if i < s.len() {
            assert(t[i] == s[i]);
        }
    }
    assert forall|i: int| 0 <= i < s.len() implies is_digit(#[trigger] s[i]) by {}
    assert((seq!['+'] + s).drop_first() =~= s);
    let one = seq![c];
    assert(one.drop_last() =~= Seq::<char>::empty());
    assert(digits_value(one.drop_last()) == 0);
    assert(is_digit(one[0]));
}

/// What is not digits, but for one plus sign before them, is no numeral.
pub proof fn law_other_texts_are_no_numerals(s: Seq<char>)
    ensures
        numeral_value(s) is Some ==> is_digits(s) || (s.len() > 1 && s[0] == '+' && is_digits(
            s.drop_first(),
        )),
{
    let digits = if s.len() > 1 && s[0] == '+' {
        s.drop_first()
    } else {
        s
    };
    if numeral_value(s) is Some {
        assert forall|i: int| 0 <= i < digits.len() implies '0' <= #[trigger] digits[i] <= '9' by {
            assert(is_digit(digits[i]));
        }
    }
}

/// An integer is written as the digits of its size, with a minus sign before those of
/// a negative one.
pub proof fn law_integers_are_written_with_their_sign(n: int)
    ensures
        n >= 0 ==> signed_decimal(n) == decimal(n as nat),
        n < 0 ==> signed_decimal(n) == seq!['-'] + decimal((-n) as nat),
{
}

} // verus!
