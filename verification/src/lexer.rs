//! From text to tokens: blanks, words and integer literals.

use crate::rpn::{Item, Op};
use vstd::prelude::*;

verus! {

/// What a token asks the calculator to do.
#[derive(Clone, Copy, Debug, PartialEq, Eq, Structural)]
pub enum Token {
    /// Put the value on the stack.
    Push(Item),
    /// Apply the operator to the stack.
    Apply(Op),
}

/// How each operator is written.
pub open spec fn symbol(op: Op) -> Seq<char> {
    match op {
        Op::Add => seq!['+'],
        Op::Eq => seq!['='],
        Op::Neg => seq!['!'],
        Op::Swap => seq!['<', '-', '>'],
        Op::Rand => seq!['#'],
        Op::Cond => seq!['?'],
        Op::Quit => seq!['q', 'u', 'i', 't'],
    }
}

/// What the word `word` asks for: an operator by its symbol, a boolean by its name, an
/// integer by its literal. `None` where it is none of these.
pub open spec fn token_of(word: Seq<char>) -> Option<Token> {
    if word =~= symbol(Op::Add) {
        Some(Token::Apply(Op::Add))
    } else if word =~= symbol(Op::Eq) {
        Some(Token::Apply(Op::Eq))
    } else if word =~= symbol(Op::Neg) {
        Some(Token::Apply(Op::Neg))
    } else if word =~= symbol(Op::Swap) {
        Some(Token::Apply(Op::Swap))
    } else if word =~= symbol(Op::Rand) {
        Some(Token::Apply(Op::Rand))
    } else if word =~= symbol(Op::Cond) {
        Some(Token::Apply(Op::Cond))
    } else if word =~= symbol(Op::Quit) {
        Some(Token::Apply(Op::Quit))
    } else if word =~= seq!['t', 'r', 'u', 'e'] {
        Some(Token::Push(Item::Bool(true)))
    } else if word =~= seq!['f', 'a', 'l', 's', 'e'] {
        Some(Token::Push(Item::Bool(false)))
    } else {
        match int_literal(word) {
            Some(n) => Some(Token::Push(Item::Int(n))),
            None => None,
        }
    }
}

/// Whether `c` separates tokens: the characters with the Unicode property `White_Space`.
pub open spec fn is_blank(c: char) -> bool {
    let u = c as u32;
    ||| 0x09 <= u <= 0x0D
    ||| u == 0x20
    ||| u == 0x85
    ||| u == 0xA0
    ||| u == 0x1680
    ||| 0x2000 <= u <= 0x200A
    ||| u == 0x2028
    ||| u == 0x2029
    ||| u == 0x202F
    ||| u == 0x205F
    ||| u == 0x3000
}

/// Whether `c` is one of the ten decimal digits of ASCII.
pub open spec fn is_digit(c: char) -> bool {
    0x30 <= c as u32 <= 0x39
}

/// The number that the digit `c` stands for.
pub open spec fn digit_value(c: char) -> nat {
    (c as u32 - 0x30) as nat
}

/// Whether `s` holds digits only.
pub open spec fn all_digits(s: Seq<char>) -> bool {
    forall|i: int| 0 <= i < s.len() ==> is_digit(#[trigger] s[i])
}

/// The number that the digits of `s` write in base ten; leading zeros count for nothing.
pub open spec fn decimal(s: Seq<char>) -> nat
    decreases s.len(),
{
    if s.len() == 0 {
        0
    } else {
        10 * decimal(s.drop_last()) + digit_value(s.last())
    }
}

/// The integer that `s` writes, if it writes one that fits `i32`: an optional sign, `+`
/// or `-`, and then one digit or more, nothing before and nothing after.
pub open spec fn int_literal(s: Seq<char>) -> Option<i32> {
    let signed = s.len() > 0 && (s[0] == '-' || s[0] == '+');
    let digits = if signed {
        s.skip(1)
    } else {
        s
    };
    let value = if s.len() > 0 && s[0] == '-' {
        -decimal(digits)
    } else {
        decimal(digits) as int
    };
    if digits.len() > 0 && all_digits(digits) && i32::MIN <= value <= i32::MAX {
        Some(value as i32)
    } else {
        None
    }
}

/// The length of the word that `s` starts with: how many characters stand before its
/// first blank.
pub open spec fn word_len(s: Seq<char>) -> nat
    decreases s.len(),
{
    if s.len() == 0 || is_blank(s[0]) {
        0
    } else {
        1 + word_len(s.skip(1))
    }
}

/// The tokens of `s`: its words in order, a word being a run of characters that are
/// not blank, as long as it can be.
pub open spec fn tokens(s: Seq<char>) -> Seq<Seq<char>>
    decreases s.len(),
    via tokens_decreases
{
    if s.len() == 0 {
        Seq::empty()
    } else if is_blank(s[0]) {
        tokens(s.skip(1))
    } else {
        seq![s.take(word_len(s) as int)] + tokens(s.skip(word_len(s) as int))
    }
}

#[via_fn]
proof fn tokens_decreases(s: Seq<char>) {
    if s.len() > 0 && !is_blank(s[0]) {
        lemma_word_len(s, word_len(s) as int);
    }
}

/// `word_len(s)` is the one `k` for which the first `k` characters of `s` are not blank
/// and the next one, if there is a next one, is.
pub proof fn lemma_word_len(s: Seq<char>, k: int)
    ensures
        word_len(s) <= s.len(),
        forall|j: int| 0 <= j < word_len(s) ==> !is_blank(#[trigger] s[j]),
        word_len(s) < s.len() ==> is_blank(s[word_len(s) as int]),
        0 <= k <= s.len() && (forall|j: int| 0 <= j < k ==> !is_blank(#[trigger] s[j])) && (k
            < s.len() ==> is_blank(s[k])) ==> word_len(s) == k,
    decreases s.len(),
{
    if s.len() == 0 || is_blank(s[0]) {
    } else {
        let rest = s.skip(1);
        lemma_word_len(rest, k - 1);
        assert forall|j: int| 0 <= j < word_len(s) implies !is_blank(#[trigger] s[j]) by {
            if j > 0 {
                assert(s[j] == rest[j - 1]);
            }
        }
        if 0 <= k <= s.len() && (forall|j: int| 0 <= j < k ==> !is_blank(#[trigger] s[j])) && (k
            < s.len() ==> is_blank(s[k])) {
            assert(forall|j: int| 0 <= j < k - 1 ==> !is_blank(#[trigger] rest[j]));
        }
    }
}

/// Whether `w` is a word: at least one character, and none of them blank.
pub open spec fn is_word(w: Seq<char>) -> bool {
    w.len() > 0 && forall|j: int| 0 <= j < w.len() ==> !is_blank(#[trigger] w[j])
}

/// Every token is a word.
pub proof fn lemma_tokens_are_words(s: Seq<char>)
    ensures
        forall|i: int| 0 <= i < tokens(s).len() ==> is_word(#[trigger] tokens(s)[i]),
    decreases s.len(),
{
    if s.len() == 0 {
    } else if is_blank(s[0]) {
        lemma_tokens_are_words(s.skip(1));
        assert(tokens(s) == tokens(s.skip(1)));
    } else {
        let n = word_len(s) as int;
        lemma_word_len(s, n);
        lemma_tokens_are_words(s.skip(n));
        let rest = tokens(s.skip(n));
        assert(is_word(s.take(n)));
        assert forall|i: int| 0 <= i < tokens(s).len() implies is_word(#[trigger] tokens(s)[i]) by {
            if i > 0 {
                assert(tokens(s)[i] == rest[i - 1]);
            }
        }
    }
}

/// A word is its own and only token.
pub proof fn lemma_tokens_of_word(w: Seq<char>)
    requires
        is_word(w),
    ensures
        tokens(w) == seq![w],
{
    lemma_word_len(w, w.len() as int);
    assert(w.take(w.len() as int) =~= w);
    assert(tokens(w.skip(w.len() as int)) =~= Seq::<Seq<char>>::empty());
}

/// A blank parts a text: the tokens of `a`, a blank and `b` are those of `a` and then
/// those of `b`.
pub proof fn lemma_tokens_around_blank(a: Seq<char>, c: char, b: Seq<char>)
    requires
        is_blank(c),
    ensures
        tokens(a.push(c) + b) == tokens(a) + tokens(b),
    decreases a.len(),
{
    let s = a.push(c) + b;
    if a.len() == 0 {
        assert(s.skip(1) =~= b);
    } else if is_blank(a[0]) {
        lemma_tokens_around_blank(a.skip(1), c, b);
        assert(s.skip(1) =~= a.skip(1).push(c) + b);
    } else {
        let n = word_len(a) as int;
        lemma_word_len(a, n);
        assert(forall|j: int| 0 <= j < n ==> !is_blank(#[trigger] s[j]));
        assert(s[n] == if n < a.len() {
            a[n]
        } else {
            c
        });
        lemma_word_len(s, n);
        lemma_tokens_around_blank(a.skip(n), c, b);
        assert(s.take(n) =~= a.take(n));
        assert(s.skip(n) =~= a.skip(n).push(c) + b);
    }
}

/// Whether `c` separates tokens.
pub fn is_whitespace(c: char) -> (b: bool)
    ensures
        b == is_blank(c),
{
    let u = c as u32;
    (0x09 <= u && u <= 0x0D) || u == 0x20 || u == 0x85 || u == 0xA0 || u == 0x1680 || (0x2000 <= u
        && u <= 0x200A) || u == 0x2028 || u == 0x2029 || u == 0x202F || u == 0x205F || u == 0x3000
}

/// Appending a digit multiplies by ten and adds the digit.
proof fn lemma_decimal_push(s: Seq<char>, c: char)
    ensures
        decimal(s.push(c)) == 10 * decimal(s) + digit_value(c),
{
    assert(s.push(c).drop_last() =~= s);
}

/// Reads `tok` as an integer literal.
pub fn parse_int(tok: &[char]) -> (r: Option<i32>)
    ensures
        r == int_literal(tok@),
{
    let n = tok.len();
    if n == 0 {
        return None;
    }
    let negative = tok[0] == '-';
    let start: usize = if negative || tok[0] == '+' {
        1
    } else {
        0
    };
    let ghost digits = tok@.skip(start as int);
    // The magnitude read so far, as long as it is no more than 2^31.
    let mut magnitude: i64 = 0;
    let mut too_large = false;
    let mut i = start;
    while i < n
        invariant
            start <= i <= n,
            0 < n == tok@.len(),
            negative == (tok@[0] == '-'),
            start == if tok@[0] == '-' || tok@[0] == '+' { 1usize } else { 0usize },
            digits == tok@.skip(start as int),
            all_digits(digits.take(i - start)),
            !too_large ==> magnitude == decimal(digits.take(i - start)) && magnitude <= 0x8000_0000,
            too_large ==> decimal(digits.take(i - start)) > 0x8000_0000,
        decreases n - i,
    {
        let c = tok[i];
        let u = c as u32;
        if u < 0x30 || u > 0x39 {
            assert(!is_digit(digits[i - start]));
            return None;
        }
        proof {
            let seen = digits.take(i - start);
            assert(digits.take(i + 1 - start) =~= seen.push(c));
            lemma_decimal_push(seen, c);
        }
        if !too_large {
            magnitude = magnitude * 10 + (u - 0x30) as i64;
            if magnitude > 0x8000_0000 {
                too_large = true;
            }
        }
        i += 1;
    }
    assert(digits.take(n - start) =~= digits);
    assert(tok@.skip(0) =~= tok@);
    if i == start || too_large {
        None
    } else if negative {
        Some((-magnitude) as i32)
    } else if magnitude > 0x7fff_ffff {
        None
    } else {
        Some(magnitude as i32)
    }
}

/// A blank in front of `s` adds no token.
proof fn lemma_tokens_skip_blank(s: Seq<char>, i: int)
    requires
        0 <= i < s.len(),
        is_blank(s[i]),
    ensures
        tokens(s.skip(i)) == tokens(s.skip(i + 1)),
{
    assert(s.skip(i).skip(1) =~= s.skip(i + 1));
}

/// Where a word runs from `start` to `end` in `s`, and ends `s` or has a blank behind
/// it, it is the first token from `start` on.
proof fn lemma_tokens_word(s: Seq<char>, start: int, end: int)
    requires
        0 <= start < end <= s.len(),
        forall|k: int| start <= k < end ==> !is_blank(#[trigger] s[k]),
        end < s.len() ==> is_blank(s[end]),
    ensures
        tokens(s.skip(start)) == seq![s.subrange(start, end)] + tokens(s.skip(end)),
{
    let t = s.skip(start);
    assert(forall|j: int| 0 <= j < end - start ==> !is_blank(#[trigger] t[j]));
    lemma_word_len(t, end - start);
    assert(t.take(end - start) =~= s.subrange(start, end));
    assert(t.skip(end - start) =~= s.skip(end));
}

/// Splits `text` at its blanks.
pub fn split_tokens(text: &str) -> (toks: Vec<Vec<char>>)
    ensures
        toks.deep_view() == tokens(text@),
{
    let mut toks: Vec<Vec<char>> = Vec::new();
    let mut word: Vec<char> = Vec::new();
    let ghost s = text@;
    let ghost mut start: int = 0;
    assert(s.skip(0) =~= s);
    for c in it: text.chars()
        invariant
            it.seq() == s,
            0 <= start <= it.index() <= s.len(),
            word@ == s.subrange(start, it.index() as int),
            forall|k: int| start <= k < it.index() ==> !is_blank(#[trigger] s[k]),
            toks.deep_view() + tokens(s.skip(start)) == tokens(s),
    {
        let ghost i = it.index() as int;
        let ghost before = toks.deep_view();
        if is_whitespace(c) {
            if word.len() > 0 {
                proof {
                    lemma_tokens_word(s, start, i);
                }
                toks.push(word);
                word = Vec::new();
                assert(toks.deep_view() =~~= before.push(s.subrange(start, i)));
            }
            proof {
                lemma_tokens_skip_blank(s, i);
                start = i + 1;
            }
        } else {
            word.push(c);
        }
    }
    let ghost before = toks.deep_view();
    if word.len() > 0 {
        proof {
            lemma_tokens_word(s, start, s.len() as int);
        }
        toks.push(word);
        assert(toks.deep_view() =~~= before.push(s.subrange(start, s.len() as int)));
    }
    toks
}

/// Reads `word` as a token.
pub fn parse_token(word: &[char]) -> (token: Option<Token>)
    ensures
        token == token_of(word@),
{
    let n = word.len();
    if n == 1 && word[0] == '+' {
        Some(Token::Apply(Op::Add))
    } else if n == 1 && word[0] == '=' {
        Some(Token::Apply(Op::Eq))
    } else if n == 1 && word[0] == '!' {
        Some(Token::Apply(Op::Neg))
    } else if n == 3 && word[0] == '<' && word[1] == '-' && word[2] == '>' {
        Some(Token::Apply(Op::Swap))
    } else if n == 1 && word[0] == '#' {
        Some(Token::Apply(Op::Rand))
    } else if n == 1 && word[0] == '?' {
        Some(Token::Apply(Op::Cond))
    } else if n == 4 && word[0] == 'q' && word[1] == 'u' && word[2] == 'i' && word[3] == 't' {
        Some(Token::Apply(Op::Quit))
    } else if n == 4 && word[0] == 't' && word[1] == 'r' && word[2] == 'u' && word[3] == 'e' {
        Some(Token::Push(Item::Bool(true)))
    } else if n == 5 && word[0] == 'f' && word[1] == 'a' && word[2] == 'l' && word[3] == 's'
        && word[4] == 'e' {
        Some(Token::Push(Item::Bool(false)))
    } else {
        match parse_int(word) {
            Some(n) => Some(Token::Push(Item::Int(n))),
            None => None,
        }
    }
}

} // verus!
