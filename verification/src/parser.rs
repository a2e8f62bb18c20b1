//! Evaluation of a line of text against a stack.

use crate::lexer::{parse_token, split_tokens, token_of, tokens, Token};
use crate::rpn::{self, done, draw_fits, failed, step, Error, Item, Outcome, Stack};
use vstd::prelude::*;

verus! {

/// What the word `word` does to stack `s`, where `draw` is the number drawn if one is.
pub open spec fn word_step(s: Seq<Item>, word: Seq<char>, draw: i32) -> Outcome {
    match token_of(word) {
        Some(Token::Push(item)) => done(s.push(item)),
        Some(Token::Apply(op)) => step(s, op, draw),
        None => failed(s, Error::Syntax),
    }
}

/// Whether `draw` is a number that `word` may draw on stack `s`.
pub open spec fn word_draw_fits(s: Seq<Item>, word: Seq<char>, draw: i32) -> bool {
    token_of(word) matches Some(Token::Apply(op)) ==> draw_fits(s, op, draw)
}

/// What `words` do to stack `s`, one after the other, up to the first that fails; the
/// words behind that one do nothing. `draws[i]` is the number for `words[i]`.
pub open spec fn run(s: Seq<Item>, words: Seq<Seq<char>>, draws: Seq<i32>) -> Outcome
    decreases words.len(),
{
    if words.len() == 0 {
        done(s)
    } else {
        let before = run(s, words.drop_last(), draws.drop_last());
        if before.result is Err {
            before
        } else {
            word_step(before.stack, words.last(), draws.last())
        }
    }
}

/// Whether each of `draws` is a number that its word may draw on the stack that the
/// words before it leave. Behind a word that fails every number will do.
pub open spec fn draws_fit(s: Seq<Item>, words: Seq<Seq<char>>, draws: Seq<i32>) -> bool
    decreases words.len(),
{
    words.len() == 0 || {
        let before = run(s, words.drop_last(), draws.drop_last());
        &&& draws_fit(s, words.drop_last(), draws.drop_last())
        &&& before.result is Ok ==> word_draw_fits(before.stack, words.last(), draws.last())
    }
}

/// The first word that fails ends the line: where the first `k` words already end in
/// an error, all of them end in that error, with that stack.
pub proof fn lemma_run_stops(s: Seq<Item>, words: Seq<Seq<char>>, draws: Seq<i32>, k: int)
    requires
        0 <= k <= words.len() == draws.len(),
        run(s, words.take(k), draws.take(k)).result is Err,
    ensures
        run(s, words, draws) == run(s, words.take(k), draws.take(k)),
        draws_fit(s, words.take(k), draws.take(k)) ==> draws_fit(s, words, draws),
    decreases words.len() - k,
{
    if k < words.len() {
        assert(words.take(k + 1).drop_last() =~= words.take(k));
        assert(draws.take(k + 1).drop_last() =~= draws.take(k));
        lemma_run_stops(s, words, draws, k + 1);
    } else {
        assert(words.take(k) =~= words);
        assert(draws.take(k) =~= draws);
    }
}

/// Evaluates the tokens of `buf` on `stack`, from left to right, and stops at the first
/// that fails.
///
/// A token that is no operator, boolean or integer gives `Syntax`. What came before
/// the failing token stays done.
pub fn evaluate_line(stack: &mut Stack, buf: &str) -> (res: rpn::Result<()>)
    ensures
        (exists|draws: Seq<i32>|
            {
                &&& draws.len() == tokens(buf@).len()
                &&& #[trigger] draws_fit(old(stack)@, tokens(buf@), draws)
                &&& final(stack)@ == run(old(stack)@, tokens(buf@), draws).stack
                &&& res == run(old(stack)@, tokens(buf@), draws).result
            }),
{
    let words = split_tokens(buf);
    let ghost all = tokens(buf@);
    let ghost start = stack@;
    let ghost mut draws: Seq<i32> = Seq::empty();
    let mut i: usize = 0;
    while i < words.len()
        invariant
            start == old(stack)@,
            all == tokens(buf@),
            words.deep_view() == all,
            i <= words.len(),
            draws.len() == i,
            draws_fit(start, all.take(i as int), draws),
            run(start, all.take(i as int), draws).stack == stack@,
            run(start, all.take(i as int), draws).result is Ok,
        decreases words.len() - i,
    {
        let ghost now = stack@;
        let ghost mut draw: i32 = 0;
        assert(words[i as int]@ == all[i as int]);
        let step_result = match parse_token(words[i].as_slice()) {
            Some(Token::Push(item)) => stack.push(item),
            Some(Token::Apply(op)) => {
                let r = stack.eval(op);
                proof {
                    draw = choose|d: i32|
                        {
                            &&& #[trigger] draw_fits(now, op, d)
                            &&& stack@ == step(now, op, d).stack
                            &&& r == step(now, op, d).result
                        };
                }
                r
            },
            None => Err(Error::Syntax),
        };
        proof {
            let seen = draws.push(draw);
            assert(all.take(i + 1).drop_last() =~= all.take(i as int));
            assert(seen.drop_last() =~= draws);
            if step_result is Err {
                // The words behind this one draw nothing: any numbers will do for them.
                let rest = Seq::new((all.len() - i - 1) as nat, |j: int| 0i32);
                let padded = seen + rest;
                assert(padded.take(i + 1) =~= seen);
                lemma_run_stops(start, all, padded, i + 1);
            }
            draws = seen;
        }
        step_result?;
        i += 1;
    }
    assert(all.take(i as int) =~= all);
    Ok(())
}

/// Takes the result of a line off `stack`: the one value that the line left.
///
/// An empty stack gives `Empty`. A stack with more than one value gives `Extra`, and
/// has lost its top by then.
pub fn take_reply(stack: &mut Stack) -> (res: rpn::Result<Item>)
    ensures
        old(stack)@.len() == 0 ==> res == Err::<Item, Error>(Error::Empty) && final(stack)@ == old(
            stack,
        )@,
        old(stack)@.len() == 1 ==> res == Ok::<Item, Error>(old(stack)@[0]) && final(stack)@
            == Seq::<Item>::empty(),
        old(stack)@.len() > 1 ==> res == Err::<Item, Error>(Error::Extra) && final(stack)@ == old(
            stack,
        )@.drop_last(),
{
    let top = stack.pop()?;
    if stack.empty() {
        Ok(top)
    } else {
        Err(Error::Extra)
    }
}

} // verus!
