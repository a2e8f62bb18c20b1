//! Values, operators, errors and the operand stack.

use crate::sample::draw_below;
use vstd::prelude::*;

verus! {

/// A value on the operand stack: a 32-bit signed integer or a boolean.
#[derive(Clone, Copy, Debug, PartialEq, Eq, PartialOrd, Ord, Structural)]
pub enum Item {
    Int(i32),
    Bool(bool),
}

/// `std::io::Error`, carried through [`Error::IO`] and never looked into.
#[verifier::external_type_specification]
#[verifier::external_body]
pub struct ExIoError(std::io::Error);

/// Everything that can end the evaluation of an operator or of a line.
#[derive(Debug)]
pub enum Error {
    /// The stack held fewer operands than were asked for.
    Empty,
    /// A line was evaluated and left more than one value behind.
    Extra,
    /// The operands were there, but not of the variant the operator takes.
    Type,
    /// A token is no operator, no literal and no integer.
    Syntax,
    /// A failure of the input or output stream, passed on as it came.
    IO(std::io::Error),
    /// The session is to end.
    Quit,
}

/// An instruction of the calculator. Operands come from the stack.
#[derive(Clone, Copy, Debug, PartialEq, Eq, Structural)]
pub enum Op {
    Add,
    Eq,
    Neg,
    Swap,
    Rand,
    Cond,
    Quit,
}

/// What the calculator's functions return: a value, or the [`Error`] that ended them.
pub type Result<T> = std::result::Result<T, Error>;

/// A stack together with the result of the operation that led to it.
pub struct Outcome {
    pub stack: Seq<Item>,
    pub result: Result<()>,
}

/// How many operands `op` takes off the stack.
pub open spec fn arity(op: Op) -> nat {
    match op {
        Op::Add | Op::Eq | Op::Swap => 2,
        Op::Neg | Op::Rand => 1,
        Op::Cond => 3,
        Op::Quit => 0,
    }
}

/// The sum of `x` and `y` in two's complement: it wraps around at the ends of `i32`.
pub open spec fn wrapping_sum(x: i32, y: i32) -> i32 {
    if x + y > i32::MAX {
        (x + y - 0x1_0000_0000) as i32
    } else if x + y < i32::MIN {
        (x + y + 0x1_0000_0000) as i32
    } else {
        (x + y) as i32
    }
}

/// The bound under which `op` draws a random number on stack `s`, if it draws one:
/// `Rand` does, where the top is a positive integer.
pub open spec fn sample_bound(s: Seq<Item>, op: Op) -> Option<i32> {
    if op is Rand && s.len() > 0 && s.last() is Int && s.last()->Int_0 > 0 {
        Some(s.last()->Int_0)
    } else {
        None
    }
}

/// Whether `draw` is a number that `op` may draw on stack `s`.
pub open spec fn draw_fits(s: Seq<Item>, op: Op, draw: i32) -> bool {
    sample_bound(s, op) matches Some(max) ==> 0 <= draw < max
}

/// The operation went through and left `stack`.
pub open spec fn done(stack: Seq<Item>) -> Outcome {
    Outcome { stack, result: Ok(()) }
}

/// The operation stopped with `error` and left `stack`.
pub open spec fn failed(stack: Seq<Item>, error: Error) -> Outcome {
    Outcome { stack, result: Err(error) }
}

/// What `op` does to stack `s`, where `draw` is the number it draws if it draws one.
///
/// With too few operands nothing is taken off. With enough of them they are all taken
/// off before their variants are looked at, so a `Type` error leaves the stack without
/// them.
pub open spec fn step(s: Seq<Item>, op: Op, draw: i32) -> Outcome {
    let n = s.len() as int;
    let rest = s.take(n - arity(op));
    if op is Quit {
        failed(s, Error::Quit)
    } else if n < arity(op) {
        failed(s, Error::Empty)
    } else {
        match op {
            Op::Add => match (s[n - 2], s[n - 1]) {
                (Item::Int(x), Item::Int(y)) => done(rest.push(Item::Int(wrapping_sum(x, y)))),
                _ => failed(rest, Error::Type),
            },
            Op::Eq => match (s[n - 2], s[n - 1]) {
                (Item::Int(x), Item::Int(y)) => done(rest.push(Item::Bool(x == y))),
                (Item::Bool(x), Item::Bool(y)) => done(rest.push(Item::Bool(x == y))),
                _ => failed(rest, Error::Type),
            },
            Op::Neg => match s[n - 1] {
                Item::Bool(b) => done(rest.push(Item::Bool(!b))),
                _ => failed(rest, Error::Type),
            },
            Op::Swap => done(rest.push(s[n - 1]).push(s[n - 2])),
            Op::Rand => if sample_bound(s, op) is Some {
                done(rest.push(Item::Int(draw)))
            } else {
                failed(rest, Error::Type)
            },
            Op::Cond => match s[n - 3] {
                Item::Bool(choice) => done(rest.push(if choice { s[n - 2] } else { s[n - 1] })),
                _ => failed(rest, Error::Type),
            },
            Op::Quit => failed(s, Error::Quit),
        }
    }
}

/// A last-in-first-out sequence of [`Item`]s. The top is the last element of the view.
#[derive(Debug)]
pub struct Stack(Vec<Item>);

impl View for Stack {
    type V = Seq<Item>;

    closed spec fn view(&self) -> Seq<Item> {
        self.0@
    }
}

impl Stack {
    /// An empty stack.
    pub fn new() -> (s: Self)
        ensures
            s@ == Seq::<Item>::empty(),
    {
        Stack(Vec::new())
    }

    /// Whether the stack holds no value.
    pub fn empty(&self) -> (b: bool)
        ensures
            b <==> self@.len() == 0,
    {
        self.0.len() == 0
    }

    /// Puts `item` on top. Never fails.
    pub fn push(&mut self, item: Item) -> (res: Result<()>)
        ensures
            res == Ok::<(), Error>(()),
            final(self)@ == old(self)@.push(item),
    {
        self.0.push(item);
        Ok(())
    }

    /// Takes the top value off, or reports `Empty` and leaves the stack as it was.
    pub fn pop(&mut self) -> (res: Result<Item>)
        ensures
            old(self)@.len() == 0 ==> res == Err::<Item, Error>(Error::Empty) && final(self)@ == old(
                self,
            )@,
            old(self)@.len() > 0 ==> res == Ok::<Item, Error>(old(self)@.last()) && final(self)@
                == old(self)@.drop_last(),
    {
        match self.0.pop() {
            Some(item) => Ok(item),
            None => Err(Error::Empty),
        }
    }

    /// The bound under which `op` would draw a number on this stack, if it would draw one.
    fn bound(&self, op: Op) -> (max: Option<i32>)
        ensures
            max == sample_bound(self@, op),
    {
        let n = self.0.len();
        match op {
            Op::Rand => {
                if n == 0 {
                    None
                } else {
                    match self.0[n - 1] {
                        Item::Int(max) => {
                            if max > 0 {
                                Some(max)
                            } else {
                                None
                            }
                        },
                        Item::Bool(_) => None,
                    }
                }
            },
            _ => None,
        }
    }

    /// Applies `op` to the stack.
    ///
    /// The operands are counted first, and with too few of them the stack is left as it
    /// was. Then they are taken off, and only then are their variants looked at. `Add`
    /// wraps around. `Rand` draws from the generator of the calling thread, so the
    /// contract leaves the number open within its bounds: at least zero, and less than
    /// the operand.
    pub fn eval(&mut self, op: Op) -> (res: Result<()>)
        ensures
            (exists|draw: i32|
                {
                    &&& #[trigger] draw_fits(old(self)@, op, draw)
                    &&& final(self)@ == step(old(self)@, op, draw).stack
                    &&& res == step(old(self)@, op, draw).result
                }),
            op !is Quit && old(self)@.len() < arity(op) ==> res == Err::<(), Error>(Error::Empty)
                && final(self)@ == old(self)@,
            op is Quit ==> res == Err::<(), Error>(Error::Quit) && final(self)@ == old(self)@,
    {
        let draw = match self.bound(op) {
            Some(max) => {
                let mut rng = rand::thread_rng();
                draw_below(&mut rng, max)
            },
            None => 0,
        };
        assert(draw_fits(self@, op, draw));
        self.eval_with(op, draw)
    }

    /// Applies `op` to the stack, with `draw` as the number that `Rand` draws.
    ///
    /// This is [`Stack::eval`] with the one thing that is left to chance handed in: the
    /// same counting, taking off and looking at variants, and `Rand` puts `draw` where
    /// the operand was, whatever `draw` is.
    pub fn eval_with(&mut self, op: Op, draw: i32) -> (res: Result<()>)
        ensures
            final(self)@ == step(old(self)@, op, draw).stack,
            res == step(old(self)@, op, draw).result,
    {
        match op {
            Op::Add => {
                if self.0.len() < 2 {
                    Err(Error::Empty)
                } else {
                    let b = self.pop()?;
                    let a = self.pop()?;
                    match (a, b) {
                        (Item::Int(x), Item::Int(y)) => self.push(Item::Int(x.wrapping_add(y))),
                        _ => Err(Error::Type),
                    }
                }
            },
            Op::Eq => {
                if self.0.len() < 2 {
                    Err(Error::Empty)
                } else {
                    let b = self.pop()?;
                    let a = self.pop()?;
                    match (a, b) {
                        (Item::Int(x), Item::Int(y)) => self.push(Item::Bool(x == y)),
                        (Item::Bool(x), Item::Bool(y)) => self.push(Item::Bool(x == y)),
                        _ => Err(Error::Type),
                    }
                }
            },
            Op::Neg => {
                if self.empty() {
                    Err(Error::Empty)
                } else {
                    let value = self.pop()?;
                    match value {
                        Item::Bool(b) => self.push(Item::Bool(!b)),
                        _ => Err(Error::Type),
                    }
                }
            },
            Op::Swap => {
                if self.0.len() < 2 {
                    Err(Error::Empty)
                } else {
                    let b = self.pop()?;
                    let a = self.pop()?;
                    self.push(b)?;
                    self.push(a)
                }
            },
            Op::Rand => {
                if self.empty() {
                    Err(Error::Empty)
                } else {
                    let value = self.pop()?;
                    match value {
                        Item::Int(max) => {
                            if max > 0 {
                                self.push(Item::Int(draw))
                            } else {
                                Err(Error::Type)
                            }
                        },
                        Item::Bool(_) => Err(Error::Type),
                    }
                }
            },
            Op::Cond => {
                if self.0.len() < 3 {
                    Err(Error::Empty)
                } else {
                    let c = self.pop()?;
                    let b = self.pop()?;
                    let a = self.pop()?;
                    match a {
                        Item::Bool(choice) => {
                            if choice {
                                self.push(b)
                            } else {
                                self.push(c)
                            }
                        },
                        _ => Err(Error::Type),
                    }
                }
            },
            Op::Quit => Err(Error::Quit),
        }
    }
}

} // verus!
