use vstd::prelude::*;

use crate::error::Error;
use crate::text::same_chars;

verus! {

/// The built-in operators.
#[derive(Debug, Clone, Copy, PartialEq, Eq, Structural)]
pub enum Operator {
    Add,
    Sub,
    Mul,
    Div,
    Dup,
    Drop,
    Swap,
    Over,
}

/// How many values an operator reads from the top of the stack.
pub open spec fn arity(op: Operator) -> nat {
    match op {
        Operator::Dup | Operator::Drop => 1,
        _ => 2,
    }
}

/// Truncating division of `b` by a non-zero `a`; the one quotient that does
/// not fit (`i32::MIN / -1`) wraps around to `i32::MIN`.
pub open spec fn div_wrapping(b: i32, a: i32) -> i32 {
    match b.checked_div(a) {
        Some(q) => q,
        None => i32::MIN,
    }
}

/// The effect of `op` on a stack whose top is its last element. With `a` the
/// top and `b` the value below it, the binary operators replace both by
/// `b + a`, `b - a`, `b * a` or `b / a` (wrapping on overflow).
pub open spec fn apply_op(op: Operator, s: Seq<i32>) -> Result<Seq<i32>, Error> {
    let n = s.len();
    if n < arity(op) {
        Err(Error::StackUnderflow)
    } else {
        let a = s[n - 1];
        let b = s[n - 2];
        let below = s.subrange(0, n - 2);
        match op {
            Operator::Add => Ok(below.push(b.wrapping_add(a))),
            Operator::Sub => Ok(below.push(b.wrapping_sub(a))),
            Operator::Mul => Ok(below.push(b.wrapping_mul(a))),
            Operator::Div => if a == 0 {
                Err(Error::DivisionByZero)
            } else {
                Ok(below.push(div_wrapping(b, a)))
            },
            Operator::Dup => Ok(s.push(a)),
            Operator::Drop => Ok(s.drop_last()),
            Operator::Swap => Ok(below.push(a).push(b)),
            Operator::Over => Ok(s.push(b)),
        }
    }
}

/// The operator that an upper-cased token names, if any.
pub open spec fn operator_named(u: Seq<char>) -> Option<Operator> {
    if u == seq!['+'] {
        Some(Operator::Add)
    } else if u == seq!['-'] {
        Some(Operator::Sub)
    } else if u == seq!['*'] {
        Some(Operator::Mul)
    } else if u == seq!['/'] {
        Some(Operator::Div)
    } else if u == seq!['D', 'U', 'P'] {
        Some(Operator::Dup)
    } else if u == seq!['D', 'R', 'O', 'P'] {
        Some(Operator::Drop)
    } else if u == seq!['S', 'W', 'A', 'P'] {
        Some(Operator::Swap)
    } else if u == seq!['O', 'V', 'E', 'R'] {
        Some(Operator::Over)
    } else {
        None
    }
}

/// Recognises the name of a built-in operator in an upper-cased token.
pub fn operator_of(u: &Vec<char>) -> (r: Option<Operator>)
    ensures
        r == operator_named(u@),
{
    let names: [(Vec<char>, Operator); 8] = [
        (vec!['+'], Operator::Add),
        (vec!['-'], Operator::Sub),
        (vec!['*'], Operator::Mul),
        (vec!['/'], Operator::Div),
        (vec!['D', 'U', 'P'], Operator::Dup),
        (vec!['D', 'R', 'O', 'P'], Operator::Drop),
        (vec!['S', 'W', 'A', 'P'], Operator::Swap),
        (vec!['O', 'V', 'E', 'R'], Operator::Over),
    ];
    assert(names[0].0@ =~= seq!['+']);
    assert(names[1].0@ =~= seq!['-']);
    assert(names[2].0@ =~= seq!['*']);
    assert(names[3].0@ =~= seq!['/']);
    assert(names[4].0@ =~= seq!['D', 'U', 'P']);
    assert(names[5].0@ =~= seq!['D', 'R', 'O', 'P']);
    assert(names[6].0@ =~= seq!['S', 'W', 'A', 'P']);
    assert(names[7].0@ =~= seq!['O', 'V', 'E', 'R']);
    let mut i: usize = 0;
    while i < 8
        invariant
            i <= 8,
            forall|j: int| 0 <= j < i ==> u@ != (#[trigger] names[j]).0@,
            forall|j: int|
                0 <= j < 8 ==> operator_named((#[trigger] names[j]).0@) == Some(names[j].1),
            operator_named(u@) is Some ==> exists|j: int| 0 <= j < 8 && u@ == (#[trigger] names[j]).0@,
        decreases 8 - i,
    {
        if same_chars(u, &names[i].0) {
            return Some(names[i].1);
        }
        i = i + 1;
    }
    None
}

impl Operator {
    /// Applies the operator to `stack`. On an error the stack is left as it was.
    pub fn operate(&self, stack: &mut Vec<i32>) -> (r: Result<(), Error>)
        ensures
            match apply_op(*self, old(stack)@) {
                Ok(s) => r is Ok && final(stack)@ == s,
                Err(e) => r == Err::<(), Error>(e) && final(stack)@ == old(stack)@,
            },
    {
        let n = stack.len();
        match self {
            Operator::Dup | Operator::Drop => {
                if n < 1 {
                    return Err(Error::StackUnderflow);
                }
            },
            _ => {
                if n < 2 {
                    return Err(Error::StackUnderflow);
                }
            },
        }
        match self {
            Operator::Dup => {
                let a = stack[n - 1];
                stack.push(a);
            },
            Operator::Drop => {
                stack.pop();
                assert(stack@ =~= old(stack)@.drop_last());
            },
            Operator::Over => {
                let b = stack[n - 2];
                stack.push(b);
            },
            Operator::Div => {
                let a = stack[n - 1];
                if a == 0 {
                    return Err(Error::DivisionByZero);
                }
                let a = stack.pop().unwrap();
                let b = stack.pop().unwrap();
                let q = match b.checked_div(a) {
                    Some(q) => q,
                    None => i32::MIN,
                };
                stack.push(q);
                assert(stack@ =~= old(stack)@.subrange(0, n - 2).push(q));
            },
            _ => {
                let a = stack.pop().unwrap();
                let b = stack.pop().unwrap();
                match self {
                    Operator::Add => stack.push(b.wrapping_add(a)),
                    Operator::Sub => stack.push(b.wrapping_sub(a)),
                    Operator::Mul => stack.push(b.wrapping_mul(a)),
                    _ => {
                        stack.push(a);
                        stack.push(b);
                    },
                }
                assert(stack@ =~= apply_op(*self, old(stack)@)->Ok_0);
            },
        }
        Ok(())
    }
}

} // verus!
