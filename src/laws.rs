//! Properties of the language that follow from its semantics.
use vstd::prelude::*;

use crate::error::Error;
use crate::operator::{apply_op, arity, div_wrapping, Operator};
use crate::semantics::{
    classify, colon, dict_wf, eval_spec, find_word, lemma_find_word_below, run_program, run_token,
    run_tokens, Meaning, WordDef,
};
use crate::text::upper_of;

verus! {

/// Operand order: in the program `x y OP` the top value `y` is the right-hand
/// operand, so the result is `x + y`, `x - y`, `x * y` or `x / y`.
pub proof fn law_binary_operand_order(
    defs: Seq<WordDef>,
    t1: Seq<char>,
    t2: Seq<char>,
    t3: Seq<char>,
    x: i32,
    y: i32,
    op: Operator,
)
    requires
        classify(defs, defs.len(), t1) == Meaning::Number(x),
        classify(defs, defs.len(), t2) == Meaning::Number(y),
        classify(defs, defs.len(), t3) == Meaning::Op(op),
        op == Operator::Add || op == Operator::Sub || op == Operator::Mul || op == Operator::Div,
    ensures
        eval_spec(defs, seq![t1, t2, t3]) == match op {
            Operator::Add => Ok((seq![x.wrapping_add(y)], defs)),
            Operator::Sub => Ok((seq![x.wrapping_sub(y)], defs)),
            Operator::Mul => Ok((seq![x.wrapping_mul(y)], defs)),
            _ => if y == 0 {
                Err(Error::DivisionByZero)
            } else {
                Ok((seq![div_wrapping(x, y)], defs))
            },
        },
{
    let toks = seq![t1, t2, t3];
    let s1 = seq![x];
    let s2 = seq![x, y];
    assert(t1 != colon() && t2 != colon() && t3 != colon());
    assert(run_token(defs, defs.len(), t1, seq![]) == Ok::<Seq<i32>, Error>(s1)) by {
        assert(seq![].push(x) =~= s1);
    }
    assert(run_token(defs, defs.len(), t2, s1) == Ok::<Seq<i32>, Error>(s2)) by {
        assert(s1.push(y) =~= s2);
    }
    assert(s2.subrange(0, 0) =~= Seq::<i32>::empty());
    assert(run_program(defs, toks, 3, seq![]) == Ok::<(Seq<i32>, Seq<WordDef>), Error>(
        (seq![], defs),
    ));
    assert(seq![].push(x.wrapping_add(y)) =~= seq![x.wrapping_add(y)]);
    assert(seq![].push(x.wrapping_sub(y)) =~= seq![x.wrapping_sub(y)]);
    assert(seq![].push(x.wrapping_mul(y)) =~= seq![x.wrapping_mul(y)]);
    assert(seq![].push(div_wrapping(x, y)) =~= seq![div_wrapping(x, y)]);
    assert(run_program(defs, toks, 2, s2) == match apply_op(op, s2) {
        Ok(s) => run_program(defs, toks, 3, s),
        Err(e) => Err(e),
    });
    assert(run_program(defs, toks, 1, s1) == run_program(defs, toks, 2, s2));
    assert(run_program(defs, toks, 0, seq![]) == run_program(defs, toks, 1, s1));
}

/// Every operator fails with `StackUnderflow`, leaving nothing to apply, on a
/// stack with fewer values than it reads: an empty stack for all of them, a
/// single value for all but `DUP` and `DROP`.
pub proof fn law_underflow(op: Operator, s: Seq<i32>)
    requires
        s.len() < arity(op),
    ensures
        apply_op(op, s) == Err::<Seq<i32>, Error>(Error::StackUnderflow),
        s.len() == 0 ==> apply_op(op, s) == Err::<Seq<i32>, Error>(Error::StackUnderflow),
        op != Operator::Dup && op != Operator::Drop && s.len() == 1 ==> apply_op(op, s) == Err::<
            Seq<i32>,
            Error,
        >(Error::StackUnderflow),
{
}

/// Dividing by zero fails with `DivisionByZero`.
pub proof fn law_division_by_zero(s: Seq<i32>)
    requires
        s.len() >= 2,
        s.last() == 0,
    ensures
        apply_op(Operator::Div, s) == Err::<Seq<i32>, Error>(Error::DivisionByZero),
{
}

/// Looking up a name among the first `bound` entries ignores what follows them.
proof fn lemma_find_word_frame(defs: Seq<WordDef>, more: Seq<WordDef>, bound: nat, name: Seq<char>)
    requires
        bound <= defs.len(),
    ensures
        find_word(defs + more, bound, name) == find_word(defs, bound, name),
    decreases bound,
{
    if bound > 0 {
        assert((defs + more)[bound - 1] == defs[bound - 1]);
        lemma_find_word_frame(defs, more, (bound - 1) as nat, name);
    }
}

/// Running a token against the first `bound` entries ignores what follows them.
pub proof fn lemma_run_token_frame(
    defs: Seq<WordDef>,
    more: Seq<WordDef>,
    bound: nat,
    tok: Seq<char>,
    s: Seq<i32>,
)
    requires
        bound <= defs.len(),
    ensures
        run_token(defs + more, bound, tok, s) == run_token(defs, bound, tok, s),
    decreases bound, 0nat,
{
    lemma_find_word_frame(defs, more, bound, upper_of(tok));
    lemma_find_word_below(defs, bound, upper_of(tok));
    if let Meaning::Word(k) = classify(defs, bound, tok) {
        assert((defs + more)[k as int] == defs[k as int]);
        let w = defs[k as int];
        if w.snapshot < bound {
            lemma_run_tokens_frame(defs, more, w.snapshot, w.body, s);
        }
    }
}

/// Running tokens against the first `bound` entries ignores what follows them.
pub proof fn lemma_run_tokens_frame(
    defs: Seq<WordDef>,
    more: Seq<WordDef>,
    bound: nat,
    toks: Seq<Seq<char>>,
    s: Seq<i32>,
)
    requires
        bound <= defs.len(),
    ensures
        run_tokens(defs + more, bound, toks, s) == run_tokens(defs, bound, toks, s),
    decreases bound, toks.len(),
{
    if toks.len() > 0 {
        lemma_run_token_frame(defs, more, bound, toks[0], s);
        if let Ok(s1) = run_token(defs, bound, toks[0], s) {
            lemma_run_tokens_frame(defs, more, bound, toks.drop_first(), s1);
        }
    }
}

/// Shadowing: once a word named like `tok` is defined, `tok` invokes that new
/// definition, whatever the name meant before (a built-in or an older word).
pub proof fn law_latest_definition_wins(defs: Seq<WordDef>, w: WordDef, tok: Seq<char>, s: Seq<i32>)
    requires
        tok != colon(),
        w.name == upper_of(tok),
        w.snapshot == defs.len(),
    ensures
        classify(defs.push(w), defs.len() + 1, tok) == Meaning::Word(defs.len()),
        run_token(defs.push(w), defs.len() + 1, tok, s) == run_tokens(
            defs.push(w),
            defs.len(),
            w.body,
            s,
        ),
{
}

/// Redefinition independence: defining a new word leaves every other name's
/// behaviour unchanged, including that of words whose bodies use the
/// redefined name; those keep running the definitions they could see.
pub proof fn law_redefinition_keeps_callers(
    defs: Seq<WordDef>,
    w: WordDef,
    tok: Seq<char>,
    s: Seq<i32>,
)
    requires
        dict_wf(defs),
        w.name != upper_of(tok),
    ensures
        run_token(defs.push(w), defs.len() + 1, tok, s) == run_token(defs, defs.len(), tok, s),
{
    let d2 = defs.push(w);
    assert(d2 =~= defs + seq![w]);
    lemma_run_token_frame(defs, seq![w], defs.len(), tok, s);
    lemma_find_word_below(defs, defs.len(), upper_of(tok));
    assert(find_word(d2, defs.len() + 1, upper_of(tok)) == find_word(d2, defs.len(), upper_of(tok)));
    lemma_find_word_frame(defs, seq![w], defs.len(), upper_of(tok));
    assert(classify(d2, defs.len() + 1, tok) == classify(d2, defs.len(), tok));
    if let Meaning::Word(k) = classify(defs, defs.len(), tok) {
        assert(d2[k as int] == defs[k as int]);
        assert(defs[k as int].snapshot == k);
    }
    assert(run_token(d2, defs.len() + 1, tok, s) == run_token(d2, defs.len(), tok, s));
}

/// No self or forward reference: a token in the body of the word at position
/// `k` resolves among the entries before `k` alone, so never to that word or a
/// later one; a name that no earlier entry has is no word there at all.
pub proof fn law_no_self_reference(defs: Seq<WordDef>, k: int, tok: Seq<char>)
    requires
        dict_wf(defs),
        0 <= k < defs.len(),
    ensures
        classify(defs, defs[k].snapshot, tok) matches Meaning::Word(j) ==> j < k,
        find_word(defs, k as nat, upper_of(tok)) is None ==> !(classify(
            defs,
            defs[k].snapshot,
            tok,
        ) is Word),
{
    lemma_find_word_below(defs, k as nat, upper_of(tok));
}

} // verus!
