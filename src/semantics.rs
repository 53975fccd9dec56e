use vstd::prelude::*;

use crate::error::Error;
use crate::operator::{apply_op, operator_named, Operator};
use crate::text::{is_digit, parse_int, upper_of};

verus! {

/// A user-defined word as the dictionary holds it.
pub struct WordDef {
    /// The upper-cased name.
    pub name: Seq<char>,
    /// The body's raw tokens, resolved only when the word runs.
    pub body: Seq<Seq<char>>,
    /// The dictionary's length when the word was defined: the body sees only
    /// the entries before this one.
    pub snapshot: nat,
}

/// What a token stands for, given the visible part of the dictionary.
pub enum Meaning {
    Number(i32),
    Op(Operator),
    Definition,
    Word(nat),
    Unknown,
}

/// The token `:`, which opens a definition.
pub open spec fn colon() -> Seq<char> {
    seq![':']
}

/// The token `;`, which closes a definition.
pub open spec fn semicolon() -> Seq<char> {
    seq![';']
}

/// Each entry's snapshot is its own position, its body is non-empty, and its
/// body holds no `;`.
pub open spec fn dict_wf(defs: Seq<WordDef>) -> bool {
    forall|k: int|
        0 <= k < defs.len() ==> {
            &&& (#[trigger] defs[k]).snapshot == k
            &&& defs[k].body.len() > 0
            &&& forall|j: int| 0 <= j < defs[k].body.len() ==> defs[k].body[j] != semicolon()
        }
}

/// The most recent entry below `bound` whose name is `name`.
pub open spec fn find_word(defs: Seq<WordDef>, bound: nat, name: Seq<char>) -> Option<nat>
    decreases bound,
{
    if bound == 0 {
        None
    } else if defs[bound - 1].name == name {
        Some((bound - 1) as nat)
    } else {
        find_word(defs, (bound - 1) as nat, name)
    }
}

/// Classifies `tok` against the entries of `defs` below `bound`: the colon
/// first, then user words, then built-in operators, then numbers.
pub open spec fn classify(defs: Seq<WordDef>, bound: nat, tok: Seq<char>) -> Meaning {
    if tok == colon() {
        Meaning::Definition
    } else {
        match find_word(defs, bound, upper_of(tok)) {
            Some(k) => Meaning::Word(k),
            None => match operator_named(upper_of(tok)) {
                Some(op) => Meaning::Op(op),
                None => match parse_int(tok) {
                    Some(n) => Meaning::Number(n),
                    None => Meaning::Unknown,
                },
            },
        }
    }
}

/// A lookup finds an entry below the bound that carries the name.
pub proof fn lemma_find_word_below(defs: Seq<WordDef>, bound: nat, name: Seq<char>)
    ensures
        find_word(defs, bound, name) matches Some(k) ==> k < bound && defs[k as int].name
            == name,
    decreases bound,
{
    if bound > 0 {
        lemma_find_word_below(defs, (bound - 1) as nat, name);
    }
}

/// Runs one token of a word body (or of a program, for anything but `:`)
/// against the entries of `defs` below `bound`. A word runs its body with only
/// the entries below its snapshot in sight; in a well-formed dictionary that
/// snapshot is the word's own position, below `bound`, and a snapshot outside
/// that range makes the word unknown. A `:` here never completes, since bodies
/// hold no `;`.
pub open spec fn run_token(defs: Seq<WordDef>, bound: nat, tok: Seq<char>, s: Seq<i32>) -> Result<
    Seq<i32>,
    Error,
>
    decreases bound, 0nat,
{
    match classify(defs, bound, tok) {
        Meaning::Number(n) => Ok(s.push(n)),
        Meaning::Op(op) => apply_op(op, s),
        Meaning::Definition => Err(Error::InvalidWord),
        Meaning::Word(k) => if defs[k as int].snapshot < bound {
            run_tokens(defs, defs[k as int].snapshot, defs[k as int].body, s)
        } else {
            Err(Error::UnknownWord)
        },
        Meaning::Unknown => Err(Error::UnknownWord),
    }
}

/// Runs `toks` from left to right, stopping at the first error.
pub open spec fn run_tokens(defs: Seq<WordDef>, bound: nat, toks: Seq<Seq<char>>, s: Seq<i32>) -> Result<
    Seq<i32>,
    Error,
>
    decreases bound, toks.len(),
{
    if toks.len() == 0 {
        Ok(s)
    } else {
        match run_token(defs, bound, toks[0], s) {
            Ok(s1) => run_tokens(defs, bound, toks.drop_first(), s1),
            Err(e) => Err(e),
        }
    }
}

/// The position of the first `;` in `toks` at or after `from`.
pub open spec fn semicolon_from(toks: Seq<Seq<char>>, from: nat) -> Option<nat>
    decreases toks.len() - from,
{
    if from >= toks.len() {
        None
    } else if toks[from as int] == semicolon() {
        Some(from)
    } else {
        semicolon_from(toks, from + 1)
    }
}

/// The search for `;` stops at the first one, and finds none only when there is none.
pub proof fn lemma_semicolon_from(toks: Seq<Seq<char>>, from: nat)
    ensures
        semicolon_from(toks, from) matches Some(e) ==> from <= e < toks.len() && toks[e as int]
            == semicolon() && forall|j: int| from <= j < e ==> toks[j] != semicolon(),
        semicolon_from(toks, from) is None ==> forall|j: int|
            from <= j < toks.len() ==> toks[j] != semicolon(),
    decreases toks.len() - from,
{
    if from < toks.len() && toks[from as int] != semicolon() {
        lemma_semicolon_from(toks, from + 1);
    }
}

/// The definition opened by the `:` at position `i`: the name token follows
/// it, the body runs up to the next `;`. It is rejected when no `;` follows,
/// when the body is empty, or when the name starts with a digit. On success:
/// the new entry, and the position just after the `;`.
pub open spec fn definition_at(defs: Seq<WordDef>, toks: Seq<Seq<char>>, i: nat) -> Result<
    (WordDef, nat),
    Error,
> {
    match semicolon_from(toks, i + 2) {
        None => Err(Error::InvalidWord),
        Some(end) => {
            let name = toks[i + 1 as int];
            let body = toks.subrange(i + 2 as int, end as int);
            if body.len() == 0 || (name.len() > 0 && is_digit(name[0])) {
                Err(Error::InvalidWord)
            } else {
                Ok((WordDef { name: upper_of(name), body, snapshot: defs.len() }, end + 1))
            }
        },
    }
}

/// Runs the program `toks` from position `i` on: definitions extend the
/// dictionary, every other token runs against the whole dictionary as it
/// stands. The result is the final stack and dictionary, or the first error.
pub open spec fn run_program(defs: Seq<WordDef>, toks: Seq<Seq<char>>, i: nat, s: Seq<i32>) -> Result<
    (Seq<i32>, Seq<WordDef>),
    Error,
>
    decreases toks.len() - i,
    via run_program_decreases
{
    if i >= toks.len() {
        Ok((s, defs))
    } else if toks[i as int] == colon() {
        match definition_at(defs, toks, i) {
            Err(e) => Err(e),
            Ok((w, next)) => run_program(defs.push(w), toks, next, s),
        }
    } else {
        match run_token(defs, defs.len(), toks[i as int], s) {
            Ok(s1) => run_program(defs, toks, i + 1, s1),
            Err(e) => Err(e),
        }
    }
}

#[via_fn]
proof fn run_program_decreases(defs: Seq<WordDef>, toks: Seq<Seq<char>>, i: nat, s: Seq<i32>) {
    lemma_semicolon_from(toks, i + 2);
}

/// The outcome of evaluating `toks` on an interpreter whose dictionary is
/// `defs`: each evaluation starts from an empty stack.
pub open spec fn eval_spec(defs: Seq<WordDef>, toks: Seq<Seq<char>>) -> Result<
    (Seq<i32>, Seq<WordDef>),
    Error,
> {
    run_program(defs, toks, 0, seq![])
}

} // verus!
