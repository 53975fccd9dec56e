use vstd::prelude::*;

use crate::error::Error;
use crate::operator::{operator_of, Operator};
use crate::semantics::{
    classify, colon, definition_at, dict_wf, eval_spec, find_word, lemma_find_word_below,
    run_program, run_token, run_tokens, semicolon, semicolon_from, Meaning, WordDef,
};
use crate::text::{
    copy_chars, parse_number, same_chars, split_tokens, to_upper, tokens_of, upper_of, views,
};

verus! {

/// A user-defined word: its upper-cased name, its body's raw tokens, and the
/// dictionary length when it was defined.
pub struct Variable {
    word: Vec<char>,
    definition: Vec<Vec<char>>,
    definitions_index: usize,
}

impl View for Variable {
    type V = WordDef;

    closed spec fn view(&self) -> WordDef {
        WordDef {
            name: self.word@,
            body: views(self.definition@),
            snapshot: self.definitions_index as nat,
        }
    }
}

/// What a token was classified as; a word is given by its dictionary position.
pub enum InputValue {
    Number(i32),
    Operator(Operator),
    Definition,
    Variable(usize),
    Void,
}

/// The classification that an `InputValue` reports.
pub open spec fn meaning_of(v: InputValue) -> Meaning {
    match v {
        InputValue::Number(n) => Meaning::Number(n),
        InputValue::Operator(op) => Meaning::Op(op),
        InputValue::Definition => Meaning::Definition,
        InputValue::Variable(k) => Meaning::Word(k as nat),
        InputValue::Void => Meaning::Unknown,
    }
}

/// An interpreter: one stack and one append-only dictionary.
pub struct Forth {
    stack: Vec<i32>,
    definitions: Vec<Variable>,
}

impl Forth {
    /// The stack, oldest value first.
    pub closed spec fn stack_view(&self) -> Seq<i32> {
        self.stack@
    }

    /// The dictionary, oldest entry first.
    pub closed spec fn dict(&self) -> Seq<WordDef> {
        self.definitions@.map_values(|v: Variable| v@)
    }

    /// The dictionary is well formed (see `dict_wf`).
    pub open spec fn wf(&self) -> bool {
        dict_wf(self.dict())
    }

    /// An interpreter with an empty stack and an empty dictionary.
    pub fn new() -> (r: Forth)
        ensures
            r.wf(),
            r.stack_view() == Seq::<i32>::empty(),
            r.dict() == Seq::<WordDef>::empty(),
    {
        let r = Forth { stack: Vec::new(), definitions: Vec::new() };
        assert(r.dict() =~= Seq::<WordDef>::empty());
        r
    }

    /// The stack, oldest value first.
    pub fn stack(&self) -> (r: &[i32])
        ensures
            r@ == self.stack_view(),
    {
        self.stack.as_slice()
    }

    /// Evaluates one program. The stack starts empty for every call; on
    /// success it is replaced by the program's final stack and the
    /// dictionary holds the program's definitions. On an error neither the
    /// stack nor the dictionary changes.
    pub fn eval(&mut self, input: &str) -> (r: Result<(), Error>)
        requires
            old(self).wf(),
        ensures
            final(self).wf(),
            match eval_spec(old(self).dict(), tokens_of(input@)) {
                Ok((s, d)) => r is Ok && final(self).stack_view() == s && final(self).dict() == d,
                Err(e) => r == Err::<(), Error>(e) && final(self).stack_view() == old(
                    self,
                ).stack_view() && final(self).dict() == old(self).dict(),
            },
    {
        let toks = split_tokens(input);
        let ghost t = views(toks@);
        let old_len = self.definitions.len();
        let mut stack: Vec<i32> = Vec::new();
        let mut i: usize = 0;
        while i < toks.len()
            invariant
                self.wf(),
                t == views(toks@),
                t == tokens_of(input@),
                i <= toks.len(),
                eval_spec(old(self).dict(), t) == run_program(self.dict(), t, i as nat, stack@),
                old_len == old(self).dict().len(),
                old_len <= self.dict().len(),
                self.dict().subrange(0, old_len as int) == old(self).dict(),
                self.stack_view() == old(self).stack_view(),
            decreases toks.len() - i,
        {
            assert(t[i as int] == toks@[i as int]@);
            if toks[i].len() == 1 && toks[i][0] == ':' {
                assert(t[i as int] =~= colon());
                match self.parse_definition(&toks, i) {
                    Err(e) => {
                        self.discard_from(old_len);
                        return Err(e);
                    },
                    Ok((var, next)) => {
                        let ghost before = self.dict();
                        self.definitions.push(var);
                        assert(self.dict() =~= before.push(var@));
                        assert(self.dict().subrange(0, old_len as int) =~= before.subrange(
                            0,
                            old_len as int,
                        ));
                        i = next;
                    },
                }
            } else {
                assert(t[i as int] != colon());
                let bound = self.definitions.len();
                match self.evaluate_character(&toks[i], bound, &mut stack) {
                    Err(e) => {
                        self.discard_from(old_len);
                        return Err(e);
                    },
                    Ok(()) => {},
                }
                i = i + 1;
            }
        }
        self.stack = stack;
        Ok(())
    }

    /// Drops the dictionary entries from position `len` on.
    fn discard_from(&mut self, len: usize)
        requires
            len <= old(self).dict().len(),
            old(self).wf(),
        ensures
            final(self).wf(),
            final(self).dict() == old(self).dict().subrange(0, len as int),
            final(self).stack_view() == old(self).stack_view(),
    {
        self.definitions.truncate(len);
        assert(self.dict() =~= old(self).dict().subrange(0, len as int));
    }

    /// Reads the definition opened by the `:` at position `i` of `toks`.
    fn parse_definition(&self, toks: &Vec<Vec<char>>, i: usize) -> (r: Result<
        (Variable, usize),
        Error,
    >)
        requires
            i < toks.len(),
            views(toks@)[i as int] == colon(),
        ensures
            match definition_at(self.dict(), views(toks@), i as nat) {
                Ok((w, next)) => r matches Ok((v, n)) && v@ == w && n == next && i < n
                    <= toks.len() && w.body.len() > 0 && forall|j: int|
                    0 <= j < w.body.len() ==> w.body[j] != semicolon(),
                Err(e) => r matches Err(e2) && e2 == e,
            },
    {
        let ghost t = views(toks@);
        let n = toks.len();
        if n - i < 2 {
            return Err(Error::InvalidWord);
        }
        let start = i + 2;
        let mut end = start;
        while end < n && !(toks[end].len() == 1 && toks[end][0] == ';')
            invariant
                start <= end <= n,
                n == toks.len(),
                t == views(toks@),
                semicolon_from(t, start as nat) == semicolon_from(t, end as nat),
                forall|j: int| start <= j < end ==> t[j] != semicolon(),
            decreases n - end,
        {
            assert(t[end as int] == toks@[end as int]@);
            assert(t[end as int] != semicolon());
            end = end + 1;
        }
        if end == n {
            return Err(Error::InvalidWord);
        }
        assert(t[end as int] =~= semicolon());
        let mut body: Vec<Vec<char>> = Vec::new();
        let mut j = start;
        while j < end
            invariant
                start <= j <= end < n,
                n == toks.len(),
                t == views(toks@),
                views(body@) == t.subrange(start as int, j as int),
            decreases end - j,
        {
            let tok = copy_chars(&toks[j]);
            assert(t[j as int] == tok@);
            let ghost prior = views(body@);
            body.push(tok);
            assert(views(body@) =~= prior.push(tok@));
            j = j + 1;
            assert(views(body@) =~= t.subrange(start as int, j as int));
        }
        if body.len() == 0 {
            return Err(Error::InvalidWord);
        }
        let name = &toks[i + 1];
        assert(t[i + 1] == name@);
        if name.len() > 0 && '0' <= name[0] && name[0] <= '9' {
            return Err(Error::InvalidWord);
        }
        let var = Variable {
            word: to_upper(name),
            definition: body,
            definitions_index: self.definitions.len(),
        };
        Ok((var, end + 1))
    }

    /// Classifies `val` against the dictionary entries below `bound`.
    fn evaluate_input(&self, val: &Vec<char>, bound: usize) -> (r: InputValue)
        requires
            bound <= self.dict().len(),
        ensures
            meaning_of(r) == classify(self.dict(), bound as nat, val@),
    {
        if val.len() == 1 && val[0] == ':' {
            assert(val@ =~= colon());
            return InputValue::Definition;
        }
        assert(val@ != colon());
        let u = to_upper(val);
        let mut k = bound;
        while k > 0
            invariant
                k <= bound <= self.dict().len(),
                u@ == upper_of(val@),
                val@ != colon(),
                find_word(self.dict(), bound as nat, u@)
                    == find_word(self.dict(), k as nat, u@),
            decreases k,
        {
            assert(self.dict()[k - 1] == self.definitions@[k - 1]@);
            assert(self.dict()[k - 1].name == self.definitions@[k - 1].word@);
            if same_chars(&self.definitions[k - 1].word, &u) {
                assert(find_word(self.dict(), k as nat, u@) == Some(
                    (k - 1) as nat,
                ));
                return InputValue::Variable(k - 1);
            }
            k = k - 1;
        }
        match operator_of(&u) {
            Some(op) => InputValue::Operator(op),
            None => match parse_number(val) {
                Some(n) => InputValue::Number(n),
                None => InputValue::Void,
            },
        }
    }

    /// Runs one token against the dictionary entries below `bound`, on the
    /// working `stack`.
    fn evaluate_character(&self, val: &Vec<char>, bound: usize, stack: &mut Vec<i32>) -> (r: Result<
        (),
        Error,
    >)
        requires
            self.wf(),
            bound <= self.dict().len(),
        ensures
            match run_token(self.dict(), bound as nat, val@, old(stack)@) {
                Ok(s) => r is Ok && final(stack)@ == s,
                Err(e) => r == Err::<(), Error>(e),
            },
        decreases bound,
    {
        let ghost d = self.dict();
        match self.evaluate_input(val, bound) {
            InputValue::Number(n) => {
                stack.push(n);
                Ok(())
            },
            InputValue::Operator(op) => op.operate(stack),
            InputValue::Definition => Err(Error::InvalidWord),
            InputValue::Void => Err(Error::UnknownWord),
            InputValue::Variable(k) => {
                proof {
                    lemma_find_word_below(d, bound as nat, upper_of(val@));
                }
                let var = &self.definitions[k];
                assert(d[k as int] == var@);
                let inner = var.definitions_index;
                let ghost body = d[k as int].body;
                let ghost s0 = stack@;
                let len = var.definition.len();
                let mut j: usize = 0;
                assert(body.subrange(0, len as int) =~= body);
                assert(run_token(d, bound as nat, val@, s0) == run_tokens(d, inner as nat, body, s0));
                while j < len
                    invariant
                        self.wf(),
                        bound <= d.len(),
                        d == self.dict(),
                        inner < bound,
                        body == views(var.definition@),
                        len == body.len(),
                        j <= len,
                        s0 == old(stack)@,
                        run_token(d, bound as nat, val@, s0) == run_tokens(
                            d,
                            inner as nat,
                            body.subrange(j as int, len as int),
                            stack@,
                        ),
                    decreases len - j,
                {
                    let ghost rest = body.subrange(j as int, len as int);
                    assert(rest.drop_first() =~= body.subrange(j + 1, len as int));
                    assert(rest[0] == var.definition@[j as int]@);
                    let ghost before = stack@;
                    match self.evaluate_character(&var.definition[j], inner, stack) {
                        Err(e) => {
                            assert(run_tokens(d, inner as nat, rest, before) == Err::<Seq<i32>, Error>(e));
                            return Err(e);
                        },
                        Ok(()) => {},
                    }
                    j = j + 1;
                }
                assert(body.subrange(len as int, len as int) =~= Seq::<Seq<char>>::empty());
                Ok(())
            },
        }
    }
}

} // verus!
