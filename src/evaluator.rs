//! The evaluation engine: a single left-to-right pass over a token sequence
//! that keeps a stack of pending values and a stack of pending operators.
use vstd::prelude::*;

use crate::operations::{
    builtin_info, builtin_op, control_info, control_op, delimiter_info, fun_start_info,
    keeps_pending, stays_pending, Associativity, Func, InfixOperators, Op, OperationType,
    FUN_DELIMITER_PREC, FUN_START_PREC,
};

verus! {

/// One element of the input: a value or an operator marker.
#[derive(Debug)]
pub enum Token<V> {
    Number(V),
    Operation(OperationType),
}

#[derive(Clone, Copy, Debug, PartialEq, Eq, Structural)]
pub enum EvalError {
    /// An operator was reduced with fewer pending values than its arity.
    NotEnoughArguments,
    /// The pass ended with a number of pending values other than one.
    LogicError,
}

/// A registered function: its name, its arity and its implementation.
pub struct UserFunction<F> {
    pub name: String,
    pub arity: usize,
    pub f: F,
}

/// The engine; it owns the table of registered functions.
pub struct Evaluator<F> {
    pub functions: Vec<UserFunction<F>>,
}

/// Position of the entry registered under `name`, the latest one if several
/// match; -1 if there is none.
pub open spec fn index_of<F>(fs: Seq<UserFunction<F>>, name: Seq<char>) -> int
    decreases fs.len(),
{
    if fs.len() == 0 {
        -1
    } else if fs.last().name@ == name {
        fs.len() - 1
    } else {
        index_of(fs.drop_last(), name)
    }
}

/// Symbolic value of an expression: a value given in the input, or an
/// operator applied to the values of its operands.
pub enum Term<V> {
    Num(V),
    App(OperationType, Seq<Term<V>>),
}

/// The state of a pass: pending values (as terms) and pending operators.
pub struct Machine<V> {
    pub values: Seq<Term<V>>,
    pub pending: Seq<OperationType>,
}

impl<F> Evaluator<F> {
    pub open spec fn has_fn(&self, name: Seq<char>) -> bool {
        index_of(self.functions@, name) >= 0
    }

    pub open spec fn fn_arity(&self, name: Seq<char>) -> usize {
        self.functions@[index_of(self.functions@, name)].arity
    }

    pub open spec fn fn_impl(&self, name: Seq<char>) -> F {
        self.functions@[index_of(self.functions@, name)].f
    }

    /// Metadata of an operator identity.
    pub open spec fn info(&self, op: OperationType) -> Op {
        match op {
            OperationType::Control(c) => control_info(c),
            OperationType::BuiltinFun(k) => builtin_info(k),
            OperationType::Func(Func::FunStart(name)) => fun_start_info(self.fn_arity(name@)),
            OperationType::Func(_) => delimiter_info(),
        }
    }

    /// Whether every function call in `op` names a registered function.
    pub open spec fn known(&self, op: OperationType) -> bool {
        op matches OperationType::Func(Func::FunStart(name)) ==> self.has_fn(name@)
    }

    pub open spec fn all_known<V>(&self, tokens: Seq<Token<V>>) -> bool {
        forall|i: int|
            0 <= i < tokens.len() ==> (#[trigger] tokens[i] matches Token::Operation(op)
                ==> self.known(op))
    }

    /// Reduction triggered by the arrival of `op`: pops and applies pending
    /// operators until one stays pending or none is left.
    pub open spec fn reduce<V>(&self, m: Machine<V>, op: OperationType) -> Result<
        Machine<V>,
        EvalError,
    >
        decreases m.pending.len(),
    {
        if m.pending.len() == 0 {
            Ok(m)
        } else {
            let prev = m.pending.last();
            if stays_pending(self.info(op), self.info(prev)) {
                Ok(m)
            } else {
                let k = self.info(prev).arity as int;
                let n = m.values.len() as int;
                if n < k {
                    Err(EvalError::NotEnoughArguments)
                } else {
                    let rest = m.values.subrange(0, n - k);
                    let args = m.values.subrange(n - k, n);
                    let values = if yields_value(prev) {
                        rest.push(Term::App(prev, args))
                    } else {
                        rest
                    };
                    self.reduce(Machine { values, pending: m.pending.drop_last() }, op)
                }
            }
        }
    }

    /// One token of the pass.
    pub open spec fn step<V>(&self, m: Machine<V>, t: Token<V>) -> Result<Machine<V>, EvalError> {
        match t {
            Token::Number(x) => Ok(Machine { values: m.values.push(Term::Num(x)), pending: m.pending }),
            Token::Operation(op) => match self.reduce(m, op) {
                Ok(r) => Ok(Machine { values: r.values, pending: r.pending.push(op) }),
                Err(e) => Err(e),
            },
        }
    }

    /// The state after a pass over `tokens`, or the first error met.
    pub open spec fn run<V>(&self, tokens: Seq<Token<V>>) -> Result<Machine<V>, EvalError>
        decreases tokens.len(),
    {
        if tokens.len() == 0 {
            Ok(Machine { values: Seq::empty(), pending: Seq::empty() })
        } else {
            match self.run(tokens.drop_last()) {
                Ok(m) => self.step(m, tokens.last()),
                Err(e) => Err(e),
            }
        }
    }

    /// What evaluating `tokens` yields: the single value left, or the error.
    pub open spec fn outcome<V>(&self, tokens: Seq<Token<V>>) -> Result<Term<V>, EvalError> {
        match self.run(tokens) {
            Ok(m) => if m.values.len() == 1 {
                Ok(m.values[0])
            } else {
                Err(EvalError::LogicError)
            },
            Err(e) => Err(e),
        }
    }

    /// `v` is a value that `t` can take, when built-in operators are
    /// computed by `builtin` and calls by the registered functions.
    pub open spec fn denotes<V, B>(&self, builtin: B, t: Term<V>, v: V) -> bool where
        F: Fn(&[V]) -> V,
        B: Fn(InfixOperators, &[V]) -> V,
        decreases t,
    {
        match t {
            Term::Num(x) => v == x,
            Term::App(op, ts) => exists|a: &[V]|
                {
                    &&& a@.len() == ts.len()
                    &&& forall|i: int|
                        0 <= i < ts.len() ==> self.denotes(builtin, #[trigger] ts[i], a@[i])
                    &&& match op {
                        OperationType::BuiltinFun(k) => builtin.ensures((k, a), v),
                        OperationType::Func(Func::FunStart(name)) => self.has_fn(name@)
                            && self.fn_impl(name@).ensures((a,), v),
                        _ => false,
                    }
                },
        }
    }

    /// What `eval` returns on `tokens`: the error that the pass meets, or a
    /// value of the term that it leaves.
    pub open spec fn eval_result<V, B>(
        &self,
        builtin: B,
        tokens: Seq<Token<V>>,
        r: Result<V, EvalError>,
    ) -> bool where F: Fn(&[V]) -> V, B: Fn(InfixOperators, &[V]) -> V {
        match self.outcome(tokens) {
            Ok(t) => r matches Ok(v) && self.denotes(builtin, t, v),
            Err(e) => r == Err::<V, EvalError>(e),
        }
    }

    /// An engine with no registered functions.
    pub fn new() -> (r: Self)
        ensures
            forall|name: Seq<char>| !r.has_fn(name),
    {
        Evaluator { functions: Vec::new() }
    }

    /// Position of the function registered under `name`.
    fn find_fn(&self, name: &String) -> (r: Option<usize>)
        ensures
            match r {
                Some(j) => j as int == index_of(self.functions@, name@),
                None => index_of(self.functions@, name@) == -1,
            },
    {
        let mut i: usize = self.functions.len();
        assert(self.functions@.take(i as int) =~= self.functions@);
        while i > 0
            invariant
                i <= self.functions@.len(),
                index_of(self.functions@, name@) == index_of(self.functions@.take(i as int), name@),
            decreases i,
        {
            let ghost t = self.functions@.take(i as int);
            assert(t.drop_last() =~= self.functions@.take(i - 1));
            if self.functions[i - 1].name == *name {
                return Some(i - 1);
            }
            i = i - 1;
        }
        None
    }

    /// Registers `f` of the given arity under `name`, replacing an earlier
    /// registration under the same name.
    pub fn add_fn(&mut self, name: String, arity: usize, f: F)
        ensures
            final(self).has_fn(name@),
            final(self).fn_arity(name@) == arity,
            final(self).fn_impl(name@) == f,
            forall|n: Seq<char>|
                n != name@ ==> {
                    &&& final(self).has_fn(n) == old(self).has_fn(n)
                    &&& old(self).has_fn(n) ==> final(self).fn_arity(n) == old(self).fn_arity(n)
                    &&& old(self).has_fn(n) ==> final(self).fn_impl(n) == old(self).fn_impl(n)
                },
    {
        let ghost fs = self.functions@;
        let found = self.find_fn(&name);
        let ghost name_v = name@;
        let entry = UserFunction { name, arity, f };
        let ghost e = entry;
        proof {
            lemma_index_of_bounds(fs, name_v);
        }
        match found {
            Some(j) => {
                self.functions.set(j, entry);
                proof {
                    assert(self.functions@ == fs.update(j as int, e));
                    assert forall|n: Seq<char>| #[trigger] index_of(self.functions@, n) == index_of(fs, n) by {
                        lemma_index_of_update(fs, j as int, e, n);
                    }
                    assert forall|n: Seq<char>| n != name_v && index_of(fs, n) >= 0 implies self.functions@[index_of(self.functions@, n)] == fs[index_of(fs, n)] by {
                        lemma_index_of_bounds(fs, n);
                        lemma_index_of_update(fs, j as int, e, n);
                    }
                }
            },
            None => {
                self.functions.push(entry);
                proof {
                    assert forall|n: Seq<char>| #[trigger] index_of(self.functions@, n) == (if n == name_v { fs.len() as int } else { index_of(fs, n) }) by {
                        lemma_index_of_push(fs, e, n);
                    }
                    assert forall|n: Seq<char>| index_of(fs, n) < fs.len() by {
                        lemma_index_of_bounds(fs, n);
                    }
                }
            },
        }
    }

    /// Whether a function is registered under `name`.
    pub fn is_registered(&self, name: &String) -> (r: bool)
        ensures
            r == self.has_fn(name@),
    {
        self.find_fn(name).is_some()
    }

    /// Whether every call opener in `tokens` names a registered function,
    /// which `eval` asks of its input.
    pub fn knows_all<V>(&self, tokens: &[Token<V>]) -> (r: bool)
        ensures
            r == self.all_known(tokens@),
    {
        let mut i: usize = 0;
        while i < tokens.len()
            invariant
                i <= tokens@.len(),
                forall|j: int| 0 <= j < i ==> (#[trigger] tokens@[j] matches Token::Operation(op) ==> self.known(op)),
            decreases tokens@.len() - i,
        {
            if let Token::Operation(OperationType::Func(Func::FunStart(name))) = &tokens[i] {
                if !self.is_registered(name) {
                    return false;
                }
            }
            i = i + 1;
        }
        true
    }

    /// Metadata of `op`: fixed for built-ins and markers, and for a call
    /// opener the arity of the function registered under its name.
    pub fn operator_lookup(&self, op: &OperationType) -> (r: Op)
        requires
            self.known(*op),
        ensures
            r == self.info(*op),
    {
        match op {
            OperationType::Control(c) => control_op(*c),
            OperationType::BuiltinFun(k) => builtin_op(*k),
            OperationType::Func(Func::FunStart(name)) => {
                let j = self.find_fn(name);
                proof {
                    lemma_index_of_bounds(self.functions@, name@);
                }
                match j {
                    Some(j) => Op {
                        arity: self.functions[j].arity,
                        prec: FUN_START_PREC,
                        assoc: Associativity::Left,
                    },
                    None => unreached(),
                }
            },
            OperationType::Func(_) => Op {
                arity: 0,
                prec: FUN_DELIMITER_PREC,
                assoc: Associativity::Left,
            },
        }
    }

    /// Evaluates `tokens` in one left-to-right pass. Built-in operators are
    /// computed by `builtin`; a call is computed by the function registered
    /// under its name. Every call opener must name a registered function
    /// (`knows_all` tells); brackets are not matched, so a mismatch shows
    /// only as `NotEnoughArguments` or `LogicError`.
    pub fn eval<V: Copy, B>(&self, tokens: &[Token<V>], builtin: B) -> (r: Result<V, EvalError>) where
        F: Fn(&[V]) -> V,
        B: Fn(InfixOperators, &[V]) -> V,
        requires
            self.callable::<V>(),
            forall|k: InfixOperators, a: &[V]| builtin.requires((k, a)),
            self.all_known(tokens@),
        ensures
            self.eval_result(builtin, tokens@, r),
    {
        let mut numbers: Vec<V> = Vec::new();
        let mut operators: Vec<usize> = Vec::new();
        let ghost mut terms: Seq<Term<V>> = Seq::empty();
        let mut i: usize = 0;
        assert(tokens@.take(0) =~= Seq::<Token<V>>::empty());
        assert(pending_at(tokens@, operators@) =~= Seq::<OperationType>::empty());
        while i < tokens.len()
            invariant
                self.callable::<V>(),
                forall|k: InfixOperators, a: &[V]| builtin.requires((k, a)),
                self.all_known(tokens@),
                i <= tokens@.len(),
                self.run(tokens@.take(i as int)) == Ok::<Machine<V>, EvalError>(
                    Machine { values: terms, pending: pending_at(tokens@, operators@) },
                ),
                numbers@.len() == terms.len(),
                forall|j: int|
                    0 <= j < terms.len() ==> self.denotes(builtin, #[trigger] terms[j], numbers@[j]),
                forall|j: int|
                    0 <= j < operators@.len() ==> #[trigger] operators@[j] < tokens@.len()
                        && tokens@[operators@[j] as int] is Operation,
            decreases tokens@.len() - i,
        {
            let ghost before = tokens@.take(i as int);
            assert(tokens@.take(i + 1).drop_last() =~= before);
            match &tokens[i] {
                Token::Number(x) => {
                    numbers.push(*x);
                    proof {
                        assert(tokens@.take(i + 1).drop_last() =~= before);
                        assert(tokens@.take(i + 1).last() == tokens@[i as int]);
                        terms = terms.push(Term::Num(*x));
                    }
                },
                Token::Operation(op) => {
                    let ghost m0 = Machine { values: terms, pending: pending_at(tokens@, operators@) };
                    let op_info = self.operator_lookup(op);
                    while operators.len() > 0
                        invariant
                            self.callable::<V>(),
                            forall|k: InfixOperators, a: &[V]| builtin.requires((k, a)),
                            self.all_known(tokens@),
                            i < tokens@.len(),
                            tokens@[i as int] == Token::<V>::Operation(*op),
                            op_info == self.info(*op),
                            before == tokens@.take(i as int),
                            self.run(before) == Ok::<Machine<V>, EvalError>(m0),
                            self.reduce(
                                Machine { values: terms, pending: pending_at(tokens@, operators@) },
                                *op,
                            ) == self.reduce(m0, *op),
                            numbers@.len() == terms.len(),
                            forall|j: int|
                                0 <= j < terms.len() ==> self.denotes(
                                    builtin,
                                    #[trigger] terms[j],
                                    numbers@[j],
                                ),
                            forall|j: int|
                                0 <= j < operators@.len() ==> #[trigger] operators@[j]
                                    < tokens@.len() && tokens@[operators@[j] as int] is Operation,
                        ensures
                            self.reduce(m0, *op) == Ok::<Machine<V>, EvalError>(
                                Machine { values: terms, pending: pending_at(tokens@, operators@) },
                            ),
                        decreases operators@.len(),
                    {
                        let prev_ix = operators[operators.len() - 1];
                        let prev = operation_at(tokens, prev_ix);
                        let ghost pend = pending_at(tokens@, operators@);
                        assert(pend.last() == *prev);
                        assert(self.known(*prev));
                        let prev_info = self.operator_lookup(prev);
                        let ghost cur = Machine { values: terms, pending: pend };
                        if keeps_pending(op_info, prev_info) {
                            assert(self.reduce(cur, *op) == Ok::<Machine<V>, EvalError>(cur));
                            break;
                        }
                        let arity = prev_info.arity;
                        if numbers.len() < arity {
                            proof {
                                assert(self.reduce(cur, *op) == Err::<Machine<V>, EvalError>(EvalError::NotEnoughArguments));
                                assert(self.step(m0, tokens@[i as int]) == Err::<Machine<V>, EvalError>(EvalError::NotEnoughArguments));
                                assert(tokens@.take(i + 1).last() == tokens@[i as int]);
                                let pre = tokens@.take(i + 1);
                                assert(pre.len() > 0);
                                assert(pre.drop_last() =~= before);
                                assert(self.run(pre.drop_last()) == Ok::<Machine<V>, EvalError>(m0));
                                assert(self.run(pre) == self.step(m0, pre.last()));
                                assert(self.run(tokens@.take(i + 1)) is Err);
                                self.lemma_run_stops(tokens@, i as int + 1);
                                assert(tokens@.take(tokens@.len() as int) =~= tokens@);
                            }
                            return Err(EvalError::NotEnoughArguments);
                        }
                        let ghost n = terms.len() as int;
                        let ghost old_numbers = numbers@;
                        let ghost ts = terms.subrange(n - arity, n);
                        let args = numbers.split_off(numbers.len() - arity);
                        let a = args.as_slice();
                        assert forall|j: int| 0 <= j < ts.len() implies self.denotes(builtin, #[trigger] ts[j], a@[j]) by {
                            assert(ts[j] == terms[n - arity + j]);
                        }
                        match prev {
                            OperationType::BuiltinFun(k) => {
                                let v = builtin(*k, a);
                                proof {
                                    assert(self.denotes(builtin, Term::App(*prev, ts), v));
                                }
                                numbers.push(v);
                            },
                            OperationType::Func(Func::FunStart(name)) => {
                                let j = self.find_fn(name);
                                proof {
                                    lemma_index_of_bounds(self.functions@, name@);
                                }
                                match j {
                                    Some(j) => {
                                        let v = (self.functions[j].f)(a);
                                        proof {
                                            assert(self.denotes(builtin, Term::App(*prev, ts), v));
                                        }
                                        numbers.push(v);
                                    },
                                    None => {
                                        return unreached();
                                    },
                                }
                            },
                            _ => {},
                        }
                        proof {
                            let rest = terms.subrange(0, n - arity);
                            terms = if yields_value(*prev) {
                                rest.push(Term::App(*prev, ts))
                            } else {
                                rest
                            };
                            assert(pending_at(tokens@, operators@.drop_last()) =~= pend.drop_last());
                            assert(self.reduce(cur, *op) == self.reduce(
                                Machine { values: terms, pending: pend.drop_last() },
                                *op,
                            ));
                        }
                        operators.pop();
                    }
                    proof {
                        assert(operators@.len() == 0 ==> pending_at(tokens@, operators@) =~= Seq::<OperationType>::empty());
                    }
                    let ghost cur = Machine { values: terms, pending: pending_at(tokens@, operators@) };
                    operators.push(i);
                    proof {
                        let pre = tokens@.take(i + 1);
                        assert(pre.drop_last() =~= before);
                        assert(pre.last() == tokens@[i as int]);
                        assert(op_of(tokens@[i as int]) == *op);
                        assert(pending_at(tokens@, operators@) =~= cur.pending.push(*op));
                        assert(self.step(m0, pre.last()) == Ok::<Machine<V>, EvalError>(
                            Machine { values: terms, pending: cur.pending.push(*op) },
                        ));
                    }
                },
            }
            i = i + 1;
        }
        proof {
            assert(tokens@.take(tokens@.len() as int) =~= tokens@);
        }
        if numbers.len() == 1 {
            Ok(numbers[0])
        } else {
            Err(EvalError::LogicError)
        }
    }

    /// Once a prefix of the pass fails, the whole pass fails with that error.
    proof fn lemma_run_stops<V>(&self, tokens: Seq<Token<V>>, i: int)
        requires
            0 <= i <= tokens.len(),
            self.run(tokens.take(i)) is Err,
        ensures
            self.run(tokens.take(tokens.len() as int)) == self.run(tokens.take(i)),
        decreases tokens.len() - i,
    {
        if i < tokens.len() {
            assert(tokens.take(i + 1).drop_last() =~= tokens.take(i));
            self.lemma_run_stops(tokens, i + 1);
        }
    }

    /// Every registered function accepts every argument slice.
    pub open spec fn callable<V>(&self) -> bool where F: Fn(&[V]) -> V {
        forall|j: int, a: &[V]|
            0 <= j < self.functions@.len() ==> #[trigger] self.functions@[j].f.requires((a,))
    }
}

/// The operator of an operation token.
pub open spec fn op_of<V>(t: Token<V>) -> OperationType {
    match t {
        Token::Operation(op) => op,
        Token::Number(_) => OperationType::Control(crate::operations::Control::EndExpr),
    }
}

/// The pending operators named by their positions in `tokens`.
pub open spec fn pending_at<V>(tokens: Seq<Token<V>>, idx: Seq<usize>) -> Seq<OperationType> {
    idx.map_values(|ix: usize| op_of(tokens[ix as int]))
}

proof fn lemma_index_of_bounds<F>(fs: Seq<UserFunction<F>>, name: Seq<char>)
    ensures
        -1 <= index_of(fs, name) < fs.len(),
        index_of(fs, name) >= 0 ==> fs[index_of(fs, name)].name@ == name,
    decreases fs.len(),
{
    if fs.len() > 0 && fs.last().name@ != name {
        lemma_index_of_bounds(fs.drop_last(), name);
    }
}

proof fn lemma_index_of_push<F>(fs: Seq<UserFunction<F>>, e: UserFunction<F>, name: Seq<char>)
    ensures
        index_of(fs.push(e), name) == if e.name@ == name {
            fs.len() as int
        } else {
            index_of(fs, name)
        },
{
    assert(fs.push(e).drop_last() =~= fs);
}

proof fn lemma_index_of_update<F>(
    fs: Seq<UserFunction<F>>,
    j: int,
    e: UserFunction<F>,
    name: Seq<char>,
)
    requires
        0 <= j,
        j == index_of(fs, e.name@),
    ensures
        index_of(fs.update(j, e), name) == index_of(fs, name),
    decreases fs.len(),
{
    lemma_index_of_bounds(fs, e.name@);
    let u = fs.update(j, e);
    if j < fs.len() - 1 {
        assert(u.drop_last() =~= fs.drop_last().update(j, e));
        lemma_index_of_update(fs.drop_last(), j, e, name);
    } else {
        assert(u.drop_last() =~= fs.drop_last());
    }
}

/// The operator of the token at `ix`.
fn operation_at<V>(tokens: &[Token<V>], ix: usize) -> (r: &OperationType)
    requires
        ix < tokens@.len(),
        tokens@[ix as int] is Operation,
    ensures
        tokens@[ix as int] == Token::<V>::Operation(*r),
{
    match &tokens[ix] {
        Token::Operation(op) => op,
        Token::Number(_) => unreached(),
    }
}

/// Operators whose reduction pushes a value: built-ins and function calls.
pub open spec fn yields_value(op: OperationType) -> bool {
    op matches OperationType::BuiltinFun(_) || op matches OperationType::Func(Func::FunStart(_))
}

} // verus!
