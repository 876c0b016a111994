//! Properties of evaluation that relate several tokens, calls or runs.
use vstd::prelude::*;

use crate::evaluator::{EvalError, Evaluator, Machine, Term, Token};
use crate::operations::{builtin_info, Control, Func, InfixOperators, OperationType};

verus! {

/// The pass over one more token continues from the pass over the prefix.
proof fn lemma_run_snoc<F, V>(ev: &Evaluator<F>, s: Seq<Token<V>>, k: int)
    requires
        0 <= k < s.len(),
    ensures
        ev.run(s.take(k + 1)) == match ev.run(s.take(k)) {
            Ok(m) => ev.step(m, s[k]),
            Err(e) => Err(e),
        },
{
    assert(s.take(k + 1).drop_last() =~= s.take(k));
}

pub open spec fn end_expr<V>() -> Token<V> {
    Token::Operation(OperationType::Control(Control::EndExpr))
}

/// Two values with no operator between them leave two values behind, which
/// is a logic error.
pub proof fn residual_values_fail<F, V>(ev: &Evaluator<F>, a: V, b: V)
    ensures
        ev.outcome(seq![Token::Number(a), Token::Number(b), end_expr()]) == Err::<Term<V>, EvalError>(
            EvalError::LogicError,
        ),
{
    let s = seq![Token::Number(a), Token::Number(b), end_expr::<V>()];
    assert(s.take(0) =~= Seq::<Token<V>>::empty());
    lemma_run_snoc(ev, s, 0);
    lemma_run_snoc(ev, s, 1);
    lemma_run_snoc(ev, s, 2);
    assert(s.take(3) =~= s);
    let m2 = Machine { values: seq![Term::Num(a), Term::Num(b)], pending: Seq::<OperationType>::empty() };
    assert(ev.run(s.take(2)) == Ok::<Machine<V>, EvalError>(m2)) by {
        assert(seq![Term::Num(a)].push(Term::Num(b)) =~= m2.values);
        assert(Seq::<Term<V>>::empty().push(Term::Num(a)) =~= seq![Term::Num(a)]);
    }
}

pub open spec fn builtin_token<V>(k: InfixOperators) -> Token<V> {
    Token::Operation(OperationType::BuiltinFun(k))
}

/// A binary operator that is reduced with fewer than two pending values makes
/// evaluation fail with `NotEnoughArguments`: whether one value precedes it,
/// one follows it, or none is given at all.
pub proof fn binary_operator_underflow<F, V>(ev: &Evaluator<F>, k: InfixOperators, x: V)
    requires
        builtin_info(k).arity == 2,
    ensures
        ev.outcome(seq![Token::Number(x), builtin_token(k), end_expr()]) == Err::<Term<V>, EvalError>(
            EvalError::NotEnoughArguments,
        ),
        ev.outcome(seq![builtin_token(k), Token::Number(x), end_expr()]) == Err::<Term<V>, EvalError>(
            EvalError::NotEnoughArguments,
        ),
        ev.outcome(seq![builtin_token::<V>(k), end_expr()]) == Err::<Term<V>, EvalError>(
            EvalError::NotEnoughArguments,
        ),
{
    let e = Seq::<Token<V>>::empty();
    let none = Seq::<OperationType>::empty();
    let op = OperationType::BuiltinFun(k);
    let end = OperationType::Control(Control::EndExpr);
    let one = seq![Term::Num(x)];
    assert(Seq::<Term<V>>::empty().push(Term::Num(x)) =~= one);
    assert(none.push(op) =~= seq![op]);
    assert(seq![op].drop_last() =~= none);

    let s1 = seq![Token::Number(x), builtin_token(k), end_expr()];
    assert(s1.take(0) =~= e);
    lemma_run_snoc(ev, s1, 0);
    lemma_run_snoc(ev, s1, 1);
    lemma_run_snoc(ev, s1, 2);
    assert(s1.take(3) =~= s1);
    assert(ev.run(s1.take(2)) == Ok::<Machine<V>, EvalError>(Machine { values: one, pending: seq![op] }));
    assert(ev.reduce(Machine { values: one, pending: seq![op] }, end) is Err);

    let s2 = seq![builtin_token(k), Token::Number(x), end_expr()];
    assert(s2.take(0) =~= e);
    lemma_run_snoc(ev, s2, 0);
    lemma_run_snoc(ev, s2, 1);
    lemma_run_snoc(ev, s2, 2);
    assert(s2.take(3) =~= s2);
    assert(ev.run(s2.take(2)) == Ok::<Machine<V>, EvalError>(Machine { values: one, pending: seq![op] }));
    assert(ev.reduce(Machine { values: one, pending: seq![op] }, end) is Err);

    let s3 = seq![builtin_token::<V>(k), end_expr()];
    assert(s3.take(0) =~= e);
    lemma_run_snoc(ev, s3, 0);
    lemma_run_snoc(ev, s3, 1);
    assert(s3.take(2) =~= s3);
    assert(ev.run(s3.take(1)) == Ok::<Machine<V>, EvalError>(
        Machine { values: Seq::<Term<V>>::empty(), pending: seq![op] },
    ));
}

/// Exponentiation associates to the right: `a ^ b ^ -c` evaluates as
/// `a ^ (b ^ (-c))`, never as `(a ^ b) ^ (-c)`.
pub proof fn power_is_right_associative<F, V>(ev: &Evaluator<F>, a: V, b: V, c: V)
    ensures
        ev.outcome(
            seq![
                Token::Number(a),
                builtin_token(InfixOperators::Pow),
                Token::Number(b),
                builtin_token(InfixOperators::Pow),
                builtin_token(InfixOperators::UnaryMinus),
                Token::Number(c),
                end_expr(),
            ],
        ) == Ok::<Term<V>, EvalError>(
            Term::App(
                OperationType::BuiltinFun(InfixOperators::Pow),
                seq![
                    Term::Num(a),
                    Term::App(
                        OperationType::BuiltinFun(InfixOperators::Pow),
                        seq![
                            Term::Num(b),
                            Term::App(
                                OperationType::BuiltinFun(InfixOperators::UnaryMinus),
                                seq![Term::Num(c)],
                            ),
                        ],
                    ),
                ],
            ),
        ),
        ev.outcome(
            seq![
                Token::Number(a),
                builtin_token(InfixOperators::Pow),
                Token::Number(b),
                builtin_token(InfixOperators::Pow),
                builtin_token(InfixOperators::UnaryMinus),
                Token::Number(c),
                end_expr(),
            ],
        ) != Ok::<Term<V>, EvalError>(
            Term::App(
                OperationType::BuiltinFun(InfixOperators::Pow),
                seq![
                    Term::App(
                        OperationType::BuiltinFun(InfixOperators::Pow),
                        seq![Term::Num(a), Term::Num(b)],
                    ),
                    Term::App(
                        OperationType::BuiltinFun(InfixOperators::UnaryMinus),
                        seq![Term::Num(c)],
                    ),
                ],
            ),
        ),
{
    let pow = OperationType::BuiltinFun(InfixOperators::Pow);
    let neg = OperationType::BuiltinFun(InfixOperators::UnaryMinus);
    let end = OperationType::Control(Control::EndExpr);
    let s = seq![
        Token::Number(a),
        builtin_token(InfixOperators::Pow),
        Token::Number(b),
        builtin_token(InfixOperators::Pow),
        builtin_token(InfixOperators::UnaryMinus),
        Token::Number(c),
        end_expr(),
    ];
    let none = Seq::<OperationType>::empty();
    assert(s.take(0) =~= Seq::<Token<V>>::empty());
    lemma_run_snoc(ev, s, 0);
    assert(Seq::<Term<V>>::empty().push(Term::Num(a)) =~= seq![Term::Num(a)]);
    lemma_run_snoc(ev, s, 1);
    assert(none.push(pow) =~= seq![pow]);
    lemma_run_snoc(ev, s, 2);
    assert(seq![Term::Num(a)].push(Term::Num(b)) =~= seq![Term::Num(a), Term::Num(b)]);
    lemma_run_snoc(ev, s, 3);
    assert(seq![pow].push(pow) =~= seq![pow, pow]);
    assert(ev.run(s.take(4)) == Ok::<Machine<V>, EvalError>(
        Machine { values: seq![Term::Num(a), Term::Num(b)], pending: seq![pow, pow] },
    ));
    lemma_run_snoc(ev, s, 4);
    assert(seq![pow, pow].push(neg) =~= seq![pow, pow, neg]);
    lemma_run_snoc(ev, s, 5);
    let v3 = seq![Term::Num(a), Term::Num(b), Term::Num(c)];
    assert(seq![Term::Num(a), Term::Num(b)].push(Term::Num(c)) =~= v3);
    assert(ev.run(s.take(6)) == Ok::<Machine<V>, EvalError>(
        Machine { values: v3, pending: seq![pow, pow, neg] },
    ));
    lemma_run_snoc(ev, s, 6);
    assert(s.take(7) =~= s);

    let t1 = Term::App(neg, seq![Term::Num(c)]);
    let t2 = Term::App(pow, seq![Term::Num(b), t1]);
    let t3 = Term::App(pow, seq![Term::Num(a), t2]);
    let m0 = Machine { values: v3, pending: seq![pow, pow, neg] };
    let m1 = Machine { values: seq![Term::Num(a), Term::Num(b), t1], pending: seq![pow, pow] };
    let m2 = Machine { values: seq![Term::Num(a), t2], pending: seq![pow] };
    let m3 = Machine { values: seq![t3], pending: none };
    assert(v3.subrange(2, 3) =~= seq![Term::Num(c)]);
    assert(v3.subrange(0, 2).push(t1) =~= m1.values);
    assert(seq![pow, pow, neg].drop_last() =~= seq![pow, pow]);
    assert(ev.reduce(m0, end) == ev.reduce(m1, end));
    assert(m1.values.subrange(1, 3) =~= seq![Term::Num(b), t1]);
    assert(m1.values.subrange(0, 1).push(t2) =~= m2.values);
    assert(seq![pow, pow].drop_last() =~= seq![pow]);
    assert(ev.reduce(m1, end) == ev.reduce(m2, end));
    assert(m2.values.subrange(0, 2) =~= seq![Term::Num(a), t2]);
    assert(m2.values.subrange(0, 0).push(t3) =~= m3.values);
    assert(seq![pow].drop_last() =~= none);
    assert(ev.reduce(m2, end) == ev.reduce(m3, end));
    assert(ev.reduce(m3, end) == Ok::<Machine<V>, EvalError>(m3));
    let left = Term::App(pow, seq![Term::App(pow, seq![Term::Num(a), Term::Num(b)]), t1]);
    assert(t3 != left) by {
        if t3 == left {
            assert(seq![Term::Num(a), t2][0] == seq![Term::App(pow, seq![Term::Num(a), Term::Num(b)]), t1][0]);
        }
    }
}

/// A registered one-argument function is applied to the value written
/// between its call markers: `f(x)` evaluates to `f` applied to `x`.
pub proof fn unary_call_round_trip<F, V>(ev: &Evaluator<F>, name: String, x: V)
    requires
        ev.has_fn(name@),
        ev.fn_arity(name@) == 1,
    ensures
        ev.outcome(
            seq![
                Token::Operation(OperationType::Func(Func::FunStart(name))),
                Token::Number(x),
                Token::Operation(OperationType::Func(Func::FunEnd)),
                end_expr(),
            ],
        ) == Ok::<Term<V>, EvalError>(
            Term::App(OperationType::Func(Func::FunStart(name)), seq![Term::Num(x)]),
        ),
{
    let call = OperationType::Func(Func::FunStart(name));
    let close = OperationType::Func(Func::FunEnd);
    let end = OperationType::Control(Control::EndExpr);
    let s = seq![
        Token::Operation(call),
        Token::Number(x),
        Token::Operation(close),
        end_expr(),
    ];
    let none = Seq::<OperationType>::empty();
    let one = seq![Term::Num(x)];
    assert(s.take(0) =~= Seq::<Token<V>>::empty());
    lemma_run_snoc(ev, s, 0);
    assert(none.push(call) =~= seq![call]);
    lemma_run_snoc(ev, s, 1);
    assert(Seq::<Term<V>>::empty().push(Term::Num(x)) =~= one);
    lemma_run_snoc(ev, s, 2);
    assert(seq![call].push(close) =~= seq![call, close]);
    assert(ev.run(s.take(3)) == Ok::<Machine<V>, EvalError>(
        Machine { values: one, pending: seq![call, close] },
    ));
    lemma_run_snoc(ev, s, 3);
    assert(s.take(4) =~= s);
    let m0 = Machine { values: one, pending: seq![call, close] };
    let m1 = Machine { values: one, pending: seq![call] };
    let t = Term::App(call, one);
    let m2 = Machine { values: seq![t], pending: none };
    assert(one.subrange(1, 1) =~= Seq::<Term<V>>::empty());
    assert(one.subrange(0, 1) =~= one);
    assert(seq![call, close].drop_last() =~= seq![call]);
    assert(ev.reduce(m0, end) == ev.reduce(m1, end));
    assert(one.subrange(0, 0).push(t) =~= seq![t]);
    assert(seq![call].drop_last() =~= none);
    assert(ev.reduce(m1, end) == ev.reduce(m2, end));
}

/// The built-in operators compute one result from one operator and argument list.
pub open spec fn builtin_is_function<V, B>(builtin: B) -> bool where B: Fn(InfixOperators, &[V]) -> V {
    forall|k: InfixOperators, a1: &[V], a2: &[V], v1: V, v2: V|
        a1@ == a2@ && #[trigger] builtin.ensures((k, a1), v1) && #[trigger] builtin.ensures((k, a2), v2)
            ==> v1 == v2
}

/// Every registered function computes one result from one argument list.
pub open spec fn functions_are_functions<F, V>(ev: &Evaluator<F>) -> bool where F: Fn(&[V]) -> V {
    forall|n: Seq<char>, a1: &[V], a2: &[V], v1: V, v2: V|
        ev.has_fn(n) && a1@ == a2@ && #[trigger] ev.fn_impl(n).ensures((a1,), v1)
            && #[trigger] ev.fn_impl(n).ensures((a2,), v2) ==> v1 == v2
}

/// Where the operators compute functions of their arguments, a term has one value.
pub proof fn term_value_is_unique<F, V, B>(ev: &Evaluator<F>, builtin: B, t: Term<V>, v1: V, v2: V)
    where F: Fn(&[V]) -> V, B: Fn(InfixOperators, &[V]) -> V,
    requires
        builtin_is_function::<V, B>(builtin),
        functions_are_functions::<F, V>(ev),
        ev.denotes(builtin, t, v1),
        ev.denotes(builtin, t, v2),
    ensures
        v1 == v2,
    decreases t,
{
    match t {
        Term::Num(_) => {},
        Term::App(op, ts) => {
            let a1 = choose|a: &[V]| {
                &&& a@.len() == ts.len()
                &&& forall|i: int| 0 <= i < ts.len() ==> ev.denotes(builtin, #[trigger] ts[i], a@[i])
                &&& match op {
                    OperationType::BuiltinFun(k) => builtin.ensures((k, a), v1),
                    OperationType::Func(Func::FunStart(name)) => ev.has_fn(name@)
                        && ev.fn_impl(name@).ensures((a,), v1),
                    _ => false,
                }
            };
            let a2 = choose|a: &[V]| {
                &&& a@.len() == ts.len()
                &&& forall|i: int| 0 <= i < ts.len() ==> ev.denotes(builtin, #[trigger] ts[i], a@[i])
                &&& match op {
                    OperationType::BuiltinFun(k) => builtin.ensures((k, a), v2),
                    OperationType::Func(Func::FunStart(name)) => ev.has_fn(name@)
                        && ev.fn_impl(name@).ensures((a,), v2),
                    _ => false,
                }
            };
            assert forall|i: int| 0 <= i < ts.len() implies a1@[i] == a2@[i] by {
                term_value_is_unique(ev, builtin, ts[i], a1@[i], a2@[i]);
            }
            assert(a1@ =~= a2@);
        },
    }
}

/// Evaluating the same tokens twice on the same engine gives the same result,
/// where the operators compute functions of their arguments.
pub proof fn eval_is_repeatable<F, V, B>(
    ev: &Evaluator<F>,
    builtin: B,
    tokens: Seq<Token<V>>,
    r1: Result<V, EvalError>,
    r2: Result<V, EvalError>,
)
    where F: Fn(&[V]) -> V, B: Fn(InfixOperators, &[V]) -> V,
    requires
        builtin_is_function::<V, B>(builtin),
        functions_are_functions::<F, V>(ev),
        ev.eval_result(builtin, tokens, r1),
        ev.eval_result(builtin, tokens, r2),
    ensures
        r1 == r2,
{
    if let Ok(t) = ev.outcome(tokens) {
        term_value_is_unique(ev, builtin, t, r1->Ok_0, r2->Ok_0);
    }
}

} // verus!
