use num_traits::Pow;
use precedence_eval::evaluator::{EvalError, Evaluator, Token};
use precedence_eval::operations::{
    builtin_op, control_op, Associativity, Control, Func, InfixOperators, Op, OperationType,
};

type FunType = Box<dyn Fn(&[f64]) -> f64>;

const EPS: f64 = 0.0001;

fn assert_approx(a: f64, b: f64) {
    assert!((a - b).abs() < EPS)
}

fn builtins(k: InfixOperators, args: &[f64]) -> f64 {
    match k {
        InfixOperators::Add => args[0] + args[1],
        InfixOperators::Sub => args[0] - args[1],
        InfixOperators::Mul => args[0] * args[1],
        InfixOperators::Div => args[0] / args[1],
        InfixOperators::Pow => Pow::pow(args[0], args[1]),
        InfixOperators::UnaryMinus => -args[0],
    }
}

fn num(x: f64) -> Token<f64> {
    Token::Number(x)
}

fn bin(k: InfixOperators) -> Token<f64> {
    Token::Operation(OperationType::BuiltinFun(k))
}

fn ctrl(c: Control) -> Token<f64> {
    Token::Operation(OperationType::Control(c))
}

fn call(name: &str) -> Token<f64> {
    Token::Operation(OperationType::Func(Func::FunStart(name.to_string())))
}

fn fun_end() -> Token<f64> {
    Token::Operation(OperationType::Func(Func::FunEnd))
}

fn comma() -> Token<f64> {
    Token::Operation(OperationType::Func(Func::Comma))
}

fn engine() -> Evaluator<FunType> {
    Evaluator::new()
}

#[test]
fn precedence_test() {
    let eval = engine();

    let tokens = vec![
        Token::Operation(OperationType::Control(Control::OpenBracket)),
        Token::Number(43.),
        Token::Operation(OperationType::Control(Control::CloseBracket)),
        Token::Operation(OperationType::BuiltinFun(InfixOperators::Add)),
        Token::Operation(OperationType::BuiltinFun(InfixOperators::UnaryMinus)),
        Token::Number(2.),
        Token::Operation(OperationType::BuiltinFun(InfixOperators::Div)),
        Token::Number(0.5),
        Token::Operation(OperationType::BuiltinFun(InfixOperators::Mul)),
        Token::Number(2.),
        Token::Operation(OperationType::BuiltinFun(InfixOperators::Sub)),
        Token::Number(0.0),
        Token::Operation(OperationType::BuiltinFun(InfixOperators::Pow)),
        Token::Number(0.0),
        Token::Operation(OperationType::Control(Control::EndExpr)),
    ];

    assert_approx(eval.eval(&tokens, builtins).unwrap(), (43.) + -2. / 0.5 * 2. - 0f64.powf(0.));
}

#[test]
fn arithmetic_example_exact_value() {
    let eval = engine();
    let tokens = vec![
        num(43.),
        bin(InfixOperators::Add),
        bin(InfixOperators::UnaryMinus),
        num(2.),
        bin(InfixOperators::Div),
        num(0.5),
        bin(InfixOperators::Mul),
        num(2.),
        bin(InfixOperators::Sub),
        num(0.),
        bin(InfixOperators::Pow),
        num(0.),
        ctrl(Control::EndExpr),
    ];
    assert_eq!(eval.eval(&tokens, builtins).unwrap(), 34.0);
}

#[test]
fn open_bracket_reduces_a_pending_operator() {
    let eval = engine();
    let tokens = vec![
        num(43.),
        bin(InfixOperators::Add),
        ctrl(Control::OpenBracket),
        num(1.),
        ctrl(Control::CloseBracket),
        ctrl(Control::EndExpr),
    ];
    assert!(matches!(eval.eval(&tokens, builtins), Err(EvalError::NotEnoughArguments)));
}

#[test]
fn power_associates_to_the_right() {
    let eval = engine();
    let tokens = vec![
        num(2.),
        bin(InfixOperators::Pow),
        num(3.),
        bin(InfixOperators::Pow),
        bin(InfixOperators::UnaryMinus),
        num(2.),
        ctrl(Control::EndExpr),
    ];
    let r = eval.eval(&tokens, builtins).unwrap();
    assert_approx(r, 2f64.powf(3f64.powf(-2.)));
    assert!((r - 2f64.powf(3.).powf(-2.)).abs() > 0.5);
}

#[test]
fn unary_minus_binds_tighter_than_power() {
    let eval = engine();
    let tokens = vec![
        bin(InfixOperators::UnaryMinus),
        num(2.),
        bin(InfixOperators::Pow),
        num(2.),
        ctrl(Control::EndExpr),
    ];
    assert_approx(eval.eval(&tokens, builtins).unwrap(), 4.0);
}

#[test]
fn multiplication_before_addition() {
    let eval = engine();
    let tokens = vec![
        num(1.),
        bin(InfixOperators::Add),
        num(2.),
        bin(InfixOperators::Mul),
        num(3.),
        ctrl(Control::EndExpr),
    ];
    assert_approx(eval.eval(&tokens, builtins).unwrap(), 7.0);
}

#[test]
fn subtraction_and_division_associate_to_the_left() {
    let eval = engine();
    let sub = vec![
        num(8.),
        bin(InfixOperators::Sub),
        num(3.),
        bin(InfixOperators::Sub),
        num(2.),
        ctrl(Control::EndExpr),
    ];
    assert_approx(eval.eval(&sub, builtins).unwrap(), 3.0);
    let div = vec![
        num(16.),
        bin(InfixOperators::Div),
        num(4.),
        bin(InfixOperators::Div),
        num(2.),
        ctrl(Control::EndExpr),
    ];
    assert_approx(eval.eval(&div, builtins).unwrap(), 2.0);
}

#[test]
fn brackets_group_a_sum() {
    let eval = engine();
    let tokens = vec![
        ctrl(Control::OpenBracket),
        num(1.),
        bin(InfixOperators::Add),
        num(2.),
        ctrl(Control::CloseBracket),
        bin(InfixOperators::Mul),
        num(3.),
        ctrl(Control::EndExpr),
    ];
    assert_approx(eval.eval(&tokens, builtins).unwrap(), 9.0);
}

#[test]
fn binary_operator_after_one_value_underflows() {
    let eval = engine();
    let tokens = vec![num(1.), bin(InfixOperators::Add), ctrl(Control::EndExpr)];
    assert!(matches!(eval.eval(&tokens, builtins), Err(EvalError::NotEnoughArguments)));
}

#[test]
fn binary_operator_before_one_value_underflows() {
    let eval = engine();
    let tokens = vec![bin(InfixOperators::Div), num(1.), ctrl(Control::EndExpr)];
    assert!(matches!(eval.eval(&tokens, builtins), Err(EvalError::NotEnoughArguments)));
}

#[test]
fn binary_operator_without_values_underflows() {
    let eval = engine();
    let tokens = vec![bin(InfixOperators::Mul), ctrl(Control::EndExpr)];
    assert!(matches!(eval.eval(&tokens, builtins), Err(EvalError::NotEnoughArguments)));
}

#[test]
fn two_bare_numbers_are_a_logic_error() {
    let eval = engine();
    let tokens = vec![num(1.), num(2.), ctrl(Control::EndExpr)];
    assert!(matches!(eval.eval(&tokens, builtins), Err(EvalError::LogicError)));
}

#[test]
fn empty_input_is_a_logic_error() {
    let eval = engine();
    let none: Vec<Token<f64>> = vec![];
    assert!(matches!(eval.eval(&none, builtins), Err(EvalError::LogicError)));
    let only_end = vec![ctrl(Control::EndExpr)];
    assert!(matches!(eval.eval(&only_end, builtins), Err(EvalError::LogicError)));
}

#[test]
fn missing_end_marker_leaves_values_pending() {
    let eval = engine();
    let tokens = vec![num(1.), bin(InfixOperators::Add), num(2.)];
    assert!(matches!(eval.eval(&tokens, builtins), Err(EvalError::LogicError)));
}

#[test]
fn user_function_round_trip() {
    let mut eval = engine();
    eval.add_fn("double".to_string(), 1, Box::new(|x: &[f64]| x[0] * 2.));
    let tokens = vec![call("double"), num(7.), fun_end(), ctrl(Control::EndExpr)];
    assert_eq!(eval.eval(&tokens, builtins).unwrap(), 14.0);
}

#[test]
fn registering_again_replaces_the_function() {
    let mut eval = engine();
    eval.add_fn("f".to_string(), 1, Box::new(|x: &[f64]| x[0] * 2.));
    eval.add_fn("f".to_string(), 1, Box::new(|x: &[f64]| x[0] * 3.));
    let tokens = vec![call("f"), num(7.), fun_end(), ctrl(Control::EndExpr)];
    assert_eq!(eval.eval(&tokens, builtins).unwrap(), 21.0);
}

#[test]
fn two_argument_call_with_comma() {
    let mut eval = engine();
    eval.add_fn("max".to_string(), 2, Box::new(|x: &[f64]| if x[0] > x[1] { x[0] } else { x[1] }));
    eval.add_fn("first".to_string(), 2, Box::new(|x: &[f64]| x[0]));
    let tokens = vec![call("max"), num(3.), comma(), num(5.), fun_end(), ctrl(Control::EndExpr)];
    assert_eq!(eval.eval(&tokens, builtins).unwrap(), 5.0);
    let tokens = vec![call("first"), num(3.), comma(), num(5.), fun_end(), ctrl(Control::EndExpr)];
    assert_eq!(eval.eval(&tokens, builtins).unwrap(), 3.0);
}

#[test]
fn call_result_joins_arithmetic() {
    let mut eval = engine();
    eval.add_fn("id".to_string(), 1, Box::new(|x: &[f64]| x[0]));
    let tokens = vec![
        call("id"),
        num(7.),
        fun_end(),
        bin(InfixOperators::Mul),
        num(6.),
        ctrl(Control::EndExpr),
    ];
    assert_eq!(eval.eval(&tokens, builtins).unwrap(), 42.0);
}

#[test]
fn repeated_evaluation_gives_the_same_result() {
    let eval = engine();
    let tokens = vec![
        num(1.5),
        bin(InfixOperators::Mul),
        num(4.),
        bin(InfixOperators::Sub),
        num(0.25),
        ctrl(Control::EndExpr),
    ];
    let first = eval.eval(&tokens, builtins).unwrap();
    let second = eval.eval(&tokens, builtins).unwrap();
    assert_eq!(first, second);
    assert_eq!(first, 5.75);
    let bad = vec![num(1.), num(2.), ctrl(Control::EndExpr)];
    assert!(matches!(eval.eval(&bad, builtins), Err(EvalError::LogicError)));
    assert!(matches!(eval.eval(&bad, builtins), Err(EvalError::LogicError)));
}

#[test]
fn operator_table() {
    assert_eq!(builtin_op(InfixOperators::Add), Op { arity: 2, prec: 2, assoc: Associativity::Left });
    assert_eq!(builtin_op(InfixOperators::Div), Op { arity: 2, prec: 3, assoc: Associativity::Left });
    assert_eq!(builtin_op(InfixOperators::Pow), Op { arity: 2, prec: 4, assoc: Associativity::Right });
    assert_eq!(
        builtin_op(InfixOperators::UnaryMinus),
        Op { arity: 1, prec: 5, assoc: Associativity::Right }
    );
    assert_eq!(control_op(Control::EndExpr).prec, 0);
    assert_eq!(control_op(Control::OpenBracket).prec, 1);
    assert_eq!(control_op(Control::CloseBracket).prec, 1);
}

#[test]
fn lookup_of_call_markers() {
    let mut eval = engine();
    eval.add_fn("g".to_string(), 3, Box::new(|x: &[f64]| x[0]));
    let start = OperationType::Func(Func::FunStart("g".to_string()));
    assert_eq!(eval.operator_lookup(&start), Op { arity: 3, prec: 1, assoc: Associativity::Left });
    let end = OperationType::Func(Func::FunEnd);
    assert_eq!(eval.operator_lookup(&end), Op { arity: 0, prec: 7, assoc: Associativity::Left });
    assert!(eval.is_registered(&"g".to_string()));
    assert!(!eval.is_registered(&"h".to_string()));
    let known = vec![call("g"), num(1.), fun_end()];
    let unknown = vec![call("h"), num(1.), fun_end()];
    assert!(eval.knows_all(&known));
    assert!(!eval.knows_all(&unknown));
}
