//! Operator identities and their fixed metadata: arity, precedence and
//! associativity.
use vstd::prelude::*;

verus! {

/// Tie-break rule between two adjacent operators of equal precedence.
#[derive(Clone, Copy, Debug, PartialEq, Eq, Structural)]
pub enum Associativity {
    Left,
    Right,
}

/// Control markers: they carry no arithmetic and only shape the reduction order.
#[derive(Clone, Copy, Debug, PartialEq, Eq, Structural)]
pub enum Control {
    EndExpr,
    OpenBracket,
    CloseBracket,
}

/// Built-in arithmetic operators.
#[derive(Clone, Copy, Debug, PartialEq, Eq, Structural)]
pub enum InfixOperators {
    Add,
    Sub,
    Mul,
    Div,
    Pow,
    UnaryMinus,
}

/// Markers that delimit a call of a registered function.
#[derive(Debug)]
pub enum Func {
    /// Opens a call; carries the name under which the function was registered.
    FunStart(String),
    Comma,
    FunEnd,
}

/// Every kind of operator that can stand in a token sequence.
#[derive(Debug)]
pub enum OperationType {
    Control(Control),
    BuiltinFun(InfixOperators),
    Func(Func),
}

/// Metadata of one operator identity.
#[derive(Clone, Copy, Debug, PartialEq, Eq, Structural)]
pub struct Op {
    pub arity: usize,
    pub prec: u8,
    pub assoc: Associativity,
}

pub const OPEN_BRACKET_PREC: u8 = 1;

pub const CLOSE_BRACKET_PREC: u8 = 1;

/// Precedence of a function-call opener: the loosest of the reducible operators.
pub const FUN_START_PREC: u8 = 1;

/// Precedence of `FunEnd` and `Comma`: above every arithmetic operator.
pub const FUN_DELIMITER_PREC: u8 = 7;

pub open spec fn control_info(c: Control) -> Op {
    match c {
        Control::EndExpr => Op { arity: 0, prec: 0, assoc: Associativity::Left },
        Control::OpenBracket => Op { arity: 0, prec: OPEN_BRACKET_PREC, assoc: Associativity::Left },
        Control::CloseBracket => Op { arity: 0, prec: CLOSE_BRACKET_PREC, assoc: Associativity::Left },
    }
}

pub open spec fn builtin_info(k: InfixOperators) -> Op {
    match k {
        InfixOperators::Add => Op { arity: 2, prec: 2, assoc: Associativity::Left },
        InfixOperators::Sub => Op { arity: 2, prec: 2, assoc: Associativity::Left },
        InfixOperators::Mul => Op { arity: 2, prec: 3, assoc: Associativity::Left },
        InfixOperators::Div => Op { arity: 2, prec: 3, assoc: Associativity::Left },
        InfixOperators::Pow => Op { arity: 2, prec: 4, assoc: Associativity::Right },
        InfixOperators::UnaryMinus => Op { arity: 1, prec: 5, assoc: Associativity::Right },
    }
}

/// Metadata of `FunEnd` and `Comma`: structural barriers with no operands.
pub open spec fn delimiter_info() -> Op {
    Op { arity: 0, prec: FUN_DELIMITER_PREC, assoc: Associativity::Left }
}

/// Metadata of a call opener for a function of the given arity.
pub open spec fn fun_start_info(arity: usize) -> Op {
    Op { arity, prec: FUN_START_PREC, assoc: Associativity::Left }
}

/// The table of control markers.
pub fn control_op(c: Control) -> (r: Op)
    ensures
        r == control_info(c),
{
    match c {
        Control::EndExpr => Op { arity: 0, prec: 0, assoc: Associativity::Left },
        Control::OpenBracket => Op { arity: 0, prec: OPEN_BRACKET_PREC, assoc: Associativity::Left },
        Control::CloseBracket => Op { arity: 0, prec: CLOSE_BRACKET_PREC, assoc: Associativity::Left },
    }
}

/// The table of built-in arithmetic operators.
pub fn builtin_op(k: InfixOperators) -> (r: Op)
    ensures
        r == builtin_info(k),
{
    match k {
        InfixOperators::Add => Op { arity: 2, prec: 2, assoc: Associativity::Left },
        InfixOperators::Sub => Op { arity: 2, prec: 2, assoc: Associativity::Left },
        InfixOperators::Mul => Op { arity: 2, prec: 3, assoc: Associativity::Left },
        InfixOperators::Div => Op { arity: 2, prec: 3, assoc: Associativity::Left },
        InfixOperators::Pow => Op { arity: 2, prec: 4, assoc: Associativity::Right },
        InfixOperators::UnaryMinus => Op { arity: 1, prec: 5, assoc: Associativity::Right },
    }
}

/// Whether a pending operator `prev` stays pending when `op` arrives: it does
/// when `op` binds tighter, or when both bind equally and `prev` is
/// right-associative.
pub open spec fn stays_pending(op: Op, prev: Op) -> bool {
    op.prec > prev.prec || (prev.assoc == Associativity::Right && op.prec == prev.prec)
}

/// Decides whether the arrival of `op` leaves `prev` pending.
pub fn keeps_pending(op: Op, prev: Op) -> (r: bool)
    ensures
        r == stays_pending(op, prev),
{
    op.prec > prev.prec || (prev.assoc == Associativity::Right && op.prec == prev.prec)
}

} // verus!
