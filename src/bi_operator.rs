use vstd::prelude::*;

use crate::runtime::RuntimeError;
use crate::value::Value;

verus! {

/// The binary operators of the language.
#[derive(Debug, Clone, Copy, PartialEq, Eq, Structural)]
pub enum BiOperator {
    Add,
    Subtract,
    Multiply,
    Divide,
    Power,
    Conjuction,
    Disjunction,
    LessThan,
    LessThanOrEqual,
    GreaterThan,
    GreaterThanOrEqual,
    NotEqual,
}

/// What applying an operator to two values comes to. Boolean operators are
/// decided here; an operation on two numbers is handed to the host, which
/// computes it in IEEE-754 double precision.
#[derive(Debug, Clone, Copy, PartialEq, Eq, Structural)]
pub enum Application {
    Computed(Value),
    Numeric(BiOperator, u64, u64),
}

/// The rank of an operator: a higher rank binds tighter.
pub open spec fn rank(op: BiOperator) -> nat {
    match op {
        BiOperator::Disjunction => 1,
        BiOperator::Conjuction => 2,
        BiOperator::LessThan | BiOperator::LessThanOrEqual | BiOperator::GreaterThan
        | BiOperator::GreaterThanOrEqual | BiOperator::NotEqual => 3,
        BiOperator::Add | BiOperator::Subtract => 4,
        BiOperator::Multiply | BiOperator::Divide => 5,
        BiOperator::Power => 6,
    }
}

/// The operators that act on two numbers.
pub open spec fn is_numeric(op: BiOperator) -> bool {
    match op {
        BiOperator::Add | BiOperator::Subtract | BiOperator::Multiply | BiOperator::Divide
        | BiOperator::Power | BiOperator::LessThan | BiOperator::LessThanOrEqual
        | BiOperator::GreaterThan | BiOperator::GreaterThanOrEqual => true,
        _ => false,
    }
}

/// The operand-type dispatch of a binary operator.
pub open spec fn application(op: BiOperator, left: Value, right: Value) -> Result<
    Application,
    RuntimeError,
> {
    match (left, right) {
        (Value::Numerical(a), Value::Numerical(b)) => if is_numeric(op) {
            Ok(Application::Numeric(op, a, b))
        } else {
            Err(RuntimeError::InvalidOperator(op, left, right))
        },
        (Value::Boolean(a), Value::Boolean(b)) => if op == BiOperator::Conjuction {
            Ok(Application::Computed(Value::Boolean(a && b)))
        } else if op == BiOperator::Disjunction {
            Ok(Application::Computed(Value::Boolean(a || b)))
        } else {
            Err(RuntimeError::InvalidOperator(op, left, right))
        },
        _ => Err(RuntimeError::InvalidOperator(op, left, right)),
    }
}

impl BiOperator {
    /// Applies the operator to `left` and `right`, or says which operation
    /// on two numbers the host has to compute.
    pub fn apply(&self, left: Value, right: Value) -> (r: Result<Application, RuntimeError>)
        ensures
            r == application(*self, left, right),
    {
        match (left, right) {
            (Value::Numerical(a), Value::Numerical(b)) => match self {
                BiOperator::Add | BiOperator::Subtract | BiOperator::Multiply
                | BiOperator::Divide | BiOperator::Power | BiOperator::LessThan
                | BiOperator::LessThanOrEqual | BiOperator::GreaterThan
                | BiOperator::GreaterThanOrEqual => Ok(Application::Numeric(*self, a, b)),
                _ => Err(RuntimeError::InvalidOperator(*self, left, right)),
            },
            (Value::Boolean(a), Value::Boolean(b)) => match self {
                BiOperator::Conjuction => Ok(Application::Computed(Value::Boolean(a && b))),
                BiOperator::Disjunction => Ok(Application::Computed(Value::Boolean(a || b))),
                _ => Err(RuntimeError::InvalidOperator(*self, left, right)),
            },
            _ => Err(RuntimeError::InvalidOperator(*self, left, right)),
        }
    }

    /// The operator's rank in the precedence table.
    pub fn precedence(&self) -> (r: u8)
        ensures
            r as nat == rank(*self),
    {
        match self {
            BiOperator::Disjunction => 1,
            BiOperator::Conjuction => 2,
            BiOperator::LessThan | BiOperator::LessThanOrEqual => 3,
            BiOperator::GreaterThan | BiOperator::GreaterThanOrEqual => 3,
            BiOperator::NotEqual => 3,
            BiOperator::Add | BiOperator::Subtract => 4,
            BiOperator::Multiply | BiOperator::Divide => 5,
            BiOperator::Power => 6,
        }
    }
}

/// A number and a boolean never combine: every operator refuses them, in
/// either order, naming itself and both operands.
pub proof fn lemma_mixed_operands_rejected(op: BiOperator, a: u64, b: bool)
    ensures
        application(op, Value::Numerical(a), Value::Boolean(b)) == Err::<Application, RuntimeError>(
            RuntimeError::InvalidOperator(op, Value::Numerical(a), Value::Boolean(b)),
        ),
        application(op, Value::Boolean(b), Value::Numerical(a)) == Err::<Application, RuntimeError>(
            RuntimeError::InvalidOperator(op, Value::Boolean(b), Value::Numerical(a)),
        ),
{
}

} // verus!
