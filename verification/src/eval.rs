//! The meaning of the scripting dialect: what an expression evaluates to in
//! a state, and what a list of assignments does to it.

use crate::syntax::{
    parse_expression, parse_statements, read_expression, read_statements, scan, statement_views,
    AssignOp, BinaryOp, CharClass, EvalError, Expr, ExprView, Statement, StatementView,
};
use crate::value::{lookup, store, State, StateValue, ValueView};
use vstd::prelude::*;

verus! {

/// The quotient of `x` by `d`, rounded toward zero (`d` is not zero).
pub open spec fn quotient(x: int, d: int) -> int {
    if x == 0 {
        0
    } else if x > 0 && d > 0 {
        x / d
    } else if x < 0 && d < 0 {
        (x * -1) / (d * -1)
    } else if x < 0 {
        ((x * -1) / d) * -1
    } else {
        (x / (d * -1)) * -1
    }
}

/// The remainder of `x` by `d`, with the sign of `x` (`d` is not zero).
pub open spec fn remainder(x: int, d: int) -> int {
    if x == 0 {
        0
    } else if x > 0 && d > 0 {
        x % d
    } else if x < 0 && d < 0 {
        ((x * -1) % (d * -1)) * -1
    } else if x < 0 {
        ((x * -1) % d) * -1
    } else {
        x % (d * -1)
    }
}

/// An integer result: the number where it fits in 64 bits, else an overflow.
pub open spec fn int_result(v: int) -> Result<ValueView, EvalError> {
    if i64::MIN <= v <= i64::MAX {
        Ok(ValueView::Int(v as i64))
    } else {
        Err(EvalError::Overflow)
    }
}

/// Whether two values are equal. Floats and tuples are not compared; values
/// of different kinds are unequal.
pub open spec fn equal(x: ValueView, y: ValueView) -> Result<bool, EvalError> {
    if x is Float || y is Float || x is Tuple || y is Tuple {
        Err(EvalError::TypeMismatch)
    } else {
        Ok(x == y)
    }
}

/// What a binary operator other than `&&` and `||` gives of two values.
pub open spec fn apply(op: BinaryOp, x: ValueView, y: ValueView) -> Result<ValueView, EvalError> {
    match op {
        BinaryOp::Or => Ok(ValueView::Boolean(x.truthy() || y.truthy())),
        BinaryOp::And => Ok(ValueView::Boolean(x.truthy() && y.truthy())),
        BinaryOp::Equal => match equal(x, y) {
            Ok(b) => Ok(ValueView::Boolean(b)),
            Err(e) => Err(e),
        },
        BinaryOp::NotEqual => match equal(x, y) {
            Ok(b) => Ok(ValueView::Boolean(!b)),
            Err(e) => Err(e),
        },
        _ => match (x, y) {
            (ValueView::Int(a), ValueView::Int(b)) => match op {
                BinaryOp::Less => Ok(ValueView::Boolean(a < b)),
                BinaryOp::LessEqual => Ok(ValueView::Boolean(a <= b)),
                BinaryOp::Greater => Ok(ValueView::Boolean(a > b)),
                BinaryOp::GreaterEqual => Ok(ValueView::Boolean(a >= b)),
                BinaryOp::Add => int_result(a + b),
                BinaryOp::Subtract => int_result(a - b),
                BinaryOp::Multiply => int_result(a * b),
                BinaryOp::Divide => if b == 0 {
                    Err(EvalError::DivisionByZero)
                } else {
                    int_result(quotient(a as int, b as int))
                },
                _ => if b == 0 {
                    Err(EvalError::DivisionByZero)
                } else if a == i64::MIN && b == -1 {
                    Err(EvalError::Overflow)
                } else {
                    int_result(remainder(a as int, b as int))
                },
            },
            _ => Err(EvalError::TypeMismatch),
        },
    }
}

/// The value of an expression in the state `m`.
///
/// A variable reads the state, a missing key as `Empty`. `!`, `&&` and `||`
/// coerce their operands to booleans, and `&&` and `||` do not evaluate a
/// right operand that cannot change the result. The other operators take
/// integers, but for `==` and `!=`.
pub open spec fn eval(e: ExprView, m: Map<Seq<char>, ValueView>) -> Result<ValueView, EvalError>
    decreases e,
{
    match e {
        ExprView::Boolean(b) => Ok(ValueView::Boolean(b)),
        ExprView::Int(i) => Ok(ValueView::Int(i)),
        ExprView::Text(text) => Ok(ValueView::Str(text)),
        ExprView::Variable(name) => Ok(lookup(m, name)),
        ExprView::Not(a) => match eval(*a, m) {
            Ok(v) => Ok(ValueView::Boolean(!v.truthy())),
            Err(e) => Err(e),
        },
        ExprView::Negate(a) => match eval(*a, m) {
            Ok(ValueView::Int(i)) => int_result(0 - i),
            Ok(_) => Err(EvalError::TypeMismatch),
            Err(e) => Err(e),
        },
        ExprView::Binary(op, a, b) => match eval(*a, m) {
            Err(e) => Err(e),
            Ok(x) => if op == BinaryOp::Or && x.truthy() {
                Ok(ValueView::Boolean(true))
            } else if op == BinaryOp::And && !x.truthy() {
                Ok(ValueView::Boolean(false))
            } else {
                match eval(*b, m) {
                    Err(e) => Err(e),
                    Ok(y) => apply(op, x, y),
                }
            },
        },
    }
}

/// The value that a statement assigns in the state `m`.
pub open spec fn assigned(st: StatementView, m: Map<Seq<char>, ValueView>) -> Result<ValueView, EvalError> {
    match eval(st.value, m) {
        Err(e) => Err(e),
        Ok(v) => match st.op {
            AssignOp::Assign => Ok(v),
            AssignOp::Add => apply(BinaryOp::Add, lookup(m, st.target), v),
            AssignOp::Subtract => apply(BinaryOp::Subtract, lookup(m, st.target), v),
        },
    }
}

/// The state after the statements, run in order from the state `m`; the
/// first error ends the run.
pub open spec fn run_statements(sts: Seq<StatementView>, m: Map<Seq<char>, ValueView>) -> Result<
    Map<Seq<char>, ValueView>,
    EvalError,
>
    decreases sts.len(),
{
    if sts.len() == 0 {
        Ok(m)
    } else {
        match assigned(sts[0], m) {
            Ok(v) => run_statements(sts.drop_first(), store(m, sts[0].target, v)),
            Err(e) => Err(e),
        }
    }
}

/// Whether a text is blank.
pub open spec fn blank(text: Seq<char>) -> bool {
    scan(text, 0, CharClass::Space) >= text.len()
}

/// A condition: a blank text is true; any other text is an expression, and
/// the condition is the boolean coercion of its value.
pub open spec fn predicate(text: Seq<char>, m: Map<Seq<char>, ValueView>) -> Result<bool, EvalError> {
    if blank(text) {
        Ok(true)
    } else {
        match parse_expression(text) {
            None => Err(EvalError::Syntax),
            Some(e) => match eval(e, m) {
                Ok(v) => Ok(v.truthy()),
                Err(e) => Err(e),
            },
        }
    }
}

/// An instruction: the state after the assignments that the text writes.
pub open spec fn instructions(text: Seq<char>, m: Map<Seq<char>, ValueView>) -> Result<
    Map<Seq<char>, ValueView>,
    EvalError,
> {
    match parse_statements(text, 0) {
        None => Err(EvalError::Syntax),
        Some(sts) => run_statements(sts, m),
    }
}

/// Whether a computed value is what the semantics give.
pub open spec fn value_result_is(
    r: Result<StateValue, EvalError>,
    expected: Result<ValueView, EvalError>,
) -> bool {
    match r {
        Ok(v) => expected == Ok::<ValueView, EvalError>(v@),
        Err(e) => expected == Err::<ValueView, EvalError>(e),
    }
}

fn int_of(r: Option<i64>) -> (out: Result<StateValue, EvalError>)
    ensures
        match r {
            Some(v) => out matches Ok(StateValue::Int(w)) && w == v,
            None => out == Err::<StateValue, EvalError>(EvalError::Overflow),
        },
{
    match r {
        Some(v) => Ok(StateValue::Int(v)),
        None => Err(EvalError::Overflow),
    }
}

fn values_equal(x: &StateValue, y: &StateValue) -> (r: Result<bool, EvalError>)
    ensures
        r == equal(x@, y@),
{
    match (x, y) {
        (StateValue::Float(_), _) => Err(EvalError::TypeMismatch),
        (_, StateValue::Float(_)) => Err(EvalError::TypeMismatch),
        (StateValue::Tuple(_), _) => Err(EvalError::TypeMismatch),
        (_, StateValue::Tuple(_)) => Err(EvalError::TypeMismatch),
        (StateValue::Empty, StateValue::Empty) => Ok(true),
        (StateValue::Boolean(a), StateValue::Boolean(b)) => Ok(*a == *b),
        (StateValue::Int(a), StateValue::Int(b)) => Ok(*a == *b),
        (StateValue::String(a), StateValue::String(b)) => Ok(*a == *b),
        _ => Ok(false),
    }
}

/// Applies a binary operator to two values.
pub fn apply_op(op: BinaryOp, x: &StateValue, y: &StateValue) -> (r: Result<StateValue, EvalError>)
    ensures
        value_result_is(r, apply(op, x@, y@)),
{
    match op {
        BinaryOp::Or => Ok(StateValue::Boolean(x.truthy() || y.truthy())),
        BinaryOp::And => Ok(StateValue::Boolean(x.truthy() && y.truthy())),
        BinaryOp::Equal => match values_equal(x, y) {
            Ok(b) => Ok(StateValue::Boolean(b)),
            Err(e) => Err(e),
        },
        BinaryOp::NotEqual => match values_equal(x, y) {
            Ok(b) => Ok(StateValue::Boolean(!b)),
            Err(e) => Err(e),
        },
        _ => match (x, y) {
            (StateValue::Int(a), StateValue::Int(b)) => {
                let a: i64 = *a;
                let b: i64 = *b;
                match op {
                    BinaryOp::Less => Ok(StateValue::Boolean(a < b)),
                    BinaryOp::LessEqual => Ok(StateValue::Boolean(a <= b)),
                    BinaryOp::Greater => Ok(StateValue::Boolean(a > b)),
                    BinaryOp::GreaterEqual => Ok(StateValue::Boolean(a >= b)),
                    BinaryOp::Add => int_of(a.checked_add(b)),
                    BinaryOp::Subtract => int_of(a.checked_sub(b)),
                    BinaryOp::Multiply => int_of(a.checked_mul(b)),
                    BinaryOp::Divide => if b == 0 {
                        Err(EvalError::DivisionByZero)
                    } else {
                        int_of(a.checked_div(b))
                    },
                    _ => if b == 0 {
                        Err(EvalError::DivisionByZero)
                    } else {
                        int_of(a.checked_rem(b))
                    },
                }
            },
            _ => Err(EvalError::TypeMismatch),
        },
    }
}

/// Evaluates an expression in a state.
pub fn evaluate(e: &Expr, state: &State) -> (r: Result<StateValue, EvalError>)
    ensures
        value_result_is(r, eval(e@, state@)),
    decreases e,
{
    match e {
        Expr::Boolean(b) => Ok(StateValue::Boolean(*b)),
        Expr::Int(i) => Ok(StateValue::Int(*i)),
        Expr::Text(text) => Ok(StateValue::String(text.clone())),
        Expr::Variable(name) => Ok(state.get(name.as_str())),
        Expr::Not(a) => match evaluate(&**a, state) {
            Ok(v) => Ok(StateValue::Boolean(!v.truthy())),
            Err(e) => Err(e),
        },
        Expr::Negate(a) => match evaluate(&**a, state) {
            Ok(StateValue::Int(i)) => int_of(0i64.checked_sub(i)),
            Ok(_) => Err(EvalError::TypeMismatch),
            Err(e) => Err(e),
        },
        Expr::Binary(op, a, b) => match evaluate(&**a, state) {
            Err(e) => Err(e),
            Ok(x) => {
                let t = x.truthy();
                if *op == BinaryOp::Or && t {
                    Ok(StateValue::Boolean(true))
                } else if *op == BinaryOp::And && !t {
                    Ok(StateValue::Boolean(false))
                } else {
                    match evaluate(&**b, state) {
                        Err(e) => Err(e),
                        Ok(y) => apply_op(*op, &x, &y),
                    }
                }
            },
        },
    }
}

fn assigned_value(st: &Statement, state: &State) -> (r: Result<StateValue, EvalError>)
    ensures
        value_result_is(r, assigned(st@, state@)),
{
    match evaluate(&st.value, state) {
        Err(e) => Err(e),
        Ok(v) => match st.op {
            AssignOp::Assign => Ok(v),
            AssignOp::Add => apply_op(BinaryOp::Add, &state.get(st.target.as_str()), &v),
            AssignOp::Subtract => apply_op(BinaryOp::Subtract, &state.get(st.target.as_str()), &v),
        },
    }
}

/// Evaluates the condition that `text` writes in the state.
pub fn evaluate_predicate(text: &str, state: &State) -> (r: Result<bool, EvalError>)
    ensures
        r == predicate(text@, state@),
{
    if text.is_empty() {
        return Ok(true);
    }
    proof {
        lemma_blank_is_no_expression(text@);
    }
    match read_expression(text) {
        Some(e) => match evaluate(&e, state) {
            Ok(v) => Ok(v.truthy()),
            Err(err) => Err(err),
        },
        None => {
            let chars = crate::syntax::chars_of(text);
            if is_blank(&chars) {
                Ok(true)
            } else {
                Err(EvalError::Syntax)
            }
        },
    }
}

fn is_blank(chars: &Vec<char>) -> (b: bool)
    ensures
        b == blank(chars@),
{
    let mut i: usize = 0;
    while i < chars.len()
        invariant
            i <= chars@.len(),
            scan(chars@, 0, CharClass::Space) == scan(chars@, i as int, CharClass::Space),
        decreases chars@.len() - i,
    {
        let c = chars[i];
        if !(c == ' ' || c == '\t' || c == '\n' || c == '\r') {
            return false;
        }
        i += 1;
    }
    true
}

/// A blank text writes no expression.
pub proof fn lemma_blank_is_no_expression(text: Seq<char>)
    ensures
        blank(text) ==> parse_expression(text) is None,
{
    if blank(text) {
        let s = text;
        let q = scan(s, 0, CharClass::Space);
        crate::syntax::lemma_scan(s, 0, CharClass::Space);
        assert(q == s.len());
        // Each level of the grammar comes down to a primary expression at the
        // end of the text, where there is none.
        assert(crate::syntax::parse_primary(s, q) is None);
        assert(crate::syntax::parse_unary(s, 0) is None);
        assert(crate::syntax::parse_binary(s, 0, 6) is None);
        assert(crate::syntax::parse_binary(s, 0, 5) is None);
        assert(crate::syntax::parse_binary(s, 0, 4) is None);
        assert(crate::syntax::parse_binary(s, 0, 3) is None);
        assert(crate::syntax::parse_binary(s, 0, 2) is None);
        assert(crate::syntax::parse_binary(s, 0, 1) is None);
        assert(crate::syntax::parse_binary(s, 0, 0) is None);
    }
}

/// Runs the assignments that `text` writes. On an error the state is as it
/// was before.
pub fn execute_instructions(text: &str, state: &mut State) -> (r: Result<(), EvalError>)
    ensures
        match instructions(text@, old(state)@) {
            Ok(m) => r is Ok && final(state)@ == m,
            Err(e) => r == Err::<(), EvalError>(e) && final(state)@ == old(state)@,
        },
{
    let stmts = match read_statements(text) {
        Some(stmts) => stmts,
        None => {
            return Err(EvalError::Syntax);
        },
    };
    let mut working = state.copy();
    let ghost all = statement_views(stmts@);
    let ghost start = state@;
    let mut i: usize = 0;
    assert(all.subrange(0, all.len() as int) =~= all);
    while i < stmts.len()
        invariant
            i <= stmts@.len(),
            all == statement_views(stmts@),
            start == state@,
            start == old(state)@,
            instructions(text@, start) == run_statements(all, start),
            run_statements(all, start) == run_statements(
                all.subrange(i as int, all.len() as int),
                working@,
            ),
        decreases stmts@.len() - i,
    {
        let ghost rest = all.subrange(i as int, all.len() as int);
        assert(rest[0] == stmts@[i as int]@);
        assert(rest.drop_first() =~= all.subrange(i + 1, all.len() as int));
        match assigned_value(&stmts[i], &working) {
            Ok(v) => {
                working.set(stmts[i].target.as_str(), v);
            },
            Err(e) => {
                return Err(e);
            },
        }
        i += 1;
    }
    assert(all.subrange(i as int, all.len() as int) =~= Seq::<StatementView>::empty());
    *state = working;
    Ok(())
}

} // verus!
