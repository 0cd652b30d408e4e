use articy_dialogue::syntax::{read_expression, read_statements, AssignOp, BinaryOp, Expr};
use articy_dialogue::{evaluate_predicate, execute_instructions, EvalError, State, StateValue};

fn holds(text: &str) -> Result<bool, EvalError> {
    evaluate_predicate(text, &State::new())
}

#[test]
fn a_blank_condition_is_true() {
    assert_eq!(holds(""), Ok(true));
    assert_eq!(holds("  \t\r\n "), Ok(true));
}

#[test]
fn literals_coerce_to_booleans() {
    assert_eq!(holds("true"), Ok(true));
    assert_eq!(holds("false"), Ok(false));
    assert_eq!(holds("0"), Ok(false));
    assert_eq!(holds("17"), Ok(true));
    assert_eq!(holds("\"\""), Ok(false));
    assert_eq!(holds("\"no\""), Ok(true));
    assert_eq!(holds("never.set"), Ok(false));
    assert_eq!(holds("  ( true )  "), Ok(true));
}

#[test]
fn operators_bind_by_precedence() {
    assert_eq!(holds("1 + 2 * 3 == 7"), Ok(true));
    assert_eq!(holds("(1 + 2) * 3 == 9"), Ok(true));
    assert_eq!(holds("10 - 2 - 3 == 5"), Ok(true));
    assert_eq!(holds("100 / 10 / 5 == 2"), Ok(true));
    assert_eq!(holds("1 < 2 == true"), Ok(true));
    assert_eq!(holds("false || true && false"), Ok(false));
    assert_eq!(holds("!false && !0"), Ok(true));
    assert_eq!(holds("- 3 + 5 == 2"), Ok(true));
    assert_eq!(holds("--3 == 3"), Ok(true));
    assert_eq!(holds("2*3+4*5==26"), Ok(true));
}

#[test]
fn division_rounds_toward_zero() {
    assert_eq!(holds("7 / 2 == 3"), Ok(true));
    assert_eq!(holds("-7 / 2 == -3"), Ok(true));
    assert_eq!(holds("7 / -2 == -3"), Ok(true));
    assert_eq!(holds("-7 / -2 == 3"), Ok(true));
    assert_eq!(holds("7 % 2 == 1"), Ok(true));
    assert_eq!(holds("-7 % 2 == -1"), Ok(true));
    assert_eq!(holds("7 % -2 == 1"), Ok(true));
    assert_eq!(holds("-7 % -2 == -1"), Ok(true));
    assert_eq!(holds("0 / 5 == 0"), Ok(true));
}

#[test]
fn comparisons_of_integers() {
    assert_eq!(holds("1 < 2 && 2 <= 2 && 3 > 2 && 3 >= 3"), Ok(true));
    assert_eq!(holds("2 < 2"), Ok(false));
    assert_eq!(holds("1 != 2"), Ok(true));
    assert_eq!(holds("1 != 1"), Ok(false));
}

#[test]
fn values_of_different_kinds_are_unequal() {
    assert_eq!(holds("unset == 1"), Ok(false));
    assert_eq!(holds("unset == unset"), Ok(true));
    assert_eq!(holds("true == 1"), Ok(false));
    assert_eq!(holds("\"1\" != 1"), Ok(true));
    assert_eq!(holds("\"a\" == \"a\""), Ok(true));
    assert_eq!(holds("\"a\" == \"b\""), Ok(false));
}

#[test]
fn the_right_operand_is_skipped_where_it_cannot_matter() {
    assert_eq!(holds("false && 1 / 0"), Ok(false));
    assert_eq!(holds("true || 1 / 0"), Ok(true));
    assert_eq!(holds("true && 1 / 0"), Err(EvalError::DivisionByZero));
    assert_eq!(holds("false || 1 / 0"), Err(EvalError::DivisionByZero));
}

#[test]
fn evaluation_errors() {
    assert_eq!(holds("1 / 0"), Err(EvalError::DivisionByZero));
    assert_eq!(holds("1 % 0"), Err(EvalError::DivisionByZero));
    assert_eq!(holds("\"a\" + 1"), Err(EvalError::TypeMismatch));
    assert_eq!(holds("true < false"), Err(EvalError::TypeMismatch));
    assert_eq!(holds("-\"a\""), Err(EvalError::TypeMismatch));
    assert_eq!(holds("unset + 1"), Err(EvalError::TypeMismatch));
    assert_eq!(holds("9223372036854775807 + 1"), Err(EvalError::Overflow));
    assert_eq!(holds("0 - 9223372036854775807 - 2"), Err(EvalError::Overflow));
    assert_eq!(holds("4611686018427387904 * 2"), Err(EvalError::Overflow));
    assert_eq!(holds("(0 - 9223372036854775807 - 1) / -1"), Err(EvalError::Overflow));
    assert_eq!(holds("(0 - 9223372036854775807 - 1) % -1"), Err(EvalError::Overflow));
    assert_eq!(holds("-(0 - 9223372036854775807 - 1)"), Err(EvalError::Overflow));
    assert_eq!(holds("9223372036854775807 == 9223372036854775807"), Ok(true));
}

#[test]
fn syntax_errors() {
    for text in [
        "1 +", "(1", "1)", "1 2", "\"open", "x = 1", "1 = 1", "&& true", "a & b", "a | b", "1.5",
        "9223372036854775808", "@", "1 ! 2", "f(1)",
    ] {
        assert_eq!(holds(text), Err(EvalError::Syntax), "{text}");
    }
}

#[test]
fn floats_and_tuples_are_not_computed_with() {
    let mut state = State::new();
    state.set("f", StateValue::Float(1.5f64.to_bits()));
    state.set("zero", StateValue::Float(0));
    state.set("t", StateValue::Tuple(vec![StateValue::Int(1)]));
    assert_eq!(evaluate_predicate("f", &state), Ok(true));
    assert_eq!(evaluate_predicate("zero", &state), Ok(false));
    assert_eq!(evaluate_predicate("!f", &state), Ok(false));
    assert_eq!(evaluate_predicate("t", &state), Ok(true));
    assert_eq!(evaluate_predicate("f == f", &state), Err(EvalError::TypeMismatch));
    assert_eq!(evaluate_predicate("t != 1", &state), Err(EvalError::TypeMismatch));
    assert_eq!(evaluate_predicate("f + 1", &state), Err(EvalError::TypeMismatch));
    assert_eq!(evaluate_predicate("f < 2", &state), Err(EvalError::TypeMismatch));
}

#[test]
fn a_condition_reads_the_state() {
    let mut state = State::new();
    state.set("quest.gold", StateValue::Int(12));
    state.set("quest.name", StateValue::String("Ann".to_string()));
    assert_eq!(evaluate_predicate("quest.gold >= 10 && quest.name == \"Ann\"", &state), Ok(true));
    assert_eq!(evaluate_predicate("quest.gold * 2 == 25", &state), Ok(false));
}

#[test]
fn assignments_run_in_order() {
    let mut state = State::new();
    assert_eq!(execute_instructions("x = 1; y = x + 2; x = y * 10", &mut state), Ok(()));
    assert_eq!(state.get("x"), StateValue::Int(30));
    assert_eq!(state.get("y"), StateValue::Int(3));
    assert_eq!(execute_instructions(" x += 5 ;\n y -= 4; ", &mut state), Ok(()));
    assert_eq!(state.get("x"), StateValue::Int(35));
    assert_eq!(state.get("y"), StateValue::Int(-1));
    assert_eq!(execute_instructions("s = \"hi there\"; flag = !flag; a.b.c = x > 30", &mut state), Ok(()));
    assert_eq!(state.get("s"), StateValue::String("hi there".to_string()));
    assert_eq!(state.get("flag"), StateValue::Boolean(true));
    assert_eq!(state.get("a.b.c"), StateValue::Boolean(true));
}

#[test]
fn a_blank_instruction_does_nothing() {
    let mut state = State::new();
    state.set("x", StateValue::Int(1));
    assert_eq!(execute_instructions("", &mut state), Ok(()));
    assert_eq!(execute_instructions("  \n", &mut state), Ok(()));
    assert_eq!(state.get("x"), StateValue::Int(1));
    assert_eq!(state.keys().len(), 1);
}

#[test]
fn assigning_empty_removes_the_key() {
    let mut state = State::new();
    state.set("x", StateValue::Int(1));
    assert_eq!(execute_instructions("x = never.set", &mut state), Ok(()));
    assert_eq!(state.get("x"), StateValue::Empty);
    assert!(state.keys().is_empty());
}

#[test]
fn a_failed_instruction_leaves_the_state() {
    let mut state = State::new();
    state.set("x", StateValue::Int(7));
    assert_eq!(execute_instructions("x = 1; y = 1 / 0", &mut state), Err(EvalError::DivisionByZero));
    assert_eq!(state.get("x"), StateValue::Int(7));
    assert_eq!(execute_instructions("x = 2; y +", &mut state), Err(EvalError::Syntax));
    assert_eq!(state.get("x"), StateValue::Int(7));
    assert_eq!(execute_instructions("unset += 1", &mut state), Err(EvalError::TypeMismatch));
    for text in ["x == 1", "true = 1", "false = 1", "x = 1;;", "; x = 1", "1 = x", "x", "x = ", "x =+ 1 2"] {
        assert_eq!(execute_instructions(text, &mut state), Err(EvalError::Syntax), "{text}");
    }
    assert_eq!(state.get("x"), StateValue::Int(7));
    assert_eq!(state.keys().len(), 1);
}

#[test]
fn an_expression_is_read_into_a_tree() {
    let tree = read_expression("a + 2 * 3").unwrap();
    match tree {
        Expr::Binary(BinaryOp::Add, left, right) => {
            assert!(matches!(*left, Expr::Variable(ref name) if name == "a"));
            match *right {
                Expr::Binary(BinaryOp::Multiply, two, three) => {
                    assert!(matches!(*two, Expr::Int(2)));
                    assert!(matches!(*three, Expr::Int(3)));
                }
                other => panic!("unexpected {other:?}"),
            }
        }
        other => panic!("unexpected {other:?}"),
    }
    assert!(read_expression("").is_none());
    assert!(read_expression("a +").is_none());
}

#[test]
fn statements_are_read_in_order() {
    let statements = read_statements("a = 1; b += a; c -= 2;").unwrap();
    let targets: Vec<&str> = statements.iter().map(|s| s.target.as_str()).collect();
    assert_eq!(targets, vec!["a", "b", "c"]);
    assert_eq!(statements[0].op, AssignOp::Assign);
    assert_eq!(statements[1].op, AssignOp::Add);
    assert_eq!(statements[2].op, AssignOp::Subtract);
    assert!(read_statements("").unwrap().is_empty());
    assert!(read_statements("a = ").is_none());
}

#[test]
fn identifiers_and_keywords() {
    let mut state = State::new();
    state.set("true_flag", StateValue::Int(1));
    state.set("_x1", StateValue::Int(2));
    state.set("a.b_c.d2", StateValue::Int(3));
    state.set("falsey", StateValue::String("yes".to_string()));
    assert_eq!(evaluate_predicate("true_flag + _x1 + a.b_c.d2 == 6", &state), Ok(true));
    assert_eq!(evaluate_predicate("falsey", &state), Ok(true));
    assert_eq!(evaluate_predicate("truex", &state), Ok(false));
    assert_eq!(evaluate_predicate("-_x1 == 0 - 2", &state), Ok(true));
    assert_eq!(evaluate_predicate("!falsey", &state), Ok(false));
    assert_eq!(evaluate_predicate("1x", &state), Err(EvalError::Syntax));
}

#[test]
fn layout_does_not_matter() {
    assert_eq!(holds("\t1\n+\r\n2 ==\t3 "), Ok(true));
    assert_eq!(holds("((((1))))==1"), Ok(true));
    assert_eq!(holds("( 1 + ( 2 * ( 3 - 1 ) ) ) == 5"), Ok(true));
    assert_eq!(holds("007 == 7"), Ok(true));
    assert_eq!(holds("\" \" == \" \""), Ok(true));
    assert_eq!(holds("\"a b\" == \"a  b\""), Ok(false));
    assert_eq!(holds("1<2&&2<3||1/0"), Ok(true));
    assert_eq!(holds("1<=1&&!(2>=3)"), Ok(true));
}
