use ergotree::eval::{And, Env, EvalContext, EvalError, Expr, Or, and_bools, or_bools};
use ergotree::registry::{FLATMAP_METHOD_ID, INDEX_OF_METHOD_ID, INDICES_METHOD_ID, TYPE_ID, ZIP_METHOD_ID};
use ergotree::value::{Value, try_extract_bools, TryExtractError};

fn bools(bs: &[bool]) -> Value {
    Value::Coll(bs.iter().map(|b| Value::Boolean(*b)).collect())
}

fn ints(xs: &[i32]) -> Value {
    Value::Coll(xs.iter().map(|x| Value::Int(*x)).collect())
}

fn run(e: &Expr) -> Result<Value, EvalError> {
    let mut env = Env::empty();
    let mut ctx = EvalContext::new(1000, 7);
    e.eval(&mut env, &mut ctx)
}

fn or_of(bs: &[bool]) -> Expr {
    Expr::Or(Or { input: Box::new(Expr::Const(bools(bs))) })
}

fn and_of(bs: &[bool]) -> Expr {
    Expr::And(And { input: Box::new(Expr::Const(bools(bs))) })
}

fn as_bool(r: Result<Value, EvalError>) -> bool {
    match r {
        Ok(Value::Boolean(b)) => b,
        other => panic!("expected a boolean, got {:?}", other),
    }
}

fn as_int(r: Result<Value, EvalError>) -> i32 {
    match r {
        Ok(Value::Int(x)) => x,
        other => panic!("expected an int, got {:?}", other),
    }
}

#[test]
fn or_concrete_cases() {
    assert!(as_bool(run(&or_of(&[true, false, false]))));
    assert!(!as_bool(run(&or_of(&[]))));
    assert!(!as_bool(run(&or_of(&[false, false]))));
}

#[test]
fn and_concrete_cases() {
    assert!(as_bool(run(&and_of(&[]))));
    assert!(as_bool(run(&and_of(&[true, true]))));
    assert!(!as_bool(run(&and_of(&[true, false]))));
}

#[test]
fn or_matches_any_on_all_short_sequences() {
    for n in 0..6u32 {
        for mask in 0..(1u32 << n) {
            let bs: Vec<bool> = (0..n).map(|i| mask & (1 << i) != 0).collect();
            assert_eq!(as_bool(run(&or_of(&bs))), bs.iter().any(|b| *b));
            assert_eq!(as_bool(run(&and_of(&bs))), bs.iter().all(|b| *b));
            assert_eq!(or_bools(&bs), bs.iter().any(|b| *b));
            assert_eq!(and_bools(&bs), bs.iter().all(|b| *b));
        }
    }
}

#[test]
fn or_on_non_boolean_input_is_type_mismatch() {
    let e = Expr::Or(Or { input: Box::new(Expr::Const(ints(&[1]))) });
    assert_eq!(run(&e).unwrap_err(), EvalError::TypeMismatch);
    let e = Expr::Or(Or { input: Box::new(Expr::Const(Value::Boolean(true))) });
    assert_eq!(run(&e).unwrap_err(), EvalError::TypeMismatch);
}

#[test]
fn narrowing_reports_mismatch() {
    assert_eq!(try_extract_bools(&bools(&[true, false])).unwrap(), vec![true, false]);
    assert_eq!(try_extract_bools(&ints(&[1])).unwrap_err(), TryExtractError::TypeMismatch);
}

#[test]
fn unbound_variable_is_an_error() {
    assert_eq!(run(&Expr::ValUse(3)).unwrap_err(), EvalError::UnboundVariable(3));
}

#[test]
fn let_binds_and_shadows() {
    let inner = Expr::Let(1, Box::new(Expr::Const(Value::Int(5))), Box::new(Expr::ValUse(1)));
    let e = Expr::Let(
        1,
        Box::new(Expr::Const(Value::Int(2))),
        Box::new(Expr::Plus(Box::new(inner), Box::new(Expr::ValUse(1)))),
    );
    assert_eq!(as_int(run(&e)), 7);
}

#[test]
fn plus_overflow_is_arithmetic_error() {
    let e = Expr::Plus(
        Box::new(Expr::Const(Value::Int(i32::MAX))),
        Box::new(Expr::Const(Value::Int(1))),
    );
    assert_eq!(run(&e).unwrap_err(), EvalError::ArithmeticOverflow);
}

#[test]
fn if_and_lt() {
    let e = Expr::If(
        Box::new(Expr::Lt(
            Box::new(Expr::Const(Value::Int(1))),
            Box::new(Expr::Const(Value::Int(2))),
        )),
        Box::new(Expr::Const(Value::Int(10))),
        Box::new(Expr::Const(Value::Int(20))),
    );
    assert_eq!(as_int(run(&e)), 10);
}

#[test]
fn cost_limit_aborts_at_the_crossing_step() {
    let e = or_of(&[false, false, true]);
    let mut env = Env::empty();
    // two node charges and three element charges make five
    let mut ctx = EvalContext::new(5, 0);
    assert!(as_bool(e.eval(&mut env, &mut ctx)));
    assert_eq!(ctx.cost, 5);
    let mut ctx = EvalContext::new(4, 9);
    assert_eq!(e.eval(&mut env, &mut ctx).unwrap_err(), EvalError::CostLimitExceeded);
    assert_eq!(ctx.cost, 2);
    assert_eq!(ctx.cost_limit, 4);
    assert_eq!(ctx.self_box, 9);
    let mut ctx = EvalContext::new(0, 0);
    assert_eq!(e.eval(&mut env, &mut ctx).unwrap_err(), EvalError::CostLimitExceeded);
    assert_eq!(ctx.cost, 0);
}

#[test]
fn charge_leaves_context_on_failure() {
    let mut ctx = EvalContext::new(10, 3);
    assert_eq!(ctx.charge(7), Ok(()));
    assert_eq!(ctx.charge(4), Err(EvalError::CostLimitExceeded));
    assert_eq!(ctx, EvalContext { cost: 7, cost_limit: 10, self_box: 3 });
}

fn call(method_id: u8, obj: Value, args: Vec<Expr>) -> Result<Value, EvalError> {
    run(&Expr::MethodCall(TYPE_ID, method_id, Box::new(Expr::Const(obj)), args))
}

#[test]
fn indices_method() {
    match call(INDICES_METHOD_ID, ints(&[9, 8, 7]), vec![]).unwrap() {
        Value::Coll(items) => {
            let xs: Vec<i32> = items.iter().map(|v| match v { Value::Int(x) => *x, _ => -100 }).collect();
            assert_eq!(xs, vec![0, 1, 2]);
        }
        other => panic!("{:?}", other),
    }
}

#[test]
fn zip_method_pairs_up_to_shorter() {
    let r = call(ZIP_METHOD_ID, ints(&[1, 2, 3]), vec![Expr::Const(bools(&[true, false]))]).unwrap();
    match r {
        Value::Coll(items) => {
            assert_eq!(items.len(), 2);
            match &items[1] {
                Value::Tup(p) => {
                    assert!(matches!(p[0], Value::Int(2)));
                    assert!(matches!(p[1], Value::Boolean(false)));
                }
                other => panic!("{:?}", other),
            }
        }
        other => panic!("{:?}", other),
    }
}

#[test]
fn index_of_method_first_match_or_minus_one() {
    let args = |x: i32, from: i32| vec![Expr::Const(Value::Int(x)), Expr::Const(Value::Int(from))];
    assert_eq!(as_int(call(INDEX_OF_METHOD_ID, ints(&[4, 5, 4]), args(4, 0))), 0);
    assert_eq!(as_int(call(INDEX_OF_METHOD_ID, ints(&[4, 5, 4]), args(4, 1))), 2);
    assert_eq!(as_int(call(INDEX_OF_METHOD_ID, ints(&[4, 5, 4]), args(4, -3))), 0);
    assert_eq!(as_int(call(INDEX_OF_METHOD_ID, ints(&[4, 5, 4]), args(6, 0))), -1);
    assert_eq!(as_int(call(INDEX_OF_METHOD_ID, ints(&[4, 5, 4]), args(4, 3))), -1);
}

#[test]
fn unregistered_method_call_is_unknown_method() {
    let r = call(99, ints(&[1]), vec![]);
    assert_eq!(r.unwrap_err(), EvalError::UnknownMethod { type_id: TYPE_ID, method_id: 99 });
    let r = run(&Expr::MethodCall(4, INDICES_METHOD_ID, Box::new(Expr::ValUse(0)), vec![]));
    assert_eq!(r.unwrap_err(), EvalError::UnknownMethod { type_id: 4, method_id: INDICES_METHOD_ID });
}

#[test]
fn flat_map_without_function_argument_is_type_mismatch() {
    let r = call(FLATMAP_METHOD_ID, ints(&[1]), vec![Expr::Const(Value::Int(0))]);
    assert_eq!(r.unwrap_err(), EvalError::TypeMismatch);
}

#[test]
fn collection_and_tuple_literals() {
    let e = Expr::TupleLit(vec![Expr::Const(Value::Int(1)), Expr::CollLit(vec![Expr::Const(Value::Unit)])]);
    match run(&e).unwrap() {
        Value::Tup(items) => {
            assert_eq!(items.len(), 2);
            assert!(matches!(&items[1], Value::Coll(c) if c.len() == 1));
        }
        other => panic!("{:?}", other),
    }
    let e = Expr::CollLit(vec![Expr::Const(Value::Int(1)), Expr::ValUse(8)]);
    assert_eq!(run(&e).unwrap_err(), EvalError::UnboundVariable(8));
}

#[test]
fn flat_map_concatenates_in_order() {
    let body = Expr::CollLit(vec![
        Expr::ValUse(5),
        Expr::Plus(Box::new(Expr::ValUse(5)), Box::new(Expr::Const(Value::Int(10)))),
    ]);
    let r = call(FLATMAP_METHOD_ID, ints(&[1, 2, 3]), vec![Expr::Lambda(5, Box::new(body))]);
    match r.unwrap() {
        Value::Coll(items) => {
            let xs: Vec<i32> = items.iter().map(|v| match v { Value::Int(x) => *x, _ => -100 }).collect();
            assert_eq!(xs, vec![1, 11, 2, 12, 3, 13]);
        }
        other => panic!("{:?}", other),
    }
    let empty = call(FLATMAP_METHOD_ID, ints(&[]), vec![Expr::Lambda(5, Box::new(Expr::ValUse(9)))]);
    assert!(matches!(empty.unwrap(), Value::Coll(items) if items.is_empty()));
}

#[test]
fn flat_map_body_must_yield_a_collection() {
    let r = call(FLATMAP_METHOD_ID, ints(&[1]), vec![Expr::Lambda(5, Box::new(Expr::ValUse(5)))]);
    assert_eq!(r.unwrap_err(), EvalError::TypeMismatch);
    let r = call(FLATMAP_METHOD_ID, ints(&[1]), vec![Expr::Lambda(5, Box::new(Expr::ValUse(6)))]);
    assert_eq!(r.unwrap_err(), EvalError::UnboundVariable(6));
}

#[test]
fn lambda_alone_is_type_mismatch() {
    assert_eq!(run(&Expr::Lambda(1, Box::new(Expr::ValUse(1)))).unwrap_err(), EvalError::TypeMismatch);
}
