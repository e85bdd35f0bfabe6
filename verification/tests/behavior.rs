use curry_calc::context::Context;
use curry_calc::error::Error;
use curry_calc::ir::{Expr, Store, Ty, TyArena, TyInner, Value};
use curry_calc::parser::parse;

/// Parses, lowers and evaluates a whole program, one expression per line,
/// against a persistent variable environment sized after lowering, as the
/// driver does.
fn run(lines: &[&str]) -> (Vec<Result<(Ty, Value), Error>>, TyArena) {
    let mut arena = TyArena::new();
    let mut ctx = Context::new();
    let mut exprs = Vec::new();
    for line in lines {
        if let Some(surface) = parse(line).expect("syntax") {
            exprs.push(
                ctx.translate_expr(surface, &mut arena)
                    .expect("lowering"),
            );
        }
    }
    let n = ctx.num_variables();
    let mut vars = Vec::new();
    for slot in 0..n {
        let u = Ty::new(&mut arena, TyInner::Undetermined);
        let r = Ty::new(&mut arena, TyInner::Ref(u));
        vars.push((r, Value::Var(slot)));
    }
    let mut store = Store::new(n);
    let results = exprs
        .iter()
        .map(|e| e.eval(&mut arena, &vars, &mut store))
        .collect();
    (results, arena)
}

fn resolves_to_int(arena: &TyArena, t: Ty) -> bool {
    let r = arena.resolve(t).expect("unresolvable cell");
    matches!(arena.node(r), TyInner::Int)
}

#[test]
fn literal_identity() {
    let (results, arena) = run(&["5"]);
    assert_eq!(results.len(), 1);
    let (ty, value) = results[0].as_ref().expect("evaluation");
    assert!(matches!(value, Value::Int(5)));
    assert!(resolves_to_int(&arena, *ty));
}

#[test]
fn arithmetic_precedence() {
    let (results, arena) = run(&["2 + 3 * 4"]);
    let (ty, value) = results[0].as_ref().expect("evaluation");
    assert!(matches!(value, Value::Int(14)));
    assert!(resolves_to_int(&arena, *ty));
}

#[test]
fn arithmetic_left_associative_subtraction() {
    let (results, _) = run(&["10 - 3 - 2"]);
    let (_, value) = results[0].as_ref().expect("evaluation");
    assert!(matches!(value, Value::Int(5)));
}

#[test]
fn remainder() {
    let (results, _) = run(&["17 % 5"]);
    let (_, value) = results[0].as_ref().expect("evaluation");
    assert!(matches!(value, Value::Int(2)));
}

#[test]
fn assignment_dereference_round_trip() {
    let (results, arena) = run(&["x = 7", "x"]);
    assert!(results[0].is_ok());
    let (ty, value) = results[1].as_ref().expect("evaluation");
    assert!(matches!(value, Value::Int(7)));
    assert!(resolves_to_int(&arena, *ty));
}

#[test]
fn uninitialized_read_is_fatal() {
    let (results, _) = run(&["x"]);
    assert_eq!(results[0].as_ref().unwrap_err(), &Error::UninitializedRead);
}

#[test]
fn persistent_state_across_lines() {
    let (results, arena) = run(&["x = 3", "x = x + 1", "x"]);
    assert!(results[0].is_ok());
    assert!(results[1].is_ok());
    let (ty, value) = results[2].as_ref().expect("evaluation");
    assert!(matches!(value, Value::Int(4)));
    assert!(resolves_to_int(&arena, *ty));
}

#[test]
fn two_variables_keep_their_slots() {
    let (results, _) = run(&["a = 1", "b = 20", "a + b"]);
    let (_, value) = results[2].as_ref().expect("evaluation");
    assert!(matches!(value, Value::Int(21)));
}

#[test]
fn mismatched_arity_call() {
    // a builtin typed (Int, Int) -> Int under a three-argument call
    let mut arena = TyArena::new();
    let expr = Expr::Func {
        func: curry_calc::ir::Func::Add,
        calls: vec![curry_calc::ir::Call::new(vec![
            Expr::Int(1),
            Expr::Int(2),
            Expr::Int(3),
        ])],
    };
    let vars = Vec::new();
    let mut store = Store::new(0);
    let r = expr.eval(&mut arena, &vars, &mut store);
    assert_eq!(r.unwrap_err(), Error::ArityMismatch);
}

#[test]
fn mismatched_arity_from_source() {
    let (results, _) = run(&["[(Int, Int) Int](1, 2, 3)"]);
    assert_eq!(results[0].as_ref().unwrap_err(), &Error::ArityMismatch);
}

#[test]
fn division_by_zero_is_arithmetic_fault() {
    let (results, _) = run(&["10 / 0"]);
    assert_eq!(results[0].as_ref().unwrap_err(), &Error::ArithmeticFault);
}

#[test]
fn remainder_by_zero_is_arithmetic_fault() {
    let (results, _) = run(&["10 % 0"]);
    assert_eq!(results[0].as_ref().unwrap_err(), &Error::ArithmeticFault);
}

#[test]
fn addition_overflow_is_arithmetic_fault() {
    let (results, _) = run(&["2000000000 + 2000000000"]);
    assert_eq!(results[0].as_ref().unwrap_err(), &Error::ArithmeticFault);
}

#[test]
fn annotated_identity_applies() {
    let (results, arena) = run(&["[Int](41) + 1"]);
    let (ty, value) = results[0].as_ref().expect("evaluation");
    assert!(matches!(value, Value::Int(42)));
    assert!(resolves_to_int(&arena, *ty));
}

#[test]
fn plain_value_lifted_over_extra_arity() {
    // 1 + [Int] mixes an integer with a function of one integer: the
    // integer is constant-lifted, the sum curried into a function that
    // still owes one argument.
    let (results, _) = run(&["(1 + [Int])(41)"]);
    let (_, value) = results[0].as_ref().expect("evaluation");
    assert!(matches!(value, Value::Int(42)));
}

#[test]
fn curried_result_type_is_a_function() {
    let (results, arena) = run(&["1 + [Int]"]);
    let (ty, value) = results[0].as_ref().expect("evaluation");
    assert!(matches!(value, Value::App(_, _)));
    let r = arena.resolve(*ty).expect("unresolvable cell");
    match arena.node(r) {
        TyInner::Func { args, ret } => {
            assert_eq!(args.len(), 1);
            assert!(resolves_to_int(&arena, args[0]));
            assert!(resolves_to_int(&arena, *ret));
        }
        other => panic!("not a function shape: {:?}", other),
    }
}

#[test]
fn function_annotation_identity_on_functions() {
    let (results, _) = run(&["[(Int) Int]([Int])(7)"]);
    let (_, value) = results[0].as_ref().expect("evaluation");
    assert!(matches!(value, Value::Int(7)));
}

#[test]
fn applying_a_non_function_value() {
    let (results, _) = run(&["[Int](5)(6)"]);
    assert_eq!(results[0].as_ref().unwrap_err(), &Error::TypeMismatch);
}

#[test]
fn applying_a_non_function_variable() {
    let (results, _) = run(&["x = 1", "x(1)"]);
    assert!(results[0].is_ok());
    assert_eq!(results[1].as_ref().unwrap_err(), &Error::TypeMismatch);
}

#[test]
fn assignment_target_must_be_lvalue() {
    let mut arena = TyArena::new();
    let mut ctx = Context::new();
    let surface = parse("5 = 3").expect("syntax").expect("an expression");
    let r = ctx.translate_expr(surface, &mut arena);
    assert_eq!(r.unwrap_err(), Error::NotLvalue);
}

#[test]
fn call_of_a_literal_is_refused_at_lowering() {
    let mut arena = TyArena::new();
    let mut ctx = Context::new();
    let surface = parse("5(3)").expect("syntax").expect("an expression");
    let r = ctx.translate_expr(surface, &mut arena);
    assert_eq!(r.unwrap_err(), Error::NotFunction);
}

#[test]
fn blank_and_comment_lines_parse_to_nothing() {
    assert!(parse("").expect("syntax").is_none());
    assert!(parse("   ").expect("syntax").is_none());
    assert!(parse("# a comment").expect("syntax").is_none());
}

#[test]
fn unexpected_character_is_a_syntax_error() {
    assert_eq!(parse("1 @ 2").unwrap_err(), Error::Syntax);
}

#[test]
fn trailing_token_is_a_syntax_error() {
    assert_eq!(parse("1 2").unwrap_err(), Error::Syntax);
}

#[test]
fn oversized_literal_is_refused() {
    assert_eq!(parse("99999999999").unwrap_err(), Error::IntegerOverflow);
}

#[test]
fn underscores_in_literals_are_dropped() {
    let (results, _) = run(&["1_000 + 1"]);
    let (_, value) = results[0].as_ref().expect("evaluation");
    assert!(matches!(value, Value::Int(1001)));
}

#[test]
fn parentheses_group() {
    let (results, _) = run(&["(2 + 3) * 4"]);
    let (_, value) = results[0].as_ref().expect("evaluation");
    assert!(matches!(value, Value::Int(20)));
}

#[test]
fn assignment_yields_the_assigned_value() {
    // a top-level assignment is implicitly dereferenced by the lowering
    let (results, arena) = run(&["x = 3"]);
    let (ty, value) = results[0].as_ref().expect("evaluation");
    assert!(matches!(value, Value::Int(3)));
    assert!(resolves_to_int(&arena, *ty));
}

#[test]
fn chained_assignment() {
    let (results, _) = run(&["x = y = 5", "x + y"]);
    assert!(results[0].is_ok());
    let (_, value) = results[1].as_ref().expect("evaluation");
    assert!(matches!(value, Value::Int(10)));
}

#[test]
fn equal_length_layer_queues_prefer_the_later_argument() {
    // both operands of Add are annotated identities at distinct but
    // structurally equal one-parameter function types, so both owe the
    // same number of curry layers; the later argument's layer queue must
    // win the tie, so the re-wrapped result type is built from the second
    // annotation's cells, not the first's
    let mut arena = TyArena::new();
    let ia = Ty::new(&mut arena, TyInner::Int);
    let ra = Ty::new(&mut arena, TyInner::Int);
    let ty_a = Ty::new(&mut arena, TyInner::Func { args: vec![ia], ret: ra });
    let ib = Ty::new(&mut arena, TyInner::Int);
    let rb = Ty::new(&mut arena, TyInner::Int);
    let ty_b = Ty::new(&mut arena, TyInner::Func { args: vec![ib], ret: rb });
    let expr = Expr::Func {
        func: curry_calc::ir::Func::Add,
        calls: vec![curry_calc::ir::Call::new(vec![
            Expr::Func { func: curry_calc::ir::Func::Id(ty_a), calls: Vec::new() },
            Expr::Func { func: curry_calc::ir::Func::Id(ty_b), calls: Vec::new() },
        ])],
    };
    let vars = Vec::new();
    let mut store = Store::new(0);
    let (ty, _) = expr.eval(&mut arena, &vars, &mut store).expect("evaluation");
    // result: Int re-wrapped in the winning queue's two layers,
    // outermost holding the second annotation's whole function cell
    let r = arena.resolve(ty).expect("unresolvable cell");
    let (outer_args, inner) = match arena.node(r) {
        TyInner::Func { args, ret } => (args.clone(), *ret),
        other => panic!("not a function shape: {:?}", other),
    };
    assert_eq!(outer_args.len(), 1);
    assert_eq!(outer_args[0], ty_b);
    assert_ne!(outer_args[0], ty_a);
    let ri = arena.resolve(inner).expect("unresolvable cell");
    match arena.node(ri) {
        TyInner::Func { args, .. } => {
            assert_eq!(args.len(), 1);
            assert_eq!(args[0], ib);
            assert_ne!(args[0], ia);
        }
        other => panic!("not a function shape: {:?}", other),
    }
}
