use curry_calc::error::Error;
use curry_calc::ir::{Ty, TyArena, TyInner};

fn int_cell(arena: &mut TyArena) -> Ty {
    Ty::new(arena, TyInner::Int)
}

fn func_cell(arena: &mut TyArena, args: Vec<Ty>, ret: Ty) -> Ty {
    Ty::new(arena, TyInner::Func { args, ret })
}

fn assert_resolves_to_int(arena: &TyArena, t: Ty) {
    let r = arena.resolve(t).expect("unresolvable cell");
    assert!(matches!(arena.node(r), TyInner::Int));
}

#[test]
fn unify_is_reflexive_on_int() {
    let mut arena = TyArena::new();
    let t = int_cell(&mut arena);
    let q = t.unify(t, &mut arena).expect("reflexive unification");
    assert!(q.is_empty());
}

#[test]
fn unify_is_reflexive_on_ref() {
    let mut arena = TyArena::new();
    let i = int_cell(&mut arena);
    let t = Ty::new(&mut arena, TyInner::Ref(i));
    let q = t.unify(t, &mut arena).expect("reflexive unification");
    assert!(q.is_empty());
}

#[test]
fn unify_is_reflexive_on_nested_function() {
    let mut arena = TyArena::new();
    let i1 = int_cell(&mut arena);
    let i2 = int_cell(&mut arena);
    let inner = func_cell(&mut arena, vec![i1], i2);
    let i3 = int_cell(&mut arena);
    let t = func_cell(&mut arena, vec![i3], inner);
    let q = t.unify(t, &mut arena).expect("reflexive unification");
    assert!(q.is_empty());
}

#[test]
fn structurally_equal_ints_unify_without_layers() {
    let mut arena = TyArena::new();
    let a = int_cell(&mut arena);
    let b = int_cell(&mut arena);
    let q = a.unify(b, &mut arena).expect("unification");
    assert!(q.is_empty());
}

#[test]
fn ref_boundary_adds_no_layers() {
    let mut arena = TyArena::new();
    let i1 = int_cell(&mut arena);
    let i2 = int_cell(&mut arena);
    let a = Ty::new(&mut arena, TyInner::Ref(i1));
    let b = Ty::new(&mut arena, TyInner::Ref(i2));
    let q = a.unify(b, &mut arena).expect("unification");
    assert!(q.is_empty());
}

#[test]
fn int_against_ref_is_a_mismatch() {
    let mut arena = TyArena::new();
    let i1 = int_cell(&mut arena);
    let a = Ty::new(&mut arena, TyInner::Ref(i1));
    let b = int_cell(&mut arena);
    assert_eq!(a.unify(b, &mut arena).unwrap_err(), Error::TypeMismatch);
}

#[test]
fn placeholder_binds_and_unification_is_idempotent() {
    let mut arena = TyArena::new();
    let i1 = int_cell(&mut arena);
    let i2 = int_cell(&mut arena);
    let t = func_cell(&mut arena, vec![i1], i2);
    let u = Ty::new(&mut arena, TyInner::Undetermined);
    let q = t.unify(u, &mut arena).expect("binding unification");
    assert!(q.is_empty());
    // the placeholder now resolves to the concrete cell
    let ru = arena.resolve(u).expect("unresolvable cell");
    let rt = arena.resolve(t).expect("unresolvable cell");
    assert_eq!(ru, rt);
    // repeating the same unification succeeds again with an empty queue
    let q2 = t.unify(u, &mut arena).expect("repeat unification");
    assert!(q2.is_empty());
    // the bound cell behaves as the concrete type from now on: a
    // structurally equal function unifies against it without layers
    let i3 = int_cell(&mut arena);
    let i4 = int_cell(&mut arena);
    let t2 = func_cell(&mut arena, vec![i3], i4);
    let q3 = t2.unify(u, &mut arena).expect("unification against bound cell");
    assert!(q3.is_empty());
}

#[test]
fn placeholder_on_the_actual_side_binds_too() {
    let mut arena = TyArena::new();
    let u = Ty::new(&mut arena, TyInner::Undetermined);
    let b = int_cell(&mut arena);
    let q = u.unify(b, &mut arena).expect("binding unification");
    assert!(q.is_empty());
    assert_resolves_to_int(&arena, u);
}

#[test]
fn one_extra_layer_is_owed() {
    // actual (Int) -> Int against expected Int: one layer of one Int
    let mut arena = TyArena::new();
    let i1 = int_cell(&mut arena);
    let i2 = int_cell(&mut arena);
    let a = func_cell(&mut arena, vec![i1], i2);
    let b = int_cell(&mut arena);
    let q = a.unify(b, &mut arena).expect("unification");
    assert_eq!(q.len(), 1);
    assert_eq!(q[0].len(), 1);
    assert_resolves_to_int(&arena, q[0][0]);
}

#[test]
fn layers_come_innermost_first() {
    // actual (Int) -> (Int, Int) -> Int against expected Int: the inner
    // two-parameter layer stands at the front, the outer one-parameter
    // layer at the back
    let mut arena = TyArena::new();
    let i1 = int_cell(&mut arena);
    let i2 = int_cell(&mut arena);
    let i3 = int_cell(&mut arena);
    let inner_ret = int_cell(&mut arena);
    let inner = func_cell(&mut arena, vec![i1, i2], inner_ret);
    let a = func_cell(&mut arena, vec![i3], inner);
    let b = int_cell(&mut arena);
    let q = a.unify(b, &mut arena).expect("unification");
    assert_eq!(q.len(), 2);
    assert_eq!(q[0].len(), 2);
    assert_eq!(q[1].len(), 1);
    assert_resolves_to_int(&arena, q[0][0]);
    assert_resolves_to_int(&arena, q[0][1]);
    assert_resolves_to_int(&arena, q[1][0]);
}

#[test]
fn reconstructing_the_actual_from_queue_and_expected() {
    // arity-reconciliation soundness, checked by hand: wrapping the
    // expected type in the returned layers, outermost last, recovers the
    // actual type's shape
    let mut arena = TyArena::new();
    let i1 = int_cell(&mut arena);
    let i2 = int_cell(&mut arena);
    let a = func_cell(&mut arena, vec![i1], i2);
    let b = int_cell(&mut arena);
    let q = a.unify(b, &mut arena).expect("unification");
    let mut rebuilt = b;
    for layer in q.into_iter() {
        rebuilt = func_cell(&mut arena, layer, rebuilt);
    }
    // compare the shapes: both are functions of one Int to Int
    let ra = arena.resolve(a).expect("unresolvable cell");
    let rr = arena.resolve(rebuilt).expect("unresolvable cell");
    let (a_args, a_ret) = match arena.node(ra) {
        TyInner::Func { args, ret } => (args.clone(), *ret),
        other => panic!("not a function shape: {:?}", other),
    };
    let (r_args, r_ret) = match arena.node(rr) {
        TyInner::Func { args, ret } => (args.clone(), *ret),
        other => panic!("not a function shape: {:?}", other),
    };
    assert_eq!(a_args.len(), r_args.len());
    assert_resolves_to_int(&arena, a_args[0]);
    assert_resolves_to_int(&arena, r_args[0]);
    assert_resolves_to_int(&arena, a_ret);
    assert_resolves_to_int(&arena, r_ret);
}

#[test]
fn expected_function_layer_is_peeled() {
    // expected (Int) -> Int against actual Int: the expected side's own
    // layer accounts for the gap and the queue stays empty
    let mut arena = TyArena::new();
    let a = int_cell(&mut arena);
    let i1 = int_cell(&mut arena);
    let i2 = int_cell(&mut arena);
    let b = func_cell(&mut arena, vec![i1], i2);
    let q = a.unify(b, &mut arena).expect("unification");
    assert!(q.is_empty());
}

#[test]
fn deep_shared_return_chains_unify() {
    // nested zero-argument functions: () -> Int, () -> (() -> Int),
    // () -> (() -> (() -> Int)); the deepest against the middle one
    // peels and owes across both chains and leaves one empty layer
    let mut arena = TyArena::new();
    let i = int_cell(&mut arena);
    let f1 = func_cell(&mut arena, vec![], i);
    let f2 = func_cell(&mut arena, vec![], f1);
    let f3 = func_cell(&mut arena, vec![], f2);
    let q = f3.unify(f2, &mut arena).expect("unification");
    assert_eq!(q.len(), 1);
    assert_eq!(q[0].len(), 0);
}
