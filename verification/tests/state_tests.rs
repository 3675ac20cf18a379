use pitchfork::ir::Operand;
use pitchfork::state::{State, VarError};
use z3::ast::{Bool, BV};

fn fresh_ctx() -> &'static z3::Context {
    Box::leak(Box::new(z3::Context::new(&z3::Config::new())))
}

#[test]
fn sat() {
    let ctx = fresh_ctx();
    let mut state = State::new(ctx);

    // empty state should be sat
    assert!(state.check());

    // adding True constraint should still be sat
    state.assert_constraint(&Bool::from_bool(ctx, true));
    assert!(state.check());

    // adding x > 0 constraint should still be sat
    let x = BV::new_const(ctx, "x", 64);
    state.assert_constraint(&x.bvsgt(&BV::from_i64(ctx, 0, 64)));
    assert!(state.check());
}

#[test]
fn unsat() {
    let ctx = fresh_ctx();
    let mut state = State::new(ctx);

    // adding False constraint should be unsat
    state.assert_constraint(&Bool::from_bool(ctx, false));
    assert!(!state.check());
}

#[test]
fn unsat_with_extra_constraints() {
    let ctx = fresh_ctx();
    let mut state = State::new(ctx);

    // adding x > 3 constraint should still be sat
    let x = BV::new_const(ctx, "x", 64);
    state.assert_constraint(&x.bvugt(&BV::from_u64(ctx, 3, 64)));
    assert!(state.check());

    // adding x < 3 constraint should make us unsat
    let bad_constraint = x.bvult(&BV::from_u64(ctx, 3, 64));
    assert!(!state.check_with_extra_constraints(&vec![bad_constraint]));

    // the state itself should still be sat, extra constraints weren't permanently added
    assert!(state.check());
}

#[test]
fn get_model() {
    let ctx = fresh_ctx();
    let mut state = State::new(ctx);

    // add x > 3 constraint
    let x = BV::new_const(ctx, "x", 64);
    state.assert_constraint(&x.bvugt(&BV::from_u64(ctx, 3, 64)));

    // get model
    assert!(state.check());
    let model = state.get_model().expect("expected a model");

    // check that the computed value of x is > 3
    let x_value = model.eval(&x).unwrap().as_u64().unwrap();
    assert!(x_value > 3);
}

#[test]
fn lookup_vars() {
    let ctx = fresh_ctx();
    let mut state = State::new(ctx);

    // One key for a 64-bit integer value, one for a boolean value.
    let intkey: u64 = 0;
    let boolkey: u64 = 1;

    // create Z3 values
    let x = BV::new_const(ctx, "x", 64);
    let boolvar = Bool::new_const(ctx, "bool");

    // associate IR value keys with Z3 values
    state.add_bv_var(intkey, x.clone()); // these clone()s wouldn't normally be necessary but we want to compare against the original values later
    state.add_bool_var(boolkey, boolvar.clone());

    // check that looking up the keys gives the correct Z3 values
    assert!(state.lookup_bv_var(intkey) == &x);
    assert!(state.lookup_bool_var(boolkey) == &boolvar);

    // a different way of looking up
    assert!(state.operand_to_bv(&Operand::Variable { key: intkey, bits: 64 }) == x);
    assert!(state.operand_to_bool(&Operand::Variable { key: boolkey, bits: 1 }) == boolvar);
}

#[test]
fn const_bv() {
    let ctx = fresh_ctx();
    let state = State::new(ctx);

    // an IR operand which is constant 3
    let constint = Operand::Constant { bits: 64, value: 3 };

    // this should create a corresponding Z3 value which is also constant 3
    let bv = state.operand_to_bv(&constint);

    // check that the Z3 value was evaluated to 3
    assert!(state.check());
    assert_eq!(state.get_model().unwrap().eval(&bv).unwrap().as_i64().unwrap(), 3);
}

#[test]
fn const_bv_truncates_to_width() {
    let ctx = fresh_ctx();
    let state = State::new(ctx);

    // 259 = 256 + 3 does not fit in 8 bits; the literal holds 259 mod 2^8
    let constint = Operand::Constant { bits: 8, value: 259 };
    let bv = state.operand_to_bv(&constint);

    assert!(state.check());
    assert_eq!(state.get_model().unwrap().eval(&bv).unwrap().as_u64().unwrap(), 3);
}

#[test]
fn const_bool() {
    let ctx = fresh_ctx();
    let mut state = State::new(ctx);

    // IR constants true and false, of bit width one
    let consttrue = Operand::Constant { bits: 1, value: 1 };
    let constfalse = Operand::Constant { bits: 1, value: 0 };

    // this should create Z3 values true and false
    let bvtrue = state.operand_to_bool(&consttrue);
    let bvfalse = state.operand_to_bool(&constfalse);

    // assert the first one, which should be true, so we should still be sat
    state.assert_constraint(&bvtrue);
    assert!(state.check());

    // assert the second one, which should be false, so we should be unsat
    state.assert_constraint(&bvfalse);
    assert!(!state.check());
}

#[test]
fn backtracking() {
    let ctx = fresh_ctx();
    let mut state = State::new(ctx);

    // assert x > 11
    let x = BV::new_const(ctx, "x", 64);
    state.assert_constraint(&x.bvsgt(&BV::from_i64(ctx, 11, 64)));

    // the basic blocks the backtrack point points at
    let bb1 = "bb1".to_string();
    let bb2 = "bb2".to_string();

    // create a backtrack point with constraint y > 5
    let y = BV::new_const(ctx, "y", 64);
    let constraint = y.bvsgt(&BV::from_i64(ctx, 5, 64));
    state.save_backtracking_point(bb2.clone(), bb1.clone(), constraint);

    // check that the constraint y > 5 wasn't added: adding y < 4 should keep us sat
    assert!(state.check_with_extra_constraints(&vec![y.bvslt(&BV::from_i64(ctx, 4, 64))]));

    // assert x < 8 to make us unsat
    state.assert_constraint(&x.bvslt(&BV::from_i64(ctx, 8, 64)));
    assert!(!state.check());

    // roll back to backtrack point; check that we got the right bbs
    let (bb_a, bb_b) = state.revert_to_backtracking_point().unwrap();
    assert_eq!(bb_a, bb2);
    assert_eq!(bb_b, bb1);

    // check that the constraint x < 8 was removed: we're sat again
    assert!(state.check());

    // check that the constraint y > 5 was added: y evaluates to something > 5
    assert!(state.get_model().unwrap().eval(&y).unwrap().as_i64().unwrap() > 5);

    // check that the first constraint remained in place: x > 11
    assert!(state.get_model().unwrap().eval(&x).unwrap().as_u64().unwrap() > 11);

    // check that trying to backtrack again returns None
    assert_eq!(state.revert_to_backtracking_point(), None);
}

#[test]
fn scope_balance_roundtrip() {
    let ctx = fresh_ctx();
    let mut state = State::new(ctx);

    // a permanent constraint below the backtrack point
    let x = BV::new_const(ctx, "x", 64);
    state.assert_constraint(&x.bvsgt(&BV::from_i64(ctx, 0, 64)));

    // save a point whose deferred constraint is x < 5
    state.save_backtracking_point(
        "then".to_string(),
        "entry".to_string(),
        x.bvslt(&BV::from_i64(ctx, 5, 64)),
    );

    // assert something on the pursued branch; it is discarded by the revert
    state.assert_constraint(&x.bvsgt(&BV::from_i64(ctx, 10, 64)));
    assert!(state.check());

    state.revert_to_backtracking_point().unwrap();

    // x > 0 survived, x > 10 is gone, x < 5 is now active
    assert!(state.check());
    let v = state.get_model().unwrap().eval(&x).unwrap().as_i64().unwrap();
    assert!(v > 0 && v < 5);
    assert!(!state.check_with_extra_constraints(&vec![x.bvsgt(&BV::from_i64(ctx, 7, 64))]));
}

#[test]
fn scratch_scope_restores_with_empty_extras() {
    let ctx = fresh_ctx();
    let mut state = State::new(ctx);

    let x = BV::new_const(ctx, "x", 64);
    state.assert_constraint(&x.bvugt(&BV::from_u64(ctx, 100, 64)));
    assert!(state.check());

    // even an empty scratch set pushes and pops a scope, leaving the state as it was
    assert!(state.check_with_extra_constraints(&vec![]));
    assert!(state.check());

    // and the long-lived constraint still holds afterwards
    assert!(state.get_model().unwrap().eval(&x).unwrap().as_u64().unwrap() > 100);
}

#[test]
fn sort_discipline() {
    let ctx = fresh_ctx();
    let mut state = State::new(ctx);

    let x = BV::new_const(ctx, "x", 64);
    let b = Bool::new_const(ctx, "b");
    state.add_bv_var(0, x.clone());
    state.add_bool_var(1, b.clone());

    // a bitvector binding never comes out as a boolean, nor the reverse
    assert_eq!(state.try_lookup_bool_var(0), Err(VarError::WrongSort));
    assert_eq!(state.try_lookup_bv_var(1), Err(VarError::WrongSort));

    // an unbound key is the other fatal failure
    assert_eq!(state.try_lookup_bv_var(2), Err(VarError::Unbound));
    assert_eq!(state.try_lookup_bool_var(2), Err(VarError::Unbound));

    // the matching sorts come back exactly
    assert_eq!(state.try_lookup_bv_var(0), Ok(&x));
    assert_eq!(state.try_lookup_bool_var(1), Ok(&b));
}

#[test]
fn several_extra_constraints_combine() {
    let ctx = fresh_ctx();
    let mut state = State::new(ctx);

    let x = BV::new_const(ctx, "x", 64);
    state.assert_constraint(&x.bvugt(&BV::from_u64(ctx, 10, 64)));
    assert!(state.check());

    // each extra is satisfiable on its own, but not together with the rest
    let extras = vec![
        x.bvult(&BV::from_u64(ctx, 20, 64)),
        x.bvugt(&BV::from_u64(ctx, 30, 64)),
    ];
    assert!(!state.check_with_extra_constraints(&extras));
    assert!(state.check_with_extra_constraints(&vec![x.bvult(&BV::from_u64(ctx, 20, 64))]));
    assert!(state.check());
}

#[test]
fn revert_on_fresh_state_returns_none() {
    let ctx = fresh_ctx();
    let mut state = State::new(ctx);
    assert_eq!(state.revert_to_backtracking_point(), None);
    assert!(state.check());
}
