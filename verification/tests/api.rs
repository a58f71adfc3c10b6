//! End-to-end tests of the solver contract, run against the bundled backend.

use smt_api::new_z3_solver;
use smt_api::smt_err::SMTError;
use smt_api::smt_ops::Op;
use smt_api::smt_ops::Sorts;
use smt_api::solver::SimpleFun;
use smt_api::solver::SimpleSolver;
use smt_api::CheckSatResult;
use smt_api::Function;
use smt_api::Sort;
use smt_api::Term;
use smt_api::UninterpretedFunction;

fn int_sort(s: &mut SimpleSolver) -> smt_api::solver::SimpleSort {
    s.lookup_sort(Sorts::Int).unwrap()
}

#[test]
fn level_is_net_of_pushes_and_pops() {
    let mut s = new_z3_solver();
    assert_eq!(s.level(), 0);
    s.push(3).unwrap();
    assert_eq!(s.level(), 3);
    s.push(2).unwrap();
    assert_eq!(s.level(), 5);
    s.pop(4).unwrap();
    assert_eq!(s.level(), 1);
    s.pop(1).unwrap();
    assert_eq!(s.level(), 0);
}

#[test]
fn pop_beyond_level_is_api_error_and_mutates_nothing() {
    let mut s = new_z3_solver();
    let r = s.pop(1);
    assert!(matches!(r, Err(SMTError::APIError(_))));
    assert_eq!(s.level(), 0);
}

#[test]
fn pop_five_at_level_two_keeps_level_two() {
    let mut s = new_z3_solver();
    s.push(1).unwrap();
    s.push(1).unwrap();
    assert_eq!(s.level(), 2);
    let r = s.pop(5);
    assert!(matches!(r, Err(SMTError::APIError(_))));
    assert_eq!(s.level(), 2);
}

#[test]
fn get_value_before_any_check_sat_is_api_error() {
    let mut s = new_z3_solver();
    let int = int_sort(&mut s);
    let x = s.declare_const("x", &int).unwrap();
    let r = s.get_value(&x);
    assert!(matches!(r, Err(SMTError::APIError(_))));
}

#[test]
fn get_value_after_unsat_or_unknown_is_api_error() {
    let mut s = new_z3_solver();
    let int = int_sort(&mut s);
    let x = s.declare_const("x", &int).unwrap();
    let f = s.lookup_const(Op::False).unwrap();
    s.assert_term(&f).unwrap();
    assert_eq!(s.check_sat(), CheckSatResult::Unsat);
    assert!(matches!(s.get_value(&x), Err(SMTError::APIError(_))));

    let mut s2 = new_z3_solver();
    let bool_sort = s2.lookup_sort(Sorts::Bool).unwrap();
    let b = s2.declare_const("b", &bool_sort).unwrap();
    s2.assert_term(&b).unwrap();
    assert_eq!(s2.check_sat(), CheckSatResult::Unknown);
    assert!(matches!(s2.get_value(&b), Err(SMTError::APIError(_))));
}

#[test]
fn scenario_positive_constraint_yields_model() {
    let mut s = new_z3_solver();
    let int = int_sort(&mut s);
    let x = s.declare_const("x", &int).unwrap();
    let zero = s.const_from_int(0, &int).unwrap();
    let gt = s.apply_fun(&Function::Op(Op::Gt), &[x.clone(), zero]).unwrap();
    s.assert_term(&gt).unwrap();
    assert_eq!(s.check_sat(), CheckSatResult::Sat);
    let v = s.get_value(&x).unwrap();
    assert!(v.to_int().unwrap() >= 1);
}

#[test]
fn scenario_false_in_pushed_scope() {
    let mut s = new_z3_solver();
    s.push(1).unwrap();
    let f = s.lookup_const(Op::False).unwrap();
    s.assert_term(&f).unwrap();
    assert_eq!(s.check_sat(), CheckSatResult::Unsat);
    s.pop(1).unwrap();
    assert_eq!(s.check_sat(), CheckSatResult::Sat);
}

#[test]
fn scenario_record_sort_and_literal() {
    let mut s = new_z3_solver();
    let int = int_sort(&mut s);
    let point = s.declare_record_sort("Point", &["x", "y"], &[&int, &int]).unwrap();
    let one = s.const_from_int(1, &int).unwrap();
    let two = s.const_from_int(2, &int).unwrap();
    let lit = s.record_const(&point, &[one, two]).unwrap();
    assert_eq!(s.get_sort(&lit).unwrap(), point);
    assert!(s.is_record_sort(&point));
    assert!(!s.is_record_sort(&int));
}

#[test]
fn scenario_uninterpreted_function_application() {
    let mut s = new_z3_solver();
    let int = int_sort(&mut s);
    let f: SimpleFun = s.declare_fun("f", &[&int], &int).unwrap();
    assert_eq!(f.to_string().unwrap(), "f");
    let x = s.declare_const("x", &int).unwrap();
    let fx = s.apply_fun(&Function::UF(f), &[x]).unwrap();
    assert_eq!(s.get_sort(&fx).unwrap(), int);
}

#[test]
fn uf_arity_mismatch_is_api_error() {
    let mut s = new_z3_solver();
    let int = int_sort(&mut s);
    let f: SimpleFun = s.declare_fun("f", &[&int], &int).unwrap();
    let r = s.apply_fun(&Function::UF(f), &[]);
    assert!(matches!(r, Err(SMTError::APIError(_))));
}

#[test]
fn record_declaration_rejects_bad_shapes_and_registers_nothing() {
    let mut s = new_z3_solver();
    let int = int_sort(&mut s);
    let r1 = s.declare_record_sort("R", &["a", "b"], &[&int]);
    assert!(matches!(r1, Err(SMTError::APIError(_))));
    let r2 = s.declare_record_sort("R", &["a", "a"], &[&int, &int]);
    assert!(matches!(r2, Err(SMTError::APIError(_))));
    // Neither failed attempt registered the name.
    let ok = s.declare_record_sort("R", &["a"], &[&int]);
    assert!(ok.is_ok());
    // Now the name collides.
    let r3 = s.declare_record_sort("R", &["z"], &[&int]);
    assert!(matches!(r3, Err(SMTError::APIError(_))));
}

#[test]
fn const_from_int_round_trips_on_the_integer_sort() {
    let mut s = new_z3_solver();
    let int = int_sort(&mut s);
    for v in [0i64, 1, -5, 1234567890123, i64::MAX, i64::MIN] {
        let t = s.const_from_int(v, &int).unwrap();
        assert_eq!(t.to_int().unwrap(), v);
    }
}

#[test]
fn const_from_int_on_real_and_bitvector_sorts() {
    let mut s = new_z3_solver();
    let real = s.lookup_sort(Sorts::Real).unwrap();
    let t = s.const_from_int(7, &real).unwrap();
    assert_eq!(t.to_int().unwrap(), 7);
    assert_eq!(t.to_string().unwrap(), "7.0");

    let bv8 = s.lookup_sort(Sorts::BitVec(8)).unwrap();
    let b = s.const_from_int(255, &bv8).unwrap();
    assert_eq!(b.to_int().unwrap(), 255);
    assert_eq!(b.to_string().unwrap(), "(_ bv255 8)");
    assert!(matches!(s.const_from_int(256, &bv8), Err(SMTError::APIError(_))));
    assert!(matches!(s.const_from_int(-1, &bv8), Err(SMTError::APIError(_))));

    let bv64 = s.lookup_sort(Sorts::BitVec(64)).unwrap();
    assert!(s.const_from_int(i64::MAX, &bv64).is_ok());

    let bool_sort = s.lookup_sort(Sorts::Bool).unwrap();
    assert!(matches!(s.const_from_int(1, &bool_sort), Err(SMTError::APIError(_))));
}

#[test]
fn const_from_string_accepts_exactly_well_formed_numerals() {
    let mut s = new_z3_solver();
    let int = int_sort(&mut s);
    assert_eq!(s.const_from_string("123", &int).unwrap().to_int().unwrap(), 123);
    assert_eq!(s.const_from_string("-42", &int).unwrap().to_int().unwrap(), -42);
    for bad in ["", "-", "--1", "12a", "1.5", " 1", "+1"] {
        assert!(
            matches!(s.const_from_string(bad, &int), Err(SMTError::APIError(_))),
            "accepted {:?}",
            bad
        );
    }

    let real = s.lookup_sort(Sorts::Real).unwrap();
    let pi = s.const_from_string("3.14", &real).unwrap();
    assert!(matches!(pi.to_int(), Err(SMTError::APIError(_))));
    assert_eq!(s.const_from_string("-2", &real).unwrap().to_int().unwrap(), -2);
    assert!(matches!(s.const_from_string("1.2.3", &real), Err(SMTError::APIError(_))));

    let bv8 = s.lookup_sort(Sorts::BitVec(8)).unwrap();
    assert!(matches!(s.const_from_string("-5", &bv8), Err(SMTError::APIError(_))));
    // Width overflow is not validated here; the string is well-formed.
    assert!(s.const_from_string("300", &bv8).is_ok());
}

#[test]
fn huge_numerals_are_kept_but_do_not_fit_an_i64() {
    let mut s = new_z3_solver();
    let int = int_sort(&mut s);
    let big = s.const_from_string("99999999999999999999999999", &int).unwrap();
    assert!(matches!(big.to_int(), Err(SMTError::APIError(_))));
    let fits = s.const_from_string("9223372036854775807", &int).unwrap();
    assert_eq!(fits.to_int().unwrap(), i64::MAX);
    let min = s.const_from_string("-9223372036854775808", &int).unwrap();
    assert_eq!(min.to_int().unwrap(), i64::MIN);
    let below = s.const_from_string("-9223372036854775809", &int).unwrap();
    assert!(matches!(below.to_int(), Err(SMTError::APIError(_))));
}

#[test]
fn declared_sorts_keep_their_identity() {
    let mut s = new_z3_solver();
    let s1 = s.declare_sort("S").unwrap();
    let s2 = s.declare_sort("S").unwrap();
    assert_eq!(s1, s2);
    let c = s.declare_const("c", &s1).unwrap();
    assert_eq!(s.get_sort(&c).unwrap(), s1);
    let t = s.declare_sort("T").unwrap();
    assert_ne!(s1, t);
    let int_a = s.lookup_sort(Sorts::Int).unwrap();
    let int_b = s.lookup_sort(Sorts::Int).unwrap();
    assert_eq!(int_a, int_b);
    let bv_a = s.lookup_sort(Sorts::BitVec(32)).unwrap();
    let bv_b = s.lookup_sort(Sorts::BitVec(32)).unwrap();
    assert_eq!(bv_a, bv_b);
    assert_ne!(bv_a, s.lookup_sort(Sorts::BitVec(16)).unwrap());
}

#[test]
fn sort_renderings_follow_smtlib() {
    let mut s = new_z3_solver();
    let int = int_sort(&mut s);
    assert_eq!(int.to_string().unwrap(), "Int");
    let bool_sort = s.lookup_sort(Sorts::Bool).unwrap();
    assert_eq!(bool_sort.to_string().unwrap(), "Bool");
    let arr = s.apply_sort(Sorts::Array, &int, &bool_sort).unwrap();
    assert_eq!(arr.to_string().unwrap(), "(Array Int Bool)");
    let arr2 = s.apply_sort(Sorts::Array, &int, &bool_sort).unwrap();
    assert_eq!(arr, arr2);
}

#[test]
fn term_renderings_follow_smtlib() {
    let mut s = new_z3_solver();
    let int = int_sort(&mut s);
    let x = s.declare_const("x", &int).unwrap();
    assert_eq!(x.to_string().unwrap(), "x");
    let zero = s.const_from_int(0, &int).unwrap();
    assert_eq!(zero.to_string().unwrap(), "0");
    let neg = s.const_from_int(-17, &int).unwrap();
    assert_eq!(neg.to_string().unwrap(), "-17");
    let gt = s.apply_fun(&Function::Op(Op::Gt), &[x, zero]).unwrap();
    assert_eq!(gt.to_string().unwrap(), "(> x 0)");
}

#[test]
fn lookup_and_apply_sort_reject_the_wrong_kind() {
    let mut s = new_z3_solver();
    let int = int_sort(&mut s);
    assert!(matches!(s.lookup_sort(Sorts::Array), Err(SMTError::APIError(_))));
    let r = s.apply_sort(Sorts::Int, &int, &int);
    assert!(matches!(r, Err(SMTError::APIError(_))));
}

#[test]
fn lookup_const_accepts_only_built_in_constants() {
    let mut s = new_z3_solver();
    let t = s.lookup_const(Op::True).unwrap();
    let bool_sort = s.lookup_sort(Sorts::Bool).unwrap();
    assert_eq!(s.get_sort(&t).unwrap(), bool_sort);
    assert_eq!(t.to_string().unwrap(), "true");
    assert!(matches!(s.lookup_const(Op::And), Err(SMTError::APIError(_))));
}

#[test]
fn asserting_a_non_boolean_term_is_api_error() {
    let mut s = new_z3_solver();
    let int = int_sort(&mut s);
    let x = s.declare_const("x", &int).unwrap();
    let r = s.assert_term(&x);
    assert!(matches!(r, Err(SMTError::APIError(_))));
}

#[test]
fn model_evaluation_of_compound_terms_is_unsupported() {
    let mut s = new_z3_solver();
    let int = int_sort(&mut s);
    let x = s.declare_const("x", &int).unwrap();
    let zero = s.const_from_int(0, &int).unwrap();
    let gt = s.apply_fun(&Function::Op(Op::Gt), &[x, zero]).unwrap();
    s.assert_term(&gt).unwrap();
    assert_eq!(s.check_sat(), CheckSatResult::Sat);
    assert!(matches!(s.get_value(&gt), Err(SMTError::UnsupportedError(_))));
}

#[test]
fn contradictory_integer_bounds_are_unsat() {
    let mut s = new_z3_solver();
    let int = int_sort(&mut s);
    let x = s.declare_const("x", &int).unwrap();
    let five = s.const_from_int(5, &int).unwrap();
    let three = s.const_from_int(3, &int).unwrap();
    let gt = s.apply_fun(&Function::Op(Op::Gt), &[x.clone(), five]).unwrap();
    let lt = s.apply_fun(&Function::Op(Op::Lt), &[x, three]).unwrap();
    s.assert_term(&gt).unwrap();
    s.assert_term(&lt).unwrap();
    assert_eq!(s.check_sat(), CheckSatResult::Unsat);
}

#[test]
fn equality_bound_pins_the_model_value() {
    let mut s = new_z3_solver();
    let int = int_sort(&mut s);
    let x = s.declare_const("x", &int).unwrap();
    let seven = s.const_from_int(7, &int).unwrap();
    let eq = s.apply_fun(&Function::Op(Op::Eq), &[x.clone(), seven]).unwrap();
    s.assert_term(&eq).unwrap();
    assert_eq!(s.check_sat(), CheckSatResult::Sat);
    let v = s.get_value(&x).unwrap();
    assert_eq!(v.to_int().unwrap(), 7);
}

#[test]
fn fresh_session_is_satisfiable() {
    let mut s = new_z3_solver();
    assert_eq!(s.check_sat(), CheckSatResult::Sat);
}

#[test]
fn to_int_on_a_variable_is_api_error() {
    let mut s = new_z3_solver();
    let int = int_sort(&mut s);
    let x = s.declare_const("x", &int).unwrap();
    assert!(matches!(x.to_int(), Err(SMTError::APIError(_))));
}

#[test]
fn error_messages_are_attached() {
    let mut s = new_z3_solver();
    let r = s.pop(1);
    match r {
        Err(e) => assert!(!e.message().is_empty()),
        Ok(_) => panic!("pop at level 0 must fail"),
    }
}

// The interface is backend-agnostic: client code written against the traits
// alone runs on any implementation, here the bundled one.
fn level_after_push_generic<S: smt_api::SMTSolver>(solver: &mut S, n: u32) -> u32 {
    solver.push(n).unwrap();
    solver.level()
}

#[test]
fn the_traits_support_generic_clients() {
    let mut s = new_z3_solver();
    assert_eq!(level_after_push_generic(&mut s, 2), 2);
}

#[test]
fn reference_argument_variants_agree_with_the_owned_ones() {
    let mut s = new_z3_solver();
    let int = int_sort(&mut s);
    let x = s.declare_const("x", &int).unwrap();
    let zero = s.const_from_int(0, &int).unwrap();
    let gt = s.apply_fun_refs(&Function::Op(Op::Gt), &[&x, &zero]).unwrap();
    assert_eq!(gt.to_string().unwrap(), "(> x 0)");
    let point = s.declare_record_sort("P", &["a", "b"], &[&int, &int]).unwrap();
    let lit = s.record_const_refs(&point, &[&x, &zero]).unwrap();
    assert_eq!(s.get_sort(&lit).unwrap(), point);
}

#[test]
fn array_select_has_the_element_sort() {
    let mut s = new_z3_solver();
    let int = int_sort(&mut s);
    let bool_sort = s.lookup_sort(Sorts::Bool).unwrap();
    let arr_sort = s.apply_sort(Sorts::Array, &int, &bool_sort).unwrap();
    let a = s.declare_const("a", &arr_sort).unwrap();
    let i = s.declare_const("i", &int).unwrap();
    let sel = s.apply_fun(&Function::Op(Op::Select), &[a, i]).unwrap();
    assert_eq!(s.get_sort(&sel).unwrap(), bool_sort);
}

#[test]
fn record_field_select_has_the_field_sort() {
    let mut s = new_z3_solver();
    let int = int_sort(&mut s);
    let bool_sort = s.lookup_sort(Sorts::Bool).unwrap();
    let rec = s.declare_record_sort("Pair", &["n", "flag"], &[&int, &bool_sort]).unwrap();
    let p = s.declare_const("p", &rec).unwrap();
    let n = s
        .apply_fun(&Function::Op(Op::RecordSelect("n".to_owned())), &[p.clone()])
        .unwrap();
    assert_eq!(s.get_sort(&n).unwrap(), int);
    let flag = s
        .apply_fun(&Function::Op(Op::RecordSelect("flag".to_owned())), &[p.clone()])
        .unwrap();
    assert_eq!(s.get_sort(&flag).unwrap(), bool_sort);
    let missing = s.apply_fun(&Function::Op(Op::RecordSelect("zzz".to_owned())), &[p.clone()]);
    assert!(matches!(missing, Err(SMTError::APIError(_))));
    let upd = s
        .apply_fun(
            &Function::Op(Op::RecordUpdate("n".to_owned())),
            &[p, s.const_from_int(3, &int).unwrap()],
        )
        .unwrap();
    assert_eq!(s.get_sort(&upd).unwrap(), rec);
}

#[test]
fn the_operator_taxonomy_has_fixed_arities() {
    assert_eq!(Op::True.arity(), 0);
    assert_eq!(Op::Not.arity(), 1);
    assert_eq!(Op::And.arity(), 2);
    assert_eq!(Op::Ite.arity(), 3);
    assert_eq!(Op::Store.arity(), 3);
    assert_eq!(Op::RecordSelect("f".to_owned()).arity(), 1);
    assert!(Op::True.is_constant());
    assert!(!Op::And.is_constant());
    assert!(Sorts::Int.is_nullary());
    assert!(!Sorts::Array.is_nullary());
}

#[test]
fn operator_arity_mismatch_is_api_error() {
    let mut s = new_z3_solver();
    let int = int_sort(&mut s);
    let x = s.declare_const("x", &int).unwrap();
    let r = s.apply_fun(&Function::Op(Op::Not), &[x.clone(), x]);
    assert!(matches!(r, Err(SMTError::APIError(_))));
}
