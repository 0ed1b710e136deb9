//! End-to-end tests of the evaluator through the public API.

use lispy::eval::{add_builtins, lval_eval};
use lispy::types::{Lenv, Lval};

const FUEL: u64 = 50_000;

fn num(n: i64) -> Lval {
    Lval::Num(n)
}

fn sym(s: &str) -> Lval {
    Lval::Sym(s.to_string())
}

fn sexpr(cells: Vec<Lval>) -> Lval {
    Lval::Sexpr(cells)
}

fn quoted(cells: Vec<Lval>) -> Lval {
    // A quoted list as the reader produces it: a Qexpr wrapping one Sexpr.
    Lval::Qexpr(vec![Lval::Sexpr(cells)])
}

fn ground() -> Lenv {
    let mut env = Lenv::new();
    add_builtins(&mut env);
    env
}

fn run(env: &mut Lenv, v: Lval) -> Lval {
    lval_eval(env, 0, v, FUEL).expect("evaluation depth budget exhausted")
}

fn eval_str(env: &mut Lenv, v: Lval) -> String {
    run(env, v).render()
}

#[test]
fn addition_of_two_numbers() {
    let mut env = ground();
    let e = sexpr(vec![sym("+"), num(1), num(2)]);
    assert_eq!(eval_str(&mut env, e), "3");
}

#[test]
fn arithmetic_folds_left() {
    let mut env = ground();
    let e = sexpr(vec![sym("-"), num(10), num(3), num(2)]);
    assert_eq!(eval_str(&mut env, e), "5");
    let e = sexpr(vec![sym("*"), num(3), num(4), num(5)]);
    assert_eq!(eval_str(&mut env, e), "60");
    let e = sexpr(vec![sym("/"), num(7), num(2)]);
    assert_eq!(eval_str(&mut env, e), "3");
}

#[test]
fn unary_minus_negates() {
    let mut env = ground();
    let e = sexpr(vec![sym("-"), num(5)]);
    assert_eq!(eval_str(&mut env, e), "-5");
}

#[test]
fn division_by_zero_is_an_error() {
    let mut env = ground();
    let e = sexpr(vec![sym("/"), num(5), num(0)]);
    assert_eq!(eval_str(&mut env, e), "Error: Division by zero");
}

#[test]
fn non_number_argument_is_an_error() {
    let mut env = ground();
    let e = sexpr(vec![sym("+"), num(1), Lval::T]);
    assert_eq!(eval_str(&mut env, e), "Error: Non-number");
}

#[test]
fn equal_is_structural_on_quoted_lists() {
    let mut env = ground();
    let e = sexpr(vec![sym("equal"), quoted(vec![num(1), num(2)]), quoted(vec![num(1), num(2)])]);
    assert_eq!(eval_str(&mut env, e), "T");
}

#[test]
fn equal_detects_difference() {
    let mut env = ground();
    let e = sexpr(vec![sym("equal"), quoted(vec![num(1), num(2)]), quoted(vec![num(1), num(3)])]);
    assert_eq!(eval_str(&mut env, e), "NIL");
}

#[test]
fn eq_on_distinct_but_equal_qexprs_is_nil() {
    let mut env = ground();
    let e = sexpr(vec![sym("eq"), quoted(vec![num(1), num(2)]), quoted(vec![num(1), num(2)])]);
    assert_eq!(eval_str(&mut env, e), "NIL");
}

#[test]
fn eq_on_equal_numbers_is_true() {
    let mut env = ground();
    let e = sexpr(vec![sym("eq"), num(4), num(4)]);
    assert_eq!(eval_str(&mut env, e), "T");
}

#[test]
fn neq_negates_equal() {
    let mut env = ground();
    let e = sexpr(vec![sym("neq"), num(4), num(5)]);
    assert_eq!(eval_str(&mut env, e), "T");
    let e = sexpr(vec![sym("neq"), num(4), num(4)]);
    assert_eq!(eval_str(&mut env, e), "NIL");
}

#[test]
fn partial_application_yields_lambda_over_remaining_formals() {
    let mut env = ground();
    // ((\ '(a b c) '(+ a b c)) 1)
    let lam = sexpr(vec![
        sym("\\"),
        quoted(vec![sym("a"), sym("b"), sym("c")]),
        quoted(vec![sexpr(vec![sym("+"), sym("a"), sym("b"), sym("c")])]),
    ]);
    let e = sexpr(vec![lam, num(1)]);
    let r = run(&mut env, e);
    assert_eq!(r.render(), "(\\ 'b c)");
}

#[test]
fn applying_the_rest_of_the_arguments_completes_the_call() {
    let mut env = ground();
    let lam = sexpr(vec![
        sym("\\"),
        quoted(vec![sym("a"), sym("b"), sym("c")]),
        quoted(vec![sexpr(vec![sym("+"), sym("a"), sym("b"), sym("c")])]),
    ]);
    let partial = sexpr(vec![lam, num(1)]);
    let e = sexpr(vec![partial, num(2), num(3)]);
    assert_eq!(eval_str(&mut env, e), "6");
}

#[test]
fn defun_defines_a_callable_function() {
    let mut env = ground();
    // (defun add3 (a b c) (+ a b c))
    let d = sexpr(vec![
        sym("defun"),
        sym("add3"),
        sexpr(vec![sym("a"), sym("b"), sym("c")]),
        sexpr(vec![sym("+"), sym("a"), sym("b"), sym("c")]),
    ]);
    assert_eq!(eval_str(&mut env, d), "()");
    let e = sexpr(vec![sym("add3"), num(1), num(2), num(3)]);
    assert_eq!(eval_str(&mut env, e), "6");
}

#[test]
fn defun_curries_too() {
    let mut env = ground();
    let d = sexpr(vec![
        sym("defun"),
        sym("add3"),
        sexpr(vec![sym("a"), sym("b"), sym("c")]),
        sexpr(vec![sym("+"), sym("a"), sym("b"), sym("c")]),
    ]);
    run(&mut env, d);
    let partial = sexpr(vec![sym("add3"), num(1)]);
    let e = sexpr(vec![partial, num(2), num(3)]);
    assert_eq!(eval_str(&mut env, e), "6");
}

#[test]
fn too_many_arguments_is_an_error() {
    let mut env = ground();
    let d = sexpr(vec![
        sym("defun"),
        sym("one"),
        sexpr(vec![sym("a")]),
        sexpr(vec![sym("a")]),
    ]);
    run(&mut env, d);
    let e = sexpr(vec![sym("one"), num(1), num(2)]);
    assert_eq!(
        eval_str(&mut env, e),
        "Error: Function passed too many arguments. Got 2, Expected 1."
    );
}

#[test]
fn car_returns_the_first_element() {
    let mut env = ground();
    let e = sexpr(vec![sym("car"), quoted(vec![num(1), num(2), num(3)])]);
    assert_eq!(eval_str(&mut env, e), "1");
}

#[test]
fn cdr_returns_the_rest() {
    let mut env = ground();
    let e = sexpr(vec![sym("cdr"), quoted(vec![num(1), num(2), num(3)])]);
    assert_eq!(eval_str(&mut env, e), "(2 3)");
}

#[test]
fn car_of_the_empty_list_is_an_error() {
    let mut env = ground();
    let e = sexpr(vec![sym("car"), quoted(vec![])]);
    assert_eq!(eval_str(&mut env, e), "Error: List is empty");
}

#[test]
fn head_and_tail_are_aliases() {
    let mut env = ground();
    let e = sexpr(vec![sym("head"), quoted(vec![num(7), num(8)])]);
    assert_eq!(eval_str(&mut env, e), "7");
    let e = sexpr(vec![sym("tail"), quoted(vec![num(7), num(8)])]);
    assert_eq!(eval_str(&mut env, e), "(8)");
}

#[test]
fn car_of_a_non_list_is_an_error() {
    let mut env = ground();
    let e = sexpr(vec![sym("car"), num(5)]);
    assert_eq!(eval_str(&mut env, e), "Error: Argument must be Qexpr or Sexpr");
}

#[test]
fn cond_takes_the_first_true_clause() {
    let mut env = ground();
    // (cond (nil 1) (T 2))
    let e = sexpr(vec![
        sym("cond"),
        sexpr(vec![sym("nil"), num(1)]),
        sexpr(vec![sym("T"), num(2)]),
    ]);
    assert_eq!(eval_str(&mut env, e), "2");
}

#[test]
fn cond_without_a_true_clause_is_void() {
    let mut env = ground();
    let e = sexpr(vec![
        sym("cond"),
        sexpr(vec![sym("nil"), num(1)]),
        sexpr(vec![sym("nil"), num(2)]),
    ]);
    assert_eq!(eval_str(&mut env, e), "()");
}

#[test]
fn cond_treats_zero_as_false() {
    let mut env = ground();
    let e = sexpr(vec![
        sym("cond"),
        sexpr(vec![num(0), num(1)]),
        sexpr(vec![num(7), num(2)]),
    ]);
    assert_eq!(eval_str(&mut env, e), "2");
}

#[test]
fn cond_propagates_a_test_error() {
    let mut env = ground();
    let e = sexpr(vec![
        sym("cond"),
        sexpr(vec![sexpr(vec![sym("/"), num(1), num(0)]), num(1)]),
    ]);
    assert_eq!(eval_str(&mut env, e), "Error: Division by zero");
}

#[test]
fn cond_branch_too_short_is_an_error() {
    let mut env = ground();
    let e = sexpr(vec![sym("cond"), sexpr(vec![num(1)])]);
    assert_eq!(eval_str(&mut env, e), "Error: Cond branch too short");
}

#[test]
fn def_inside_a_lambda_body_is_visible_at_top_level() {
    let mut env = ground();
    // ((\ '(x) '(def '(g) x)) 42)
    let lam = sexpr(vec![
        sym("\\"),
        quoted(vec![sym("x")]),
        quoted(vec![sexpr(vec![sym("def"), quoted(vec![sym("g")]), sym("x")])]),
    ]);
    let e = sexpr(vec![lam, num(42)]);
    assert_eq!(eval_str(&mut env, e), "()");
    assert_eq!(eval_str(&mut env, sym("g")), "42");
}

#[test]
fn setq_inside_a_lambda_body_does_not_leak_out() {
    let mut env = ground();
    // ((\ '(x) '(setq h x)) 7)
    let lam = sexpr(vec![
        sym("\\"),
        quoted(vec![sym("x")]),
        quoted(vec![sexpr(vec![sym("setq"), sym("h"), sym("x")])]),
    ]);
    let e = sexpr(vec![lam, num(7)]);
    assert_eq!(eval_str(&mut env, e), "()");
    assert_eq!(eval_str(&mut env, sym("h")), "Error: Unbound symbol 'h'");
}

#[test]
fn setq_at_top_level_binds() {
    let mut env = ground();
    let e = sexpr(vec![sym("setq"), sym("y"), num(5)]);
    assert_eq!(eval_str(&mut env, e), "()");
    assert_eq!(eval_str(&mut env, sym("y")), "5");
}

#[test]
fn setq_of_a_non_symbol_is_an_error() {
    let mut env = ground();
    let e = sexpr(vec![sym("setq"), num(5), num(1)]);
    assert_eq!(eval_str(&mut env, e), "Error: First argument to setq must be a symbol");
}

#[test]
fn unbound_symbol_call_is_an_error() {
    let mut env = ground();
    let e = sexpr(vec![sym("foo")]);
    assert_eq!(eval_str(&mut env, e), "Error: Unbound symbol 'foo'");
}

#[test]
fn unbound_symbol_alone_is_an_error() {
    let mut env = ground();
    assert_eq!(eval_str(&mut env, sym("foo")), "Error: Unbound symbol 'foo'");
}

#[test]
fn eval_of_a_quoted_number_is_the_number() {
    let mut env = ground();
    let e = sexpr(vec![sym("eval"), Lval::Qexpr(vec![num(5)])]);
    assert_eq!(eval_str(&mut env, e), "5");
}

#[test]
fn eval_of_a_quoted_form_runs_it() {
    let mut env = ground();
    let e = sexpr(vec![sym("eval"), quoted(vec![sym("+"), num(1), num(2)])]);
    assert_eq!(eval_str(&mut env, e), "3");
}

#[test]
fn eval_unwraps_nested_quoting() {
    let mut env = ground();
    let inner = quoted(vec![sym("+"), num(1), num(2)]);
    let e = sexpr(vec![sym("eval"), Lval::Qexpr(vec![inner])]);
    assert_eq!(eval_str(&mut env, e), "3");
}

#[test]
fn eval_of_a_number_is_an_error() {
    let mut env = ground();
    let e = sexpr(vec![sym("eval"), num(3)]);
    assert_eq!(eval_str(&mut env, e), "Error: Argument must be Qexpr");
}

#[test]
fn numbers_and_atoms_evaluate_to_themselves() {
    let mut env = ground();
    assert_eq!(eval_str(&mut env, num(5)), "5");
    assert_eq!(eval_str(&mut env, Lval::T), "T");
    assert_eq!(eval_str(&mut env, Lval::NIL), "NIL");
    assert_eq!(eval_str(&mut env, sexpr(vec![])), "()");
}

#[test]
fn reserved_truth_literals_resolve() {
    let mut env = ground();
    assert_eq!(eval_str(&mut env, sym("T")), "T");
    assert_eq!(eval_str(&mut env, sym("t")), "T");
    assert_eq!(eval_str(&mut env, sym("nil")), "NIL");
}

#[test]
fn depth_budget_exhaustion_is_reported() {
    let mut env = ground();
    // (defun spin (x) (spin x)) then (spin 1) never finishes.
    let d = sexpr(vec![
        sym("defun"),
        sym("spin"),
        sexpr(vec![sym("x")]),
        sexpr(vec![sym("spin"), sym("x")]),
    ]);
    run(&mut env, d);
    let e = sexpr(vec![sym("spin"), num(1)]);
    assert!(lval_eval(&mut env, 0, e, 300).is_none());
}

#[test]
fn set_and_assign_aliases_bind_locally() {
    let mut env = ground();
    let e = sexpr(vec![sym("set"), quoted(vec![sym("z")]), num(9)]);
    assert_eq!(eval_str(&mut env, e), "()");
    assert_eq!(eval_str(&mut env, sym("z")), "9");
    let e = sexpr(vec![sym("="), quoted(vec![sym("w")]), num(8)]);
    assert_eq!(eval_str(&mut env, e), "()");
    assert_eq!(eval_str(&mut env, sym("w")), "8");
}

#[test]
fn quote_special_form_defers_evaluation() {
    let mut env = ground();
    let e = sexpr(vec![sym("quote"), sym("x")]);
    assert_eq!(eval_str(&mut env, e), "'x");
    let e = sexpr(vec![sym("quote"), sexpr(vec![sym("+"), num(1), num(2)])]);
    assert_eq!(eval_str(&mut env, e), "'(+ 1 2)");
}

#[test]
fn later_binding_of_a_name_shadows_the_earlier() {
    let mut env = ground();
    run(&mut env, sexpr(vec![sym("def"), quoted(vec![sym("v")]), num(1)]));
    run(&mut env, sexpr(vec![sym("def"), quoted(vec![sym("v")]), num(2)]));
    assert_eq!(eval_str(&mut env, sym("v")), "2");
}

#[test]
fn first_error_in_a_form_wins() {
    let mut env = ground();
    // (+ (car '()) unbound) stops at the first failing element.
    let e = sexpr(vec![
        sym("+"),
        sexpr(vec![sym("car"), quoted(vec![])]),
        sym("unbound"),
    ]);
    assert_eq!(eval_str(&mut env, e), "Error: List is empty");
}

#[test]
fn singleton_form_returns_its_element() {
    let mut env = ground();
    let e = sexpr(vec![num(7)]);
    assert_eq!(eval_str(&mut env, e), "7");
}

#[test]
fn applying_a_non_procedure_is_an_error() {
    let mut env = ground();
    let e = sexpr(vec![num(1), num(2)]);
    assert_eq!(eval_str(&mut env, e), "Error: S-expression starts with incorrect type");
}
