//! Tests of the individual builtins and of rendering.

use lispy::eval::{
    add_builtins, builtin_cons, builtin_equal, builtin_head, builtin_join, builtin_list,
    builtin_null, builtin_print, builtin_quote, builtin_tail, lval_eq, lval_eval,
};
use lispy::types::{render_joined, Lenv, Lval};

fn num(n: i64) -> Lval {
    Lval::Num(n)
}

fn sym(s: &str) -> Lval {
    Lval::Sym(s.to_string())
}

fn sexpr(cells: Vec<Lval>) -> Lval {
    Lval::Sexpr(cells)
}

fn quoted(cells: Vec<Lval>) -> Lval {
    Lval::Qexpr(vec![Lval::Sexpr(cells)])
}

#[test]
fn render_of_numbers() {
    assert_eq!(num(0).render(), "0");
    assert_eq!(num(42).render(), "42");
    assert_eq!(num(-5).render(), "-5");
    assert_eq!(num(i64::MIN).render(), "-9223372036854775808");
    assert_eq!(num(i64::MAX).render(), "9223372036854775807");
}

#[test]
fn render_of_lists_and_atoms() {
    assert_eq!(sexpr(vec![num(1), num(2)]).render(), "(1 2)");
    assert_eq!(Lval::Qexpr(vec![num(1), num(2)]).render(), "'1 2");
    assert_eq!(Lval::T.render(), "T");
    assert_eq!(Lval::NIL.render(), "NIL");
    assert_eq!(Lval::Error("boom".to_string()).render(), "Error: boom");
    assert_eq!(sym("abc").render(), "abc");
    assert_eq!(sexpr(vec![]).render(), "()");
}

#[test]
fn render_of_nested_lists() {
    let v = sexpr(vec![num(1), sexpr(vec![num(2), num(3)]), num(4)]);
    assert_eq!(v.render(), "(1 (2 3) 4)");
}

#[test]
fn join_concatenates_without_flattening() {
    let r = builtin_join(vec![quoted(vec![num(1)]), quoted(vec![num(2)])]);
    // Each quoted list contributes its single wrapped Sexpr cell unchanged.
    assert_eq!(r.render(), "'(1) (2)");
}

#[test]
fn join_of_a_non_qexpr_is_an_error() {
    let r = builtin_join(vec![quoted(vec![num(1)]), num(2)]);
    assert_eq!(r.render(), "Error: Expected Qexpr");
}

#[test]
fn cons_flattens_nested_sexpr_children() {
    let r = builtin_cons(vec![quoted(vec![num(1), num(2)]), quoted(vec![num(3)])]);
    assert_eq!(r.render(), "(1 2 3)");
}

#[test]
fn cons_keeps_plain_values_and_drops_nil() {
    let r = builtin_cons(vec![num(1), Lval::NIL, quoted(vec![num(2)])]);
    assert_eq!(r.render(), "(1 2)");
}

#[test]
fn list_wraps_its_arguments() {
    let r = builtin_list(vec![num(1), num(2)]);
    assert_eq!(r.render(), "'1 2");
}

#[test]
fn null_is_true_for_nil_and_empty_lists() {
    assert_eq!(builtin_null(vec![Lval::NIL]).render(), "T");
    assert_eq!(builtin_null(vec![Lval::Sexpr(vec![])]).render(), "T");
    assert_eq!(builtin_null(vec![Lval::Qexpr(vec![])]).render(), "T");
    assert_eq!(builtin_null(vec![num(0)]).render(), "NIL");
    assert_eq!(builtin_null(vec![]).render(), "Error: Expected 1 arg");
}

#[test]
fn quote_form_wraps_its_operand() {
    let r = builtin_quote(vec![sym("quote"), sexpr(vec![num(1), num(2)])]);
    assert_eq!(r.render(), "'(1 2)");
}

#[test]
fn quote_arity_is_checked() {
    let r = builtin_quote(vec![sym("quote")]);
    assert_eq!(r.render(), "Error: Function 'quote' passed incorrect number of arguments.");
}

#[test]
fn head_unwraps_a_quoted_list() {
    let r = builtin_head(vec![quoted(vec![num(9), num(8)])]);
    assert_eq!(r.render(), "9");
}

#[test]
fn tail_expects_a_single_wrapped_list() {
    let r = builtin_tail(vec![Lval::Qexpr(vec![num(1), num(2)])]);
    assert_eq!(r.render(), "Error: Expected single list in Qexpr");
}

#[test]
fn structural_equality_is_reflexive_on_plain_values() {
    let v = sexpr(vec![num(1), Lval::Qexpr(vec![sym("x")]), Lval::T]);
    assert!(lval_eq(&v, &v));
}

#[test]
fn structural_equality_ignores_list_kind_difference() {
    let a = Lval::Sexpr(vec![num(1)]);
    let b = Lval::Qexpr(vec![num(1)]);
    assert!(!lval_eq(&a, &b));
}

#[test]
fn lambdas_are_never_equal() {
    let a = Lval::Lambda(0, vec![], vec![]);
    let b = Lval::Lambda(0, vec![], vec![]);
    assert!(!lval_eq(&a, &b));
    assert_eq!(builtin_equal(vec![a, b]).render(), "NIL");
}

#[test]
fn def_counts_must_match() {
    let mut env = Lenv::new();
    add_builtins(&mut env);
    let few = sexpr(vec![sym("def"), quoted(vec![sym("a"), sym("b")]), num(1)]);
    assert_eq!(lval_eval(&mut env, 0, few, 1000).unwrap().render(), "Error: Too few values");
    let many = sexpr(vec![sym("def"), quoted(vec![sym("a")]), num(1), num(2)]);
    assert_eq!(lval_eval(&mut env, 0, many, 1000).unwrap().render(), "Error: Too many values");
    let bad = sexpr(vec![sym("def"), quoted(vec![num(1)]), num(2)]);
    assert_eq!(
        lval_eval(&mut env, 0, bad, 1000).unwrap().render(),
        "Error: Cannot define non-symbol"
    );
}

#[test]
fn def_binds_pairwise() {
    let mut env = Lenv::new();
    add_builtins(&mut env);
    let d = sexpr(vec![sym("def"), quoted(vec![sym("a"), sym("b")]), num(1), num(2)]);
    assert_eq!(lval_eval(&mut env, 0, d, 1000).unwrap().render(), "()");
    let s = sexpr(vec![sym("+"), sym("a"), sym("b")]);
    assert_eq!(lval_eval(&mut env, 0, s, 1000).unwrap().render(), "3");
}

#[test]
fn print_logs_its_arguments_for_the_caller() {
    let mut env = Lenv::new();
    add_builtins(&mut env);
    let e = sexpr(vec![sym("print"), num(1), num(2)]);
    assert_eq!(lval_eval(&mut env, 0, e, 1000).unwrap().render(), "()");
    let rec = env.take_print().expect("one print record");
    assert_eq!(render_joined(&rec), "1 2");
    assert!(env.take_print().is_none());
}

#[test]
fn print_as_builtin_function_value() {
    let r = builtin_print(&mut Lenv::new(), vec![sym("hello")]);
    assert_eq!(r.render(), "()");
}

#[test]
fn lambda_renders_with_its_formals() {
    let lam = Lval::Lambda(0, vec![sym("a"), sym("b")], vec![]);
    assert_eq!(lam.render(), "(\\ 'a b)");
    assert_eq!(Lval::Fun(lispy::types::Builtin::Add).render(), "<function>");
}

#[test]
fn wrapping_addition_at_the_boundary() {
    let mut env = Lenv::new();
    add_builtins(&mut env);
    let e = sexpr(vec![sym("+"), num(i64::MAX), num(1)]);
    assert_eq!(lval_eval(&mut env, 0, e, 1000).unwrap().render(), "-9223372036854775808");
}
