//! The evaluator and the builtin library, proved against `model`.

use vstd::prelude::*;
use vstd::string::StringExecFns;
use crate::model::{
    Lv, EnvM, CellsM, BindM, eval_m, eval_elems_m, call_m, beval_m, cond_m, putq_m, sym_m,
    unwrap_q, list_cells, bind_m, truthy, dec_m, dec_int_m, lemma_unwrap_wf, lemma_head_wf,
    lemma_tail_wf, lemma_quote_wf, lemma_arith_wf, lemma_join_cells_wf, lemma_cons_cells_wf,
    lemma_cells_wf_drop, arith_m, arith_fold, arith_step, all_nums, num_of, w64, tdiv, head_m,
    tail_m, quote_m, list_m, join_m, join_cells, all_qexprs, qexpr_cells, cons_m, cons_cells,
    cons_arg, cons_flatten, eqb_m, equal_m, ne_m, null_m, eq_m, seqs_eq_m, unwrap_formals,
    lambda_m, var_m, print_m, bind_pairs, all_syms, sym_name, env_get, env_put, env_def, env_copy,
    env_fresh, env_wf, val_wf, cells_wf, root_of, builtins_m, lemma_cells_wf, lemma_val_wf_mono,
    lemma_cells_wf_mono, lemma_env_put_wf, lemma_env_copy_wf, lemma_env_fresh_wf,
    lemma_env_get_wf, lemma_set_parent_wf, lemma_bind_m_wf, lemma_root_of_range,
    lemma_builtins_wf,
};
use crate::types::{Builtin, Lval, Lenv, lval_view, cells_view, lemma_cells_view, dup_cells, str_is, fmt_u64};

verus! {

broadcast use crate::types::lemma_cells_view;

/// An error value carrying the given message.
fn err_str(lit: &str) -> (r: Lval)
    ensures
        r@ == Lv::Error(lit@),
{
    Lval::Error(lit.to_owned())
}

// ---------------------------------------------------------------------------
// Arithmetic
// ---------------------------------------------------------------------------

proof fn lemma_w64_small(s: int)
    requires
        -0x1_0000_0000_0000_0000 <= s < 0x1_0000_0000_0000_0000,
    ensures
        s > i64::MAX ==> w64(s) == s - 0x1_0000_0000_0000_0000,
        s < i64::MIN ==> w64(s) == s + 0x1_0000_0000_0000_0000,
        i64::MIN <= s <= i64::MAX ==> w64(s) == s,
{
    let r = 0x1_0000_0000_0000_0000int;
    if 0 <= s {
        assert(s % r == s) by {
            vstd::arithmetic::div_mod::lemma_small_mod(s as nat, r as nat);
        }
    } else {
        assert((s + r) % r == s + r) by {
            vstd::arithmetic::div_mod::lemma_small_mod((s + r) as nat, r as nat);
        }
        assert(s % r == s + r) by {
            vstd::arithmetic::div_mod::lemma_add_mod_noop(s, r, r);
            assert(r % r == 0) by {
                vstd::arithmetic::div_mod::lemma_mod_self_0(r);
            }
        }
    }
}

proof fn lemma_tdiv_bound(x: int, d: int)
    requires
        i64::MIN <= x <= i64::MAX,
        i64::MIN <= d <= i64::MAX,
        d != 0,
    ensures
        i64::MIN as int <= tdiv(x, d) <= -(i64::MIN as int),
{
    broadcast use vstd::arithmetic::div_mod::lemma_div_nonincreasing;
    broadcast use vstd::arithmetic::div_mod::lemma_div_pos_is_pos;

    if x == 0 {
    } else if x > 0 && d > 0 {
        assert(0 <= x / d <= x);
    } else if x < 0 && d < 0 {
        assert(0 <= (x * -1) / (d * -1) <= x * -1);
    } else if x < 0 {
        assert(0 <= (x * -1) / d <= x * -1);
    } else {
        assert(0 <= x / (d * -1) <= x);
    }
}

/// One wrapping arithmetic step, matching `arith_step` of the model.
fn arith_step_exec(b: Builtin, acc: i64, y: i64) -> (r: Lval)
    requires
        b == Builtin::Add || b == Builtin::Sub || b == Builtin::Mul || b == Builtin::Div,
    ensures
        r@ == arith_step(b, acc as int, y as int),
        r is Num ==> r@ == Lv::Num(r->Num_0 as int),
{
    match b {
        Builtin::Add => {
            let s = acc.wrapping_add(y);
            proof {
                lemma_w64_small(acc as int + y as int);
            }
            Lval::Num(s)
        },
        Builtin::Sub => {
            let s = acc.wrapping_sub(y);
            proof {
                lemma_w64_small(acc as int - y as int);
            }
            Lval::Num(s)
        },
        Builtin::Mul => Lval::Num(acc.wrapping_mul(y)),
        _ => {
            if y == 0 {
                err_str("Division by zero")
            } else {
                match acc.checked_div(y) {
                    Some(q) => {
                        proof {
                            lemma_tdiv_bound(acc as int, y as int);
                            lemma_w64_small(tdiv(acc as int, y as int));
                        }
                        Lval::Num(q)
                    },
                    None => {
                        proof {
                            lemma_tdiv_bound(acc as int, y as int);
                            assert(tdiv(acc as int, y as int) == -(i64::MIN as int));
                            lemma_w64_small(tdiv(acc as int, y as int));
                        }
                        Lval::Num(i64::MIN)
                    },
                }
            }
        },
    }
}

/// Left-fold arithmetic over numeric arguments (`+ - * /`), wrapping at 64
/// bits; a lone `-` argument is negated; division by zero yields an error.
pub fn builtin_op(args: Vec<Lval>, op: Builtin) -> (r: Lval)
    requires
        op == Builtin::Add || op == Builtin::Sub || op == Builtin::Mul || op == Builtin::Div,
    ensures
        r@ == arith_m(op, cells_view(args@)),
{
    let ghost av = cells_view(args@);
    let mut i: usize = 0;
    while i < args.len()
        invariant
            i <= args@.len(),
            av == cells_view(args@),
            forall|j: int| 0 <= j < i ==> av[j] is Num,
        decreases args@.len() - i,
    {
        match &args[i] {
            Lval::Num(_) => {},
            _ => {
                proof {
                    assert(!(av[i as int] is Num));
                }
                return err_str("Non-number");
            },
        }
        i += 1;
    }
    assert(all_nums(av));
    if args.len() == 0 {
        return err_str("No arguments");
    }
    let x0 = match &args[0] {
        Lval::Num(n) => *n,
        _ => 0,
    };
    if matches!(op, Builtin::Sub) && args.len() == 1 {
        let r = 0i64.wrapping_sub(x0);
        proof {
            lemma_w64_small(-(x0 as int));
        }
        return Lval::Num(r);
    }
    let mut acc = x0;
    let mut i: usize = 1;
    proof {
        assert(av.skip(1) =~= av.drop_first());
    }
    while i < args.len()
        invariant
            1 <= i <= args@.len(),
            av == cells_view(args@),
            all_nums(av),
            arith_m(op, av) == arith_fold(op, acc as int, av.skip(i as int)),
            op == Builtin::Add || op == Builtin::Sub || op == Builtin::Mul || op == Builtin::Div,
        decreases args@.len() - i,
    {
        let y = match &args[i] {
            Lval::Num(n) => *n,
            _ => 0,
        };
        proof {
            assert(av.skip(i as int)[0] == av[i as int]);
            assert(av.skip(i as int).drop_first() =~= av.skip(i as int + 1));
            assert(num_of(av[i as int]) == y as int);
        }
        let step = arith_step_exec(op, acc, y);
        match step {
            Lval::Num(acc2) => {
                acc = acc2;
            },
            e => {
                proof {
                    assert(arith_fold(op, acc as int, av.skip(i as int)) == e@);
                }
                return e;
            },
        }
        i += 1;
    }
    proof {
        assert(av.skip(args@.len() as int) =~= Seq::<Lv>::empty());
    }
    Lval::Num(acc)
}

/// `+`: numeric addition.
pub fn builtin_add(args: Vec<Lval>) -> (r: Lval)
    ensures
        r@ == arith_m(Builtin::Add, cells_view(args@)),
{
    builtin_op(args, Builtin::Add)
}

/// `-`: numeric subtraction, or negation of a single argument.
pub fn builtin_sub(args: Vec<Lval>) -> (r: Lval)
    ensures
        r@ == arith_m(Builtin::Sub, cells_view(args@)),
{
    builtin_op(args, Builtin::Sub)
}

/// `*`: numeric multiplication.
pub fn builtin_mul(args: Vec<Lval>) -> (r: Lval)
    ensures
        r@ == arith_m(Builtin::Mul, cells_view(args@)),
{
    builtin_op(args, Builtin::Mul)
}

/// `/`: numeric division; a zero divisor at any step is an error.
pub fn builtin_div(args: Vec<Lval>) -> (r: Lval)
    ensures
        r@ == arith_m(Builtin::Div, cells_view(args@)),
{
    builtin_op(args, Builtin::Div)
}

// ---------------------------------------------------------------------------
// List builtins
// ---------------------------------------------------------------------------

/// `car`/`head`: the first element of a non-empty list.
pub fn builtin_head(args: Vec<Lval>) -> (r: Lval)
    ensures
        r@ == head_m(cells_view(args@)),
{
    let ghost av = cells_view(args@);
    if args.len() != 1 {
        return err_str("Expected 1 arg");
    }
    let mut args = args;
    let a = args.remove(0);
    proof {
        assert(a@ == av[0]);
    }
    match a {
        Lval::Qexpr(mut cells) => {
            let ghost qcv = cells_view(cells@);
            if cells.len() == 0 {
                return err_str("Argument is empty");
            }
            if cells.len() != 1 {
                return err_str("Expected single list in Qexpr");
            }
            let child = cells.remove(0);
            proof {
                assert(child@ == qcv[0]);
            }
            match child {
                Lval::Sexpr(mut children) => {
                    let ghost chv = cells_view(children@);
                    if children.len() == 0 {
                        return err_str("List is empty");
                    }
                    let first = children.remove(0);
                    proof {
                        assert(first@ == chv[0]);
                    }
                    first
                },
                _ => err_str("Argument must be a list (Sexpr)"),
            }
        },
        Lval::Sexpr(mut cells) => {
            let ghost qcv = cells_view(cells@);
            if cells.len() == 0 {
                return err_str("List is empty");
            }
            let first = cells.remove(0);
            proof {
                assert(first@ == qcv[0]);
            }
            first
        },
        _ => err_str("Argument must be Qexpr or Sexpr"),
    }
}

/// `cdr`/`tail`: the rest of a non-empty list after its first element.
pub fn builtin_tail(args: Vec<Lval>) -> (r: Lval)
    ensures
        r@ == tail_m(cells_view(args@)),
{
    let ghost av = cells_view(args@);
    if args.len() != 1 {
        return err_str("Expected 1 arg");
    }
    let mut args = args;
    let a = args.remove(0);
    proof {
        assert(a@ == av[0]);
    }
    match a {
        Lval::Qexpr(mut cells) => {
            let ghost qcv = cells_view(cells@);
            if cells.len() == 0 {
                return err_str("Argument is empty");
            }
            if cells.len() != 1 {
                return err_str("Expected single list in Qexpr");
            }
            let child = cells.remove(0);
            proof {
                assert(child@ == qcv[0]);
            }
            match child {
                Lval::Sexpr(mut children) => {
                    let ghost chv = cells_view(children@);
                    if children.len() == 0 {
                        return err_str("List is empty");
                    }
                    children.remove(0);
                    proof {
                        assert(cells_view(children@) =~= chv.drop_first());
                    }
                    Lval::Sexpr(children)
                },
                _ => err_str("Argument must be a list (Sexpr)"),
            }
        },
        Lval::Sexpr(mut cells) => {
            let ghost qcv = cells_view(cells@);
            if cells.len() == 0 {
                return err_str("List is empty");
            }
            cells.remove(0);
            proof {
                assert(cells_view(cells@) =~= qcv.drop_first());
            }
            Lval::Sexpr(cells)
        },
        _ => err_str("Argument must be Qexpr or Sexpr"),
    }
}

/// `quote` special form: wraps its unevaluated operand in a `Qexpr`.
pub fn builtin_quote(cells: Vec<Lval>) -> (r: Lval)
    ensures
        r@ == quote_m(cells_view(cells@)),
{
    let ghost cv = cells_view(cells@);
    if cells.len() != 2 {
        return err_str("Function 'quote' passed incorrect number of arguments.");
    }
    let mut cells = cells;
    let operand = cells.remove(1);
    let mut wrapped: Vec<Lval> = Vec::new();
    wrapped.push(operand);
    proof {
        assert(cells_view(wrapped@) =~= seq![cv[1]]);
    }
    Lval::Qexpr(wrapped)
}

/// `list`: wraps all its (already evaluated) arguments in a `Qexpr`.
pub fn builtin_list(args: Vec<Lval>) -> (r: Lval)
    ensures
        r@ == list_m(cells_view(args@)),
{
    Lval::Qexpr(args)
}

/// `join`: concatenates quoted lists without flattening.
pub fn builtin_join(args: Vec<Lval>) -> (r: Lval)
    ensures
        r@ == join_m(cells_view(args@)),
{
    let ghost av = cells_view(args@);
    let mut i: usize = 0;
    while i < args.len()
        invariant
            i <= args@.len(),
            av == cells_view(args@),
            forall|j: int| 0 <= j < i ==> av[j] is Qexpr,
        decreases args@.len() - i,
    {
        match &args[i] {
            Lval::Qexpr(_) => {},
            _ => {
                proof {
                    assert(!(av[i as int] is Qexpr));
                }
                return err_str("Expected Qexpr");
            },
        }
        i += 1;
    }
    assert(all_qexprs(av));
    let mut joined: Vec<Lval> = Vec::new();
    let mut i: usize = 0;
    proof {
        assert(av.skip(0) =~= av);
        assert(cells_view(joined@) + join_cells(av) =~= join_cells(av));
    }
    while i < args.len()
        invariant
            i <= args@.len(),
            av == cells_view(args@),
            all_qexprs(av),
            cells_view(joined@) + join_cells(av.skip(i as int)) == join_cells(av),
        decreases args@.len() - i,
    {
        proof {
            assert(av.skip(i as int)[0] == av[i as int]);
            assert(av.skip(i as int).drop_first() =~= av.skip(i as int + 1));
            assert(av[i as int] is Qexpr);
        }
        let ghost pre = joined@;
        let arg = args[i].dup();
        proof {
            assert(arg@ == av[i as int]);
        }
        match arg {
            Lval::Qexpr(mut cells) => {
                let ghost cv0 = cells@;
                joined.append(&mut cells);
                proof {
                    assert(joined@ == pre + cv0);
                    assert(cells_view(joined@) =~= cells_view(pre) + cells_view(cv0));
                    assert(cells_view(cv0) == qexpr_cells(av[i as int]));
                    assert(cells_view(joined@) + join_cells(av.skip(i as int + 1)) =~= join_cells(
                        av,
                    ));
                }
            },
            _ => {
                proof {
                    assert(false);
                }
            },
        }
        i += 1;
    }
    proof {
        assert(av.skip(args@.len() as int) =~= Seq::<Lv>::empty());
        assert(cells_view(joined@) == join_cells(av));
    }
    Lval::Qexpr(joined)
}

/// `cons`: concatenates its arguments into one `Sexpr`, flattening nested
/// `Sexpr` children of quoted lists and dropping `NIL` arguments.
pub fn builtin_cons(args: Vec<Lval>) -> (r: Lval)
    ensures
        r@ == cons_m(cells_view(args@)),
{
    let ghost av = cells_view(args@);
    let mut joined: Vec<Lval> = Vec::new();
    let mut args = args;
    let mut i: usize = 0;
    proof {
        assert(av.skip(0) =~= av);
        assert(cells_view(joined@) + cons_cells(av) =~= cons_cells(av));
    }
    while i < args.len()
        invariant
            i <= args@.len(),
            av == cells_view(args@),
            cells_view(joined@) + cons_cells(av.skip(i as int)) == cons_cells(av),
        decreases args@.len() - i,
    {
        proof {
            assert(av.skip(i as int)[0] == av[i as int]);
            assert(av.skip(i as int).drop_first() =~= av.skip(i as int + 1));
        }
        let ghost pre = joined@;
        let arg = args[i].dup();
        proof {
            assert(arg@ == av[i as int]);
        }
        match arg {
            Lval::Qexpr(cells) => {
                let ghost qv = cells_view(cells@);
                let mut cells = cells;
                let mut j: usize = 0;
                proof {
                    assert(qv.skip(0) =~= qv);
                    assert(cells_view(joined@) + cons_flatten(qv) =~= cells_view(pre)
                        + cons_flatten(qv));
                }
                while j < cells.len()
                    invariant
                        j <= cells@.len(),
                        qv == cells_view(cells@),
                        cells_view(joined@) + cons_flatten(qv.skip(j as int)) == cells_view(pre)
                            + cons_flatten(qv),
                    decreases cells@.len() - j,
                {
                    proof {
                        assert(qv.skip(j as int)[0] == qv[j as int]);
                        assert(qv.skip(j as int).drop_first() =~= qv.skip(j as int + 1));
                    }
                    let ghost pre2 = joined@;
                    let cell = cells[j].dup();
                    proof {
                        assert(cell@ == qv[j as int]);
                    }
                    match cell {
                        Lval::Sexpr(mut children) => {
                            let ghost chv0 = children@;
                            joined.append(&mut children);
                            proof {
                                assert(joined@ == pre2 + chv0);
                                assert(cells_view(joined@) =~= cells_view(pre2) + cells_view(
                                    chv0,
                                ));
                                assert(cells_view(joined@) =~= cells_view(pre2) + (match qv[
                                    j as int] {
                                    Lv::Sexpr(ch) => ch,
                                    c => seq![c],
                                }));
                            }
                        },
                        other => {
                            let ghost ov = other@;
                            joined.push(other);
                            proof {
                                assert(joined@ == pre2.push(joined@.last()));
                                assert(cells_view(joined@) =~= cells_view(pre2).push(ov));
                                assert(cells_view(joined@) =~= cells_view(pre2) + (match qv[
                                    j as int] {
                                    Lv::Sexpr(ch) => ch,
                                    c => seq![c],
                                }));
                            }
                        },
                    }
                    j += 1;
                }
                proof {
                    assert(qv.skip(cells@.len() as int) =~= Seq::<Lv>::empty());
                    assert(cells_view(joined@) =~= cells_view(pre) + cons_arg(av[i as int]));
                }
            },
            Lval::Sexpr(mut cells) => {
                let ghost cv0 = cells@;
                joined.append(&mut cells);
                proof {
                    assert(joined@ == pre + cv0);
                    assert(cells_view(joined@) =~= cells_view(pre) + cells_view(cv0));
                    assert(cells_view(joined@) =~= cells_view(pre) + cons_arg(av[i as int]));
                }
            },
            Lval::NIL => {
                proof {
                    assert(cells_view(joined@) =~= cells_view(pre) + cons_arg(av[i as int]));
                }
            },
            other => {
                let ghost ov = other@;
                joined.push(other);
                proof {
                    assert(cells_view(joined@) =~= cells_view(pre).push(ov));
                    assert(cells_view(joined@) =~= cells_view(pre) + cons_arg(av[i as int]));
                }
            },
        }
        i += 1;
    }
    proof {
        assert(av.skip(args@.len() as int) =~= Seq::<Lv>::empty());
        assert(cells_view(joined@) == cons_cells(av));
    }
    Lval::Sexpr(joined)
}

// ---------------------------------------------------------------------------
// Comparison builtins
// ---------------------------------------------------------------------------

/// Structural equality of two values, matching the model's `eq_m`.
pub fn lval_eq(a: &Lval, b: &Lval) -> (r: bool)
    ensures
        r == eq_m(a@, b@),
    decreases a,
{
    match (a, b) {
        (Lval::Num(x), Lval::Num(y)) => *x == *y,
        (Lval::Sym(x), Lval::Sym(y)) => x.eq(y),
        (Lval::Error(x), Lval::Error(y)) => x.eq(y),
        (Lval::Sexpr(x), Lval::Sexpr(y)) => cells_eq(x, y),
        (Lval::Qexpr(x), Lval::Qexpr(y)) => cells_eq(x, y),
        (Lval::T, Lval::T) => true,
        (Lval::NIL, Lval::NIL) => true,
        _ => false,
    }
}

/// Element-wise structural equality of two lists.
fn cells_eq(x: &Vec<Lval>, y: &Vec<Lval>) -> (r: bool)
    ensures
        r == seqs_eq_m(cells_view(x@), cells_view(y@)),
    decreases x,
{
    let ghost cvx = cells_view(x@);
    let ghost cvy = cells_view(y@);
    if x.len() != y.len() {
        return false;
    }
    let mut i: usize = 0;
    proof {
        assert(cvx.skip(0) =~= cvx);
        assert(cvy.skip(0) =~= cvy);
    }
    while i < x.len()
        invariant
            i <= x@.len(),
            x@.len() == y@.len(),
            cvx == cells_view(x@),
            cvy == cells_view(y@),
            seqs_eq_m(cvx, cvy) == seqs_eq_m(cvx.skip(i as int), cvy.skip(i as int)),
        decreases x@.len() - i,
    {
        proof {
            assert(cvx.skip(i as int)[0] == cvx[i as int]);
            assert(cvy.skip(i as int)[0] == cvy[i as int]);
            assert(cvx.skip(i as int).drop_first() =~= cvx.skip(i as int + 1));
            assert(cvy.skip(i as int).drop_first() =~= cvy.skip(i as int + 1));
        }
        if !lval_eq(&x[i], &y[i]) {
            return false;
        }
        i += 1;
    }
    proof {
        assert(cvx.skip(x@.len() as int) =~= Seq::<Lv>::empty());
        assert(cvy.skip(y@.len() as int) =~= Seq::<Lv>::empty());
    }
    true
}

/// `eq`: identity-flavoured comparison of atoms.
pub fn builtin_eq(args: Vec<Lval>) -> (r: Lval)
    ensures
        r@ == eqb_m(cells_view(args@)),
{
    let ghost av = cells_view(args@);
    if args.len() != 2 {
        return err_str("Expected 2 args");
    }
    match (&args[0], &args[1]) {
        (Lval::Num(x), Lval::Num(y)) => if *x == *y {
            Lval::T
        } else {
            Lval::NIL
        },
        (Lval::Sym(x), Lval::Sym(y)) => if x.eq(y) {
            Lval::T
        } else {
            Lval::NIL
        },
        (Lval::T, Lval::T) => Lval::T,
        (Lval::NIL, Lval::NIL) => Lval::T,
        _ => Lval::NIL,
    }
}

/// `equal`: full structural equality.
pub fn builtin_equal(args: Vec<Lval>) -> (r: Lval)
    ensures
        r@ == equal_m(cells_view(args@)),
{
    let ghost av = cells_view(args@);
    if args.len() != 2 {
        return err_str("Expected 2 args");
    }
    if lval_eq(&args[0], &args[1]) {
        Lval::T
    } else {
        Lval::NIL
    }
}

/// `neq`: negation of `equal`.
pub fn builtin_ne(args: Vec<Lval>) -> (r: Lval)
    ensures
        r@ == ne_m(cells_view(args@)),
{
    let ghost av = cells_view(args@);
    if args.len() != 2 {
        return err_str("Expected 2 args");
    }
    if lval_eq(&args[0], &args[1]) {
        Lval::NIL
    } else {
        Lval::T
    }
}

/// `null`: true for `NIL` and for empty lists of either kind.
pub fn builtin_null(args: Vec<Lval>) -> (r: Lval)
    ensures
        r@ == null_m(cells_view(args@)),
{
    let ghost av = cells_view(args@);
    if args.len() != 1 {
        return err_str("Expected 1 arg");
    }
    match &args[0] {
        Lval::NIL => Lval::T,
        Lval::Sexpr(cells) => if cells.len() == 0 {
            Lval::T
        } else {
            Lval::NIL
        },
        Lval::Qexpr(cells) => if cells.len() == 0 {
            Lval::T
        } else {
            Lval::NIL
        },
        _ => Lval::NIL,
    }
}

// ---------------------------------------------------------------------------
// Binding builtins
// ---------------------------------------------------------------------------

/// `def` (global) and `=`/`set`/`setq` (local) as builtins: bind a quoted
/// list of symbols to the remaining arguments pairwise.  Nothing is bound
/// unless every check passes.
#[verifier::loop_isolation(false)]
pub fn builtin_var(env: &mut Lenv, fr: usize, args: Vec<Lval>, global: bool) -> (r: Lval)
    requires
        env_wf(old(env)@),
        fr < old(env)@.frames.len(),
        cells_wf(cells_view(args@), old(env)@.frames.len() as int),
    ensures
        ({
            let (em, rm) = var_m(old(env)@, fr as int, cells_view(args@), global);
            final(env)@ == em && r@ == rm
        }),
        env_wf(final(env)@),
        final(env)@.frames.len() == old(env)@.frames.len(),
        val_wf(r@, final(env)@.frames.len() as int),
{
    let ghost av = cells_view(args@);
    let ghost n = old(env)@.frames.len() as int;
    proof {
        lemma_cells_wf(av, n);
    }
    if args.len() == 0 {
        return err_str("Too few args");
    }
    let mut args = args;
    let first = args.remove(0);
    proof {
        assert(first@ == av[0]);
    }
    let ghost vv = av.drop_first();
    proof {
        assert(cells_view(args@) =~= vv);
        assert(cells_wf(vv, n)) by {
            lemma_cells_wf(vv, n);
        }
    }
    match first {
        Lval::Qexpr(cells) => {
            let ghost qcv = cells_view(cells@);
            proof {
                assert(val_wf(av[0], n));
                assert(cells_wf(qcv, n));
            }
            let mut cells = cells;
            let unwrap = cells.len() == 1 && matches!(&cells[0], Lval::Sexpr(_));
            let ghost sv = unwrap_formals(qcv);
            let syms: Vec<Lval>;
            if unwrap {
                let c0 = cells.remove(0);
                proof {
                    assert(c0@ == qcv[0]);
                    assert(qcv[0] is Sexpr);
                }
                syms = match c0 {
                    Lval::Sexpr(inner) => inner,
                    _ => Vec::new(),
                };
            } else {
                proof {
                    assert(!(qcv.len() == 1 && qcv[0] is Sexpr));
                }
                syms = cells;
            }
            proof {
                assert(cells_view(syms@) == sv);
                assert(cells_wf(sv, n)) by {
                    if qcv.len() == 1 && qcv[0] is Sexpr {
                        lemma_cells_wf(qcv, n);
                        assert(val_wf(qcv[0], n));
                    }
                }
            }
            let mut i: usize = 0;
            while i < syms.len()
                invariant
                    i <= syms@.len(),
                    sv == cells_view(syms@),
                    av.len() > 0,
                    av[0] == Lv::Qexpr(qcv),
                    sv == unwrap_formals(qcv),
                    env@ == old(env)@,
                    forall|j: int| 0 <= j < i ==> sv[j] is Sym,
                decreases syms@.len() - i,
            {
                match &syms[i] {
                    Lval::Sym(_) => {},
                    _ => {
                        proof {
                            assert(!(sv[i as int] is Sym));
                        }
                        return err_str("Cannot define non-symbol");
                    },
                }
                i += 1;
            }
            assert(all_syms(sv));
            if args.len() < syms.len() {
                return err_str("Too few values");
            }
            if args.len() > syms.len() {
                return err_str("Too many values");
            }
            let target = if global {
                env.root(fr)
            } else {
                fr
            };
            let ghost t = target as int;
            let mut i: usize = 0;
            proof {
                lemma_root_of_range(old(env)@, fr as int);
                assert(sv.skip(0) =~= sv);
                assert(vv.skip(0) =~= vv);
            }
            while i < syms.len()
                invariant
                    i <= syms@.len(),
                    syms@.len() == args@.len(),
                    sv == cells_view(syms@),
                    vv == cells_view(args@),
                    av.len() > 0,
                    av[0] == Lv::Qexpr(qcv),
                    sv == unwrap_formals(qcv),
                    vv == av.drop_first(),
                    all_syms(sv),
                    sv.len() == vv.len(),
                    cells_wf(vv, n),
                    0 <= t < n,
                    t == target as int,
                    t == (if global { root_of(old(env)@, fr as int) } else { fr as int }),
                    env_wf(env@),
                    env@.frames.len() == n,
                    bind_pairs(old(env)@, t, sv, vv) == bind_pairs(
                        env@,
                        t,
                        sv.skip(i as int),
                        vv.skip(i as int),
                    ),
                decreases syms@.len() - i,
            {
                proof {
                    assert(sv.skip(i as int)[0] == sv[i as int]);
                    assert(vv.skip(i as int)[0] == vv[i as int]);
                    assert(sv.skip(i as int).drop_first() =~= sv.skip(i as int + 1));
                    assert(vv.skip(i as int).drop_first() =~= vv.skip(i as int + 1));
                    lemma_cells_wf(vv, n);
                    lemma_env_put_wf(env@, t, sym_name(sv[i as int]), vv[i as int]);
                }
                let k = match &syms[i] {
                    Lval::Sym(s) => s.clone(),
                    _ => String::new(),
                };
                proof {
                    assert(k@ == sym_name(sv[i as int]));
                }
                let v = args[i].dup();
                proof {
                    assert(cells_view(args@)[i as int] == lval_view(args@[i as int]));
                    assert(v@ == vv[i as int]);
                }
                env.put(target, k, v);
                i += 1;
            }
            proof {
                assert(sv.skip(syms@.len() as int) =~= Seq::<Lv>::empty());
                assert(vv.skip(args@.len() as int) =~= Seq::<Lv>::empty());
            }
            let mut void: Vec<Lval> = Vec::new();
            proof {
                assert(cells_view(void@) =~= Seq::<Lv>::empty());
            }
            Lval::Sexpr(void)
        },
        _ => err_str("First arg must be Qexpr"),
    }
}

/// `def`: global pairwise binding.
pub fn builtin_def(env: &mut Lenv, fr: usize, args: Vec<Lval>) -> (r: Lval)
    requires
        env_wf(old(env)@),
        fr < old(env)@.frames.len(),
        cells_wf(cells_view(args@), old(env)@.frames.len() as int),
    ensures
        ({
            let (em, rm) = var_m(old(env)@, fr as int, cells_view(args@), true);
            final(env)@ == em && r@ == rm
        }),
        env_wf(final(env)@),
        final(env)@.frames.len() == old(env)@.frames.len(),
        val_wf(r@, final(env)@.frames.len() as int),
{
    builtin_var(env, fr, args, true)
}

/// `=`/`set`/`setq` as a builtin: local pairwise binding.
pub fn builtin_put(env: &mut Lenv, fr: usize, args: Vec<Lval>) -> (r: Lval)
    requires
        env_wf(old(env)@),
        fr < old(env)@.frames.len(),
        cells_wf(cells_view(args@), old(env)@.frames.len() as int),
    ensures
        ({
            let (em, rm) = var_m(old(env)@, fr as int, cells_view(args@), false);
            final(env)@ == em && r@ == rm
        }),
        env_wf(final(env)@),
        final(env)@.frames.len() == old(env)@.frames.len(),
        val_wf(r@, final(env)@.frames.len() as int),
{
    builtin_var(env, fr, args, false)
}

/// `\`: construct a lambda from a quoted formals list and a quoted body;
/// the closure captures a fresh empty frame.
pub fn builtin_lambda(env: &mut Lenv, args: Vec<Lval>) -> (r: Lval)
    requires
        env_wf(old(env)@),
        cells_wf(cells_view(args@), old(env)@.frames.len() as int),
    ensures
        ({
            let (em, rm) = lambda_m(old(env)@, cells_view(args@));
            final(env)@ == em && r@ == rm
        }),
        env_wf(final(env)@),
        old(env)@.frames.len() <= final(env)@.frames.len(),
        val_wf(lambda_m(old(env)@, cells_view(args@)).1, final(env)@.frames.len() as int),
{
    let ghost av = cells_view(args@);
    let ghost n = old(env)@.frames.len() as int;
    proof {
        lemma_cells_wf(av, n);
    }
    if args.len() != 2 {
        return err_str("Expected 2 args");
    }
    match &args[1] {
        Lval::Qexpr(_) => {},
        _ => {
            return err_str("Body must be Qexpr");
        },
    }
    let mut args = args;
    let formals_arg = args.remove(0);
    let body_arg = args.remove(0);
    proof {
        assert(formals_arg@ == av[0]);
        assert(body_arg@ == av[1]);
    }
    match formals_arg {
        Lval::Qexpr(cells) => {
            let ghost qcv = cells_view(cells@);
            proof {
                assert(val_wf(av[0], n));
                assert(cells_wf(qcv, n));
            }
            let mut cells = cells;
            let unwrap = cells.len() == 1 && matches!(&cells[0], Lval::Sexpr(_));
            let ghost fv = unwrap_formals(qcv);
            let formals: Vec<Lval>;
            if unwrap {
                let c0 = cells.remove(0);
                proof {
                    assert(c0@ == qcv[0]);
                    assert(qcv[0] is Sexpr);
                }
                formals = match c0 {
                    Lval::Sexpr(inner) => inner,
                    _ => Vec::new(),
                };
            } else {
                proof {
                    assert(!(qcv.len() == 1 && qcv[0] is Sexpr));
                }
                formals = cells;
            }
            let body: Vec<Lval> = match body_arg {
                Lval::Qexpr(b) => b,
                _ => Vec::new(),
            };
            proof {
                assert(cells_view(formals@) == fv);
                assert(cells_view(body@) == qexpr_cells(av[1]));
            }
            let nf = env.fresh();
            proof {
                lemma_env_fresh_wf(old(env)@);
                assert(cells_wf(fv, n)) by {
                    if qcv.len() == 1 && qcv[0] is Sexpr {
                        lemma_cells_wf(qcv, n);
                        assert(val_wf(qcv[0], n));
                    }
                }
                lemma_cells_wf_mono(fv, n, n + 1);
                assert(cells_wf(qexpr_cells(av[1]), n)) by {
                    assert(val_wf(av[1], n));
                }
                lemma_cells_wf_mono(qexpr_cells(av[1]), n, n + 1);
            }
            Lval::Lambda(nf, formals, body)
        },
        _ => err_str("Formals must be Qexpr"),
    }
}

/// `defun` special form: define a named lambda globally.
pub fn builtin_defun(env: &mut Lenv, fr: usize, cells: Vec<Lval>) -> (r: Lval)
    requires
        env_wf(old(env)@),
        fr < old(env)@.frames.len(),
        cells_wf(cells_view(cells@), old(env)@.frames.len() as int),
    ensures
        ({
            let (em, rm) = crate::model::defun_m(old(env)@, fr as int, cells_view(cells@));
            final(env)@ == em && r@ == rm
        }),
        env_wf(final(env)@),
        old(env)@.frames.len() <= final(env)@.frames.len(),
        val_wf(r@, final(env)@.frames.len() as int),
{
    let ghost cv = cells_view(cells@);
    let ghost n = old(env)@.frames.len() as int;
    proof {
        lemma_cells_wf(cv, n);
    }
    if cells.len() != 4 {
        return err_str("Function 'defun' passed incorrect number of arguments.");
    }
    match &cells[1] {
        Lval::Sym(_) => {},
        _ => {
            return err_str("First argument to defun must be a symbol");
        },
    }
    match &cells[2] {
        Lval::Sexpr(_) => {},
        Lval::Qexpr(_) => {},
        _ => {
            return err_str("Second argument to defun must be a list");
        },
    }
    match &cells[3] {
        Lval::Sexpr(_) => {},
        Lval::Qexpr(_) => {},
        _ => {
            return err_str("Third argument to defun must be a list");
        },
    }
    let mut cells = cells;
    let name_arg = cells.remove(1);
    let formals_arg = cells.remove(1);
    let body_arg = cells.remove(1);
    proof {
        assert(name_arg@ == cv[1]);
        assert(formals_arg@ == cv[2]);
        assert(body_arg@ == cv[3]);
    }
    let name: String = match name_arg {
        Lval::Sym(s) => s,
        _ => String::new(),
    };
    let formals: Vec<Lval> = match formals_arg {
        Lval::Sexpr(v) => v,
        Lval::Qexpr(v) => v,
        _ => Vec::new(),
    };
    let body: Vec<Lval> = match body_arg {
        Lval::Sexpr(v) => v,
        Lval::Qexpr(v) => v,
        _ => Vec::new(),
    };
    let nf = env.fresh();
    proof {
        lemma_env_fresh_wf(old(env)@);
        assert(cells_view(formals@) == crate::model::list_cells(cv[2]));
        assert(cells_view(body@) == crate::model::list_cells(cv[3]));
        assert(cells_wf(crate::model::list_cells(cv[2]), n)) by {
            assert(val_wf(cv[2], n));
        }
        assert(cells_wf(crate::model::list_cells(cv[3]), n)) by {
            assert(val_wf(cv[3], n));
        }
        lemma_cells_wf_mono(crate::model::list_cells(cv[2]), n, n + 1);
        lemma_cells_wf_mono(crate::model::list_cells(cv[3]), n, n + 1);
    }
    let lambda = Lval::Lambda(nf, formals, body);
    proof {
        let env1 = env_fresh(old(env)@);
        lemma_root_of_range(env1, fr as int);
        lemma_env_put_wf(
            env1,
            root_of(env1, fr as int),
            name@,
            lambda@,
        );
    }
    env.def(fr, name, lambda);
    let mut void: Vec<Lval> = Vec::new();
    proof {
        assert(cells_view(void@) =~= Seq::<Lv>::empty());
    }
    Lval::Sexpr(void)
}

/// `print`: append the arguments to the output log and yield the void
/// marker.  The caller drains the log and performs the actual writing.
pub fn builtin_print(env: &mut Lenv, args: Vec<Lval>) -> (r: Lval)
    ensures
        ({
            let (em, rm) = print_m(old(env)@, cells_view(args@));
            final(env)@ == em && r@ == rm
        }),
        final(env)@.frames == old(env)@.frames,
        val_wf(r@, final(env)@.frames.len() as int),
{
    env.log_print(args);
    let mut void: Vec<Lval> = Vec::new();
    proof {
        assert(cells_view(void@) =~= Seq::<Lv>::empty());
    }
    Lval::Sexpr(void)
}

/// Populate the root frame with every builtin name, aliases included.
pub fn add_builtins(env: &mut Lenv)
    requires
        env_wf(old(env)@),
        old(env)@.frames.len() > 0,
    ensures
        final(env)@ == builtins_m(old(env)@),
        env_wf(final(env)@),
        final(env)@.frames.len() == old(env)@.frames.len(),
{
    proof {
        lemma_builtins_wf(old(env)@);
    }
    env.put(0, "eval".to_owned(), Lval::Fun(Builtin::Eval));
    env.put(0, "join".to_owned(), Lval::Fun(Builtin::Join));
    env.put(0, "+".to_owned(), Lval::Fun(Builtin::Add));
    env.put(0, "-".to_owned(), Lval::Fun(Builtin::Sub));
    env.put(0, "*".to_owned(), Lval::Fun(Builtin::Mul));
    env.put(0, "/".to_owned(), Lval::Fun(Builtin::Div));
    env.put(0, "def".to_owned(), Lval::Fun(Builtin::Def));
    env.put(0, "=".to_owned(), Lval::Fun(Builtin::Put));
    env.put(0, "set".to_owned(), Lval::Fun(Builtin::Put));
    env.put(0, "setq".to_owned(), Lval::Fun(Builtin::Put));
    env.put(0, "\\".to_owned(), Lval::Fun(Builtin::Lambda));
    env.put(0, "car".to_owned(), Lval::Fun(Builtin::Head));
    env.put(0, "head".to_owned(), Lval::Fun(Builtin::Head));
    env.put(0, "cdr".to_owned(), Lval::Fun(Builtin::Tail));
    env.put(0, "tail".to_owned(), Lval::Fun(Builtin::Tail));
    env.put(0, "cons".to_owned(), Lval::Fun(Builtin::Cons));
    env.put(0, "defun".to_owned(), Lval::Fun(Builtin::Lambda));
    env.put(0, "list".to_owned(), Lval::Fun(Builtin::List));
    env.put(0, "eq".to_owned(), Lval::Fun(Builtin::Eq));
    env.put(0, "equal".to_owned(), Lval::Fun(Builtin::Equal));
    env.put(0, "neq".to_owned(), Lval::Fun(Builtin::Ne));
    env.put(0, "null".to_owned(), Lval::Fun(Builtin::Null));
    env.put(0, "cond".to_owned(), Lval::Fun(Builtin::Cond));
    env.put(0, "print".to_owned(), Lval::Fun(Builtin::Print));
}

// ---------------------------------------------------------------------------
// The evaluator
// ---------------------------------------------------------------------------

/// The model of an optional result.
pub open spec fn opt_view(r: Option<Lval>) -> Option<Lv> {
    match r {
        Some(x) => Some(lval_view(x)),
        None => None,
    }
}

/// Outcome of evaluating a list of cells left to right.
pub enum CellsOut {
    Vals(Vec<Lval>),
    Fail(Lval),
    Stop,
}

/// The model of a `CellsOut`.
pub open spec fn cells_out_view(o: CellsOut) -> CellsM {
    match o {
        CellsOut::Vals(vs) => CellsM::Vals(cells_view(vs@)),
        CellsOut::Fail(e) => CellsM::Fail(lval_view(e)),
        CellsOut::Stop => CellsM::Stop,
    }
}

/// Outcome of binding arguments to a lambda's formals.
pub enum BindOut {
    Done,
    Partial(Vec<Lval>),
    Fail(Lval),
}

/// The model of a `BindOut`.
pub open spec fn bind_out_view(o: BindOut) -> BindM {
    match o {
        BindOut::Done => BindM::Done,
        BindOut::Partial(rem) => BindM::Partial(cells_view(rem@)),
        BindOut::Fail(e) => BindM::Fail(lval_view(e)),
    }
}

/// Repeatedly unwrap a `Qexpr` holding exactly one `Qexpr`.
fn unwrap_exec(a: Lval) -> (r: Lval)
    ensures
        r@ == unwrap_q(a@),
    decreases a,
{
    match a {
        Lval::Qexpr(mut cells) => {
            let ghost qcv = cells_view(cells@);
            if cells.len() == 1 && matches!(&cells[0], Lval::Qexpr(_)) {
                let c0 = cells.remove(0);
                proof {
                    assert(c0@ == qcv[0]);
                    assert(qcv[0] is Qexpr);
                }
                unwrap_exec(c0)
            } else {
                proof {
                    assert(!(qcv.len() == 1 && qcv[0] is Qexpr));
                }
                Lval::Qexpr(cells)
            }
        },
        other => other,
    }
}

/// Positional one-at-a-time binding of arguments into frame `nf`.
fn bind_args(
    env: &mut Lenv,
    nf: usize,
    formals: Vec<Lval>,
    args: Vec<Lval>,
    given: usize,
    total: usize,
) -> (r: BindOut)
    requires
        env_wf(old(env)@),
        nf < old(env)@.frames.len(),
        cells_wf(cells_view(formals@), old(env)@.frames.len() as int),
        cells_wf(cells_view(args@), old(env)@.frames.len() as int),
    ensures
        ({
            let (em, rm) = bind_m(
                old(env)@,
                nf as int,
                cells_view(formals@),
                cells_view(args@),
                given as int,
                total as int,
            );
            final(env)@ == em && bind_out_view(r) == rm
        }),
        env_wf(final(env)@),
        final(env)@.frames.len() == old(env)@.frames.len(),
        (r matches BindOut::Partial(rem) ==> cells_wf(
            cells_view(rem@),
            final(env)@.frames.len() as int,
        )),
        (r matches BindOut::Fail(e) ==> e@ is Error),
    decreases args@.len(),
{
    let ghost n = old(env)@.frames.len() as int;
    let ghost fv = cells_view(formals@);
    let ghost av = cells_view(args@);
    proof {
        crate::model::lemma_bind_m_wf(old(env)@, nf as int, fv, av, given as int, total as int);
    }
    if args.len() == 0 {
        if formals.len() == 0 {
            BindOut::Done
        } else {
            BindOut::Partial(formals)
        }
    } else if formals.len() == 0 {
        let mut msg: String = "Function passed too many arguments. Got ".to_owned();
        msg.append(fmt_u64(given as u64).as_str());
        msg.append(", Expected ");
        msg.append(fmt_u64(total as u64).as_str());
        msg.append(".");
        proof {
            assert(msg@ =~= "Function passed too many arguments. Got "@ + dec_int_m(given as int)
                + ", Expected "@ + dec_int_m(total as int) + "."@);
        }
        BindOut::Fail(Lval::Error(msg))
    } else {
        let mut formals = formals;
        let mut args = args;
        let sym = formals.remove(0);
        proof {
            assert(sym@ == fv[0]);
            assert(cells_view(formals@) =~= fv.drop_first());
        }
        match sym {
            Lval::Sym(k) => {
                let a = args.remove(0);
                proof {
                    assert(a@ == av[0]);
                    assert(cells_view(args@) =~= av.drop_first());
                    crate::model::lemma_cells_wf(av, n);
                    assert(val_wf(av[0], n));
                    crate::model::lemma_env_put_wf(old(env)@, nf as int, k@, av[0]);
                    lemma_cells_wf_drop(fv, n);
                    lemma_cells_wf_drop(av, n);
                }
                env.put(nf, k, a);
                bind_args(env, nf, formals, args, given, total)
            },
            _ => BindOut::Fail(err_str("Formal should be a symbol")),
        }
    }
}

/// Evaluate cells left to right, threading the environment, stopping at the
/// first error value.
pub fn eval_cells(env: &mut Lenv, fr: usize, cells: Vec<Lval>, fuel: u64) -> (r: CellsOut)
    requires
        env_wf(old(env)@),
        fr < old(env)@.frames.len(),
        cells_wf(cells_view(cells@), old(env)@.frames.len() as int),
    ensures
        ({
            let (em, rm) = eval_elems_m(old(env)@, fr as int, cells_view(cells@), fuel as nat);
            final(env)@ == em && cells_out_view(r) == rm
        }),
        env_wf(final(env)@),
        old(env)@.frames.len() <= final(env)@.frames.len(),
        (r matches CellsOut::Vals(vs) ==> cells_wf(
            cells_view(vs@),
            final(env)@.frames.len() as int,
        ) && vs@.len() == cells@.len()),
        (r matches CellsOut::Fail(e) ==> e@ is Error),
    decreases fuel, 3int, cells@.len(), 0int,
{
    let ghost n = old(env)@.frames.len() as int;
    let ghost cv = cells_view(cells@);
    if fuel == 0 {
        return CellsOut::Stop;
    }
    if cells.len() == 0 {
        let vs: Vec<Lval> = Vec::new();
        proof {
            assert(cells_view(vs@) =~= Seq::<Lv>::empty());
            crate::model::lemma_cells_wf(cells_view(vs@), n);
        }
        return CellsOut::Vals(vs);
    }
    let mut cells = cells;
    let head = cells.remove(0);
    proof {
        assert(head@ == cv[0]);
        assert(cells_view(cells@) =~= cv.drop_first());
        crate::model::lemma_cells_wf(cv, n);
        assert(val_wf(cv[0], n));
        lemma_cells_wf_drop(cv, n);
    }
    let r0 = lval_eval(env, fr, head, fuel - 1);
    match r0 {
        None => CellsOut::Stop,
        Some(rv) => {
            if matches!(&rv, Lval::Error(_)) {
                proof {
                    assert(rv@ is Error);
                }
                return CellsOut::Fail(rv);
            }
            proof {
                assert(!(rv@ is Error));
                lemma_cells_wf_mono(cv.drop_first(), n, env@.frames.len() as int);
            }
            let ghost mid = env@;
            let rest = eval_cells(env, fr, cells, fuel);
            match rest {
                CellsOut::Vals(mut vs) => {
                    let ghost vsv = cells_view(vs@);
                    proof {
                        lemma_val_wf_mono(
                            rv@,
                            mid.frames.len() as int,
                            env@.frames.len() as int,
                        );
                    }
                    vs.insert(0, rv);
                    proof {
                        assert(cells_view(vs@) =~= seq![rv@] + vsv);
                        crate::model::lemma_cells_wf(vsv, env@.frames.len() as int);
                        crate::model::lemma_cells_wf(
                            cells_view(vs@),
                            env@.frames.len() as int,
                        );
                    }
                    CellsOut::Vals(vs)
                },
                other => other,
            }
        },
    }
}

/// `eval` builtin: unwrap nested quoting, then re-enter the evaluator on the
/// quoted cells as code.
pub fn builtin_eval(env: &mut Lenv, fr: usize, args: Vec<Lval>, fuel: u64) -> (r: Option<Lval>)
    requires
        env_wf(old(env)@),
        fr < old(env)@.frames.len(),
        cells_wf(cells_view(args@), old(env)@.frames.len() as int),
    ensures
        ({
            let (em, rm) = beval_m(old(env)@, fr as int, cells_view(args@), fuel as nat);
            final(env)@ == em && opt_view(r) == rm
        }),
        env_wf(final(env)@),
        old(env)@.frames.len() <= final(env)@.frames.len(),
        (r matches Some(x) ==> val_wf(x@, final(env)@.frames.len() as int)),
    decreases fuel, 3int, 0int, 0int,
{
    let ghost n = old(env)@.frames.len() as int;
    let ghost av = cells_view(args@);
    if fuel == 0 {
        return None;
    }
    if args.len() != 1 {
        return Some(err_str("Expected 1 arg"));
    }
    let mut args = args;
    let a = args.remove(0);
    proof {
        assert(a@ == av[0]);
        crate::model::lemma_cells_wf(av, n);
        assert(val_wf(av[0], n));
        lemma_unwrap_wf(av[0], n);
    }
    let u = unwrap_exec(a);
    match u {
        Lval::Qexpr(cells) => {
            proof {
                assert(val_wf(Lv::Sexpr(cells_view(cells@)), n));
            }
            lval_eval(env, fr, Lval::Sexpr(cells), fuel - 1)
        },
        _ => Some(err_str("Argument must be Qexpr")),
    }
}

/// `setq` special form.
pub fn builtin_putq(env: &mut Lenv, fr: usize, cells: Vec<Lval>, fuel: u64) -> (r: Option<Lval>)
    requires
        env_wf(old(env)@),
        fr < old(env)@.frames.len(),
        cells_wf(cells_view(cells@), old(env)@.frames.len() as int),
    ensures
        ({
            let (em, rm) = putq_m(old(env)@, fr as int, cells_view(cells@), fuel as nat);
            final(env)@ == em && opt_view(r) == rm
        }),
        env_wf(final(env)@),
        old(env)@.frames.len() <= final(env)@.frames.len(),
        (r matches Some(x) ==> val_wf(x@, final(env)@.frames.len() as int)),
    decreases fuel, 3int, 0int, 0int,
{
    let ghost n = old(env)@.frames.len() as int;
    let ghost cv = cells_view(cells@);
    if fuel == 0 {
        return None;
    }
    if cells.len() != 3 {
        return Some(err_str("Function 'setq' passed incorrect number of arguments."));
    }
    match &cells[1] {
        Lval::Sym(_) => {},
        _ => {
            proof {
                assert(!(cv[1] is Sym));
            }
            return Some(err_str("First argument to setq must be a symbol"));
        },
    }
    let mut cells = cells;
    let _form = cells.remove(0);
    let symv = cells.remove(0);
    let expr = cells.remove(0);
    proof {
        assert(symv@ == cv[1]);
        assert(expr@ == cv[2]);
        crate::model::lemma_cells_wf(cv, n);
        assert(val_wf(cv[2], n));
    }
    let r0 = lval_eval(env, fr, expr, fuel - 1);
    match r0 {
        None => None,
        Some(rv) => {
            if matches!(&rv, Lval::Error(_)) {
                proof {
                    assert(rv@ is Error);
                }
                return Some(rv);
            }
            let k: String = match symv {
                Lval::Sym(s) => s,
                _ => String::new(),
            };
            proof {
                assert(!(rv@ is Error));
                assert(k@ == crate::model::sym_name(cv[1]));
                crate::model::lemma_env_put_wf(env@, fr as int, k@, rv@);
            }
            env.put(fr, k, rv);
            let mut void: Vec<Lval> = Vec::new();
            proof {
                assert(cells_view(void@) =~= Seq::<Lv>::empty());
            }
            Some(Lval::Sexpr(void))
        },
    }
}

/// `cond`: evaluate clauses in order; the first clause whose test is true
/// (neither `NIL` nor zero) decides the result.
#[verifier::loop_isolation(false)]
pub fn builtin_cond(env: &mut Lenv, fr: usize, clauses: Vec<Lval>, fuel: u64) -> (r: Option<Lval>)
    requires
        env_wf(old(env)@),
        fr < old(env)@.frames.len(),
        cells_wf(cells_view(clauses@), old(env)@.frames.len() as int),
    ensures
        ({
            let (em, rm) = cond_m(old(env)@, fr as int, cells_view(clauses@), fuel as nat);
            final(env)@ == em && opt_view(r) == rm
        }),
        env_wf(final(env)@),
        old(env)@.frames.len() <= final(env)@.frames.len(),
        (r matches Some(x) ==> val_wf(x@, final(env)@.frames.len() as int)),
    decreases fuel, 3int, 0int, 0int,
{
    let ghost n = old(env)@.frames.len() as int;
    let ghost cv = cells_view(clauses@);
    let mut i: usize = 0;
    proof {
        assert(cv.skip(0) =~= cv);
    }
    while i < clauses.len()
        invariant
            i <= clauses@.len(),
            cv == cells_view(clauses@),
            env_wf(env@),
            old(env)@.frames.len() <= env@.frames.len(),
            cells_wf(cv, env@.frames.len() as int),
            cond_m(old(env)@, fr as int, cv, fuel as nat) == cond_m(
                env@,
                fr as int,
                cv.skip(i as int),
                fuel as nat,
            ),
        decreases clauses@.len() - i,
    {
        proof {
            assert(cv.skip(i as int)[0] == cv[i as int]);
            assert(cv.skip(i as int).drop_first() =~= cv.skip(i as int + 1));
            crate::model::lemma_cells_wf(cv, env@.frames.len() as int);
            assert(val_wf(cv[i as int], env@.frames.len() as int));
        }
        let clause = clauses[i].dup();
        proof {
            assert(clause@ == cv[i as int]);
        }
        let raw: Vec<Lval> = match clause {
            Lval::Qexpr(c) => c,
            Lval::Sexpr(c) => c,
            _ => {
                return Some(err_str("Cond branches must be Qexpr or Sexpr"));
            },
        };
        let ghost rawv = cells_view(raw@);
        if fuel == 0 {
            return None;
        }
        let mut body_cells: Vec<Lval>;
        if raw.len() == 1 && matches!(&raw[0], Lval::Sexpr(_)) {
            let mut raw = raw;
            let c0 = raw.remove(0);
            proof {
                assert(c0@ == rawv[0]);
                assert(rawv[0] is Sexpr);
            }
            body_cells = match c0 {
                Lval::Sexpr(inner) => inner,
                _ => Vec::new(),
            };
        } else {
            proof {
                assert(!(rawv.len() == 1 && rawv[0] is Sexpr));
            }
            body_cells = raw;
        }
        let ghost bcv = if rawv.len() == 1 && rawv[0] is Sexpr {
            list_cells(rawv[0])
        } else {
            rawv
        };
        proof {
            assert(cells_view(body_cells@) == bcv);
            assert(cells_wf(bcv, env@.frames.len() as int)) by {
                crate::model::lemma_cells_wf(rawv, env@.frames.len() as int);
                if rawv.len() == 1 && rawv[0] is Sexpr {
                    assert(val_wf(rawv[0], env@.frames.len() as int));
                }
            }
        }
        if body_cells.len() < 2 {
            return Some(err_str("Cond branch too short"));
        }
        let test = body_cells.remove(0);
        let ghost envpre = env@;
        proof {
            assert(test@ == bcv[0]);
            assert(cells_view(body_cells@) =~= bcv.drop_first());
            crate::model::lemma_cells_wf(bcv, env@.frames.len() as int);
            assert(val_wf(bcv[0], env@.frames.len() as int));
        }
        let r0 = lval_eval(env, fr, test, fuel - 1);
        match r0 {
            None => {
                return None;
            },
            Some(rv) => {
                if matches!(&rv, Lval::Error(_)) {
                    proof {
                        assert(rv@ is Error);
                    }
                    return Some(rv);
                }
                let is_true = match &rv {
                    Lval::NIL => false,
                    Lval::Num(x) => *x != 0,
                    _ => true,
                };
                proof {
                    assert(is_true == truthy(rv@));
                }
                if is_true {
                    let body = body_cells.remove(0);
                    proof {
                        assert(body@ == bcv.drop_first()[0]);
                        assert(bcv.drop_first()[0] == bcv[1]);
                        lemma_cells_wf_mono(bcv, envpre.frames.len() as int,
                            env@.frames.len() as int);
                        crate::model::lemma_cells_wf(bcv, env@.frames.len() as int);
                        assert(val_wf(bcv[1], env@.frames.len() as int));
                    }
                    return lval_eval(env, fr, body, fuel - 1);
                }
                proof {
                    lemma_cells_wf_mono(cv, envpre.frames.len() as int,
                        env@.frames.len() as int);
                }
            },
        }
        i += 1;
    }
    proof {
        assert(cv.skip(clauses@.len() as int) =~= Seq::<Lv>::empty());
    }
    let mut void: Vec<Lval> = Vec::new();
    proof {
        assert(cells_view(void@) =~= Seq::<Lv>::empty());
    }
    Some(Lval::Sexpr(void))
}

/// Apply a procedure value to evaluated arguments.
pub fn lval_call(env: &mut Lenv, fr: usize, f: Lval, args: Vec<Lval>, fuel: u64) -> (r: Option<
    Lval,
>)
    requires
        env_wf(old(env)@),
        fr < old(env)@.frames.len(),
        val_wf(f@, old(env)@.frames.len() as int),
        cells_wf(cells_view(args@), old(env)@.frames.len() as int),
    ensures
        ({
            let (em, rm) = call_m(old(env)@, fr as int, f@, cells_view(args@), fuel as nat);
            final(env)@ == em && opt_view(r) == rm
        }),
        env_wf(final(env)@),
        old(env)@.frames.len() <= final(env)@.frames.len(),
        (r matches Some(x) ==> val_wf(x@, final(env)@.frames.len() as int)),
    decreases fuel, 4int, 0int, 0int,
{
    let ghost n = old(env)@.frames.len() as int;
    let ghost av = cells_view(args@);
    if fuel == 0 {
        return None;
    }
    match f {
        Lval::Fun(b) => match b {
            Builtin::Add => {
                proof {
                    lemma_arith_wf(Builtin::Add, av, n);
                }
                Some(builtin_op(args, Builtin::Add))
            },
            Builtin::Sub => {
                proof {
                    lemma_arith_wf(Builtin::Sub, av, n);
                }
                Some(builtin_op(args, Builtin::Sub))
            },
            Builtin::Mul => {
                proof {
                    lemma_arith_wf(Builtin::Mul, av, n);
                }
                Some(builtin_op(args, Builtin::Mul))
            },
            Builtin::Div => {
                proof {
                    lemma_arith_wf(Builtin::Div, av, n);
                }
                Some(builtin_op(args, Builtin::Div))
            },
            Builtin::Def => Some(builtin_def(env, fr, args)),
            Builtin::Put => Some(builtin_put(env, fr, args)),
            Builtin::Lambda => Some(builtin_lambda(env, args)),
            Builtin::Head => {
                proof {
                    lemma_head_wf(av, n);
                }
                Some(builtin_head(args))
            },
            Builtin::Tail => {
                proof {
                    lemma_tail_wf(av, n);
                }
                Some(builtin_tail(args))
            },
            Builtin::List => {
                proof {
                    assert(val_wf(crate::model::list_m(av), n));
                }
                Some(builtin_list(args))
            },
            Builtin::Eval => builtin_eval(env, fr, args, fuel),
            Builtin::Join => {
                proof {
                    lemma_join_cells_wf(av, n);
                    crate::model::lemma_cells_wf(crate::model::join_cells(av), n);
                }
                Some(builtin_join(args))
            },
            Builtin::Cons => {
                proof {
                    lemma_cons_cells_wf(av, n);
                    crate::model::lemma_cells_wf(crate::model::cons_cells(av), n);
                }
                Some(builtin_cons(args))
            },
            Builtin::Eq => {
                proof {
                    assert(val_wf(eqb_m(av), n));
                }
                Some(builtin_eq(args))
            },
            Builtin::Equal => {
                proof {
                    assert(val_wf(equal_m(av), n));
                }
                Some(builtin_equal(args))
            },
            Builtin::Ne => {
                proof {
                    assert(val_wf(ne_m(av), n));
                }
                Some(builtin_ne(args))
            },
            Builtin::Null => {
                proof {
                    assert(val_wf(null_m(av), n));
                }
                Some(builtin_null(args))
            },
            Builtin::Cond => builtin_cond(env, fr, args, fuel),
            Builtin::Print => Some(builtin_print(env, args)),
        },
        Lval::Lambda(ci, formals, body) => {
            proof {
                assert(0 <= ci < n);
                crate::model::lemma_env_copy_wf(old(env)@, ci as int);
            }
            let given = args.len();
            let total = formals.len();
            let nf = env.copy(ci);
            let ghost fv = cells_view(formals@);
            let ghost bv = cells_view(body@);
            proof {
                assert(cells_wf(fv, n));
                assert(cells_wf(bv, n));
                lemma_cells_wf_mono(fv, n, n + 1);
                lemma_cells_wf_mono(bv, n, n + 1);
                crate::model::lemma_cells_wf(av, n);
                assert(cells_wf(av, n + 1)) by {
                    lemma_cells_wf_mono(av, n, n + 1);
                }
            }
            let bound = bind_args(env, nf, formals, args, given, total);
            match bound {
                BindOut::Done => {
                    proof {
                        crate::model::lemma_set_parent_wf(env@, nf as int, fr as int);
                    }
                    env.set_parent(nf, fr);
                    proof {
                        lemma_cells_wf_mono(bv, n + 1, env@.frames.len() as int);
                    }
                    lval_eval(env, nf, Lval::Sexpr(body), fuel - 1)
                },
                BindOut::Partial(rem) => {
                    proof {
                        assert(val_wf(
                            Lv::Lambda(nf as int, cells_view(rem@), bv),
                            env@.frames.len() as int,
                        ));
                    }
                    Some(Lval::Lambda(nf, rem, body))
                },
                BindOut::Fail(e) => Some(e),
            }
        },
        _ => Some(err_str("S-expression starts with incorrect type")),
    }
}

/// Reduce one value to a result.  `None` means the evaluation-depth budget
/// ran out; every language-level failure is an `Error` value inside `Some`.
pub fn lval_eval(env: &mut Lenv, fr: usize, v: Lval, fuel: u64) -> (r: Option<Lval>)
    requires
        env_wf(old(env)@),
        fr < old(env)@.frames.len(),
        val_wf(v@, old(env)@.frames.len() as int),
    ensures
        ({
            let (em, rm) = eval_m(old(env)@, fr as int, v@, fuel as nat);
            final(env)@ == em && opt_view(r) == rm
        }),
        env_wf(final(env)@),
        old(env)@.frames.len() <= final(env)@.frames.len(),
        (r matches Some(x) ==> val_wf(x@, final(env)@.frames.len() as int)),
    decreases fuel, 9int, 0int, 0int,
{
    let ghost n = old(env)@.frames.len() as int;
    if fuel == 0 {
        return None;
    }
    match v {
        Lval::Sym(s) => {
            if str_is(&s, "T") || str_is(&s, "t") {
                return Some(Lval::T);
            }
            if str_is(&s, "nil") {
                return Some(Lval::NIL);
            }
            match env.get(fr, &s) {
                Some(val) => {
                    proof {
                        lemma_env_get_wf(old(env)@, fr as int, s@);
                    }
                    Some(val)
                },
                None => {
                    let mut msg: String = "Unbound symbol '".to_owned();
                    msg.append(s.as_str());
                    msg.append("'");
                    proof {
                        assert(msg@ =~= "Unbound symbol '"@ + s@ + "'"@);
                    }
                    Some(Lval::Error(msg))
                },
            }
        },
        Lval::Sexpr(cells) => {
            let ghost cv = cells_view(cells@);
            proof {
                assert(cells_wf(cv, n));
            }
            if cells.len() == 0 {
                return Some(Lval::Sexpr(cells));
            }
            let is_quote: bool;
            let is_setq: bool;
            let is_defun: bool;
            let is_cond: bool;
            match &cells[0] {
                Lval::Sym(s) => {
                    is_quote = str_is(s, "quote");
                    is_setq = str_is(s, "setq");
                    is_defun = str_is(s, "defun");
                    is_cond = str_is(s, "cond");
                },
                _ => {
                    proof {
                        assert(!(cv[0] is Sym));
                    }
                    is_quote = false;
                    is_setq = false;
                    is_defun = false;
                    is_cond = false;
                },
            }
            proof {
                assert(is_quote == (cv[0] == Lv::Sym("quote"@)));
                assert(is_setq == (cv[0] == Lv::Sym("setq"@)));
                assert(is_defun == (cv[0] == Lv::Sym("defun"@)));
                assert(is_cond == (cv[0] == Lv::Sym("cond"@)));
            }
            if is_quote {
                proof {
                    lemma_quote_wf(cv, n);
                }
                return Some(builtin_quote(cells));
            }
            if is_setq {
                return builtin_putq(env, fr, cells, fuel);
            }
            if is_defun {
                return Some(builtin_defun(env, fr, cells));
            }
            if is_cond {
                let mut cells = cells;
                let _form = cells.remove(0);
                proof {
                    assert(cells_view(cells@) =~= cv.drop_first());
                    lemma_cells_wf_drop(cv, n);
                }
                return builtin_cond(env, fr, cells, fuel);
            }
            let out = eval_cells(env, fr, cells, fuel);
            match out {
                CellsOut::Stop => None,
                CellsOut::Fail(e) => Some(e),
                CellsOut::Vals(rs) => {
                    let ghost rsv = cells_view(rs@);
                    if rs.len() == 0 {
                        let rs2 = rs;
                        return Some(Lval::Sexpr(rs2));
                    }
                    let mut rs = rs;
                    if rs.len() == 1 {
                        let x = rs.remove(0);
                        proof {
                            assert(x@ == rsv[0]);
                            crate::model::lemma_cells_wf(rsv, env@.frames.len() as int);
                        }
                        return Some(x);
                    }
                    let fv = rs.remove(0);
                    proof {
                        assert(fv@ == rsv[0]);
                        assert(cells_view(rs@) =~= rsv.drop_first());
                        crate::model::lemma_cells_wf(rsv, env@.frames.len() as int);
                        assert(val_wf(rsv[0], env@.frames.len() as int));
                        lemma_cells_wf_drop(rsv, env@.frames.len() as int);
                    }
                    lval_call(env, fr, fv, rs, fuel)
                },
            }
        },
        other => {
            proof {
                assert(eval_m(old(env)@, fr as int, other@, fuel as nat) == (
                    old(env)@,
                    Some(other@),
                ));
            }
            Some(other)
        },
    }
}

} // verus!
