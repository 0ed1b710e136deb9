//! General laws of the language, proved against the model in `model`.
//!
//! Each law is stated over the same spec functions that the executable
//! evaluator's contracts use, so it holds of the evaluator as well.

use vstd::prelude::*;
use crate::types::Builtin;
use crate::model::{
    Lv, EnvM, FrameM, BindM, eval_m, eval_sexpr_m, eval_elems_m, call_m, CellsM, env_get, env_put,
    env_def, env_wf, root_of, frame_get, bind_m, eq_m, seqs_eq_m, builtins_m, arith_m, all_nums,
    lemma_root_of_range,
};

verus! {

/// The global environment as the interpreter starts: one root frame holding
/// every builtin, nothing printed yet.
pub open spec fn ground_env() -> EnvM {
    builtins_m(
        EnvM { frames: seq![FrameM { parent: None, data: Seq::empty() }], out: Seq::empty() },
    )
}

/// A value free of procedures (no builtin reference, no lambda anywhere).
pub open spec fn fun_free(v: Lv) -> bool
    decreases v,
{
    match v {
        Lv::Fun(_) => false,
        Lv::Lambda(_, _, _) => false,
        Lv::Sexpr(cells) => cells_fun_free(cells),
        Lv::Qexpr(cells) => cells_fun_free(cells),
        _ => true,
    }
}

/// Every value of the sequence is free of procedures.
pub open spec fn cells_fun_free(s: Seq<Lv>) -> bool
    decreases s,
{
    s.len() == 0 || (fun_free(s[0]) && cells_fun_free(s.drop_first()))
}

/// Structural equality is reflexive on procedure-free values.  (It is not
/// reflexive on a builtin reference or a lambda: procedures are never equal
/// to anything, themselves included.)
pub proof fn lemma_equal_reflexive(v: Lv)
    requires
        fun_free(v),
    ensures
        eq_m(v, v),
    decreases v,
{
    match v {
        Lv::Sexpr(cells) => {
            lemma_seqs_eq_reflexive(cells);
        },
        Lv::Qexpr(cells) => {
            lemma_seqs_eq_reflexive(cells);
        },
        _ => {},
    }
}

proof fn lemma_seqs_eq_reflexive(s: Seq<Lv>)
    requires
        cells_fun_free(s),
    ensures
        seqs_eq_m(s, s),
    decreases s,
{
    if s.len() > 0 {
        lemma_equal_reflexive(s[0]);
        lemma_seqs_eq_reflexive(s.drop_first());
    }
}

/// Structural equality is symmetric, on all values.
pub proof fn lemma_equal_symmetric(a: Lv, b: Lv)
    ensures
        eq_m(a, b) == eq_m(b, a),
    decreases a,
{
    match (a, b) {
        (Lv::Sexpr(x), Lv::Sexpr(y)) => {
            lemma_seqs_eq_symmetric(x, y);
        },
        (Lv::Qexpr(x), Lv::Qexpr(y)) => {
            lemma_seqs_eq_symmetric(x, y);
        },
        _ => {},
    }
}

proof fn lemma_seqs_eq_symmetric(x: Seq<Lv>, y: Seq<Lv>)
    ensures
        seqs_eq_m(x, y) == seqs_eq_m(y, x),
    decreases x,
{
    if x.len() == y.len() && x.len() > 0 {
        lemma_equal_symmetric(x[0], y[0]);
        lemma_seqs_eq_symmetric(x.drop_first(), y.drop_first());
    }
}

/// Structural equality is transitive, on all values.
pub proof fn lemma_equal_transitive(a: Lv, b: Lv, c: Lv)
    requires
        eq_m(a, b),
        eq_m(b, c),
    ensures
        eq_m(a, c),
    decreases a,
{
    match (a, b, c) {
        (Lv::Sexpr(x), Lv::Sexpr(y), Lv::Sexpr(z)) => {
            lemma_seqs_eq_transitive(x, y, z);
        },
        (Lv::Qexpr(x), Lv::Qexpr(y), Lv::Qexpr(z)) => {
            lemma_seqs_eq_transitive(x, y, z);
        },
        _ => {},
    }
}

proof fn lemma_seqs_eq_transitive(x: Seq<Lv>, y: Seq<Lv>, z: Seq<Lv>)
    requires
        seqs_eq_m(x, y),
        seqs_eq_m(y, z),
    ensures
        seqs_eq_m(x, z),
    decreases x,
{
    if x.len() > 0 {
        lemma_equal_transitive(x[0], y[0], z[0]);
        lemma_seqs_eq_transitive(x.drop_first(), y.drop_first(), z.drop_first());
    }
}

/// Binding a name with `def` semantics makes it visible at the top level:
/// looking the name up at the root of the defining frame's chain finds
/// exactly the bound value, whatever frame the `def` ran in.
pub proof fn lemma_def_binds_globally(env: EnvM, fr: int, k: Seq<char>, v: Lv)
    requires
        env_wf(env),
        0 <= fr < env.frames.len(),
    ensures
        env_get(env_def(env, fr, k, v), root_of(env, fr), k) == Some(v),
{
    lemma_root_of_range(env, fr);
    let r0 = root_of(env, fr);
    let env2 = env_def(env, fr, k, v);
    assert(env2.frames[r0].data.last() == (k, v));
}

/// The `def` builtin applied to one quoted symbol and one value makes the
/// binding visible at the top level of the defining frame's chain, whatever
/// frame the call ran in.
pub proof fn lemma_def_builtin_binds_globally(env: EnvM, fr: int, k: Seq<char>, v: Lv)
    requires
        env_wf(env),
        0 <= fr < env.frames.len(),
    ensures
        ({
            let args = seq![Lv::Qexpr(seq![Lv::Sym(k)]), v];
            let (env2, r) = crate::model::var_m(env, fr, args, true);
            &&& r == Lv::Sexpr(Seq::<Lv>::empty())
            &&& env_get(env2, root_of(env, fr), k) == Some(v)
        }),
{
    let args = seq![Lv::Qexpr(seq![Lv::Sym(k)]), v];
    let syms = crate::model::unwrap_formals(seq![Lv::Sym(k)]);
    assert(syms =~= seq![Lv::Sym(k)]);
    assert(crate::model::all_syms(syms)) by {
        assert(syms[0] is Sym);
    }
    assert(args.drop_first() =~= seq![v]);
    lemma_root_of_range(env, fr);
    let target = root_of(env, fr);
    let env1 = env_put(env, target, k, v);
    assert(crate::model::bind_pairs(env, target, syms, seq![v]) == env1) by {
        reveal_with_fuel(crate::model::bind_pairs, 3);
        assert(syms.drop_first() =~= Seq::<Lv>::empty());
        assert(seq![v].drop_first() =~= Seq::<Lv>::empty());
        assert(crate::model::sym_name(syms[0]) == k);
    }
    assert(env1.frames[target].data.last() == (k, v));
}

/// Binding a name with `setq` semantics in a non-root frame does not leak
/// out: top-level lookup of the name is unchanged.
pub proof fn lemma_setq_stays_local(env: EnvM, fr: int, k: Seq<char>, v: Lv)
    requires
        env_wf(env),
        0 <= fr < env.frames.len(),
        root_of(env, fr) != fr,
    ensures
        env_get(env_put(env, fr, k, v), root_of(env, fr), k) == env_get(env, root_of(env, fr), k),
{
    lemma_root_of_range(env, fr);
    let r0 = root_of(env, fr);
    let env2 = env_put(env, fr, k, v);
    assert(env2.frames[r0] == env.frames[r0]);
    assert(env2.frames[r0].parent is None);
}

/// Evaluating a symbol that no frame on the chain binds (and that is not a
/// reserved truth literal) yields exactly the unbound-symbol error, and
/// leaves the environment unchanged.
pub proof fn lemma_unbound_symbol(env: EnvM, fr: int, s: Seq<char>, fuel: nat)
    requires
        fuel >= 1,
        s != "T"@,
        s != "t"@,
        s != "nil"@,
        env_get(env, fr, s) is None,
    ensures
        eval_m(env, fr, Lv::Sym(s), fuel) == (env, Some(
            Lv::Error("Unbound symbol '"@ + s + "'"@),
        )),
{
}

/// Every value other than a symbol or a code list evaluates to itself and
/// leaves the environment unchanged; evaluating it again changes nothing.
pub proof fn lemma_self_evaluating(env: EnvM, fr: int, v: Lv, fuel: nat)
    requires
        fuel >= 1,
        !(v is Sym),
        !(v is Sexpr),
    ensures
        eval_m(env, fr, v, fuel) == (env, Some(v)),
        eval_m(env, fr, v, fuel) == eval_m(
            env,
            fr,
            eval_m(env, fr, v, fuel).1.unwrap(),
            fuel,
        ),
{
}

/// Applying a lambda to fewer arguments than it has formals yields a new
/// lambda over the remaining formals (currying); nothing is evaluated yet.
pub proof fn lemma_currying(env: EnvM, fr: int, ci: int, formals: Seq<Lv>, body: Seq<Lv>,
    args: Seq<Lv>, fuel: nat)
    requires
        fuel >= 1,
        0 <= ci < env.frames.len(),
        args.len() < formals.len(),
        forall|i: int| 0 <= i < formals.len() ==> (#[trigger] formals[i]) is Sym,
    ensures
        call_m(env, fr, Lv::Lambda(ci, formals, body), args, fuel).1 == Some(
            Lv::Lambda(env.frames.len() as int, formals.skip(args.len() as int), body),
        ),
{
    let env1 = crate::model::env_copy(env, ci);
    let nf = env.frames.len() as int;
    lemma_bind_partial(env1, nf, formals, args, args.len() as int, formals.len() as int);
}

/// Binding fewer arguments than formals ends in a partial binding whose
/// remaining formals are exactly the unbound suffix.
proof fn lemma_bind_partial(env: EnvM, nf: int, formals: Seq<Lv>, args: Seq<Lv>, given: int,
    total: int)
    requires
        args.len() < formals.len(),
        forall|i: int| 0 <= i < formals.len() ==> (#[trigger] formals[i]) is Sym,
    ensures
        bind_m(env, nf, formals, args, given, total).1 == BindM::Partial(
            formals.skip(args.len() as int),
        ),
    decreases args.len(),
{
    if args.len() == 0 {
        assert(formals.skip(0) =~= formals);
    } else {
        match formals[0] {
            Lv::Sym(s) => {
                let ft = formals.drop_first();
                assert forall|i: int| 0 <= i < ft.len() implies (#[trigger] ft[i]) is Sym by {
                    assert(ft[i] == formals[i + 1]);
                    assert(formals[i + 1] is Sym);
                }
                lemma_bind_partial(
                    env_put(env, nf, s, args[0]),
                    nf,
                    formals.drop_first(),
                    args.drop_first(),
                    given,
                    total,
                );
                assert(formals.drop_first().skip(args.drop_first().len() as int) =~= formals.skip(
                    args.len() as int,
                ));
            },
            _ => {},
        }
    }
}

/// One more binding under a different name leaves a lookup unchanged.
proof fn lemma_frame_get_push_ne(d: Seq<(Seq<char>, Lv)>, k: Seq<char>, k2: Seq<char>, v: Lv)
    requires
        k2 != k,
    ensures
        frame_get(d.push((k2, v)), k) == frame_get(d, k),
{
    assert(d.push((k2, v)).drop_last() =~= d);
}

/// The newest binding of a name wins.
proof fn lemma_frame_get_push_eq(d: Seq<(Seq<char>, Lv)>, k: Seq<char>, v: Lv)
    ensures
        frame_get(d.push((k, v)), k) == Some(v),
{
}

/// In the standard global environment, `+` and `/` resolve to the
/// arithmetic builtins.
pub proof fn lemma_ground_arith_bound()
    ensures
        env_get(ground_env(), 0, "+"@) == Some(Lv::Fun(Builtin::Add)),
        env_get(ground_env(), 0, "/"@) == Some(Lv::Fun(Builtin::Div)),
{
    reveal_strlit("eval");
    reveal_strlit("join");
    reveal_strlit("+");
    reveal_strlit("-");
    reveal_strlit("*");
    reveal_strlit("/");
    reveal_strlit("def");
    reveal_strlit("=");
    reveal_strlit("set");
    reveal_strlit("setq");
    reveal_strlit("\\");
    reveal_strlit("car");
    reveal_strlit("head");
    reveal_strlit("cdr");
    reveal_strlit("tail");
    reveal_strlit("cons");
    reveal_strlit("defun");
    reveal_strlit("list");
    reveal_strlit("eq");
    reveal_strlit("equal");
    reveal_strlit("neq");
    reveal_strlit("null");
    reveal_strlit("cond");
    reveal_strlit("print");
    assert("eval"@ =~= seq!['e', 'v', 'a', 'l']);
    assert("join"@ =~= seq!['j', 'o', 'i', 'n']);
    assert("+"@ =~= seq!['+']);
    assert("-"@ =~= seq!['-']);
    assert("*"@ =~= seq!['*']);
    assert("/"@ =~= seq!['/']);
    assert("def"@ =~= seq!['d', 'e', 'f']);
    assert("="@ =~= seq!['=']);
    assert("set"@ =~= seq!['s', 'e', 't']);
    assert("setq"@ =~= seq!['s', 'e', 't', 'q']);
    assert("\\"@ =~= seq!['\\']);
    assert("car"@ =~= seq!['c', 'a', 'r']);
    assert("head"@ =~= seq!['h', 'e', 'a', 'd']);
    assert("cdr"@ =~= seq!['c', 'd', 'r']);
    assert("tail"@ =~= seq!['t', 'a', 'i', 'l']);
    assert("cons"@ =~= seq!['c', 'o', 'n', 's']);
    assert("defun"@ =~= seq!['d', 'e', 'f', 'u', 'n']);
    assert("list"@ =~= seq!['l', 'i', 's', 't']);
    assert("eq"@ =~= seq!['e', 'q']);
    assert("equal"@ =~= seq!['e', 'q', 'u', 'a', 'l']);
    assert("neq"@ =~= seq!['n', 'e', 'q']);
    assert("null"@ =~= seq!['n', 'u', 'l', 'l']);
    assert("cond"@ =~= seq!['c', 'o', 'n', 'd']);
    assert("print"@ =~= seq!['p', 'r', 'i', 'n', 't']);
    let d0 = Seq::<(Seq<char>, Lv)>::empty();
    let d1 = d0.push(("eval"@, Lv::Fun(Builtin::Eval)));
    let d2 = d1.push(("join"@, Lv::Fun(Builtin::Join)));
    let d3 = d2.push(("+"@, Lv::Fun(Builtin::Add)));
    let d4 = d3.push(("-"@, Lv::Fun(Builtin::Sub)));
    let d5 = d4.push(("*"@, Lv::Fun(Builtin::Mul)));
    let d6 = d5.push(("/"@, Lv::Fun(Builtin::Div)));
    let d7 = d6.push(("def"@, Lv::Fun(Builtin::Def)));
    let d8 = d7.push(("="@, Lv::Fun(Builtin::Put)));
    let d9 = d8.push(("set"@, Lv::Fun(Builtin::Put)));
    let d10 = d9.push(("setq"@, Lv::Fun(Builtin::Put)));
    let d11 = d10.push(("\\"@, Lv::Fun(Builtin::Lambda)));
    let d12 = d11.push(("car"@, Lv::Fun(Builtin::Head)));
    let d13 = d12.push(("head"@, Lv::Fun(Builtin::Head)));
    let d14 = d13.push(("cdr"@, Lv::Fun(Builtin::Tail)));
    let d15 = d14.push(("tail"@, Lv::Fun(Builtin::Tail)));
    let d16 = d15.push(("cons"@, Lv::Fun(Builtin::Cons)));
    let d17 = d16.push(("defun"@, Lv::Fun(Builtin::Lambda)));
    let d18 = d17.push(("list"@, Lv::Fun(Builtin::List)));
    let d19 = d18.push(("eq"@, Lv::Fun(Builtin::Eq)));
    let d20 = d19.push(("equal"@, Lv::Fun(Builtin::Equal)));
    let d21 = d20.push(("neq"@, Lv::Fun(Builtin::Ne)));
    let d22 = d21.push(("null"@, Lv::Fun(Builtin::Null)));
    let d23 = d22.push(("cond"@, Lv::Fun(Builtin::Cond)));
    let d24 = d23.push(("print"@, Lv::Fun(Builtin::Print)));
    assert(ground_env().frames[0].data =~= d24);
    lemma_frame_get_push_ne(d23, "+"@, "print"@, Lv::Fun(Builtin::Print));
    lemma_frame_get_push_ne(d22, "+"@, "cond"@, Lv::Fun(Builtin::Cond));
    lemma_frame_get_push_ne(d21, "+"@, "null"@, Lv::Fun(Builtin::Null));
    lemma_frame_get_push_ne(d20, "+"@, "neq"@, Lv::Fun(Builtin::Ne));
    lemma_frame_get_push_ne(d19, "+"@, "equal"@, Lv::Fun(Builtin::Equal));
    lemma_frame_get_push_ne(d18, "+"@, "eq"@, Lv::Fun(Builtin::Eq));
    lemma_frame_get_push_ne(d17, "+"@, "list"@, Lv::Fun(Builtin::List));
    lemma_frame_get_push_ne(d16, "+"@, "defun"@, Lv::Fun(Builtin::Lambda));
    lemma_frame_get_push_ne(d15, "+"@, "cons"@, Lv::Fun(Builtin::Cons));
    lemma_frame_get_push_ne(d14, "+"@, "tail"@, Lv::Fun(Builtin::Tail));
    lemma_frame_get_push_ne(d13, "+"@, "cdr"@, Lv::Fun(Builtin::Tail));
    lemma_frame_get_push_ne(d12, "+"@, "head"@, Lv::Fun(Builtin::Head));
    lemma_frame_get_push_ne(d11, "+"@, "car"@, Lv::Fun(Builtin::Head));
    assert("+"@[0] == '+' && "\\"@[0] == '\\' && "="@[0] == '=');
    assert("+"@ != "\\"@ && "+"@ != "="@);
    lemma_frame_get_push_ne(d10, "+"@, "\\"@, Lv::Fun(Builtin::Lambda));
    lemma_frame_get_push_ne(d9, "+"@, "setq"@, Lv::Fun(Builtin::Put));
    lemma_frame_get_push_ne(d8, "+"@, "set"@, Lv::Fun(Builtin::Put));
    lemma_frame_get_push_ne(d7, "+"@, "="@, Lv::Fun(Builtin::Put));
    lemma_frame_get_push_ne(d6, "+"@, "def"@, Lv::Fun(Builtin::Def));
    lemma_frame_get_push_ne(d5, "+"@, "/"@, Lv::Fun(Builtin::Div));
    lemma_frame_get_push_ne(d4, "+"@, "*"@, Lv::Fun(Builtin::Mul));
    lemma_frame_get_push_ne(d3, "+"@, "-"@, Lv::Fun(Builtin::Sub));
    lemma_frame_get_push_eq(d2, "+"@, Lv::Fun(Builtin::Add));
    let d0 = Seq::<(Seq<char>, Lv)>::empty();
    let d1 = d0.push(("eval"@, Lv::Fun(Builtin::Eval)));
    let d2 = d1.push(("join"@, Lv::Fun(Builtin::Join)));
    let d3 = d2.push(("+"@, Lv::Fun(Builtin::Add)));
    let d4 = d3.push(("-"@, Lv::Fun(Builtin::Sub)));
    let d5 = d4.push(("*"@, Lv::Fun(Builtin::Mul)));
    let d6 = d5.push(("/"@, Lv::Fun(Builtin::Div)));
    let d7 = d6.push(("def"@, Lv::Fun(Builtin::Def)));
    let d8 = d7.push(("="@, Lv::Fun(Builtin::Put)));
    let d9 = d8.push(("set"@, Lv::Fun(Builtin::Put)));
    let d10 = d9.push(("setq"@, Lv::Fun(Builtin::Put)));
    let d11 = d10.push(("\\"@, Lv::Fun(Builtin::Lambda)));
    let d12 = d11.push(("car"@, Lv::Fun(Builtin::Head)));
    let d13 = d12.push(("head"@, Lv::Fun(Builtin::Head)));
    let d14 = d13.push(("cdr"@, Lv::Fun(Builtin::Tail)));
    let d15 = d14.push(("tail"@, Lv::Fun(Builtin::Tail)));
    let d16 = d15.push(("cons"@, Lv::Fun(Builtin::Cons)));
    let d17 = d16.push(("defun"@, Lv::Fun(Builtin::Lambda)));
    let d18 = d17.push(("list"@, Lv::Fun(Builtin::List)));
    let d19 = d18.push(("eq"@, Lv::Fun(Builtin::Eq)));
    let d20 = d19.push(("equal"@, Lv::Fun(Builtin::Equal)));
    let d21 = d20.push(("neq"@, Lv::Fun(Builtin::Ne)));
    let d22 = d21.push(("null"@, Lv::Fun(Builtin::Null)));
    let d23 = d22.push(("cond"@, Lv::Fun(Builtin::Cond)));
    let d24 = d23.push(("print"@, Lv::Fun(Builtin::Print)));
    assert(ground_env().frames[0].data =~= d24);
    lemma_frame_get_push_ne(d23, "/"@, "print"@, Lv::Fun(Builtin::Print));
    lemma_frame_get_push_ne(d22, "/"@, "cond"@, Lv::Fun(Builtin::Cond));
    lemma_frame_get_push_ne(d21, "/"@, "null"@, Lv::Fun(Builtin::Null));
    lemma_frame_get_push_ne(d20, "/"@, "neq"@, Lv::Fun(Builtin::Ne));
    lemma_frame_get_push_ne(d19, "/"@, "equal"@, Lv::Fun(Builtin::Equal));
    lemma_frame_get_push_ne(d18, "/"@, "eq"@, Lv::Fun(Builtin::Eq));
    lemma_frame_get_push_ne(d17, "/"@, "list"@, Lv::Fun(Builtin::List));
    lemma_frame_get_push_ne(d16, "/"@, "defun"@, Lv::Fun(Builtin::Lambda));
    lemma_frame_get_push_ne(d15, "/"@, "cons"@, Lv::Fun(Builtin::Cons));
    lemma_frame_get_push_ne(d14, "/"@, "tail"@, Lv::Fun(Builtin::Tail));
    lemma_frame_get_push_ne(d13, "/"@, "cdr"@, Lv::Fun(Builtin::Tail));
    lemma_frame_get_push_ne(d12, "/"@, "head"@, Lv::Fun(Builtin::Head));
    lemma_frame_get_push_ne(d11, "/"@, "car"@, Lv::Fun(Builtin::Head));
    assert("/"@[0] == '/' && "\\"@[0] == '\\' && "="@[0] == '=');
    assert("/"@ != "\\"@ && "/"@ != "="@);
    lemma_frame_get_push_ne(d10, "/"@, "\\"@, Lv::Fun(Builtin::Lambda));
    lemma_frame_get_push_ne(d9, "/"@, "setq"@, Lv::Fun(Builtin::Put));
    lemma_frame_get_push_ne(d8, "/"@, "set"@, Lv::Fun(Builtin::Put));
    lemma_frame_get_push_ne(d7, "/"@, "="@, Lv::Fun(Builtin::Put));
    lemma_frame_get_push_ne(d6, "/"@, "def"@, Lv::Fun(Builtin::Def));
    lemma_frame_get_push_eq(d5, "/"@, Lv::Fun(Builtin::Div));
    assert(ground_env().frames[0].parent is None);
}

/// For all 64-bit integers `a` and `b` whose sum stays in range, the form
/// `(+ a b)` evaluates in the standard global environment to the number
/// `a + b`, leaving the environment unchanged.
#[verifier::rlimit(60)]
pub proof fn lemma_addition_evaluates(a: int, b: int, fuel: nat)
    requires
        fuel >= 2,
        i64::MIN <= a <= i64::MAX,
        i64::MIN <= b <= i64::MAX,
        i64::MIN <= a + b <= i64::MAX,
    ensures
        eval_m(ground_env(), 0, Lv::Sexpr(seq![Lv::Sym("+"@), Lv::Num(a), Lv::Num(b)]), fuel)
            == (ground_env(), Some(Lv::Num(a + b))),
{
    lemma_ground_arith_bound();
    reveal_strlit("+");
    reveal_strlit("/");
    reveal_strlit("quote");
    reveal_strlit("setq");
    reveal_strlit("defun");
    reveal_strlit("cond");
    reveal_strlit("T");
    reveal_strlit("t");
    reveal_strlit("nil");
    assert("+"@ =~= seq!['+']);
    assert("/"@ =~= seq!['/']);
    assert("T"@ =~= seq!['T']);
    assert("t"@ =~= seq!['t']);
    assert("nil"@ =~= seq!['n', 'i', 'l']);
    assert("quote"@ =~= seq!['q', 'u', 'o', 't', 'e']);
    assert("setq"@ =~= seq!['s', 'e', 't', 'q']);
    assert("defun"@ =~= seq!['d', 'e', 'f', 'u', 'n']);
    assert("cond"@ =~= seq!['c', 'o', 'n', 'd']);
    let genv = ground_env();
    let cv = seq![Lv::Sym("+"@), Lv::Num(a), Lv::Num(b)];
    assert(cv[0] == Lv::Sym("+"@));
    assert(cv[1] == Lv::Num(a));
    assert(cv[2] == Lv::Num(b));
    assert("+"@.len() == 1 && "+"@[0] == '+');
    assert("/"@.len() == 1 && "/"@[0] == '/');
    assert("T"@.len() == 1 && "T"@[0] == 'T');
    assert("t"@.len() == 1 && "t"@[0] == 't');
    assert("nil"@.len() == 3);
    assert(crate::model::sym_m(genv, 0, "+"@) == Lv::Fun(Builtin::Add));
    assert(eval_m(genv, 0, cv[0], (fuel - 1) as nat) == (genv, Some(Lv::Fun(Builtin::Add))));
    assert(eval_m(genv, 0, cv[1], (fuel - 1) as nat) == (genv, Some(Lv::Num(a))));
    assert(eval_m(genv, 0, cv[2], (fuel - 1) as nat) == (genv, Some(Lv::Num(b))));
    assert(cv.drop_first() =~= seq![Lv::Num(a), Lv::Num(b)]);
    assert(cv.drop_first().drop_first() =~= seq![Lv::Num(b)]);
    assert(seq![Lv::Num(b)].drop_first() =~= Seq::<Lv>::empty());
    assert(eval_elems_m(genv, 0, Seq::<Lv>::empty(), fuel) == (genv, CellsM::Vals(
        Seq::<Lv>::empty(),
    )));
    assert(eval_elems_m(genv, 0, seq![Lv::Num(b)], fuel) == (genv, CellsM::Vals(
        seq![Lv::Num(b)] + Seq::<Lv>::empty(),
    )));
    assert(seq![Lv::Num(b)] + Seq::<Lv>::empty() =~= seq![Lv::Num(b)]);
    assert(eval_elems_m(genv, 0, cv.drop_first(), fuel) == (genv, CellsM::Vals(
        seq![Lv::Num(a)] + seq![Lv::Num(b)],
    )));
    assert(seq![Lv::Num(a)] + seq![Lv::Num(b)] =~= seq![Lv::Num(a), Lv::Num(b)]);
    assert(eval_elems_m(genv, 0, cv, fuel) == (genv, CellsM::Vals(
        seq![Lv::Fun(Builtin::Add)] + seq![Lv::Num(a), Lv::Num(b)],
    )));
    let rs = seq![Lv::Fun(Builtin::Add)] + seq![Lv::Num(a), Lv::Num(b)];
    assert(rs =~= seq![Lv::Fun(Builtin::Add), Lv::Num(a), Lv::Num(b)]);
    assert(rs.len() == 3);
    assert(rs.drop_first() =~= seq![Lv::Num(a), Lv::Num(b)]);
    let args = seq![Lv::Num(a), Lv::Num(b)];
    assert(all_nums(args)) by {
        assert forall|i: int| 0 <= i < args.len() implies args[i] is Num by {
            if i == 0 {
            } else {
                assert(i == 1);
            }
        }
    }
    assert(args.drop_first() =~= seq![Lv::Num(b)]);
    crate::model::lemma_w64_id(a + b);
    assert(crate::model::arith_fold(Builtin::Add, a, seq![Lv::Num(b)]) == Lv::Num(a + b)) by {
        reveal_with_fuel(crate::model::arith_fold, 3);
        assert(seq![Lv::Num(b)].drop_first() =~= Seq::<Lv>::empty());
    }
    assert(arith_m(Builtin::Add, args) == Lv::Num(a + b));
    assert(call_m(genv, 0, rs[0], rs.drop_first(), fuel) == (genv, Some(Lv::Num(a + b))));
    assert(eval_sexpr_m(genv, 0, cv, fuel) == (genv, Some(Lv::Num(a + b))));
    assert(cv[0] == Lv::Sym("+"@));
    assert("+"@ != "quote"@ && "+"@ != "setq"@ && "+"@ != "defun"@ && "+"@ != "cond"@);
}

/// For every 64-bit integer `a`, the form `(/ a 0)` evaluates in the
/// standard global environment to the division-by-zero error.
#[verifier::rlimit(60)]
pub proof fn lemma_division_by_zero_errors(a: int, fuel: nat)
    requires
        fuel >= 2,
        i64::MIN <= a <= i64::MAX,
    ensures
        eval_m(ground_env(), 0, Lv::Sexpr(seq![Lv::Sym("/"@), Lv::Num(a), Lv::Num(0)]), fuel)
            == (ground_env(), Some(Lv::Error("Division by zero"@))),
{
    lemma_ground_arith_bound();
    reveal_strlit("/");
    reveal_strlit("+");
    reveal_strlit("quote");
    reveal_strlit("setq");
    reveal_strlit("defun");
    reveal_strlit("cond");
    reveal_strlit("T");
    reveal_strlit("t");
    reveal_strlit("nil");
    assert("+"@ =~= seq!['+']);
    assert("/"@ =~= seq!['/']);
    assert("T"@ =~= seq!['T']);
    assert("t"@ =~= seq!['t']);
    assert("nil"@ =~= seq!['n', 'i', 'l']);
    assert("quote"@ =~= seq!['q', 'u', 'o', 't', 'e']);
    assert("setq"@ =~= seq!['s', 'e', 't', 'q']);
    assert("defun"@ =~= seq!['d', 'e', 'f', 'u', 'n']);
    assert("cond"@ =~= seq!['c', 'o', 'n', 'd']);
    let genv = ground_env();
    let cv = seq![Lv::Sym("/"@), Lv::Num(a), Lv::Num(0)];
    assert(cv[0] == Lv::Sym("/"@));
    assert(cv[1] == Lv::Num(a));
    assert(cv[2] == Lv::Num(0));
    assert("+"@.len() == 1 && "+"@[0] == '+');
    assert("/"@.len() == 1 && "/"@[0] == '/');
    assert("T"@.len() == 1 && "T"@[0] == 'T');
    assert("t"@.len() == 1 && "t"@[0] == 't');
    assert("nil"@.len() == 3);
    assert(crate::model::sym_m(genv, 0, "/"@) == Lv::Fun(Builtin::Div));
    assert(eval_m(genv, 0, cv[0], (fuel - 1) as nat) == (genv, Some(Lv::Fun(Builtin::Div))));
    assert(eval_m(genv, 0, cv[1], (fuel - 1) as nat) == (genv, Some(Lv::Num(a))));
    assert(eval_m(genv, 0, cv[2], (fuel - 1) as nat) == (genv, Some(Lv::Num(0))));
    assert(cv.drop_first() =~= seq![Lv::Num(a), Lv::Num(0)]);
    assert(cv.drop_first().drop_first() =~= seq![Lv::Num(0)]);
    assert(seq![Lv::Num(0)].drop_first() =~= Seq::<Lv>::empty());
    assert(eval_elems_m(genv, 0, Seq::<Lv>::empty(), fuel) == (genv, CellsM::Vals(
        Seq::<Lv>::empty(),
    )));
    assert(eval_elems_m(genv, 0, seq![Lv::Num(0)], fuel) == (genv, CellsM::Vals(
        seq![Lv::Num(0)] + Seq::<Lv>::empty(),
    )));
    assert(seq![Lv::Num(0)] + Seq::<Lv>::empty() =~= seq![Lv::Num(0)]);
    assert(eval_elems_m(genv, 0, cv.drop_first(), fuel) == (genv, CellsM::Vals(
        seq![Lv::Num(a)] + seq![Lv::Num(0)],
    )));
    assert(seq![Lv::Num(a)] + seq![Lv::Num(0)] =~= seq![Lv::Num(a), Lv::Num(0)]);
    assert(eval_elems_m(genv, 0, cv, fuel) == (genv, CellsM::Vals(
        seq![Lv::Fun(Builtin::Div)] + seq![Lv::Num(a), Lv::Num(0)],
    )));
    let rs = seq![Lv::Fun(Builtin::Div)] + seq![Lv::Num(a), Lv::Num(0)];
    assert(rs =~= seq![Lv::Fun(Builtin::Div), Lv::Num(a), Lv::Num(0)]);
    assert(rs.drop_first() =~= seq![Lv::Num(a), Lv::Num(0)]);
    let args = seq![Lv::Num(a), Lv::Num(0)];
    assert(all_nums(args)) by {
        assert forall|i: int| 0 <= i < args.len() implies args[i] is Num by {
            if i == 0 {
            } else {
                assert(i == 1);
            }
        }
    }
    assert(args.drop_first() =~= seq![Lv::Num(0)]);
    assert(crate::model::arith_fold(Builtin::Div, a, seq![Lv::Num(0)]) == Lv::Error(
        "Division by zero"@,
    )) by {
        reveal_with_fuel(crate::model::arith_fold, 3);
    }
    assert(arith_m(Builtin::Div, args) == Lv::Error("Division by zero"@));
    assert(call_m(genv, 0, rs[0], rs.drop_first(), fuel) == (genv, Some(Lv::Error(
        "Division by zero"@,
    ))));
    assert(eval_sexpr_m(genv, 0, cv, fuel) == (genv, Some(Lv::Error("Division by zero"@))));
    assert(cv[0] == Lv::Sym("/"@));
    assert("/"@ != "quote"@ && "/"@ != "setq"@ && "/"@ != "defun"@ && "/"@ != "cond"@);
}

} // verus!
