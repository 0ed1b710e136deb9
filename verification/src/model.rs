//! The mathematical model of the language: spec-level values, environments,
//! and the reduction rules the executable evaluator is proved against.

use vstd::prelude::*;
use crate::types::Builtin;

verus! {

/// Spec-level counterpart of a runtime value (`types::Lval`).
/// Lists are sequences, strings are character sequences, numbers are
/// unbounded integers, and a lambda's captured environment is the index
/// of a frame in the environment arena.
#[verifier::ext_equal]
pub enum Lv {
    Num(int),
    Sym(Seq<char>),
    Error(Seq<char>),
    Fun(Builtin),
    Lambda(int, Seq<Lv>, Seq<Lv>),
    Sexpr(Seq<Lv>),
    Qexpr(Seq<Lv>),
    T,
    Nil,
}

/// A value is well formed relative to an arena of `n` frames when every
/// lambda it contains captures an existing frame.
pub open spec fn val_wf(v: Lv, n: int) -> bool
    decreases v,
{
    match v {
        Lv::Lambda(ci, formals, body) => 0 <= ci < n && cells_wf(formals, n) && cells_wf(body, n),
        Lv::Sexpr(cells) => cells_wf(cells, n),
        Lv::Qexpr(cells) => cells_wf(cells, n),
        _ => true,
    }
}

/// Every value in the sequence is well formed.
pub open spec fn cells_wf(s: Seq<Lv>, n: int) -> bool
    decreases s,
{
    s.len() == 0 || (val_wf(s[0], n) && cells_wf(s.drop_first(), n))
}

/// `cells_wf` is exactly element-wise well-formedness.
pub broadcast proof fn lemma_cells_wf(s: Seq<Lv>, n: int)
    ensures
        #[trigger] cells_wf(s, n) == (forall|i: int| 0 <= i < s.len() ==> #[trigger] val_wf(
            s[i],
            n,
        )),
    decreases s.len(),
{
    if s.len() > 0 {
        lemma_cells_wf(s.drop_first(), n);
        if val_wf(s[0], n) && cells_wf(s.drop_first(), n) {
            assert forall|i: int| 0 <= i < s.len() implies #[trigger] val_wf(s[i], n) by {
                if i > 0 {
                    assert(val_wf(s.drop_first()[i - 1], n));
                }
            }
        }
        if forall|i: int| 0 <= i < s.len() ==> #[trigger] val_wf(s[i], n) {
            assert forall|i: int| 0 <= i < s.drop_first().len() implies #[trigger] val_wf(
                s.drop_first()[i],
                n,
            ) by {
                assert(val_wf(s[i + 1], n));
            }
        }
    }
}

/// Structural equality on values: numbers, symbols, errors and the two
/// truth atoms compare by payload, lists compare element-wise, and
/// procedures (builtin or lambda) are never equal to anything.
pub open spec fn eq_m(a: Lv, b: Lv) -> bool
    decreases a,
{
    match (a, b) {
        (Lv::Num(x), Lv::Num(y)) => x == y,
        (Lv::Sym(x), Lv::Sym(y)) => x == y,
        (Lv::Error(x), Lv::Error(y)) => x == y,
        (Lv::Sexpr(x), Lv::Sexpr(y)) => seqs_eq_m(x, y),
        (Lv::Qexpr(x), Lv::Qexpr(y)) => seqs_eq_m(x, y),
        (Lv::T, Lv::T) => true,
        (Lv::Nil, Lv::Nil) => true,
        _ => false,
    }
}

/// Element-wise structural equality of two sequences of values.
pub open spec fn seqs_eq_m(x: Seq<Lv>, y: Seq<Lv>) -> bool
    decreases x,
{
    if x.len() != y.len() {
        false
    } else if x.len() == 0 {
        true
    } else {
        eq_m(x[0], y[0]) && seqs_eq_m(x.drop_first(), y.drop_first())
    }
}

// ---------------------------------------------------------------------------
// Environment model
// ---------------------------------------------------------------------------

/// One scope frame: an optional parent handle and its bindings.
/// A later entry for the same name shadows an earlier one.
#[verifier::ext_equal]
pub struct FrameM {
    pub parent: Option<int>,
    pub data: Seq<(Seq<char>, Lv)>,
}

/// The whole interpreter state: the arena of scope frames (frame 0 is the
/// root created at startup; a frame's parent always has a smaller handle)
/// and the log of values handed to `print`, one entry per call.
#[verifier::ext_equal]
pub struct EnvM {
    pub frames: Seq<FrameM>,
    pub out: Seq<Seq<Lv>>,
}

/// Look a name up in one frame's own bindings, newest first.
pub open spec fn frame_get(data: Seq<(Seq<char>, Lv)>, k: Seq<char>) -> Option<Lv>
    decreases data.len(),
{
    if data.len() == 0 {
        None
    } else if data.last().0 == k {
        Some(data.last().1)
    } else {
        frame_get(data.drop_last(), k)
    }
}

/// Look a name up starting at frame `fr`, delegating to the parent chain.
pub open spec fn env_get(env: EnvM, fr: int, k: Seq<char>) -> Option<Lv>
    decreases fr,
{
    if 0 <= fr < env.frames.len() {
        match frame_get(env.frames[fr].data, k) {
            Some(v) => Some(v),
            None => match env.frames[fr].parent {
                Some(p) => if 0 <= p < fr {
                    env_get(env, p, k)
                } else {
                    None
                },
                None => None,
            },
        }
    } else {
        None
    }
}

/// Bind a name in frame `fr` alone.
pub open spec fn env_put(env: EnvM, fr: int, k: Seq<char>, v: Lv) -> EnvM {
    EnvM {
        frames: env.frames.update(
            fr,
            FrameM {
                parent: env.frames[fr].parent,
                data: env.frames[fr].data.push((k, v)),
            },
        ),
        out: env.out,
    }
}

/// The outermost (parentless) frame reachable from `fr`.
pub open spec fn root_of(env: EnvM, fr: int) -> int
    decreases fr,
{
    if 0 <= fr < env.frames.len() {
        match env.frames[fr].parent {
            Some(p) => if 0 <= p < fr {
                root_of(env, p)
            } else {
                fr
            },
            None => fr,
        }
    } else {
        fr
    }
}

/// Bind a name in the outermost frame reachable from `fr`.
pub open spec fn env_def(env: EnvM, fr: int, k: Seq<char>, v: Lv) -> EnvM {
    env_put(env, root_of(env, fr), k, v)
}

/// Append a fresh frame that duplicates frame `src` (same parent, same
/// bindings); the new frame's handle is the old arena length.
pub open spec fn env_copy(env: EnvM, src: int) -> EnvM {
    EnvM {
        frames: env.frames.push(
            FrameM { parent: env.frames[src].parent, data: env.frames[src].data },
        ),
        out: env.out,
    }
}

/// Append a fresh empty parentless frame.
pub open spec fn env_fresh(env: EnvM) -> EnvM {
    EnvM {
        frames: env.frames.push(FrameM { parent: None, data: Seq::empty() }),
        out: env.out,
    }
}

/// Well-formed arena: parent handles point strictly downwards and every
/// stored value only captures existing frames.
pub open spec fn env_wf(env: EnvM) -> bool {
    &&& forall|i: int| 0 <= i < env.frames.len() ==> match (#[trigger] env.frames[i]).parent {
            Some(p) => 0 <= p < i,
            None => true,
        }
    &&& forall|i: int, j: int|
        0 <= i < env.frames.len() && 0 <= j < env.frames[i].data.len()
            ==> val_wf((#[trigger] env.frames[i].data[j]).1, env.frames.len() as int)
}

// ---------------------------------------------------------------------------
// Decimal rendering of numbers (used in arity error messages and `render`)
// ---------------------------------------------------------------------------

/// The decimal digit character for `d` (0 to 9).
pub open spec fn digit_m(d: nat) -> char {
    if d == 0 { '0' } else if d == 1 { '1' } else if d == 2 { '2' } else if d == 3 { '3' }
    else if d == 4 { '4' } else if d == 5 { '5' } else if d == 6 { '6' } else if d == 7 { '7' }
    else if d == 8 { '8' } else { '9' }
}

/// Decimal representation of a natural number, most significant digit first.
pub open spec fn dec_m(n: nat) -> Seq<char>
    decreases n,
{
    if n < 10 {
        seq![digit_m(n)]
    } else {
        dec_m(n / 10).push(digit_m(n % 10))
    }
}

/// Decimal representation of an integer, with a leading minus sign when negative.
pub open spec fn dec_int_m(x: int) -> Seq<char> {
    if x >= 0 {
        dec_m(x as nat)
    } else {
        seq!['-'] + dec_m((-x) as nat)
    }
}

/// Canonical text form of a value: numbers in decimal, symbols verbatim,
/// `(...)` for code lists, a bare leading quote for data lists (no closing
/// delimiter), `Error: <msg>`, `T`, `NIL`, `<function>`, and `(\ '<formals>)`
/// for a lambda.
pub open spec fn render_m(v: Lv) -> Seq<char>
    decreases v,
{
    match v {
        Lv::Num(x) => dec_int_m(x),
        Lv::Sym(s) => s,
        Lv::Error(e) => "Error: "@ + e,
        Lv::Fun(b) => "<function>"@,
        Lv::Lambda(ci, formals, body) => "(\\ '"@ + render_cells_m(formals) + ")"@,
        Lv::Sexpr(cells) => "("@ + render_cells_m(cells) + ")"@,
        Lv::Qexpr(cells) => "'"@ + render_cells_m(cells),
        Lv::T => "T"@,
        Lv::Nil => "NIL"@,
    }
}

/// Space-separated rendering of a list of values.
pub open spec fn render_cells_m(cells: Seq<Lv>) -> Seq<char>
    decreases cells,
{
    if cells.len() == 0 {
        Seq::empty()
    } else if cells.len() == 1 {
        render_m(cells[0])
    } else {
        render_m(cells[0]) + " "@ + render_cells_m(cells.drop_first())
    }
}

// ---------------------------------------------------------------------------
// Arithmetic builtins
// ---------------------------------------------------------------------------

/// Wrap an unbounded integer into the signed 64-bit range.
pub open spec fn w64(x: int) -> int {
    vstd::wrapping::i64_specs::signed_crop(x) as int
}

/// Wrapping is the identity on values already in the 64-bit signed range.
pub proof fn lemma_w64_id(x: int)
    requires
        i64::MIN <= x <= i64::MAX,
    ensures
        w64(x) == x,
{
    let r = 0x1_0000_0000_0000_0000int;
    if 0 <= x {
        assert(x % r == x) by {
            vstd::arithmetic::div_mod::lemma_small_mod(x as nat, r as nat);
        }
    } else {
        assert((x + r) % r == x + r) by {
            vstd::arithmetic::div_mod::lemma_small_mod((x + r) as nat, r as nat);
        }
        assert(x % r == x + r) by {
            vstd::arithmetic::div_mod::lemma_add_mod_noop(x, r, r);
            assert(r % r == 0) by {
                vstd::arithmetic::div_mod::lemma_mod_self_0(r);
            }
        }
    }
}

/// Division truncating toward zero (the machine division of signed integers).
pub open spec fn tdiv(x: int, d: int) -> int {
    if x == 0 {
        0
    } else if x > 0 && d > 0 {
        x / d
    } else if x < 0 && d < 0 {
        (x * -1) / (d * -1)
    } else if x < 0 {
        ((x * -1) / d) * -1
    } else {
        (x / (d * -1)) * -1
    }
}

pub open spec fn num_of(v: Lv) -> int {
    match v {
        Lv::Num(n) => n,
        _ => 0,
    }
}

pub open spec fn all_nums(args: Seq<Lv>) -> bool {
    forall|i: int| 0 <= i < args.len() ==> args[i] is Num
}

/// One left-fold step of an arithmetic builtin, wrapping at 64 bits.
pub open spec fn arith_step(b: Builtin, acc: int, y: int) -> Lv {
    match b {
        Builtin::Add => Lv::Num(w64(acc + y)),
        Builtin::Sub => Lv::Num(w64(acc - y)),
        Builtin::Mul => Lv::Num(w64(acc * y)),
        _ => if y == 0 {
            Lv::Error("Division by zero"@)
        } else {
            Lv::Num(w64(tdiv(acc, y)))
        },
    }
}

pub open spec fn arith_fold(b: Builtin, acc: int, rest: Seq<Lv>) -> Lv
    decreases rest.len(),
{
    if rest.len() == 0 {
        Lv::Num(acc)
    } else {
        match arith_step(b, acc, num_of(rest[0])) {
            Lv::Num(acc2) => arith_fold(b, acc2, rest.drop_first()),
            e => e,
        }
    }
}

/// `+ - * /`: left-fold over at least one numeric argument; a lone `-`
/// argument is negated; division by zero stops the fold with an error.
pub open spec fn arith_m(b: Builtin, args: Seq<Lv>) -> Lv {
    if !all_nums(args) {
        Lv::Error("Non-number"@)
    } else if args.len() == 0 {
        Lv::Error("No arguments"@)
    } else if b == Builtin::Sub && args.len() == 1 {
        Lv::Num(w64(-num_of(args[0])))
    } else {
        arith_fold(b, num_of(args[0]), args.drop_first())
    }
}

// ---------------------------------------------------------------------------
// Pure list and comparison builtins
// ---------------------------------------------------------------------------

/// `car`/`head`: first element of a non-empty list; a quoted list is a
/// `Qexpr` wrapping exactly one `Sexpr`.
pub open spec fn head_m(args: Seq<Lv>) -> Lv {
    if args.len() != 1 {
        Lv::Error("Expected 1 arg"@)
    } else {
        match args[0] {
            Lv::Qexpr(cells) => if cells.len() == 0 {
                Lv::Error("Argument is empty"@)
            } else if cells.len() != 1 {
                Lv::Error("Expected single list in Qexpr"@)
            } else {
                match cells[0] {
                    Lv::Sexpr(children) => if children.len() == 0 {
                        Lv::Error("List is empty"@)
                    } else {
                        children[0]
                    },
                    _ => Lv::Error("Argument must be a list (Sexpr)"@),
                }
            },
            Lv::Sexpr(cells) => if cells.len() == 0 {
                Lv::Error("List is empty"@)
            } else {
                cells[0]
            },
            _ => Lv::Error("Argument must be Qexpr or Sexpr"@),
        }
    }
}

/// `cdr`/`tail`: the rest of a non-empty list after its first element.
pub open spec fn tail_m(args: Seq<Lv>) -> Lv {
    if args.len() != 1 {
        Lv::Error("Expected 1 arg"@)
    } else {
        match args[0] {
            Lv::Qexpr(cells) => if cells.len() == 0 {
                Lv::Error("Argument is empty"@)
            } else if cells.len() != 1 {
                Lv::Error("Expected single list in Qexpr"@)
            } else {
                match cells[0] {
                    Lv::Sexpr(children) => if children.len() == 0 {
                        Lv::Error("List is empty"@)
                    } else {
                        Lv::Sexpr(children.drop_first())
                    },
                    _ => Lv::Error("Argument must be a list (Sexpr)"@),
                }
            },
            Lv::Sexpr(cells) => if cells.len() == 0 {
                Lv::Error("List is empty"@)
            } else {
                Lv::Sexpr(cells.drop_first())
            },
            _ => Lv::Error("Argument must be Qexpr or Sexpr"@),
        }
    }
}

/// `quote` special form: the full form must be `(quote x)`; yields a
/// `Qexpr` wrapping the unevaluated operand.
pub open spec fn quote_m(cells: Seq<Lv>) -> Lv {
    if cells.len() != 2 {
        Lv::Error("Function 'quote' passed incorrect number of arguments."@)
    } else {
        Lv::Qexpr(seq![cells[1]])
    }
}

/// `list`: wraps all (already evaluated) arguments into a `Qexpr`.
pub open spec fn list_m(args: Seq<Lv>) -> Lv {
    Lv::Qexpr(args)
}

pub open spec fn all_qexprs(args: Seq<Lv>) -> bool {
    forall|i: int| 0 <= i < args.len() ==> args[i] is Qexpr
}

pub open spec fn qexpr_cells(v: Lv) -> Seq<Lv> {
    match v {
        Lv::Qexpr(cells) => cells,
        _ => Seq::empty(),
    }
}

pub open spec fn join_cells(args: Seq<Lv>) -> Seq<Lv>
    decreases args.len(),
{
    if args.len() == 0 {
        Seq::empty()
    } else {
        qexpr_cells(args[0]) + join_cells(args.drop_first())
    }
}

/// `join`: concatenates the cells of `Qexpr` arguments into one `Qexpr`,
/// without flattening.
pub open spec fn join_m(args: Seq<Lv>) -> Lv {
    if !all_qexprs(args) {
        Lv::Error("Expected Qexpr"@)
    } else {
        Lv::Qexpr(join_cells(args))
    }
}

/// Flattening of one `Qexpr`'s cells as `cons` does it: an `Sexpr` cell
/// contributes its children, any other cell contributes itself.
pub open spec fn cons_flatten(cells: Seq<Lv>) -> Seq<Lv>
    decreases cells.len(),
{
    if cells.len() == 0 {
        Seq::empty()
    } else {
        (match cells[0] {
            Lv::Sexpr(children) => children,
            c => seq![c],
        }) + cons_flatten(cells.drop_first())
    }
}

pub open spec fn cons_arg(v: Lv) -> Seq<Lv> {
    match v {
        Lv::Qexpr(cells) => cons_flatten(cells),
        Lv::Sexpr(cells) => cells,
        Lv::Nil => Seq::empty(),
        other => seq![other],
    }
}

pub open spec fn cons_cells(args: Seq<Lv>) -> Seq<Lv>
    decreases args.len(),
{
    if args.len() == 0 {
        Seq::empty()
    } else {
        cons_arg(args[0]) + cons_cells(args.drop_first())
    }
}

/// `cons`: concatenates its arguments into one `Sexpr`, flattening nested
/// `Sexpr` children of quoted lists and dropping `NIL` arguments.
pub open spec fn cons_m(args: Seq<Lv>) -> Lv {
    Lv::Sexpr(cons_cells(args))
}

/// `eq`: identity-flavoured comparison; only matching numbers, symbols and
/// truth atoms are equal, composites never are.
pub open spec fn eq_atom_m(a: Lv, b: Lv) -> Lv {
    match (a, b) {
        (Lv::Num(x), Lv::Num(y)) => if x == y { Lv::T } else { Lv::Nil },
        (Lv::Sym(x), Lv::Sym(y)) => if x == y { Lv::T } else { Lv::Nil },
        (Lv::T, Lv::T) => Lv::T,
        (Lv::Nil, Lv::Nil) => Lv::T,
        _ => Lv::Nil,
    }
}

pub open spec fn eqb_m(args: Seq<Lv>) -> Lv {
    if args.len() != 2 {
        Lv::Error("Expected 2 args"@)
    } else {
        eq_atom_m(args[0], args[1])
    }
}

/// `equal`: full structural equality.
pub open spec fn equal_m(args: Seq<Lv>) -> Lv {
    if args.len() != 2 {
        Lv::Error("Expected 2 args"@)
    } else if eq_m(args[0], args[1]) {
        Lv::T
    } else {
        Lv::Nil
    }
}

/// `neq`: negation of `equal`.
pub open spec fn ne_m(args: Seq<Lv>) -> Lv {
    if args.len() != 2 {
        Lv::Error("Expected 2 args"@)
    } else if eq_m(args[0], args[1]) {
        Lv::Nil
    } else {
        Lv::T
    }
}

/// `null`: true for `NIL` and for empty lists of either kind.
pub open spec fn null_m(args: Seq<Lv>) -> Lv {
    if args.len() != 1 {
        Lv::Error("Expected 1 arg"@)
    } else {
        match args[0] {
            Lv::Nil => Lv::T,
            Lv::Sexpr(cells) => if cells.len() == 0 { Lv::T } else { Lv::Nil },
            Lv::Qexpr(cells) => if cells.len() == 0 { Lv::T } else { Lv::Nil },
            _ => Lv::Nil,
        }
    }
}

/// Formals given as a `Qexpr` wrapping a single `Sexpr` are unwrapped one
/// level (quoted-list ergonomics).
pub open spec fn unwrap_formals(cells: Seq<Lv>) -> Seq<Lv> {
    if cells.len() == 1 && cells[0] is Sexpr {
        match cells[0] {
            Lv::Sexpr(inner) => inner,
            _ => cells,
        }
    } else {
        cells
    }
}

/// `\` (lambda builtin): formals and body must be `Qexpr`s; on success a
/// fresh empty frame is allocated for the closure to capture.
pub open spec fn lambda_m(env: EnvM, args: Seq<Lv>) -> (EnvM, Lv) {
    if args.len() != 2 {
        (env, Lv::Error("Expected 2 args"@))
    } else if !(args[1] is Qexpr) {
        (env, Lv::Error("Body must be Qexpr"@))
    } else {
        match args[0] {
            Lv::Qexpr(cells) => (
                env_fresh(env),
                Lv::Lambda(
                    env.frames.len() as int,
                    unwrap_formals(cells),
                    qexpr_cells(args[1]),
                ),
            ),
            _ => (env, Lv::Error("Formals must be Qexpr"@)),
        }
    }
}

// ---------------------------------------------------------------------------
// Binding builtins (`def`, `=`/`set`/`setq` as builtins)
// ---------------------------------------------------------------------------

pub open spec fn all_syms(syms: Seq<Lv>) -> bool {
    forall|i: int| 0 <= i < syms.len() ==> syms[i] is Sym
}

pub open spec fn sym_name(v: Lv) -> Seq<char> {
    match v {
        Lv::Sym(s) => s,
        _ => Seq::empty(),
    }
}

/// Bind symbols to values pairwise, all in frame `target`.
pub open spec fn bind_pairs(env: EnvM, target: int, syms: Seq<Lv>, vals: Seq<Lv>) -> EnvM
    decreases syms.len(),
{
    if syms.len() == 0 {
        env
    } else {
        bind_pairs(
            env_put(env, target, sym_name(syms[0]), vals[0]),
            target,
            syms.drop_first(),
            vals.drop_first(),
        )
    }
}

/// `def` (global) and `=`/`set`/`setq` (local) as builtins: the first
/// argument is a quoted list of symbols, the rest are their values,
/// bound pairwise; nothing is bound unless every check passes.
pub open spec fn var_m(env: EnvM, fr: int, args: Seq<Lv>, global: bool) -> (EnvM, Lv) {
    if args.len() == 0 {
        (env, Lv::Error("Too few args"@))
    } else {
        match args[0] {
            Lv::Qexpr(cells) => {
                let syms = unwrap_formals(cells);
                let vals = args.drop_first();
                if !all_syms(syms) {
                    (env, Lv::Error("Cannot define non-symbol"@))
                } else if vals.len() < syms.len() {
                    (env, Lv::Error("Too few values"@))
                } else if vals.len() > syms.len() {
                    (env, Lv::Error("Too many values"@))
                } else {
                    let target = if global { root_of(env, fr) } else { fr };
                    (bind_pairs(env, target, syms, vals), Lv::Sexpr(Seq::empty()))
                }
            },
            _ => (env, Lv::Error("First arg must be Qexpr"@)),
        }
    }
}

/// `print`: appends its arguments to the output log and yields the void
/// marker (an empty `Sexpr`).
pub open spec fn print_m(env: EnvM, args: Seq<Lv>) -> (EnvM, Lv) {
    (EnvM { frames: env.frames, out: env.out.push(args) }, Lv::Sexpr(Seq::empty()))
}

// ---------------------------------------------------------------------------
// The evaluator
// ---------------------------------------------------------------------------

/// Resolution of a symbol: the two reserved truth literals first, then the
/// scope chain; an unbound name is an error value, never a failure.
pub open spec fn sym_m(env: EnvM, fr: int, s: Seq<char>) -> Lv {
    if s == "T"@ || s == "t"@ {
        Lv::T
    } else if s == "nil"@ {
        Lv::Nil
    } else {
        match env_get(env, fr, s) {
            Some(v) => v,
            None => Lv::Error("Unbound symbol '"@ + s + "'"@),
        }
    }
}

/// `defun` special form: `(defun name formals body)` wraps formals and body
/// into a lambda capturing a fresh empty frame and binds it globally.
pub open spec fn defun_m(env: EnvM, fr: int, cells: Seq<Lv>) -> (EnvM, Lv) {
    if cells.len() != 4 {
        (env, Lv::Error("Function 'defun' passed incorrect number of arguments."@))
    } else if !(cells[1] is Sym) {
        (env, Lv::Error("First argument to defun must be a symbol"@))
    } else if !(cells[2] is Sexpr || cells[2] is Qexpr) {
        (env, Lv::Error("Second argument to defun must be a list"@))
    } else if !(cells[3] is Sexpr || cells[3] is Qexpr) {
        (env, Lv::Error("Third argument to defun must be a list"@))
    } else {
        let lambda = Lv::Lambda(env.frames.len() as int, list_cells(cells[2]), list_cells(cells[3]));
        (env_def(env_fresh(env), fr, sym_name(cells[1]), lambda), Lv::Sexpr(Seq::empty()))
    }
}

/// The cells of a value of either list kind.
pub open spec fn list_cells(v: Lv) -> Seq<Lv> {
    match v {
        Lv::Sexpr(cells) => cells,
        Lv::Qexpr(cells) => cells,
        _ => Seq::empty(),
    }
}

/// Repeatedly unwrap a `Qexpr` holding exactly one `Qexpr` (as `eval` does).
pub open spec fn unwrap_q(v: Lv) -> Lv
    decreases v,
{
    match v {
        Lv::Qexpr(cells) => if cells.len() == 1 && cells[0] is Qexpr {
            unwrap_q(cells[0])
        } else {
            v
        },
        _ => v,
    }
}

/// Outcome of evaluating a list of cells left to right.
#[verifier::ext_equal]
pub enum CellsM {
    /// Every cell evaluated without error.
    Vals(Seq<Lv>),
    /// The first error value encountered; later cells were not evaluated.
    Fail(Lv),
    /// The evaluation-depth budget ran out.
    Stop,
}

/// Outcome of binding arguments to a lambda's formals.
#[verifier::ext_equal]
pub enum BindM {
    /// All formals bound, no arguments left.
    Done,
    /// Arguments ran out; the unbound formals remain.
    Partial(Seq<Lv>),
    /// Too many arguments, or a formal that is not a symbol.
    Fail(Lv),
}

/// Positional one-at-a-time binding of arguments into frame `nf`.
pub open spec fn bind_m(
    env: EnvM,
    nf: int,
    formals: Seq<Lv>,
    args: Seq<Lv>,
    given: int,
    total: int,
) -> (EnvM, BindM)
    decreases args.len(),
{
    if args.len() == 0 {
        if formals.len() == 0 {
            (env, BindM::Done)
        } else {
            (env, BindM::Partial(formals))
        }
    } else if formals.len() == 0 {
        (
            env,
            BindM::Fail(
                Lv::Error(
                    "Function passed too many arguments. Got "@ + dec_int_m(given) + ", Expected "@
                        + dec_int_m(total) + "."@,
                ),
            ),
        )
    } else {
        match formals[0] {
            Lv::Sym(s) => bind_m(
                env_put(env, nf, s, args[0]),
                nf,
                formals.drop_first(),
                args.drop_first(),
                given,
                total,
            ),
            _ => (env, BindM::Fail(Lv::Error("Formal should be a symbol"@))),
        }
    }
}

/// Reduce a value to a result.  `fuel` bounds the depth of nested
/// reductions; `None` means the budget ran out (the model of host-stack
/// exhaustion), which is distinct from every language-level error.
pub open spec fn eval_m(env: EnvM, fr: int, v: Lv, fuel: nat) -> (EnvM, Option<Lv>)
    decreases fuel, 9int, 0int, 0int,
{
    if fuel == 0 {
        (env, None)
    } else {
        match v {
            Lv::Sym(s) => (env, Some(sym_m(env, fr, s))),
            Lv::Sexpr(cells) => if cells.len() == 0 {
                (env, Some(Lv::Sexpr(cells)))
            } else if cells[0] == Lv::Sym("quote"@) {
                (env, Some(quote_m(cells)))
            } else if cells[0] == Lv::Sym("setq"@) {
                putq_m(env, fr, cells, fuel)
            } else if cells[0] == Lv::Sym("defun"@) {
                let (env1, r) = defun_m(env, fr, cells);
                (env1, Some(r))
            } else if cells[0] == Lv::Sym("cond"@) {
                cond_m(env, fr, cells.drop_first(), fuel)
            } else {
                eval_sexpr_m(env, fr, cells, fuel)
            },
            _ => (env, Some(v)),
        }
    }
}

/// A generic (non-special-form) `Sexpr`: evaluate every cell, propagate the
/// first error, return a singleton unchanged, otherwise apply head to rest.
pub open spec fn eval_sexpr_m(env: EnvM, fr: int, cells: Seq<Lv>, fuel: nat) -> (
    EnvM,
    Option<Lv>,
)
    decreases fuel, 5int, 0int, 0int,
{
    let (env1, out) = eval_elems_m(env, fr, cells, fuel);
    match out {
        CellsM::Stop => (env1, None),
        CellsM::Fail(e) => (env1, Some(e)),
        CellsM::Vals(rs) => if rs.len() == 0 {
            (env1, Some(Lv::Sexpr(rs)))
        } else if rs.len() == 1 {
            (env1, Some(rs[0]))
        } else {
            call_m(env1, fr, rs[0], rs.drop_first(), fuel)
        },
    }
}

/// Evaluate cells left to right, threading the environment, stopping at the
/// first error value.
pub open spec fn eval_elems_m(env: EnvM, fr: int, cells: Seq<Lv>, fuel: nat) -> (EnvM, CellsM)
    decreases fuel, 3int, cells.len(), 0int,
{
    if fuel == 0 {
        (env, CellsM::Stop)
    } else if cells.len() == 0 {
        (env, CellsM::Vals(Seq::empty()))
    } else {
        let (env1, r0) = eval_m(env, fr, cells[0], (fuel - 1) as nat);
        match r0 {
            None => (env1, CellsM::Stop),
            Some(r) => if r is Error {
                (env1, CellsM::Fail(r))
            } else {
                let (env2, rest) = eval_elems_m(env1, fr, cells.drop_first(), fuel);
                match rest {
                    CellsM::Vals(rs) => (env2, CellsM::Vals(seq![r] + rs)),
                    other => (env2, other),
                }
            },
        }
    }
}

/// Apply a procedure to evaluated arguments.
pub open spec fn call_m(env: EnvM, fr: int, f: Lv, args: Seq<Lv>, fuel: nat) -> (EnvM, Option<Lv>)
    decreases fuel, 4int, 0int, 0int,
{
    if fuel == 0 {
        (env, None)
    } else {
    match f {
        Lv::Fun(b) => match b {
            Builtin::Add => (env, Some(arith_m(b, args))),
            Builtin::Sub => (env, Some(arith_m(b, args))),
            Builtin::Mul => (env, Some(arith_m(b, args))),
            Builtin::Div => (env, Some(arith_m(b, args))),
            Builtin::Def => {
                let (env1, r) = var_m(env, fr, args, true);
                (env1, Some(r))
            },
            Builtin::Put => {
                let (env1, r) = var_m(env, fr, args, false);
                (env1, Some(r))
            },
            Builtin::Lambda => {
                let (env1, r) = lambda_m(env, args);
                (env1, Some(r))
            },
            Builtin::Head => (env, Some(head_m(args))),
            Builtin::Tail => (env, Some(tail_m(args))),
            Builtin::List => (env, Some(list_m(args))),
            Builtin::Eval => beval_m(env, fr, args, fuel),
            Builtin::Join => (env, Some(join_m(args))),
            Builtin::Cons => (env, Some(cons_m(args))),
            Builtin::Eq => (env, Some(eqb_m(args))),
            Builtin::Equal => (env, Some(equal_m(args))),
            Builtin::Ne => (env, Some(ne_m(args))),
            Builtin::Null => (env, Some(null_m(args))),
            Builtin::Cond => cond_m(env, fr, args, fuel),
            Builtin::Print => {
                let (env1, r) = print_m(env, args);
                (env1, Some(r))
            },
        },
        Lv::Lambda(ci, formals, body) => if 0 <= ci < env.frames.len() {
            let nf = env.frames.len() as int;
            let env1 = env_copy(env, ci);
            let (env2, bound) = bind_m(env1, nf, formals, args, args.len() as int,
                formals.len() as int);
            match bound {
                BindM::Done => {
                    let env3 = EnvM {
                        frames: env2.frames.update(
                            nf,
                            FrameM { parent: Some(fr), data: env2.frames[nf].data },
                        ),
                        out: env2.out,
                    };
                    eval_m(env3, nf, Lv::Sexpr(body), (fuel - 1) as nat)
                },
                BindM::Partial(rem) => (env2, Some(Lv::Lambda(nf, rem, body))),
                BindM::Fail(e) => (env2, Some(e)),
            }
        } else {
            (env, Some(Lv::Error("S-expression starts with incorrect type"@)))
        },
        _ => (env, Some(Lv::Error("S-expression starts with incorrect type"@))),
    }
    }
}

/// `eval` builtin: unwrap nested quoting, then re-enter the evaluator on
/// the quoted cells as an `Sexpr`.
pub open spec fn beval_m(env: EnvM, fr: int, args: Seq<Lv>, fuel: nat) -> (EnvM, Option<Lv>)
    decreases fuel, 3int, 0int, 0int,
{
    if fuel == 0 {
        (env, None)
    } else if args.len() != 1 {
        (env, Some(Lv::Error("Expected 1 arg"@)))
    } else {
        match unwrap_q(args[0]) {
            Lv::Qexpr(cells) => eval_m(env, fr, Lv::Sexpr(cells), (fuel - 1) as nat),
            _ => (env, Some(Lv::Error("Argument must be Qexpr"@))),
        }
    }
}

/// Truthiness of a `cond` test result: `NIL` and zero are false.
pub open spec fn truthy(v: Lv) -> bool {
    !(v is Nil || v == Lv::Num(0))
}

/// `cond` clause evaluation: first clause whose test is true decides.
pub open spec fn cond_m(env: EnvM, fr: int, clauses: Seq<Lv>, fuel: nat) -> (EnvM, Option<Lv>)
    decreases fuel, 3int, clauses.len(), 1int,
{
    if clauses.len() == 0 {
        (env, Some(Lv::Sexpr(Seq::empty())))
    } else {
        match clauses[0] {
            Lv::Qexpr(raw) => cond_clause_m(env, fr, raw, clauses, fuel),
            Lv::Sexpr(raw) => cond_clause_m(env, fr, raw, clauses, fuel),
            _ => (env, Some(Lv::Error("Cond branches must be Qexpr or Sexpr"@))),
        }
    }
}

/// One `cond` clause: a single-element clause wrapping a list is unwrapped
/// one level; the clause needs a test and a body.
pub open spec fn cond_clause_m(
    env: EnvM,
    fr: int,
    raw: Seq<Lv>,
    clauses: Seq<Lv>,
    fuel: nat,
) -> (EnvM, Option<Lv>)
    decreases fuel, 3int, clauses.len(), 0int,
{
    if fuel == 0 || clauses.len() == 0 {
        (env, None)
    } else {
    let cells = if raw.len() == 1 && raw[0] is Sexpr {
        list_cells(raw[0])
    } else {
        raw
    };
    if cells.len() < 2 {
        (env, Some(Lv::Error("Cond branch too short"@)))
    } else {
        let (env1, r0) = eval_m(env, fr, cells[0], (fuel - 1) as nat);
        match r0 {
            None => (env1, None),
            Some(r) => if r is Error {
                (env1, Some(r))
            } else if truthy(r) {
                eval_m(env1, fr, cells[1], (fuel - 1) as nat)
            } else {
                cond_m(env1, fr, clauses.drop_first(), fuel)
            },
        }
    }
    }
}

/// The standard global environment: every builtin name bound in the root
/// frame, aliases included.
pub open spec fn builtins_m(env: EnvM) -> EnvM {
    let e = env_put(env, 0, "eval"@, Lv::Fun(Builtin::Eval));
    let e = env_put(e, 0, "join"@, Lv::Fun(Builtin::Join));
    let e = env_put(e, 0, "+"@, Lv::Fun(Builtin::Add));
    let e = env_put(e, 0, "-"@, Lv::Fun(Builtin::Sub));
    let e = env_put(e, 0, "*"@, Lv::Fun(Builtin::Mul));
    let e = env_put(e, 0, "/"@, Lv::Fun(Builtin::Div));
    let e = env_put(e, 0, "def"@, Lv::Fun(Builtin::Def));
    let e = env_put(e, 0, "="@, Lv::Fun(Builtin::Put));
    let e = env_put(e, 0, "set"@, Lv::Fun(Builtin::Put));
    let e = env_put(e, 0, "setq"@, Lv::Fun(Builtin::Put));
    let e = env_put(e, 0, "\\"@, Lv::Fun(Builtin::Lambda));
    let e = env_put(e, 0, "car"@, Lv::Fun(Builtin::Head));
    let e = env_put(e, 0, "head"@, Lv::Fun(Builtin::Head));
    let e = env_put(e, 0, "cdr"@, Lv::Fun(Builtin::Tail));
    let e = env_put(e, 0, "tail"@, Lv::Fun(Builtin::Tail));
    let e = env_put(e, 0, "cons"@, Lv::Fun(Builtin::Cons));
    let e = env_put(e, 0, "defun"@, Lv::Fun(Builtin::Lambda));
    let e = env_put(e, 0, "list"@, Lv::Fun(Builtin::List));
    let e = env_put(e, 0, "eq"@, Lv::Fun(Builtin::Eq));
    let e = env_put(e, 0, "equal"@, Lv::Fun(Builtin::Equal));
    let e = env_put(e, 0, "neq"@, Lv::Fun(Builtin::Ne));
    let e = env_put(e, 0, "null"@, Lv::Fun(Builtin::Null));
    let e = env_put(e, 0, "cond"@, Lv::Fun(Builtin::Cond));
    let e = env_put(e, 0, "print"@, Lv::Fun(Builtin::Print));
    e
}

/// Binding the builtin library keeps the arena well formed and its shape.
pub proof fn lemma_builtins_wf(env: EnvM)
    requires
        env_wf(env),
        env.frames.len() > 0,
    ensures
        env_wf(builtins_m(env)),
        builtins_m(env).frames.len() == env.frames.len(),
        builtins_m(env).out == env.out,
{
    let e0 = env_put(env, 0, "eval"@, Lv::Fun(Builtin::Eval));
    lemma_env_put_wf(env, 0, "eval"@, Lv::Fun(Builtin::Eval));
    let e1 = env_put(e0, 0, "join"@, Lv::Fun(Builtin::Join));
    lemma_env_put_wf(e0, 0, "join"@, Lv::Fun(Builtin::Join));
    let e2 = env_put(e1, 0, "+"@, Lv::Fun(Builtin::Add));
    lemma_env_put_wf(e1, 0, "+"@, Lv::Fun(Builtin::Add));
    let e3 = env_put(e2, 0, "-"@, Lv::Fun(Builtin::Sub));
    lemma_env_put_wf(e2, 0, "-"@, Lv::Fun(Builtin::Sub));
    let e4 = env_put(e3, 0, "*"@, Lv::Fun(Builtin::Mul));
    lemma_env_put_wf(e3, 0, "*"@, Lv::Fun(Builtin::Mul));
    let e5 = env_put(e4, 0, "/"@, Lv::Fun(Builtin::Div));
    lemma_env_put_wf(e4, 0, "/"@, Lv::Fun(Builtin::Div));
    let e6 = env_put(e5, 0, "def"@, Lv::Fun(Builtin::Def));
    lemma_env_put_wf(e5, 0, "def"@, Lv::Fun(Builtin::Def));
    let e7 = env_put(e6, 0, "="@, Lv::Fun(Builtin::Put));
    lemma_env_put_wf(e6, 0, "="@, Lv::Fun(Builtin::Put));
    let e8 = env_put(e7, 0, "set"@, Lv::Fun(Builtin::Put));
    lemma_env_put_wf(e7, 0, "set"@, Lv::Fun(Builtin::Put));
    let e9 = env_put(e8, 0, "setq"@, Lv::Fun(Builtin::Put));
    lemma_env_put_wf(e8, 0, "setq"@, Lv::Fun(Builtin::Put));
    let e10 = env_put(e9, 0, "\\"@, Lv::Fun(Builtin::Lambda));
    lemma_env_put_wf(e9, 0, "\\"@, Lv::Fun(Builtin::Lambda));
    let e11 = env_put(e10, 0, "car"@, Lv::Fun(Builtin::Head));
    lemma_env_put_wf(e10, 0, "car"@, Lv::Fun(Builtin::Head));
    let e12 = env_put(e11, 0, "head"@, Lv::Fun(Builtin::Head));
    lemma_env_put_wf(e11, 0, "head"@, Lv::Fun(Builtin::Head));
    let e13 = env_put(e12, 0, "cdr"@, Lv::Fun(Builtin::Tail));
    lemma_env_put_wf(e12, 0, "cdr"@, Lv::Fun(Builtin::Tail));
    let e14 = env_put(e13, 0, "tail"@, Lv::Fun(Builtin::Tail));
    lemma_env_put_wf(e13, 0, "tail"@, Lv::Fun(Builtin::Tail));
    let e15 = env_put(e14, 0, "cons"@, Lv::Fun(Builtin::Cons));
    lemma_env_put_wf(e14, 0, "cons"@, Lv::Fun(Builtin::Cons));
    let e16 = env_put(e15, 0, "defun"@, Lv::Fun(Builtin::Lambda));
    lemma_env_put_wf(e15, 0, "defun"@, Lv::Fun(Builtin::Lambda));
    let e17 = env_put(e16, 0, "list"@, Lv::Fun(Builtin::List));
    lemma_env_put_wf(e16, 0, "list"@, Lv::Fun(Builtin::List));
    let e18 = env_put(e17, 0, "eq"@, Lv::Fun(Builtin::Eq));
    lemma_env_put_wf(e17, 0, "eq"@, Lv::Fun(Builtin::Eq));
    let e19 = env_put(e18, 0, "equal"@, Lv::Fun(Builtin::Equal));
    lemma_env_put_wf(e18, 0, "equal"@, Lv::Fun(Builtin::Equal));
    let e20 = env_put(e19, 0, "neq"@, Lv::Fun(Builtin::Ne));
    lemma_env_put_wf(e19, 0, "neq"@, Lv::Fun(Builtin::Ne));
    let e21 = env_put(e20, 0, "null"@, Lv::Fun(Builtin::Null));
    lemma_env_put_wf(e20, 0, "null"@, Lv::Fun(Builtin::Null));
    let e22 = env_put(e21, 0, "cond"@, Lv::Fun(Builtin::Cond));
    lemma_env_put_wf(e21, 0, "cond"@, Lv::Fun(Builtin::Cond));
    let e23 = env_put(e22, 0, "print"@, Lv::Fun(Builtin::Print));
    lemma_env_put_wf(e22, 0, "print"@, Lv::Fun(Builtin::Print));
    assert(builtins_m(env) == e23);
}

// ---------------------------------------------------------------------------
// Well-formedness lemmas
// ---------------------------------------------------------------------------

/// Well-formedness only asks that captured frames exist, so it survives
/// growing the arena.
pub proof fn lemma_val_wf_mono(v: Lv, n: int, m: int)
    requires
        val_wf(v, n),
        n <= m,
    ensures
        val_wf(v, m),
    decreases v,
{
    match v {
        Lv::Lambda(ci, formals, body) => {
            lemma_cells_wf_mono(formals, n, m);
            lemma_cells_wf_mono(body, n, m);
        },
        Lv::Sexpr(cells) => {
            lemma_cells_wf_mono(cells, n, m);
        },
        Lv::Qexpr(cells) => {
            lemma_cells_wf_mono(cells, n, m);
        },
        _ => {},
    }
}

/// List form of `lemma_val_wf_mono`.
pub proof fn lemma_cells_wf_mono(s: Seq<Lv>, n: int, m: int)
    requires
        cells_wf(s, n),
        n <= m,
    ensures
        cells_wf(s, m),
    decreases s,
{
    if s.len() > 0 {
        lemma_val_wf_mono(s[0], n, m);
        lemma_cells_wf_mono(s.drop_first(), n, m);
    }
}

/// What one frame hands back is one of its stored values.
pub proof fn lemma_frame_get_wf(data: Seq<(Seq<char>, Lv)>, k: Seq<char>, n: int)
    requires
        forall|j: int| 0 <= j < data.len() ==> val_wf((#[trigger] data[j]).1, n),
    ensures
        frame_get(data, k) matches Some(v) ==> val_wf(v, n),
    decreases data.len(),
{
    if data.len() > 0 && data.last().0 != k {
        lemma_frame_get_wf(data.drop_last(), k, n);
    }
}

/// What lookup hands back is a stored value, hence well formed.
pub proof fn lemma_env_get_wf(env: EnvM, fr: int, k: Seq<char>)
    requires
        env_wf(env),
    ensures
        env_get(env, fr, k) matches Some(v) ==> val_wf(v, env.frames.len() as int),
    decreases fr,
{
    if 0 <= fr < env.frames.len() {
        lemma_frame_get_wf(env.frames[fr].data, k, env.frames.len() as int);
        if frame_get(env.frames[fr].data, k) is None {
            match env.frames[fr].parent {
                Some(p) => {
                    if 0 <= p < fr {
                        lemma_env_get_wf(env, p, k);
                    }
                },
                None => {},
            }
        }
    }
}

/// The root of a chain lies at or below its start.
pub proof fn lemma_root_of_range(env: EnvM, fr: int)
    requires
        env_wf(env),
        0 <= fr < env.frames.len(),
    ensures
        0 <= root_of(env, fr) <= fr,
        env.frames[root_of(env, fr)].parent is None,
    decreases fr,
{
    match env.frames[fr].parent {
        Some(p) => {
            lemma_root_of_range(env, p);
        },
        None => {},
    }
}

/// Binding a well-formed value keeps the arena well formed and its shape.
pub proof fn lemma_env_put_wf(env: EnvM, fr: int, k: Seq<char>, v: Lv)
    requires
        env_wf(env),
        0 <= fr < env.frames.len(),
        val_wf(v, env.frames.len() as int),
    ensures
        env_wf(env_put(env, fr, k, v)),
        env_put(env, fr, k, v).frames.len() == env.frames.len(),
        env_put(env, fr, k, v).out == env.out,
        forall|i: int| 0 <= i < env.frames.len() ==> (#[trigger] env_put(
            env,
            fr,
            k,
            v,
        ).frames[i]).parent == env.frames[i].parent,
{
    let env2 = env_put(env, fr, k, v);
    assert forall|i: int, j: int|
        0 <= i < env2.frames.len() && 0 <= j < env2.frames[i].data.len() implies val_wf(
        (#[trigger] env2.frames[i].data[j]).1,
        env2.frames.len() as int,
    ) by {
        if i == fr && j == env.frames[fr].data.len() {
        } else {
            assert(env2.frames[i].data[j] == env.frames[i].data[j]);
            assert(val_wf(env.frames[i].data[j].1, env.frames.len() as int));
        }
    }
}

/// Duplicating a frame keeps the arena well formed.
pub proof fn lemma_env_copy_wf(env: EnvM, src: int)
    requires
        env_wf(env),
        0 <= src < env.frames.len(),
    ensures
        env_wf(env_copy(env, src)),
        env_copy(env, src).frames.len() == env.frames.len() + 1,
        env_copy(env, src).out == env.out,
        forall|i: int| 0 <= i < env.frames.len() ==> #[trigger] env_copy(env, src).frames[i]
            == env.frames[i],
{
    let env2 = env_copy(env, src);
    let n = env.frames.len() as int;
    assert forall|i: int, j: int|
        0 <= i < env2.frames.len() && 0 <= j < env2.frames[i].data.len() implies val_wf(
        (#[trigger] env2.frames[i].data[j]).1,
        env2.frames.len() as int,
    ) by {
        let src2 = if i < n { i } else { src };
        assert(env2.frames[i].data[j] == env.frames[src2].data[j]);
        assert(val_wf(env.frames[src2].data[j].1, n));
        lemma_val_wf_mono(env.frames[src2].data[j].1, n, n + 1);
    }
}

/// Appending an empty frame keeps the arena well formed.
pub proof fn lemma_env_fresh_wf(env: EnvM)
    requires
        env_wf(env),
    ensures
        env_wf(env_fresh(env)),
        env_fresh(env).frames.len() == env.frames.len() + 1,
        env_fresh(env).out == env.out,
        forall|i: int| 0 <= i < env.frames.len() ==> #[trigger] env_fresh(env).frames[i]
            == env.frames[i],
{
    let env2 = env_fresh(env);
    let n = env.frames.len() as int;
    assert forall|i: int, j: int|
        0 <= i < env2.frames.len() && 0 <= j < env2.frames[i].data.len() implies val_wf(
        (#[trigger] env2.frames[i].data[j]).1,
        env2.frames.len() as int,
    ) by {
        assert(0 <= i < n);
        assert(env2.frames[i].data[j] == env.frames[i].data[j]);
        assert(val_wf(env.frames[i].data[j].1, n));
        lemma_val_wf_mono(env.frames[i].data[j].1, n, n + 1);
    }
}

/// Re-parenting a frame to a smaller handle keeps the arena well formed.
pub proof fn lemma_set_parent_wf(env: EnvM, nf: int, fr: int)
    requires
        env_wf(env),
        0 <= fr < nf < env.frames.len(),
    ensures
        env_wf(
            EnvM {
                frames: env.frames.update(
                    nf,
                    FrameM { parent: Some(fr), data: env.frames[nf].data },
                ),
                out: env.out,
            },
        ),
{
    let env2 = EnvM {
        frames: env.frames.update(nf, FrameM { parent: Some(fr), data: env.frames[nf].data }),
        out: env.out,
    };
    assert forall|i: int, j: int|
        0 <= i < env2.frames.len() && 0 <= j < env2.frames[i].data.len() implies val_wf(
        (#[trigger] env2.frames[i].data[j]).1,
        env2.frames.len() as int,
    ) by {
        assert(env2.frames[i].data[j] == env.frames[i].data[j]);
        assert(val_wf(env.frames[i].data[j].1, env.frames.len() as int));
    }
}

/// Binding arguments into a fresh call frame keeps the arena well formed;
/// the unbound formals of a partial application stay well formed too.
pub proof fn lemma_bind_m_wf(
    env: EnvM,
    nf: int,
    formals: Seq<Lv>,
    args: Seq<Lv>,
    given: int,
    total: int,
)
    requires
        env_wf(env),
        0 <= nf < env.frames.len(),
        cells_wf(args, env.frames.len() as int),
        cells_wf(formals, env.frames.len() as int),
    ensures
        ({
            let (env2, out) = bind_m(env, nf, formals, args, given, total);
            &&& env_wf(env2)
            &&& env2.frames.len() == env.frames.len()
            &&& env2.out == env.out
            &&& forall|i: int| 0 <= i < env.frames.len() ==> (#[trigger] env2.frames[i]).parent
                == env.frames[i].parent
            &&& (out matches BindM::Partial(rem) ==> cells_wf(rem, env.frames.len() as int))
        }),
    decreases args.len(),
{
    if args.len() == 0 {
    } else if formals.len() == 0 {
    } else {
        match formals[0] {
            Lv::Sym(s) => {
                let env2 = env_put(env, nf, s, args[0]);
                lemma_env_put_wf(env, nf, s, args[0]);
                assert(cells_wf(args.drop_first(), env.frames.len() as int));
                assert(cells_wf(formals.drop_first(), env.frames.len() as int));
                lemma_bind_m_wf(env2, nf, formals.drop_first(), args.drop_first(), given, total);
            },
            _ => {},
        }
    }
}

/// Concatenation preserves well-formedness.
pub proof fn lemma_cells_wf_concat(a: Seq<Lv>, b: Seq<Lv>, n: int)
    requires
        cells_wf(a, n),
        cells_wf(b, n),
    ensures
        cells_wf(a + b, n),
{
    lemma_cells_wf(a, n);
    lemma_cells_wf(b, n);
    lemma_cells_wf(a + b, n);
    assert forall|i: int| 0 <= i < (a + b).len() implies #[trigger] val_wf((a + b)[i], n) by {
        if i < a.len() {
            assert(val_wf(a[i], n));
        } else {
            assert(val_wf(b[i - a.len()], n));
        }
    }
}

/// A suffix of a well-formed list is well formed.
pub proof fn lemma_cells_wf_drop(s: Seq<Lv>, n: int)
    requires
        cells_wf(s, n),
        s.len() > 0,
    ensures
        cells_wf(s.drop_first(), n),
{
}

/// Arithmetic folding yields a number or an error, both well formed.
pub proof fn lemma_arith_fold_wf(b: Builtin, acc: int, rest: Seq<Lv>, n: int)
    ensures
        val_wf(arith_fold(b, acc, rest), n),
    decreases rest.len(),
{
    if rest.len() > 0 {
        match arith_step(b, acc, num_of(rest[0])) {
            Lv::Num(acc2) => {
                lemma_arith_fold_wf(b, acc2, rest.drop_first(), n);
            },
            _ => {},
        }
    }
}

/// What an arithmetic builtin returns is well formed.
pub proof fn lemma_arith_wf(b: Builtin, args: Seq<Lv>, n: int)
    ensures
        val_wf(arith_m(b, args), n),
{
    if all_nums(args) && args.len() > 0 && !(b == Builtin::Sub && args.len() == 1) {
        lemma_arith_fold_wf(b, num_of(args[0]), args.drop_first(), n);
    }
}

/// What `car`/`head` returns is well formed.
pub proof fn lemma_head_wf(args: Seq<Lv>, n: int)
    requires
        cells_wf(args, n),
    ensures
        val_wf(head_m(args), n),
{
    lemma_cells_wf(args, n);
    if args.len() == 1 {
        assert(val_wf(args[0], n));
        match args[0] {
            Lv::Qexpr(cells) => {
                lemma_cells_wf(cells, n);
                if cells.len() == 1 {
                    assert(val_wf(cells[0], n));
                    match cells[0] {
                        Lv::Sexpr(children) => {
                            lemma_cells_wf(children, n);
                            if children.len() > 0 {
                                assert(val_wf(children[0], n));
                            }
                        },
                        _ => {},
                    }
                }
            },
            Lv::Sexpr(cells) => {
                lemma_cells_wf(cells, n);
                if cells.len() > 0 {
                    assert(val_wf(cells[0], n));
                }
            },
            _ => {},
        }
    }
}

/// What `cdr`/`tail` returns is well formed.
pub proof fn lemma_tail_wf(args: Seq<Lv>, n: int)
    requires
        cells_wf(args, n),
    ensures
        val_wf(tail_m(args), n),
{
    lemma_cells_wf(args, n);
    if args.len() == 1 {
        assert(val_wf(args[0], n));
        match args[0] {
            Lv::Qexpr(cells) => {
                lemma_cells_wf(cells, n);
                if cells.len() == 1 {
                    assert(val_wf(cells[0], n));
                    match cells[0] {
                        Lv::Sexpr(children) => {
                            if children.len() > 0 {
                                lemma_cells_wf_drop(children, n);
                            }
                        },
                        _ => {},
                    }
                }
            },
            Lv::Sexpr(cells) => {
                if cells.len() > 0 {
                    lemma_cells_wf_drop(cells, n);
                }
            },
            _ => {},
        }
    }
}

/// What `quote` returns is well formed.
pub proof fn lemma_quote_wf(cells: Seq<Lv>, n: int)
    requires
        cells_wf(cells, n),
    ensures
        val_wf(quote_m(cells), n),
{
    lemma_cells_wf(cells, n);
    if cells.len() == 2 {
        assert(val_wf(cells[1], n));
        lemma_cells_wf(seq![cells[1]], n);
    }
}

/// What `join` returns is well formed.
pub proof fn lemma_join_cells_wf(args: Seq<Lv>, n: int)
    requires
        cells_wf(args, n),
    ensures
        cells_wf(join_cells(args), n),
    decreases args.len(),
{
    lemma_cells_wf(args, n);
    if args.len() > 0 {
        assert(val_wf(args[0], n));
        lemma_cells_wf_drop(args, n);
        lemma_join_cells_wf(args.drop_first(), n);
        assert(cells_wf(qexpr_cells(args[0]), n));
        lemma_cells_wf_concat(qexpr_cells(args[0]), join_cells(args.drop_first()), n);
    } else {
        lemma_cells_wf(join_cells(args), n);
    }
}

/// What `cons` builds from one quoted list is well formed.
pub proof fn lemma_cons_flatten_wf(cells: Seq<Lv>, n: int)
    requires
        cells_wf(cells, n),
    ensures
        cells_wf(cons_flatten(cells), n),
    decreases cells.len(),
{
    lemma_cells_wf(cells, n);
    if cells.len() > 0 {
        assert(val_wf(cells[0], n));
        lemma_cells_wf_drop(cells, n);
        lemma_cons_flatten_wf(cells.drop_first(), n);
        let piece = match cells[0] {
            Lv::Sexpr(children) => children,
            c => seq![c],
        };
        assert(cells_wf(piece, n)) by {
            match cells[0] {
                Lv::Sexpr(children) => {},
                _ => {
                    lemma_cells_wf(seq![cells[0]], n);
                },
            }
        }
        lemma_cells_wf_concat(piece, cons_flatten(cells.drop_first()), n);
    } else {
        lemma_cells_wf(cons_flatten(cells), n);
    }
}

/// What `cons` returns is well formed.
pub proof fn lemma_cons_cells_wf(args: Seq<Lv>, n: int)
    requires
        cells_wf(args, n),
    ensures
        cells_wf(cons_cells(args), n),
    decreases args.len(),
{
    lemma_cells_wf(args, n);
    if args.len() > 0 {
        assert(val_wf(args[0], n));
        lemma_cells_wf_drop(args, n);
        lemma_cons_cells_wf(args.drop_first(), n);
        assert(cells_wf(cons_arg(args[0]), n)) by {
            match args[0] {
                Lv::Qexpr(cells) => {
                    lemma_cons_flatten_wf(cells, n);
                },
                Lv::Sexpr(cells) => {},
                Lv::Nil => {
                    lemma_cells_wf(Seq::<Lv>::empty(), n);
                },
                _ => {
                    lemma_cells_wf(seq![args[0]], n);
                },
            }
        }
        lemma_cells_wf_concat(cons_arg(args[0]), cons_cells(args.drop_first()), n);
    } else {
        lemma_cells_wf(cons_cells(args), n);
    }
}

/// Unwrapping nested quotes keeps a value well formed.
pub proof fn lemma_unwrap_wf(v: Lv, n: int)
    requires
        val_wf(v, n),
    ensures
        val_wf(unwrap_q(v), n),
    decreases v,
{
    match v {
        Lv::Qexpr(cells) => {
            if cells.len() == 1 && cells[0] is Qexpr {
                lemma_cells_wf(cells, n);
                assert(val_wf(cells[0], n));
                lemma_unwrap_wf(cells[0], n);
            }
        },
        _ => {},
    }
}

/// `setq` special form: `(setq name expr)` evaluates the expression and on
/// success binds its value to the name in the current frame.
pub open spec fn putq_m(env: EnvM, fr: int, cells: Seq<Lv>, fuel: nat) -> (EnvM, Option<Lv>)
    decreases fuel, 3int, 0int, 0int,
{
    if fuel == 0 {
        (env, None)
    } else if cells.len() != 3 {
        (env, Some(Lv::Error("Function 'setq' passed incorrect number of arguments."@)))
    } else if !(cells[1] is Sym) {
        (env, Some(Lv::Error("First argument to setq must be a symbol"@)))
    } else {
        let (env1, r0) = eval_m(env, fr, cells[2], (fuel - 1) as nat);
        match r0 {
            None => (env1, None),
            Some(r) => if r is Error {
                (env1, Some(r))
            } else {
                (env_put(env1, fr, sym_name(cells[1]), r), Some(Lv::Sexpr(Seq::empty())))
            },
        }
    }
}

} // verus!
