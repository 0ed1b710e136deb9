//! The runtime value type and its view into the model.

use vstd::prelude::*;
use vstd::string::StringExecFns;
use crate::model::{Lv, FrameM, EnvM, env_get, env_put, env_def, env_copy, env_fresh, env_wf, frame_get, root_of, digit_m, dec_m, dec_int_m, render_m, render_cells_m};

verus! {

/// Identifier of a native procedure.  The evaluator dispatches on this
/// closed enumeration instead of storing function pointers.
#[derive(Clone, Copy, PartialEq, Eq, Structural)]
pub enum Builtin {
    Add,
    Sub,
    Mul,
    Div,
    Def,
    Put,
    Lambda,
    Head,
    Tail,
    List,
    Eval,
    Join,
    Cons,
    Eq,
    Equal,
    Ne,
    Null,
    Cond,
    Print,
}

/// A runtime value: number, symbol, error, native procedure, closure,
/// list-as-code (`Sexpr`), list-as-data (`Qexpr`), or one of the two
/// truth atoms.  A `Lambda` holds the handle of its captured environment
/// frame, its unbound formals, and its body cells.
pub enum Lval {
    Num(i64),
    Sym(String),
    Error(String),
    Fun(Builtin),
    Lambda(usize, Vec<Lval>, Vec<Lval>),
    Sexpr(Vec<Lval>),
    Qexpr(Vec<Lval>),
    T,
    NIL,
}

/// The model of a runtime value.
pub open spec fn lval_view(v: Lval) -> Lv
    decreases v,
{
    match v {
        Lval::Num(n) => Lv::Num(n as int),
        Lval::Sym(s) => Lv::Sym(s@),
        Lval::Error(s) => Lv::Error(s@),
        Lval::Fun(b) => Lv::Fun(b),
        Lval::Lambda(ci, formals, body) => Lv::Lambda(
            ci as int,
            cells_view(formals@),
            cells_view(body@),
        ),
        Lval::Sexpr(cells) => Lv::Sexpr(cells_view(cells@)),
        Lval::Qexpr(cells) => Lv::Qexpr(cells_view(cells@)),
        Lval::T => Lv::T,
        Lval::NIL => Lv::Nil,
    }
}

/// The model of a list of runtime values, element-wise.
pub open spec fn cells_view(cells: Seq<Lval>) -> Seq<Lv>
    decreases cells,
{
    if cells.len() == 0 {
        Seq::empty()
    } else {
        cells_view(cells.drop_last()).push(lval_view(cells.last()))
    }
}

/// `cells_view` is the element-wise image of `lval_view`.
pub broadcast proof fn lemma_cells_view(cells: Seq<Lval>)
    ensures
        (#[trigger] cells_view(cells)).len() == cells.len(),
        forall|i: int| 0 <= i < cells.len() ==> cells_view(cells)[i] == lval_view(cells[i]),
    decreases cells.len(),
{
    if cells.len() > 0 {
        lemma_cells_view(cells.drop_last());
    }
}

impl View for Lval {
    type V = Lv;

    open spec fn view(&self) -> Lv {
        lval_view(*self)
    }
}

impl Lval {
    /// A deep copy; the copy has the same model as the original.
    pub fn dup(&self) -> (r: Lval)
        ensures
            r@ == self@,
        decreases self,
    {
        match self {
            Lval::Num(n) => Lval::Num(*n),
            Lval::Sym(s) => Lval::Sym(s.clone()),
            Lval::Error(s) => Lval::Error(s.clone()),
            Lval::Fun(b) => Lval::Fun(*b),
            Lval::Lambda(ci, formals, body) => Lval::Lambda(
                *ci,
                dup_cells(formals),
                dup_cells(body),
            ),
            Lval::Sexpr(cells) => Lval::Sexpr(dup_cells(cells)),
            Lval::Qexpr(cells) => Lval::Qexpr(dup_cells(cells)),
            Lval::T => Lval::T,
            Lval::NIL => Lval::NIL,
        }
    }
}

/// Deep copy of a list of values, element-wise.
pub fn dup_cells(cells: &Vec<Lval>) -> (r: Vec<Lval>)
    ensures
        cells_view(r@) == cells_view(cells@),
    decreases cells,
{
    let mut r: Vec<Lval> = Vec::new();
    let mut i: usize = 0;
    while i < cells.len()
        invariant
            i <= cells@.len(),
            r@.len() == i,
            forall|j: int| 0 <= j < i ==> lval_view(r@[j]) == lval_view(cells@[j]),
        decreases cells@.len() - i,
    {
        r.push(cells[i].dup());
        i += 1;
    }
    proof {
        lemma_cells_view(r@);
        lemma_cells_view(cells@);
        assert(cells_view(r@) =~= cells_view(cells@));
    }
    r
}

/// Append one decimal digit character to a string.
fn push_digit(s: &mut String, d: u64)
    requires
        d < 10,
    ensures
        final(s)@ == old(s)@.push(digit_m(d as nat)),
{
    proof {
        reveal_strlit("0");
        reveal_strlit("1");
        reveal_strlit("2");
        reveal_strlit("3");
        reveal_strlit("4");
        reveal_strlit("5");
        reveal_strlit("6");
        reveal_strlit("7");
        reveal_strlit("8");
        reveal_strlit("9");
    }
    if d == 0 {
        s.append("0");
    } else if d == 1 {
        s.append("1");
    } else if d == 2 {
        s.append("2");
    } else if d == 3 {
        s.append("3");
    } else if d == 4 {
        s.append("4");
    } else if d == 5 {
        s.append("5");
    } else if d == 6 {
        s.append("6");
    } else if d == 7 {
        s.append("7");
    } else if d == 8 {
        s.append("8");
    } else {
        s.append("9");
    }
    proof {
        assert(final(s)@ =~= old(s)@.push(digit_m(d as nat)));
    }
}

/// The decimal representation of a number.
pub fn fmt_u64(n: u64) -> (s: String)
    ensures
        s@ == dec_m(n as nat),
    decreases n,
{
    if n < 10 {
        let mut s = String::new();
        push_digit(&mut s, n);
        proof {
            assert(Seq::<char>::empty().push(digit_m(n as nat)) =~= seq![digit_m(n as nat)]);
        }
        s
    } else {
        let mut s = fmt_u64(n / 10);
        push_digit(&mut s, n % 10);
        s
    }
}

/// The decimal representation of a signed number.
pub fn fmt_i64(x: i64) -> (s: String)
    ensures
        s@ == dec_int_m(x as int),
{
    if x >= 0 {
        fmt_u64(x as u64)
    } else {
        let mut s: String = "-".to_owned();
        let mag: u64 = if x == i64::MIN {
            9223372036854775808u64
        } else {
            (0i64 - x) as u64
        };
        proof {
            assert(mag == -(x as int));
            reveal_strlit("-");
        }
        s.append(fmt_u64(mag).as_str());
        proof {
            assert(s@ =~= seq!['-'] + dec_m((-(x as int)) as nat));
        }
        s
    }
}

impl Lval {
    /// The canonical text form of this value.
    pub fn render(&self) -> (r: String)
        ensures
            r@ == render_m(self@),
        decreases self, 1int,
    {
        match self {
            Lval::Num(x) => fmt_i64(*x),
            Lval::Sym(s) => s.clone(),
            Lval::Error(e) => {
                let mut s: String = "Error: ".to_owned();
                s.append(e.as_str());
                s
            },
            Lval::Fun(_) => "<function>".to_owned(),
            Lval::Lambda(_, formals, _) => {
                let mut s: String = "(\\ '".to_owned();
                s.append(render_joined(formals).as_str());
                s.append(")");
                s
            },
            Lval::Sexpr(cells) => {
                let mut s: String = "(".to_owned();
                s.append(render_joined(cells).as_str());
                s.append(")");
                s
            },
            Lval::Qexpr(cells) => {
                let mut s: String = "'".to_owned();
                s.append(render_joined(cells).as_str());
                s
            },
            Lval::T => "T".to_owned(),
            Lval::NIL => "NIL".to_owned(),
        }
    }
}

/// Space-separated rendering of a list of values (as `print` joins its
/// arguments).
pub fn render_joined(cells: &Vec<Lval>) -> (r: String)
    ensures
        r@ == render_cells_m(cells_view(cells@)),
    decreases cells, 0int,
{
    let r = render_cells_from(cells, 0);
    proof {
        assert(cells_view(cells@).skip(0) =~= cells_view(cells@));
    }
    r
}

fn render_cells_from(cells: &Vec<Lval>, i: usize) -> (r: String)
    requires
        i <= cells@.len(),
    ensures
        r@ == render_cells_m(cells_view(cells@).skip(i as int)),
    decreases cells, 0int, cells@.len() - i,
{
    broadcast use lemma_cells_view;

    let ghost cv = cells_view(cells@);
    if i == cells.len() {
        proof {
            assert(cv.skip(i as int) =~= Seq::<Lv>::empty());
        }
        String::new()
    } else {
        proof {
            assert(cv.skip(i as int)[0] == cv[i as int]);
            assert(cv.skip(i as int).drop_first() =~= cv.skip(i as int + 1));
        }
        let mut s = cells[i].render();
        if i + 1 < cells.len() {
            s.append(" ");
            let rest = render_cells_from(cells, i + 1);
            s.append(rest.as_str());
            proof {
                assert(s@ =~= render_m(cv[i as int]) + " "@ + render_cells_m(cv.skip(
                    i as int + 1,
                )));
            }
        }
        s
    }
}

/// Whether two strings hold the same characters (`s` against a literal).
pub fn str_is(s: &String, lit: &str) -> (r: bool)
    ensures
        r == (s@ == lit@),
{
    let owned: String = lit.to_owned();
    s.eq(&owned)
}

// ---------------------------------------------------------------------------
// The environment arena
// ---------------------------------------------------------------------------

/// One scope frame: an optional parent handle and its bindings, newest last.
pub struct Frame {
    pub parent: Option<usize>,
    pub data: Vec<(String, Lval)>,
}

/// The interpreter's state: the arena of scope frames (handles are indices,
/// a parent's handle is always smaller) and the log of values handed to
/// `print`, drained by the caller after evaluation.
pub struct Lenv {
    frames: Vec<Frame>,
    out: Vec<Vec<Lval>>,
}

/// The model of one frame's bindings.
pub open spec fn data_view(d: Seq<(String, Lval)>) -> Seq<(Seq<char>, Lv)> {
    Seq::new(d.len(), |i: int| (d[i].0@, lval_view(d[i].1)))
}

/// The model of one frame.
pub open spec fn frame_view(f: Frame) -> FrameM {
    FrameM {
        parent: match f.parent {
            Some(p) => Some(p as int),
            None => None,
        },
        data: data_view(f.data@),
    }
}

impl View for Lenv {
    type V = EnvM;

    closed spec fn view(&self) -> EnvM {
        EnvM {
            frames: Seq::new(self.frames@.len(), |i: int| frame_view(self.frames@[i])),
            out: Seq::new(self.out@.len(), |i: int| cells_view(self.out@[i]@)),
        }
    }
}

/// Deep copy of one frame's bindings.
fn dup_data(d: &Vec<(String, Lval)>) -> (r: Vec<(String, Lval)>)
    ensures
        data_view(r@) == data_view(d@),
{
    let mut r: Vec<(String, Lval)> = Vec::new();
    let mut i: usize = 0;
    while i < d.len()
        invariant
            i <= d@.len(),
            r@.len() == i,
            forall|j: int| 0 <= j < i ==> r@[j].0@ == d@[j].0@ && lval_view(#[trigger] r@[j].1)
                == lval_view(d@[j].1),
        decreases d@.len() - i,
    {
        let key = d[i].0.clone();
        let val = d[i].1.dup();
        r.push((key, val));
        i += 1;
    }
    proof {
        assert(data_view(r@) =~= data_view(d@));
    }
    r
}

impl Lenv {
    /// A new environment: one empty root frame, nothing printed yet.
    pub fn new() -> (e: Lenv)
        ensures
            e@ == (EnvM {
                frames: seq![FrameM { parent: None, data: Seq::empty() }],
                out: Seq::empty(),
            }),
            env_wf(e@),
    {
        let mut frames: Vec<Frame> = Vec::new();
        frames.push(Frame { parent: None, data: Vec::new() });
        let e = Lenv { frames, out: Vec::new() };
        proof {
            assert(e@.frames[0].data =~= Seq::<(Seq<char>, Lv)>::empty());
            assert(e@.frames =~~= seq![FrameM { parent: None, data: Seq::empty() }]);
            assert(e@.out =~= Seq::<Seq<Lv>>::empty());
            assert(e@ =~~= (EnvM {
                frames: seq![FrameM { parent: None, data: Seq::empty() }],
                out: Seq::empty(),
            }));
        }
        e
    }

    /// The number of frames in the arena.
    pub fn frame_count(&self) -> (n: usize)
        ensures
            n == self@.frames.len(),
    {
        self.frames.len()
    }

    /// Search frame `fr`'s own bindings, then its parent chain; a copy of
    /// the bound value, or `None` only when no frame on the chain binds `k`.
    pub fn get(&self, fr: usize, k: &String) -> (r: Option<Lval>)
        requires
            env_wf(self@),
            fr < self@.frames.len(),
        ensures
            match (r, env_get(self@, fr as int, k@)) {
                (Some(rv), Some(mv)) => rv@ == mv,
                (None, None) => true,
                _ => false,
            },
        decreases fr,
    {
        let frame = &self.frames[fr];
        let ghost dv = data_view(frame.data@);
        proof {
            assert(self@.frames[fr as int] == frame_view(self.frames@[fr as int]));
            assert(self@.frames[fr as int].data == dv);
            assert(dv.take(dv.len() as int) =~= dv);
        }
        let mut j = frame.data.len();
        while j > 0
            invariant
                fr < self.frames@.len(),
                *frame == self.frames@[fr as int],
                j <= frame.data@.len(),
                dv == data_view(frame.data@),
                frame_get(dv, k@) == frame_get(dv.take(j as int), k@),
            decreases j,
        {
            j -= 1;
            proof {
                assert(dv.take(j as int + 1).drop_last() =~= dv.take(j as int));
                assert(dv.take(j as int + 1).last() == dv[j as int]);
                assert(dv[j as int] == (frame.data@[j as int].0@, lval_view(
                    frame.data@[j as int].1,
                )));
            }
            if frame.data[j].0.eq(k) {
                proof {
                    assert(frame_get(dv.take(j as int + 1), k@) == Some(dv[j as int].1));
                    assert(env_get(self@, fr as int, k@) == Some(dv[j as int].1));
                }
                return Some(frame.data[j].1.dup());
            }
        }
        proof {
            assert(dv.take(0) =~= Seq::<(Seq<char>, Lv)>::empty());
            assert(frame_get(dv, k@) is None);
        }
        match frame.parent {
            Some(p) => {
                proof {
                    assert(self@.frames[fr as int].parent == Some(p as int));
                    assert(0 <= p < fr);
                }
                self.get(p, k)
            },
            None => None,
        }
    }

    /// Bind `k` in frame `fr` alone.
    pub fn put(&mut self, fr: usize, k: String, v: Lval)
        requires
            fr < old(self)@.frames.len(),
        ensures
            final(self)@ == env_put(old(self)@, fr as int, k@, v@),
    {
        let ghost kview = k@;
        let ghost vview = v@;
        self.frames[fr].data.push((k, v));
        proof {
            let oldm = old(self)@;
            assert(data_view(self.frames@[fr as int].data@) =~= oldm.frames[fr as int].data.push(
                (kview, vview),
            ));
            assert(self@.frames =~= env_put(oldm, fr as int, kview, vview).frames);
            assert(self@.out =~= oldm.out);
            assert(self@ =~= env_put(oldm, fr as int, kview, vview));
        }
    }

    /// Bind `k` in the outermost frame reachable from `fr`.
    pub fn def(&mut self, fr: usize, k: String, v: Lval)
        requires
            env_wf(old(self)@),
            fr < old(self)@.frames.len(),
        ensures
            final(self)@ == env_def(old(self)@, fr as int, k@, v@),
        decreases fr,
    {
        let parent = self.frames[fr].parent;
        match parent {
            Some(p) => {
                proof {
                    assert(old(self)@.frames[fr as int].parent == Some(p as int));
                    assert(0 <= p < fr);
                }
                self.def(p, k, v);
            },
            None => {
                proof {
                    assert(root_of(old(self)@, fr as int) == fr as int);
                }
                self.put(fr, k, v);
            },
        }
    }

    /// The handle of the outermost frame reachable from `fr`.
    pub fn root(&self, fr: usize) -> (r: usize)
        requires
            env_wf(self@),
            fr < self@.frames.len(),
        ensures
            r as int == root_of(self@, fr as int),
            r <= fr,
        decreases fr,
    {
        match self.frames[fr].parent {
            Some(p) => {
                proof {
                    assert(self@.frames[fr as int].parent == Some(p as int));
                    assert(0 <= p < fr);
                }
                self.root(p)
            },
            None => fr,
        }
    }

    /// Append a fresh frame duplicating frame `src`; its handle is returned.
    pub fn copy(&mut self, src: usize) -> (nf: usize)
        requires
            src < old(self)@.frames.len(),
        ensures
            final(self)@ == env_copy(old(self)@, src as int),
            nf == old(self)@.frames.len(),
    {
        let parent = self.frames[src].parent;
        let data = dup_data(&self.frames[src].data);
        let nf = self.frames.len();
        self.frames.push(Frame { parent, data });
        proof {
            let oldm = old(self)@;
            assert(self@.frames =~= env_copy(oldm, src as int).frames);
            assert(self@.out =~= oldm.out);
            assert(self@ =~= env_copy(oldm, src as int));
        }
        nf
    }

    /// Append a fresh empty parentless frame; its handle is returned.
    pub fn fresh(&mut self) -> (nf: usize)
        ensures
            final(self)@ == env_fresh(old(self)@),
            nf == old(self)@.frames.len(),
    {
        let nf = self.frames.len();
        self.frames.push(Frame { parent: None, data: Vec::new() });
        proof {
            let oldm = old(self)@;
            assert(data_view(Seq::<(String, Lval)>::empty()) =~= Seq::<(Seq<char>, Lv)>::empty());
            assert(self@.frames =~= env_fresh(oldm).frames);
            assert(self@.out =~= oldm.out);
            assert(self@ =~= env_fresh(oldm));
        }
        nf
    }

    /// Re-parent frame `fr` (used when a completed call frame is chained to
    /// the calling environment).
    pub fn set_parent(&mut self, fr: usize, parent: usize)
        requires
            fr < old(self)@.frames.len(),
        ensures
            final(self)@ == (EnvM {
                frames: old(self)@.frames.update(
                    fr as int,
                    FrameM {
                        parent: Some(parent as int),
                        data: old(self)@.frames[fr as int].data,
                    },
                ),
                out: old(self)@.out,
            }),
    {
        self.frames[fr].parent = Some(parent);
        proof {
            let oldm = old(self)@;
            let target = EnvM {
                frames: oldm.frames.update(
                    fr as int,
                    FrameM { parent: Some(parent as int), data: oldm.frames[fr as int].data },
                ),
                out: oldm.out,
            };
            assert(self@.frames =~= target.frames);
            assert(self@.out =~= target.out);
            assert(self@ =~= target);
        }
    }

    /// Append one `print` record to the output log.
    pub fn log_print(&mut self, args: Vec<Lval>)
        ensures
            final(self)@ == (EnvM {
                frames: old(self)@.frames,
                out: old(self)@.out.push(cells_view(args@)),
            }),
    {
        let ghost argsv = cells_view(args@);
        self.out.push(args);
        proof {
            let oldm = old(self)@;
            assert(self@.frames =~= oldm.frames);
            assert(self@.out =~= oldm.out.push(argsv));
            assert(self@ =~= (EnvM { frames: oldm.frames, out: oldm.out.push(argsv) }));
        }
    }

    /// Remove and return the oldest pending `print` record, if any.
    pub fn take_print(&mut self) -> (r: Option<Vec<Lval>>)
        ensures
            match r {
                Some(rec) => old(self)@.out.len() > 0 && cells_view(rec@) == old(self)@.out[0]
                    && final(self)@ == (EnvM {
                    frames: old(self)@.frames,
                    out: old(self)@.out.drop_first(),
                }),
                None => old(self)@.out.len() == 0 && final(self)@ == old(self)@,
            },
    {
        if self.out.len() == 0 {
            proof {
                assert(self@ =~= old(self)@);
            }
            return None;
        }
        let rec = self.out.remove(0);
        proof {
            let oldm = old(self)@;
            assert(self@.frames =~= oldm.frames);
            assert(self@.out =~= oldm.out.drop_first());
            assert(self@ =~= (EnvM { frames: oldm.frames, out: oldm.out.drop_first() }));
        }
        Some(rec)
    }
}

} // verus!
