pub mod cell;
pub mod rt;

use crate::error::Error;
use vstd::prelude::*;

pub use cell::Ty;
pub use cell::TyArena;
pub use cell::TyInner;
pub use rt::Store;
pub use rt::Value;

verus! {

broadcast use vstd::std_specs::vec::axiom_vec_index_decreases;

/// An intermediate expression: a literal, a reference to a variable slot,
/// or a builtin under a chain of calls.
#[derive(Debug)]
pub enum Expr {
    Int(i32),
    Var(usize),
    Func { func: Func, calls: Vec<Call> },
}

/// The builtins. The three carrying a type cell are the only places
/// concrete type information enters an expression; the arithmetic five are
/// fixed at two integers in, one out.
#[derive(Debug)]
pub enum Func {
    Id(Ty),
    Deref(Ty),
    Assign(Ty),
    Add,
    Sub,
    Mul,
    Div,
    Rem,
}

/// One call of a chain: an ordered list of argument expressions.
#[derive(Debug)]
pub struct Call {
    pub args: Vec<Expr>,
}

impl Call {
    pub fn new(args: Vec<Expr>) -> (r: Call)
        ensures
            r.args == args,
    {
        Call { args }
    }
}

/// The type handles of a builtin stay inside an arena of `len` cells.
pub open spec fn func_wf(f: Func, len: nat) -> bool {
    match f {
        Func::Id(t) => t.id < len,
        Func::Deref(t) => t.id < len,
        Func::Assign(t) => t.id < len,
        _ => true,
    }
}

/// Every slot index of the expression stays under `nvars`, and every type
/// handle under `len`.
pub open spec fn expr_wf(e: Expr, nvars: nat, len: nat) -> bool
    decreases e,
{
    match e {
        Expr::Int(_) => true,
        Expr::Var(i) => i < nvars,
        Expr::Func { func, calls } => func_wf(func, len) && calls_wf(calls@, nvars, len),
    }
}

pub open spec fn calls_wf(cs: Seq<Call>, nvars: nat, len: nat) -> bool
    decreases cs,
{
    if cs.len() == 0 {
        true
    } else {
        exprs_wf(cs[0].args@, nvars, len) && calls_wf(cs.drop_first(), nvars, len)
    }
}

pub open spec fn exprs_wf(es: Seq<Expr>, nvars: nat, len: nat) -> bool
    decreases es,
{
    if es.len() == 0 {
        true
    } else {
        expr_wf(es[0], nvars, len) && exprs_wf(es.drop_first(), nvars, len)
    }
}

/// `calls_wf` holds of each call of the chain.
pub proof fn lemma_calls_wf_index(cs: Seq<Call>, nvars: nat, len: nat)
    requires
        calls_wf(cs, nvars, len),
    ensures
        forall|i: int| 0 <= i < cs.len() ==> exprs_wf((#[trigger] cs[i]).args@, nvars, len),
    decreases cs,
{
    if cs.len() > 0 {
        lemma_calls_wf_index(cs.drop_first(), nvars, len);
        assert forall|i: int| 0 <= i < cs.len() implies exprs_wf(
            (#[trigger] cs[i]).args@,
            nvars,
            len,
        ) by {
            if i > 0 {
                assert(cs.drop_first()[i - 1] == cs[i]);
            }
        }
    }
}

/// `exprs_wf` holds of each expression of the list.
pub proof fn lemma_exprs_wf_index(es: Seq<Expr>, nvars: nat, len: nat)
    requires
        exprs_wf(es, nvars, len),
    ensures
        forall|i: int| 0 <= i < es.len() ==> expr_wf(#[trigger] es[i], nvars, len),
    decreases es,
{
    if es.len() > 0 {
        lemma_exprs_wf_index(es.drop_first(), nvars, len);
        assert forall|i: int| 0 <= i < es.len() implies expr_wf(#[trigger] es[i], nvars, len) by {
            if i > 0 {
                assert(es.drop_first()[i - 1] == es[i]);
            }
        }
    }
}

/// Well-formedness survives the environments growing.
pub proof fn lemma_expr_wf_mono(e: Expr, nv1: nat, nv2: nat, l1: nat, l2: nat)
    requires
        expr_wf(e, nv1, l1),
        nv1 <= nv2,
        l1 <= l2,
    ensures
        expr_wf(e, nv2, l2),
    decreases e,
{
    match e {
        Expr::Func { func, calls } => {
            lemma_calls_wf_mono(calls@, nv1, nv2, l1, l2);
        },
        _ => {},
    }
}

pub proof fn lemma_calls_wf_mono(cs: Seq<Call>, nv1: nat, nv2: nat, l1: nat, l2: nat)
    requires
        calls_wf(cs, nv1, l1),
        nv1 <= nv2,
        l1 <= l2,
    ensures
        calls_wf(cs, nv2, l2),
    decreases cs,
{
    if cs.len() > 0 {
        lemma_exprs_wf_mono(cs[0].args@, nv1, nv2, l1, l2);
        lemma_calls_wf_mono(cs.drop_first(), nv1, nv2, l1, l2);
    }
}

pub proof fn lemma_exprs_wf_mono(es: Seq<Expr>, nv1: nat, nv2: nat, l1: nat, l2: nat)
    requires
        exprs_wf(es, nv1, l1),
        nv1 <= nv2,
        l1 <= l2,
    ensures
        exprs_wf(es, nv2, l2),
    decreases es,
{
    if es.len() > 0 {
        lemma_expr_wf_mono(es[0], nv1, nv2, l1, l2);
        lemma_exprs_wf_mono(es.drop_first(), nv1, nv2, l1, l2);
    }
}

/// The primitive closure a builtin starts out as.
pub open spec fn builtin_model(f: Func) -> rt::ValModel {
    match f {
        Func::Id(_) => rt::ValModel::Id,
        Func::Deref(_) => rt::ValModel::Deref,
        Func::Assign(_) => rt::ValModel::Assign,
        Func::Add => rt::ValModel::Add,
        Func::Sub => rt::ValModel::Sub,
        Func::Mul => rt::ValModel::Mul,
        Func::Div => rt::ValModel::Div,
        Func::Rem => rt::ValModel::Rem,
    }
}

/// How many arguments each call of a builtin's chain must supply at
/// first: the declared parameter count of its signature.
pub open spec fn builtin_arity(f: Func) -> nat {
    match f {
        Func::Id(_) => 1,
        Func::Deref(_) => 1,
        Func::Assign(_) => 2,
        _ => 2,
    }
}

/// The arena only ever grows, and a cell, once concrete, keeps its shape.
pub open spec fn arena_evolves(n0: Seq<cell::TyInner>, n2: Seq<cell::TyInner>) -> bool {
    &&& n0.len() <= n2.len()
    &&& forall|i: int|
        0 <= i < n0.len() ==> #[trigger] n2[i] == n0[i] || (n0[i] is Undetermined && n2[i]
            is SameAs)
}

/// The shapes of the variable environment: each slot's type handle and
/// value shape.
pub open spec fn vars_view(s: Seq<(Ty, Value)>) -> Seq<(Ty, rt::ValModel)> {
    s.map_values(|p: (Ty, Value)| (p.0, rt::value_view(p.1)))
}

/// The shape of an evaluation result.
pub open spec fn eval_res_view(r: Result<(Ty, Value), Error>) -> Result<(Ty, rt::ValModel), Error> {
    match r {
        Ok(p) => Ok((p.0, rt::value_view(p.1))),
        Err(e) => Err(e),
    }
}

/// The value shapes and layer queues collected for one call's arguments.
pub open spec fn call_args_view(s: Seq<(Value, Vec<Vec<Ty>>)>) -> Seq<(rt::ValModel, Seq<Seq<Ty>>)> {
    s.map_values(|p: (Value, Vec<Vec<Ty>>)| (rt::value_view(p.0), cell::queue_view(p.1)))
}

/// The fresh signature cells a builtin's chain starts from: the arena
/// grows by exactly the builtin's signature nodes, and `ty` is the
/// function cell among them.
pub open spec fn sig_rel(f: Func, n0: Seq<TyInner>, n1: Seq<TyInner>, ty: Ty) -> bool {
    match f {
        Func::Id(t) => {
            &&& n1.len() == n0.len() + 1
            &&& n0.is_prefix_of(n1)
            &&& ty == (Ty { id: n0.len() as usize })
            &&& match n1[n0.len() as int] {
                TyInner::Func { args, ret } => args@ == seq![t] && ret == t,
                _ => false,
            }
        },
        Func::Deref(t) => {
            &&& n1.len() == n0.len() + 2
            &&& n0.is_prefix_of(n1)
            &&& n1[n0.len() as int] == TyInner::Ref(t)
            &&& ty == (Ty { id: (n0.len() + 1) as usize })
            &&& match n1[n0.len() as int + 1] {
                TyInner::Func { args, ret } => args@ == seq![Ty { id: n0.len() as usize }] && ret
                    == t,
                _ => false,
            }
        },
        Func::Assign(t) => {
            &&& n1.len() == n0.len() + 3
            &&& n0.is_prefix_of(n1)
            &&& n1[n0.len() as int] == TyInner::Ref(t)
            &&& n1[n0.len() as int + 1] == TyInner::Ref(t)
            &&& ty == (Ty { id: (n0.len() + 2) as usize })
            &&& match n1[n0.len() as int + 2] {
                TyInner::Func { args, ret } => args@ == seq![
                    Ty { id: n0.len() as usize },
                    t,
                ] && ret == (Ty { id: (n0.len() + 1) as usize }),
                _ => false,
            }
        },
        _ => {
            &&& n1.len() == n0.len() + 4
            &&& n0.is_prefix_of(n1)
            &&& n1[n0.len() as int] is Int
            &&& n1[n0.len() as int + 1] is Int
            &&& n1[n0.len() as int + 2] is Int
            &&& ty == (Ty { id: (n0.len() + 3) as usize })
            &&& match n1[n0.len() as int + 3] {
                TyInner::Func { args, ret } => args@ == seq![
                    Ty { id: n0.len() as usize },
                    Ty { id: (n0.len() + 1) as usize },
                ] && ret == (Ty { id: (n0.len() + 2) as usize }),
                _ => false,
            }
        },
    }
}

/// The longest of the per-argument layer queues; between queues of equal
/// length the later argument's queue wins.
pub open spec fn max_queue(rs: Seq<(rt::ValModel, Seq<Seq<Ty>>)>) -> Seq<Seq<Ty>>
    decreases rs,
{
    if rs.len() == 0 {
        Seq::empty()
    } else if rs.last().1.len() >= max_queue(rs.drop_last()).len() {
        rs.last().1
    } else {
        max_queue(rs.drop_last())
    }
}

/// `k` nested `Const` wrappers around `v`.
pub open spec fn const_wrap(v: rt::ValModel, k: nat) -> rt::ValModel
    decreases k,
{
    if k == 0 {
        v
    } else {
        rt::ValModel::Const(Box::new(const_wrap(v, (k - 1) as nat)))
    }
}

/// Every argument lifted to the common pending arity of `layers` curry
/// layers.
pub open spec fn padded_args(rs: Seq<(rt::ValModel, Seq<Seq<Ty>>)>, layers: nat) -> Seq<
    rt::ValModel,
> {
    Seq::new(rs.len(), |i: int| const_wrap(rs[i].0, (layers - rs[i].1.len()) as nat))
}

/// Currying, one owed layer at a time: the accumulated value is pushed
/// onto the front of the argument list and replaced by the `Curry`
/// primitive.
pub open spec fn curry_wrap(v: rt::ValModel, args: Seq<rt::ValModel>, layers: nat) -> (
    rt::ValModel,
    Seq<rt::ValModel>,
)
    decreases layers,
{
    if layers == 0 {
        (v, args)
    } else {
        curry_wrap(rt::ValModel::Curry, seq![v] + args, (layers - 1) as nat)
    }
}

/// The accumulated type after a call: the callee's return type under the
/// owed layers, each a fresh `Func` cell appended to the arena, the front
/// (innermost) layer first, so the back of the queue stands outermost.
pub open spec fn rewrap_rel(
    n0: Seq<TyInner>,
    ret: Ty,
    q: Seq<Seq<Ty>>,
    n1: Seq<TyInner>,
    ty: Ty,
) -> bool
    decreases q,
{
    if q.len() == 0 {
        n1 == n0 && ty == ret
    } else {
        &&& n1.len() > n0.len()
        &&& n0.is_prefix_of(n1)
        &&& match n1[n0.len() as int] {
            TyInner::Func { args, ret: r2 } => args@ == q[0] && r2 == ret,
            _ => false,
        }
        &&& rewrap_rel(
            n1.take(n0.len() as int + 1),
            Ty { id: n0.len() as usize },
            q.drop_first(),
            n1,
            ty,
        )
    }
}

/// An intermediate outcome of one evaluation step: the arena and store it
/// left behind and what it returned. The existentials of `args_rel` and
/// `calls_rel` quantify over such triples and trigger on this anchor.
pub open spec fn step_outcome<R>(n: Seq<TyInner>, s: Seq<Option<rt::ValModel>>, r: R) -> bool {
    true
}

/// The rebuilt accumulated type of one call: the arena after the owed
/// layers were appended and the cell naming the rebuilt type. The inner
/// existential of `calls_rel` triggers on this anchor.
pub open spec fn rebuilt_ty(n: Seq<TyInner>, ty: Ty) -> bool {
    true
}

/// A collected prefix of per-argument results glued onto the outcome of
/// the remaining arguments.
pub open spec fn prepend_out(
    cs: Seq<(rt::ValModel, Seq<Seq<Ty>>)>,
    tail: Result<Seq<(rt::ValModel, Seq<Seq<Ty>>)>, Error>,
) -> Result<Seq<(rt::ValModel, Seq<Seq<Ty>>)>, Error> {
    match tail {
        Ok(rs) => Ok(cs + rs),
        Err(e) => Err(e),
    }
}

/// The per-argument work of one call, left to right: each argument is
/// evaluated, then its type is unified against the matching parameter,
/// and its value shape is collected beside the layer queue unification
/// returned; the first failure ends the call with that error.
pub open spec fn args_rel(
    args: Seq<Expr>,
    params: Seq<Ty>,
    n0: Seq<TyInner>,
    vars: Seq<(Ty, rt::ValModel)>,
    s0: Seq<Option<rt::ValModel>>,
    n1: Seq<TyInner>,
    s1: Seq<Option<rt::ValModel>>,
    out: Result<Seq<(rt::ValModel, Seq<Seq<Ty>>)>, Error>,
) -> bool
    decreases args, 1int,
{
    if args.len() == 0 {
        n1 == n0 && s1 == s0 && out == Ok::<Seq<(rt::ValModel, Seq<Seq<Ty>>)>, Error>(Seq::empty())
    } else {
        exists|
            na: Seq<TyInner>,
            sa: Seq<Option<rt::ValModel>>,
            ar: Result<(Ty, rt::ValModel), Error>,
        |
            {
                &&& #[trigger] step_outcome(na, sa, ar)
                &&& eval_rel(args[0], n0, vars, s0, na, sa, ar)
                &&& match ar {
                    Err(e) => n1 == na && s1 == sa && out == Err::<
                        Seq<(rt::ValModel, Seq<Seq<Ty>>)>,
                        Error,
                    >(e),
                    Ok(p) => ({
                        let (nb, uq) = cell::unify_spec(
                            na,
                            p.0,
                            params[0],
                            na.len() as nat,
                            na.len() as nat,
                        );
                        match uq {
                            Err(e) => n1 == nb && s1 == sa && out == Err::<
                                Seq<(rt::ValModel, Seq<Seq<Ty>>)>,
                                Error,
                            >(e),
                            Ok(q) => match out {
                                Ok(rs) => rs.len() >= 1 && rs[0] == (p.1, q) && args_rel(
                                    args.drop_first(),
                                    params.drop_first(),
                                    nb,
                                    vars,
                                    sa,
                                    n1,
                                    s1,
                                    Ok(rs.drop_first()),
                                ),
                                Err(e2) => args_rel(
                                    args.drop_first(),
                                    params.drop_first(),
                                    nb,
                                    vars,
                                    sa,
                                    n1,
                                    s1,
                                    Err(e2),
                                ),
                            },
                        }
                    }),
                }
            }
    }
}

/// The fold of a builtin's call chain. Per call, in order: the accumulated
/// type must resolve to a function; the call's literal argument count must
/// match its parameter count; each argument is evaluated and unified
/// (`args_rel`); the longest per-argument layer queue is selected, a later
/// argument winning ties; shorter arguments are lifted with one `Const`
/// wrapper per missing layer; the accumulated value is curried once per
/// owed layer; the accumulated type becomes the callee's return type
/// rebuilt under the owed layers in fresh cells; and the curried value is
/// dispatched on the padded arguments.
pub open spec fn calls_rel(
    cs: Seq<Call>,
    n0: Seq<TyInner>,
    vars: Seq<(Ty, rt::ValModel)>,
    s0: Seq<Option<rt::ValModel>>,
    ty0: Ty,
    v0: rt::ValModel,
    n2: Seq<TyInner>,
    s2: Seq<Option<rt::ValModel>>,
    r: Result<(Ty, rt::ValModel), Error>,
) -> bool
    decreases cs, 2int,
{
    if cs.len() == 0 {
        n2 == n0 && s2 == s0 && r == Ok::<(Ty, rt::ValModel), Error>((ty0, v0))
    } else {
        match cell::get_args_ret_spec(n0, ty0) {
            Err(e) => n2 == n0 && s2 == s0 && r == Err::<(Ty, rt::ValModel), Error>(e),
            Ok(sig) => if cs[0].args@.len() != sig.0.len() {
                n2 == n0 && s2 == s0 && r == Err::<(Ty, rt::ValModel), Error>(Error::ArityMismatch)
            } else {
                exists|
                    na: Seq<TyInner>,
                    sa: Seq<Option<rt::ValModel>>,
                    ares: Result<Seq<(rt::ValModel, Seq<Seq<Ty>>)>, Error>,
                |
                    {
                        &&& #[trigger] step_outcome(na, sa, ares)
                        &&& args_rel(cs[0].args@, sig.0, n0, vars, s0, na, sa, ares)
                        &&& match ares {
                            Err(e) => n2 == na && s2 == sa && r == Err::<
                                (Ty, rt::ValModel),
                                Error,
                            >(e),
                            Ok(rs) => ({
                                let q = max_queue(rs);
                                let cw = curry_wrap(v0, padded_args(rs, q.len()), q.len());
                                exists|nb: Seq<TyInner>, nty: Ty|
                                    {
                                        &&& #[trigger] rebuilt_ty(nb, nty)
                                        &&& rewrap_rel(na, sig.1, q, nb, nty)
                                        &&& ({
                                            let (sd, dr) = rt::call_spec(cw.0, cw.1, sa);
                                            match dr {
                                                Err(e) => n2 == nb && s2 == sd && r == Err::<
                                                    (Ty, rt::ValModel),
                                                    Error,
                                                >(e),
                                                Ok(nv) => calls_rel(
                                                    cs.drop_first(),
                                                    nb,
                                                    vars,
                                                    sd,
                                                    nty,
                                                    nv,
                                                    n2,
                                                    s2,
                                                    r,
                                                ),
                                            }
                                        })
                                    }
                            }),
                        }
                    }
            },
        }
    }
}

/// What one evaluation leaves behind, pinned for every input: the arena
/// (grown by fresh cells and placeholder bindings), the store, and the
/// result. A literal gets a fresh `Int` cell; a variable reference hands
/// back its slot's type handle and value shape; a builtin starts from its
/// fresh signature cells (`sig_rel`) and folds its call chain
/// (`calls_rel`).
pub open spec fn eval_rel(
    e: Expr,
    n0: Seq<TyInner>,
    vars: Seq<(Ty, rt::ValModel)>,
    s0: Seq<Option<rt::ValModel>>,
    n2: Seq<TyInner>,
    s2: Seq<Option<rt::ValModel>>,
    r: Result<(Ty, rt::ValModel), Error>,
) -> bool
    decreases e, 3int,
{
    match e {
        Expr::Int(v) => n2 == n0.push(TyInner::Int) && s2 == s0 && r == Ok::<
            (Ty, rt::ValModel),
            Error,
        >((Ty { id: n0.len() as usize }, rt::ValModel::Int(v))),
        Expr::Var(idx) => n2 == n0 && s2 == s0 && idx < vars.len() && r == Ok::<
            (Ty, rt::ValModel),
            Error,
        >(vars[idx as int]),
        Expr::Func { func, calls } => exists|n1: Seq<TyInner>, ty0: Ty|
            {
                &&& #[trigger] sig_rel(func, n0, n1, ty0)
                &&& calls_rel(calls@, n1, vars, s0, ty0, builtin_model(func), n2, s2, r)
            },
    }
}

/// Appending one owed layer to a rebuilt type: a fresh `Func` cell over
/// the previous result extends the rebuild by that layer at the back of
/// the queue.
pub proof fn lemma_rewrap_snoc(
    n0: Seq<TyInner>,
    r0: Ty,
    q: Seq<Seq<Ty>>,
    n1: Seq<TyInner>,
    t1: Ty,
    layer: Seq<Ty>,
    n2: Seq<TyInner>,
    t2: Ty,
)
    requires
        rewrap_rel(n0, r0, q, n1, t1),
        n2.len() == n1.len() + 1,
        n1.is_prefix_of(n2),
        match n2[n1.len() as int] {
            TyInner::Func { args, ret } => args@ == layer && ret == t1,
            _ => false,
        },
        t2 == (Ty { id: n1.len() as usize }),
    ensures
        rewrap_rel(n0, r0, q.push(layer), n2, t2),
    decreases q,
{
    if q.len() == 0 {
        assert(n1 == n0);
        assert(q.push(layer)[0] == layer);
        assert(n0.is_prefix_of(n2));
        assert(q.push(layer).drop_first() =~= Seq::<Seq<Ty>>::empty());
        assert(n2.take(n0.len() as int + 1) =~= n2);
        assert(rewrap_rel(n2, t2, Seq::empty(), n2, t2));
        assert(rewrap_rel(n0, r0, q.push(layer), n2, t2));
    } else {
        let mid = n1.take(n0.len() as int + 1);
        assert(rewrap_rel(mid, Ty { id: n0.len() as usize }, q.drop_first(), n1, t1));
        lemma_rewrap_snoc(mid, Ty { id: n0.len() as usize }, q.drop_first(), n1, t1, layer, n2, t2);
        assert(q.drop_first().push(layer) =~= q.push(layer).drop_first());
        assert(n2[n0.len() as int] == n1[n0.len() as int]);
        assert(q.push(layer)[0] == q[0]);
        assert(n0.is_prefix_of(n2)) by {
            assert(n0 =~= n2.subrange(0, n0.len() as int));
        }
        assert(n2.take(n0.len() as int + 1) =~= mid);
        assert(rewrap_rel(n0, r0, q.push(layer), n2, t2));
    }
}

/// An argument whose evaluation fails ends the argument list with that
/// error.
pub proof fn lemma_args_rel_eval_err(
    args: Seq<Expr>,
    params: Seq<Ty>,
    n0: Seq<TyInner>,
    vars: Seq<(Ty, rt::ValModel)>,
    s0: Seq<Option<rt::ValModel>>,
    na: Seq<TyInner>,
    sa: Seq<Option<rt::ValModel>>,
    e: Error,
)
    requires
        args.len() > 0,
        eval_rel(args[0], n0, vars, s0, na, sa, Err(e)),
    ensures
        args_rel(args, params, n0, vars, s0, na, sa, Err(e)),
{
    assert(step_outcome(na, sa, Err::<(Ty, rt::ValModel), Error>(e)));
}

/// An argument whose unification fails ends the argument list with that
/// error.
pub proof fn lemma_args_rel_unify_err(
    args: Seq<Expr>,
    params: Seq<Ty>,
    n0: Seq<TyInner>,
    vars: Seq<(Ty, rt::ValModel)>,
    s0: Seq<Option<rt::ValModel>>,
    na: Seq<TyInner>,
    sa: Seq<Option<rt::ValModel>>,
    aty: Ty,
    av: rt::ValModel,
    nb: Seq<TyInner>,
    e: Error,
)
    requires
        args.len() > 0,
        eval_rel(args[0], n0, vars, s0, na, sa, Ok((aty, av))),
        cell::unify_spec(na, aty, params[0], na.len() as nat, na.len() as nat) == (
            nb,
            Err::<Seq<Seq<Ty>>, Error>(e),
        ),
    ensures
        args_rel(args, params, n0, vars, s0, nb, sa, Err(e)),
{
    assert(step_outcome(na, sa, Ok::<(Ty, rt::ValModel), Error>((aty, av))));
}

/// One successfully evaluated and unified argument, consed onto the
/// outcome of the remaining arguments.
pub proof fn lemma_args_rel_cons(
    args: Seq<Expr>,
    params: Seq<Ty>,
    n0: Seq<TyInner>,
    vars: Seq<(Ty, rt::ValModel)>,
    s0: Seq<Option<rt::ValModel>>,
    na: Seq<TyInner>,
    sa: Seq<Option<rt::ValModel>>,
    aty: Ty,
    av: rt::ValModel,
    nb: Seq<TyInner>,
    q: Seq<Seq<Ty>>,
    n1: Seq<TyInner>,
    s1: Seq<Option<rt::ValModel>>,
    tail: Result<Seq<(rt::ValModel, Seq<Seq<Ty>>)>, Error>,
)
    requires
        args.len() > 0,
        eval_rel(args[0], n0, vars, s0, na, sa, Ok((aty, av))),
        cell::unify_spec(na, aty, params[0], na.len() as nat, na.len() as nat) == (
            nb,
            Ok::<Seq<Seq<Ty>>, Error>(q),
        ),
        args_rel(args.drop_first(), params.drop_first(), nb, vars, sa, n1, s1, tail),
    ensures
        args_rel(args, params, n0, vars, s0, n1, s1, prepend_out(seq![(av, q)], tail)),
{
    assert(step_outcome(na, sa, Ok::<(Ty, rt::ValModel), Error>((aty, av))));
    match tail {
        Ok(rs) => {
            assert((seq![(av, q)] + rs)[0] == (av, q));
            assert((seq![(av, q)] + rs).drop_first() =~= rs);
        },
        Err(_) => {},
    }
}

/// A call whose accumulated type is no function ends the chain with that
/// error.
pub proof fn lemma_calls_rel_head_err(
    cs: Seq<Call>,
    n0: Seq<TyInner>,
    vars: Seq<(Ty, rt::ValModel)>,
    s0: Seq<Option<rt::ValModel>>,
    ty0: Ty,
    v0: rt::ValModel,
    e: Error,
)
    requires
        cs.len() > 0,
        cell::get_args_ret_spec(n0, ty0) == Err::<(Seq<Ty>, Ty), Error>(e),
    ensures
        calls_rel(cs, n0, vars, s0, ty0, v0, n0, s0, Err(e)),
{
}

/// A call whose literal argument count misses the parameter count ends the
/// chain with the arity error.
pub proof fn lemma_calls_rel_arity_err(
    cs: Seq<Call>,
    n0: Seq<TyInner>,
    vars: Seq<(Ty, rt::ValModel)>,
    s0: Seq<Option<rt::ValModel>>,
    ty0: Ty,
    v0: rt::ValModel,
    params: Seq<Ty>,
    ret: Ty,
)
    requires
        cs.len() > 0,
        cell::get_args_ret_spec(n0, ty0) == Ok::<(Seq<Ty>, Ty), Error>((params, ret)),
        cs[0].args@.len() != params.len(),
    ensures
        calls_rel(cs, n0, vars, s0, ty0, v0, n0, s0, Err(Error::ArityMismatch)),
{
}

/// A call one of whose arguments fails ends the chain with that error.
pub proof fn lemma_calls_rel_args_err(
    cs: Seq<Call>,
    n0: Seq<TyInner>,
    vars: Seq<(Ty, rt::ValModel)>,
    s0: Seq<Option<rt::ValModel>>,
    ty0: Ty,
    v0: rt::ValModel,
    params: Seq<Ty>,
    ret: Ty,
    na: Seq<TyInner>,
    sa: Seq<Option<rt::ValModel>>,
    e: Error,
)
    requires
        cs.len() > 0,
        cell::get_args_ret_spec(n0, ty0) == Ok::<(Seq<Ty>, Ty), Error>((params, ret)),
        cs[0].args@.len() == params.len(),
        args_rel(cs[0].args@, params, n0, vars, s0, na, sa, Err(e)),
    ensures
        calls_rel(cs, n0, vars, s0, ty0, v0, na, sa, Err(e)),
{
    assert(step_outcome(na, sa, Err::<Seq<(rt::ValModel, Seq<Seq<Ty>>)>, Error>(e)));
}

/// One full call step: evaluated and unified arguments, the selected
/// queue's padding, currying and type rebuild, then the dispatch, glued to
/// the outcome of the remaining calls.
pub proof fn lemma_calls_rel_step(
    cs: Seq<Call>,
    n0: Seq<TyInner>,
    vars: Seq<(Ty, rt::ValModel)>,
    s0: Seq<Option<rt::ValModel>>,
    ty0: Ty,
    v0: rt::ValModel,
    params: Seq<Ty>,
    ret: Ty,
    na: Seq<TyInner>,
    sa: Seq<Option<rt::ValModel>>,
    rs: Seq<(rt::ValModel, Seq<Seq<Ty>>)>,
    nb: Seq<TyInner>,
    nty: Ty,
    n2: Seq<TyInner>,
    s2: Seq<Option<rt::ValModel>>,
    r: Result<(Ty, rt::ValModel), Error>,
)
    requires
        cs.len() > 0,
        cell::get_args_ret_spec(n0, ty0) == Ok::<(Seq<Ty>, Ty), Error>((params, ret)),
        cs[0].args@.len() == params.len(),
        args_rel(cs[0].args@, params, n0, vars, s0, na, sa, Ok(rs)),
        rewrap_rel(na, ret, max_queue(rs), nb, nty),
        ({
            let cw = curry_wrap(v0, padded_args(rs, max_queue(rs).len()), max_queue(rs).len());
            let (sd, dr) = rt::call_spec(cw.0, cw.1, sa);
            match dr {
                Err(e) => n2 == nb && s2 == sd && r == Err::<(Ty, rt::ValModel), Error>(e),
                Ok(nv) => calls_rel(cs.drop_first(), nb, vars, sd, nty, nv, n2, s2, r),
            }
        }),
    ensures
        calls_rel(cs, n0, vars, s0, ty0, v0, n2, s2, r),
{
    assert(step_outcome(na, sa, Ok::<Seq<(rt::ValModel, Seq<Seq<Ty>>)>, Error>(rs)));
    assert(rebuilt_ty(nb, nty));
}

/// A builtin's evaluation: its fresh signature cells and the fold of its
/// chain.
pub proof fn lemma_eval_rel_func(
    e: Expr,
    n0: Seq<TyInner>,
    vars: Seq<(Ty, rt::ValModel)>,
    s0: Seq<Option<rt::ValModel>>,
    n1: Seq<TyInner>,
    ty0: Ty,
    n2: Seq<TyInner>,
    s2: Seq<Option<rt::ValModel>>,
    r: Result<(Ty, rt::ValModel), Error>,
)
    requires
        e is Func,
        sig_rel(e->Func_func, n0, n1, ty0),
        calls_rel(e->Func_calls@, n1, vars, s0, ty0, builtin_model(e->Func_func), n2, s2, r),
    ensures
        eval_rel(e, n0, vars, s0, n2, s2, r),
{
}

impl Expr {
    /// Type-checks and evaluates this expression in one pass against the
    /// variable environment `vars`, driving unification at every call
    /// boundary and building wrapper values for any arity gap. Literals
    /// and variable references are returned directly; a builtin's chain of
    /// calls is folded left to right. The whole effect — the final arena,
    /// the final store, and the result — is pinned by `eval_rel`.
    #[verifier::rlimit(100)]
    pub fn eval(&self, arena: &mut TyArena, vars: &Vec<(Ty, Value)>, store: &mut Store) -> (r:
        Result<(Ty, Value), Error>)
        requires
            old(arena).wf(),
            expr_wf(*self, vars@.len(), old(arena)@.len()),
            forall|i: int| 0 <= i < vars@.len() ==> (#[trigger] vars@[i]).0.id < old(arena)@.len(),
        ensures
            eval_rel(
                *self,
                old(arena)@,
                vars_view(vars@),
                old(store)@,
                final(arena)@,
                final(store)@,
                eval_res_view(r),
            ),
            final(arena).wf(),
            arena_evolves(old(arena)@, final(arena)@),
            final(store)@.len() == old(store)@.len(),
            match *self {
                Expr::Int(v) => match r {
                    Ok(p) => p.1@ == rt::ValModel::Int(v) && p.0.id < final(arena)@.len()
                        && final(arena)@[p.0.id as int] is Int,
                    Err(_) => false,
                },
                Expr::Var(idx) => match r {
                    Ok(p) => p.0 == vars@[idx as int].0 && p.1@ == vars@[idx as int].1@,
                    Err(_) => false,
                },
                Expr::Func { func, calls } => match r {
                    Ok(p) => p.0.id < final(arena)@.len() && (calls@.len() == 0 ==> p.1@
                        == builtin_model(func) && final(arena)@[p.0.id as int] is Func),
                    Err(_) => true,
                },
            },
            match *self {
                Expr::Func { func, calls } => calls@.len() > 0 && calls@[0].args@.len()
                    != builtin_arity(func) ==> r == Err::<(Ty, Value), Error>(Error::ArityMismatch)
                    && final(store)@ == old(store)@,
                _ => true,
            },
            r is Err ==> r->Err_0 == Error::TypeMismatch || r->Err_0 == Error::ArityMismatch
                || r->Err_0 == Error::UninitializedRead || r->Err_0 == Error::ArithmeticFault
                || r->Err_0 == Error::CyclicType,
        decreases self,
    {
        let ghost n_entry = arena@;
        match self {
            Expr::Int(v) => {
                let t = Ty::new(arena, TyInner::Int);
                proof {
                    assert(t == (Ty { id: n_entry.len() as usize }));
                    assert(eval_rel(
                        *self,
                        n_entry,
                        vars_view(vars@),
                        old(store)@,
                        arena@,
                        store@,
                        Ok::<(Ty, rt::ValModel), Error>((t, rt::ValModel::Int(*v))),
                    ));
                }
                Ok((t, Value::Int(*v)))
            },
            Expr::Var(idx) => {
                let p = &vars[*idx];
                let dup = p.1.duplicate();
                proof {
                    assert(vars_view(vars@)[*idx as int] == (
                        vars@[*idx as int].0,
                        rt::value_view(vars@[*idx as int].1),
                    ));
                    assert(eval_rel(
                        *self,
                        n_entry,
                        vars_view(vars@),
                        old(store)@,
                        arena@,
                        store@,
                        Ok::<(Ty, rt::ValModel), Error>((p.0, rt::value_view(dup))),
                    ));
                }
                Ok((p.0, dup))
            },
            Expr::Func { func, calls } => {
                let (mut ty, mut value) = match func {
                    Func::Id(t) => {
                        let t0 = *t;
                        let mut sig_args: Vec<Ty> = Vec::new();
                        sig_args.push(t0);
                        let ghost sav = sig_args@;
                        let f = Ty::new(arena, TyInner::Func { args: sig_args, ret: t0 });
                        proof {
                            assert(cell::get_args_ret_spec(arena@, f) is Ok
                                && cell::get_args_ret_spec(arena@, f).unwrap().0.len() == 1);
                            assert(sav =~= seq![t0]);
                            assert(n_entry.is_prefix_of(arena@)) by {
                                assert(n_entry =~= arena@.subrange(0, n_entry.len() as int));
                            }
                            assert(f == (Ty { id: n_entry.len() as usize }));
                            assert(sig_rel(*func, n_entry, arena@, f));
                        }
                        (f, Value::Id)
                    },
                    Func::Deref(t) => {
                        let t0 = *t;
                        let rf = Ty::new(arena, TyInner::Ref(t0));
                        let mut sig_args: Vec<Ty> = Vec::new();
                        sig_args.push(rf);
                        let ghost sav = sig_args@;
                        let f = Ty::new(arena, TyInner::Func { args: sig_args, ret: t0 });
                        proof {
                            assert(cell::get_args_ret_spec(arena@, f) is Ok
                                && cell::get_args_ret_spec(arena@, f).unwrap().0.len() == 1);
                            assert(rf == (Ty { id: n_entry.len() as usize }));
                            assert(sav =~= seq![Ty { id: n_entry.len() as usize }]);
                            assert(arena@[n_entry.len() as int] == TyInner::Ref(t0));
                            assert(n_entry.is_prefix_of(arena@)) by {
                                assert(n_entry =~= arena@.subrange(0, n_entry.len() as int));
                            }
                            assert(f == (Ty { id: (n_entry.len() + 1) as usize }));
                            assert(sig_rel(*func, n_entry, arena@, f));
                        }
                        (f, Value::Deref)
                    },
                    Func::Assign(t) => {
                        let t0 = *t;
                        let rf1 = Ty::new(arena, TyInner::Ref(t0));
                        let rf2 = Ty::new(arena, TyInner::Ref(t0));
                        let mut sig_args: Vec<Ty> = Vec::new();
                        sig_args.push(rf1);
                        sig_args.push(t0);
                        let ghost sav = sig_args@;
                        let f = Ty::new(arena, TyInner::Func { args: sig_args, ret: rf2 });
                        proof {
                            assert(cell::get_args_ret_spec(arena@, f) is Ok
                                && cell::get_args_ret_spec(arena@, f).unwrap().0.len() == 2);
                            assert(rf1 == (Ty { id: n_entry.len() as usize }));
                            assert(rf2 == (Ty { id: (n_entry.len() + 1) as usize }));
                            assert(sav =~= seq![Ty { id: n_entry.len() as usize }, t0]);
                            assert(arena@[n_entry.len() as int] == TyInner::Ref(t0));
                            assert(arena@[n_entry.len() as int + 1] == TyInner::Ref(t0));
                            assert(n_entry.is_prefix_of(arena@)) by {
                                assert(n_entry =~= arena@.subrange(0, n_entry.len() as int));
                            }
                            assert(f == (Ty { id: (n_entry.len() + 2) as usize }));
                            assert(sig_rel(*func, n_entry, arena@, f));
                        }
                        (f, Value::Assign)
                    },
                    Func::Add | Func::Sub | Func::Mul | Func::Div | Func::Rem => {
                        let i1 = Ty::new(arena, TyInner::Int);
                        let i2 = Ty::new(arena, TyInner::Int);
                        let i3 = Ty::new(arena, TyInner::Int);
                        let mut sig_args: Vec<Ty> = Vec::new();
                        sig_args.push(i1);
                        sig_args.push(i2);
                        let ghost sav = sig_args@;
                        let f = Ty::new(arena, TyInner::Func { args: sig_args, ret: i3 });
                        proof {
                            assert(cell::get_args_ret_spec(arena@, f) is Ok
                                && cell::get_args_ret_spec(arena@, f).unwrap().0.len() == 2);
                            assert(i1 == (Ty { id: n_entry.len() as usize }));
                            assert(i2 == (Ty { id: (n_entry.len() + 1) as usize }));
                            assert(i3 == (Ty { id: (n_entry.len() + 2) as usize }));
                            assert(sav =~= seq![
                                Ty { id: n_entry.len() as usize },
                                Ty { id: (n_entry.len() + 1) as usize },
                            ]);
                            assert(arena@[n_entry.len() as int] is Int);
                            assert(arena@[n_entry.len() as int + 1] is Int);
                            assert(arena@[n_entry.len() as int + 2] is Int);
                            assert(n_entry.is_prefix_of(arena@)) by {
                                assert(n_entry =~= arena@.subrange(0, n_entry.len() as int));
                            }
                            assert(f == (Ty { id: (n_entry.len() + 3) as usize }));
                            assert(sig_rel(*func, n_entry, arena@, f));
                        }
                        let v = match func {
                            Func::Add => Value::Add,
                            Func::Sub => Value::Sub,
                            Func::Mul => Value::Mul,
                            Func::Div => Value::Div,
                            _ => Value::Rem,
                        };
                        (f, v)
                    },
                };
                let mut ci: usize = 0;
                let ghost n_sig = arena@;
                let ghost ty0g = ty;
                let ghost v0g = rt::value_view(value);
                let ghost vv = vars_view(vars@);
                proof {
                    lemma_calls_wf_mono(calls@, vars@.len() as nat, vars@.len() as nat, n_entry.len(), arena@.len() as nat);
                    assert(sig_rel(self->Func_func, n_entry, n_sig, ty0g));
                    assert(v0g == builtin_model(self->Func_func));
                    assert(calls@.skip(0) =~= calls@);
                }
                while ci < calls.len()
                    invariant
                        arena.wf(),
                        ci <= calls@.len(),
                        n_entry == old(arena)@,
                        *self is Func,
                        (*self == Expr::Func { func: *func, calls: *calls }),
                        arena_evolves(n_entry, arena@),
                        store@.len() == old(store)@.len(),
                        vv == vars_view(vars@),
                        sig_rel(self->Func_func, n_entry, n_sig, ty0g),
                        v0g == builtin_model(self->Func_func),
                        forall|
                            n2x: Seq<TyInner>,
                            s2x: Seq<Option<rt::ValModel>>,
                            rx: Result<(Ty, rt::ValModel), Error>,
                        |
                            calls_rel(
                                calls@.skip(ci as int),
                                arena@,
                                vv,
                                store@,
                                ty,
                                rt::value_view(value),
                                n2x,
                                s2x,
                                rx,
                            ) ==> #[trigger] calls_rel(
                                calls@,
                                n_sig,
                                vv,
                                old(store)@,
                                ty0g,
                                v0g,
                                n2x,
                                s2x,
                                rx,
                            ),
                        ty.id < arena@.len(),
                        calls@.len() == 0 ==> value@ == builtin_model(self->Func_func)
                            && arena@[ty.id as int] is Func,
                        ci == 0 ==> store@ == old(store)@ && cell::get_args_ret_spec(arena@, ty)
                            is Ok && cell::get_args_ret_spec(arena@, ty).unwrap().0.len()
                            == builtin_arity(self->Func_func),
                        ci > 0 && calls@.len() > 0 ==> calls@[0].args@.len() == builtin_arity(
                            self->Func_func,
                        ),
                        forall|i: int|
                            0 <= i < vars@.len() ==> (#[trigger] vars@[i]).0.id < arena@.len(),
                        calls_wf(calls@, vars@.len() as nat, arena@.len() as nat),
                        forall|k: int| 0 <= k < calls@.len() ==> decreases_to!(*self => #[trigger] calls@[k]),
                    decreases calls@.len() - ci,
                {
                    let ghost n_iter = arena@;
                    let ghost s_iter = store@;
                    let ghost ty_head = ty;
                    let ghost v_head = rt::value_view(value);
                    let call = &calls[ci];
                    let (args_ty, ret_ty) = match ty.get_args_ret(arena) {
                        Ok(p) => p,
                        Err(e) => {
                            proof {
                                assert(calls@.skip(ci as int)[0] == calls@[ci as int]);
                                assert(calls_rel(
                                    calls@.skip(ci as int),
                                    n_iter,
                                    vv,
                                    s_iter,
                                    ty_head,
                                    v_head,
                                    arena@,
                                    store@,
                                    Err::<(Ty, rt::ValModel), Error>(e),
                                ));
                                assert(calls_rel(
                                    calls@,
                                    n_sig,
                                    vv,
                                    old(store)@,
                                    ty0g,
                                    v0g,
                                    arena@,
                                    store@,
                                    Err::<(Ty, rt::ValModel), Error>(e),
                                ));
                                assert(eval_rel(
                                    *self,
                                    n_entry,
                                    vv,
                                    old(store)@,
                                    arena@,
                                    store@,
                                    Err::<(Ty, rt::ValModel), Error>(e),
                                ));
                            }
                            return Err(e);
                        },
                    };
                    proof {
                        assert(cell::get_args_ret_spec(n_iter, ty_head) == Ok::<
                            (Seq<Ty>, Ty),
                            Error,
                        >((args_ty@, ret_ty)));
                    }
                    if call.args.len() != args_ty.len() {
                        proof {
                            assert(calls@.skip(ci as int)[0] == calls@[ci as int]);
                            assert(calls_rel(
                                calls@.skip(ci as int),
                                n_iter,
                                vv,
                                s_iter,
                                ty_head,
                                v_head,
                                arena@,
                                store@,
                                Err::<(Ty, rt::ValModel), Error>(Error::ArityMismatch),
                            ));
                            assert(calls_rel(
                                calls@,
                                n_sig,
                                vv,
                                old(store)@,
                                ty0g,
                                v0g,
                                arena@,
                                store@,
                                Err::<(Ty, rt::ValModel), Error>(Error::ArityMismatch),
                            ));
                            assert(eval_rel(
                                *self,
                                n_entry,
                                vv,
                                old(store)@,
                                arena@,
                                store@,
                                Err::<(Ty, rt::ValModel), Error>(Error::ArityMismatch),
                            ));
                        }
                        return Err(Error::ArityMismatch);
                    }
                    proof {
                        lemma_calls_wf_index(calls@, vars@.len() as nat, arena@.len() as nat);
                        cell::lemma_resolve_some(n_iter, ty, cell::arena_fuel(n_iter));
                        assert(cell::node_wf(
                            n_iter[cell::resolve_spec(n_iter, ty, cell::arena_fuel(n_iter)).unwrap().id as int],
                            n_iter.len(),
                        ));
                    }
                    let mut call_args: Vec<(Value, Vec<Vec<Ty>>)> = Vec::new();
                    let mut j: usize = 0;
                    proof {
                        assert(call.args@.skip(0) =~= call.args@);
                        assert(args_ty@.skip(0) =~= args_ty@);
                        assert(call_args_view(call_args@) =~= Seq::<
                            (rt::ValModel, Seq<Seq<Ty>>),
                        >::empty());
                        assert forall|
                            n1x: Seq<TyInner>,
                            s1x: Seq<Option<rt::ValModel>>,
                            tailx: Result<Seq<(rt::ValModel, Seq<Seq<Ty>>)>, Error>,
                        |
                            args_rel(
                                call.args@.skip(0),
                                args_ty@.skip(0),
                                arena@,
                                vv,
                                store@,
                                n1x,
                                s1x,
                                tailx,
                            ) implies #[trigger] args_rel(
                            call.args@,
                            args_ty@,
                            n_iter,
                            vv,
                            s_iter,
                            n1x,
                            s1x,
                            prepend_out(call_args_view(call_args@), tailx),
                        ) by {
                            match tailx {
                                Ok(rs) => {
                                    assert(call_args_view(call_args@) + rs =~= rs);
                                    assert(prepend_out(call_args_view(call_args@), tailx) == tailx);
                                },
                                Err(_) => {},
                            }
                        }
                    }
                    while j < call.args.len()
                        invariant
                            arena.wf(),
                            n_entry == old(arena)@,
                            *self is Func,
                            (*self == Expr::Func { func: *func, calls: *calls }),
                            calls@.len() > 0 ==> calls@[0].args@.len() == builtin_arity(
                                self->Func_func,
                            ),
                            arena_evolves(n_iter, arena@),
                            arena_evolves(n_entry, arena@),
                            store@.len() == old(store)@.len(),
                            args_ty@.len() == call.args@.len(),
                            *call == calls@[ci as int],
                            0 <= ci < calls@.len(),
                            j <= call.args@.len(),
                            call_args@.len() == j,
                            vv == vars_view(vars@),
                            sig_rel(self->Func_func, n_entry, n_sig, ty0g),
                            v0g == builtin_model(self->Func_func),
                            cell::get_args_ret_spec(n_iter, ty_head) == Ok::<
                                (Seq<Ty>, Ty),
                                Error,
                            >((args_ty@, ret_ty)),
                            forall|
                                n2x: Seq<TyInner>,
                                s2x: Seq<Option<rt::ValModel>>,
                                rx: Result<(Ty, rt::ValModel), Error>,
                            |
                                calls_rel(
                                    calls@.skip(ci as int),
                                    n_iter,
                                    vv,
                                    s_iter,
                                    ty_head,
                                    v_head,
                                    n2x,
                                    s2x,
                                    rx,
                                ) ==> #[trigger] calls_rel(
                                    calls@,
                                    n_sig,
                                    vv,
                                    old(store)@,
                                    ty0g,
                                    v0g,
                                    n2x,
                                    s2x,
                                    rx,
                                ),
                            forall|
                                n1x: Seq<TyInner>,
                                s1x: Seq<Option<rt::ValModel>>,
                                tailx: Result<Seq<(rt::ValModel, Seq<Seq<Ty>>)>, Error>,
                            |
                                args_rel(
                                    call.args@.skip(j as int),
                                    args_ty@.skip(j as int),
                                    arena@,
                                    vv,
                                    store@,
                                    n1x,
                                    s1x,
                                    tailx,
                                ) ==> #[trigger] args_rel(
                                    call.args@,
                                    args_ty@,
                                    n_iter,
                                    vv,
                                    s_iter,
                                    n1x,
                                    s1x,
                                    prepend_out(call_args_view(call_args@), tailx),
                                ),
                            exprs_wf(call.args@, vars@.len() as nat, arena@.len() as nat),
                            forall|i: int|
                                0 <= i < vars@.len() ==> (#[trigger] vars@[i]).0.id < arena@.len(),
                            forall|i: int|
                                0 <= i < args_ty@.len() ==> (#[trigger] args_ty@[i]).id
                                    < arena@.len(),
                            forall|k: int|
                                0 <= k < call_args@.len() ==> cell::queue_wf(
                                    cell::queue_view((#[trigger] call_args@[k]).1),
                                    arena@.len() as nat,
                                ),
                            decreases_to!(*self => *call),
                        decreases call.args@.len() - j,
                    {
                        let ghost n_j = arena@;
                        let ghost s_j = store@;
                        let ghost cav_old = call_args_view(call_args@);
                        proof {
                            lemma_exprs_wf_index(call.args@, vars@.len() as nat, arena@.len() as nat);
                        }
                        let (arg_ty, arg_value) = match call.args[j].eval(arena, vars, store) {
                            Ok(p) => p,
                            Err(e) => {
                                proof {
                                    assert(call.args@.skip(j as int)[0] == call.args@[j as int]);
                                    lemma_args_rel_eval_err(
                                        call.args@.skip(j as int),
                                        args_ty@.skip(j as int),
                                        n_j,
                                        vv,
                                        s_j,
                                        arena@,
                                        store@,
                                        e,
                                    );
                                    assert(args_rel(
                                        call.args@,
                                        args_ty@,
                                        n_iter,
                                        vv,
                                        s_iter,
                                        arena@,
                                        store@,
                                        prepend_out(
                                            call_args_view(call_args@),
                                            Err::<Seq<(rt::ValModel, Seq<Seq<Ty>>)>, Error>(e),
                                        ),
                                    ));
                                    assert(calls@.skip(ci as int)[0] == calls@[ci as int]);
                                    lemma_calls_rel_args_err(
                                        calls@.skip(ci as int),
                                        n_iter,
                                        vv,
                                        s_iter,
                                        ty_head,
                                        v_head,
                                        args_ty@,
                                        ret_ty,
                                        arena@,
                                        store@,
                                        e,
                                    );
                                    assert(calls_rel(
                                        calls@,
                                        n_sig,
                                        vv,
                                        old(store)@,
                                        ty0g,
                                        v0g,
                                        arena@,
                                        store@,
                                        Err::<(Ty, rt::ValModel), Error>(e),
                                    ));
                                    lemma_eval_rel_func(
                                        *self,
                                        n_entry,
                                        vv,
                                        old(store)@,
                                        n_sig,
                                        ty0g,
                                        arena@,
                                        store@,
                                        Err::<(Ty, rt::ValModel), Error>(e),
                                    );
                                }
                                return Err(e);
                            },
                        };
                        let ghost n_j2 = arena@;
                        let ghost s_j2 = store@;
                        let ghost atv = arg_ty;
                        let ghost av = rt::value_view(arg_value);
                        proof {
                            lemma_exprs_wf_mono(
                                call.args@,
                                vars@.len() as nat,
                                vars@.len() as nat,
                                n_j.len(),
                                arena@.len() as nat,
                            );
                            cell::lemma_unify_spec_queue_wf(
                                arena@,
                                arg_ty,
                                args_ty@[j as int],
                                arena@.len() as nat,
                                arena@.len() as nat,
                            );
                            cell::lemma_unify_spec_err_kind(
                                arena@,
                                arg_ty,
                                args_ty@[j as int],
                                arena@.len() as nat,
                                arena@.len() as nat,
                            );
                        }
                        let extra = match arg_ty.unify(args_ty[j], arena) {
                            Ok(q) => q,
                            Err(e) => {
                                proof {
                                    assert(call.args@.skip(j as int)[0] == call.args@[j as int]);
                                    assert(args_ty@.skip(j as int)[0] == args_ty@[j as int]);
                                    assert(eval_rel(
                                        call.args@[j as int],
                                        n_j,
                                        vv,
                                        s_j,
                                        n_j2,
                                        s_j2,
                                        Ok::<(Ty, rt::ValModel), Error>((atv, av)),
                                    ));
                                    assert(cell::unify_spec(
                                        n_j2,
                                        atv,
                                        args_ty@.skip(j as int)[0],
                                        n_j2.len() as nat,
                                        n_j2.len() as nat,
                                    ) == (arena@, Err::<Seq<Seq<Ty>>, Error>(e)));
                                    lemma_args_rel_unify_err(
                                        call.args@.skip(j as int),
                                        args_ty@.skip(j as int),
                                        n_j,
                                        vv,
                                        s_j,
                                        n_j2,
                                        s_j2,
                                        atv,
                                        av,
                                        arena@,
                                        e,
                                    );
                                    assert(args_rel(
                                        call.args@,
                                        args_ty@,
                                        n_iter,
                                        vv,
                                        s_iter,
                                        arena@,
                                        store@,
                                        prepend_out(
                                            call_args_view(call_args@),
                                            Err::<Seq<(rt::ValModel, Seq<Seq<Ty>>)>, Error>(e),
                                        ),
                                    ));
                                    assert(calls@.skip(ci as int)[0] == calls@[ci as int]);
                                    lemma_calls_rel_args_err(
                                        calls@.skip(ci as int),
                                        n_iter,
                                        vv,
                                        s_iter,
                                        ty_head,
                                        v_head,
                                        args_ty@,
                                        ret_ty,
                                        arena@,
                                        store@,
                                        e,
                                    );
                                    assert(calls_rel(
                                        calls@,
                                        n_sig,
                                        vv,
                                        old(store)@,
                                        ty0g,
                                        v0g,
                                        arena@,
                                        store@,
                                        Err::<(Ty, rt::ValModel), Error>(e),
                                    ));
                                    lemma_eval_rel_func(
                                        *self,
                                        n_entry,
                                        vv,
                                        old(store)@,
                                        n_sig,
                                        ty0g,
                                        arena@,
                                        store@,
                                        Err::<(Ty, rt::ValModel), Error>(e),
                                    );
                                }
                                return Err(e);
                            },
                        };
                        let ghost qv = cell::queue_view(extra);
                        call_args.push((arg_value, extra));
                        proof {
                            cell::lemma_frame_compose(n_j, n_j2, arena@);
                            cell::lemma_frame_compose(n_iter, n_j, arena@);
                            cell::lemma_frame_compose(n_entry, n_j, arena@);
                            lemma_exprs_wf_mono(
                                call.args@,
                                vars@.len() as nat,
                                vars@.len() as nat,
                                n_j2.len(),
                                arena@.len() as nat,
                            );
                            assert(call_args_view(call_args@) =~= cav_old.push((av, qv)));
                            assert forall|
                                n1x: Seq<TyInner>,
                                s1x: Seq<Option<rt::ValModel>>,
                                tailx: Result<Seq<(rt::ValModel, Seq<Seq<Ty>>)>, Error>,
                            |
                                args_rel(
                                    call.args@.skip(j as int + 1),
                                    args_ty@.skip(j as int + 1),
                                    arena@,
                                    vv,
                                    store@,
                                    n1x,
                                    s1x,
                                    tailx,
                                ) implies #[trigger] args_rel(
                                call.args@,
                                args_ty@,
                                n_iter,
                                vv,
                                s_iter,
                                n1x,
                                s1x,
                                prepend_out(call_args_view(call_args@), tailx),
                            ) by {
                                assert(call.args@.skip(j as int)[0] == call.args@[j as int]);
                                assert(call.args@.skip(j as int).drop_first() =~= call.args@.skip(
                                    j as int + 1,
                                ));
                                assert(args_ty@.skip(j as int)[0] == args_ty@[j as int]);
                                assert(args_ty@.skip(j as int).drop_first() =~= args_ty@.skip(
                                    j as int + 1,
                                ));
                                assert(eval_rel(
                                    call.args@[j as int],
                                    n_j,
                                    vv,
                                    s_j,
                                    n_j2,
                                    s_j2,
                                    Ok::<(Ty, rt::ValModel), Error>((atv, av)),
                                ));
                                assert(cell::unify_spec(
                                    n_j2,
                                    atv,
                                    args_ty@.skip(j as int)[0],
                                    n_j2.len() as nat,
                                    n_j2.len() as nat,
                                ) == (arena@, Ok::<Seq<Seq<Ty>>, Error>(qv)));
                                let mid_out = prepend_out(seq![(av, qv)], tailx);
                                lemma_args_rel_cons(
                                    call.args@.skip(j as int),
                                    args_ty@.skip(j as int),
                                    n_j,
                                    vv,
                                    s_j,
                                    n_j2,
                                    s_j2,
                                    atv,
                                    av,
                                    arena@,
                                    qv,
                                    n1x,
                                    s1x,
                                    tailx,
                                );
                                match tailx {
                                    Ok(rs) => {
                                        assert(cav_old + (seq![(av, qv)] + rs)
                                            =~= call_args_view(call_args@) + rs);
                                    },
                                    Err(_) => {},
                                }
                                assert(args_rel(
                                    call.args@,
                                    args_ty@,
                                    n_iter,
                                    vv,
                                    s_iter,
                                    n1x,
                                    s1x,
                                    prepend_out(cav_old, mid_out),
                                ));
                                assert(prepend_out(cav_old, mid_out) == prepend_out(
                                    call_args_view(call_args@),
                                    tailx,
                                ));
                            }
                        }
                        j = j + 1;
                    }
                    proof {
                        assert(call.args@.skip(j as int) =~= Seq::<Expr>::empty());
                        assert(args_rel(
                            call.args@.skip(j as int),
                            args_ty@.skip(j as int),
                            arena@,
                            vv,
                            store@,
                            arena@,
                            store@,
                            Ok::<Seq<(rt::ValModel, Seq<Seq<Ty>>)>, Error>(Seq::empty()),
                        ));
                        assert(args_rel(
                            call.args@,
                            args_ty@,
                            n_iter,
                            vv,
                            s_iter,
                            arena@,
                            store@,
                            prepend_out(
                                call_args_view(call_args@),
                                Ok::<Seq<(rt::ValModel, Seq<Seq<Ty>>)>, Error>(Seq::empty()),
                            ),
                        ));
                        assert(call_args_view(call_args@) + Seq::<
                            (rt::ValModel, Seq<Seq<Ty>>),
                        >::empty() =~= call_args_view(call_args@));
                        assert(args_rel(
                            call.args@,
                            args_ty@,
                            n_iter,
                            vv,
                            s_iter,
                            arena@,
                            store@,
                            Ok::<Seq<(rt::ValModel, Seq<Seq<Ty>>)>, Error>(
                                call_args_view(call_args@),
                            ),
                        ));
                    }
                    let ghost na = arena@;
                    let ghost sa = store@;
                    let ghost cav = call_args_view(call_args@);
                    // The longest queue wins; on ties the later argument
                    // is preferred.
                    let mut max_extra: Vec<Vec<Ty>> = Vec::new();
                    let mut k: usize = 0;
                    proof {
                        assert(cav.take(0) =~= Seq::<(rt::ValModel, Seq<Seq<Ty>>)>::empty());
                        assert(cell::queue_view(max_extra) =~= Seq::<Seq<Ty>>::empty());
                    }
                    while k < call_args.len()
                        invariant
                            k <= call_args@.len(),
                            cav == call_args_view(call_args@),
                            cell::queue_view(max_extra) == max_queue(cav.take(k as int)),
                            forall|i: int|
                                0 <= i < call_args@.len() ==> cell::queue_wf(
                                    cell::queue_view((#[trigger] call_args@[i]).1),
                                    arena@.len() as nat,
                                ),
                            cell::queue_wf(cell::queue_view(max_extra), arena@.len() as nat),
                            forall|i: int|
                                0 <= i < k ==> (#[trigger] call_args@[i]).1@.len()
                                    <= max_extra@.len(),
                        decreases call_args@.len() - k,
                    {
                        proof {
                            assert(cav.take(k as int + 1).drop_last() =~= cav.take(k as int));
                            assert(cav.take(k as int + 1).last() == cav[k as int]);
                            assert(cav[k as int].1 == cell::queue_view(call_args@[k as int].1));
                        }
                        if call_args[k].1.len() >= max_extra.len() {
                            max_extra = cell::copy_queue(&call_args[k].1);
                        }
                        k = k + 1;
                    }
                    proof {
                        assert(cav.take(call_args@.len() as int) =~= cav);
                        assert(cell::queue_view(max_extra) == max_queue(cav));
                    }
                    // Bring every argument to the common pending arity by
                    // constant-lifting the short ones.
                    let mut padded: Vec<Value> = Vec::new();
                    let mut k2: usize = 0;
                    while k2 < call_args.len()
                        invariant
                            k2 <= call_args@.len(),
                            padded@.len() == k2,
                            cav == call_args_view(call_args@),
                            forall|i: int|
                                0 <= i < call_args@.len() ==> (#[trigger] call_args@[i]).1@.len()
                                    <= max_extra@.len(),
                            forall|i: int|
                                0 <= i < k2 ==> rt::value_view(#[trigger] padded@[i]) == const_wrap(
                                    cav[i].0,
                                    (max_extra@.len() - cav[i].1.len()) as nat,
                                ),
                        decreases call_args@.len() - k2,
                    {
                        let mut a = call_args[k2].0.duplicate();
                        let mut missing = max_extra.len() - call_args[k2].1.len();
                        let ghost va0 = rt::value_view(a);
                        let ghost m0 = missing;
                        proof {
                            assert(va0 == cav[k2 as int].0);
                            assert(m0 == max_extra@.len() - cav[k2 as int].1.len());
                        }
                        while missing > 0
                            invariant
                                missing <= m0,
                                rt::value_view(a) == const_wrap(va0, (m0 - missing) as nat),
                            decreases missing,
                        {
                            proof {
                                assert(const_wrap(va0, (m0 - missing + 1) as nat)
                                    == rt::ValModel::Const(
                                    Box::new(const_wrap(va0, (m0 - missing) as nat)),
                                ));
                            }
                            a = Value::Const(Box::new(a));
                            missing = missing - 1;
                        }
                        padded.push(a);
                        k2 = k2 + 1;
                    }
                    proof {
                        rt::lemma_vals_view(padded@);
                        assert(cell::queue_view(max_extra).len() == max_extra@.len());
                        assert forall|i: int| 0 <= i < padded@.len() implies rt::vals_view(
                            padded@,
                        )[i] == padded_args(cav, cell::queue_view(max_extra).len())[i] by {
                            assert(rt::vals_view(padded@)[i] == rt::value_view(padded@[i]));
                            assert(rt::value_view(padded@[i]) == const_wrap(
                                cav[i].0,
                                (max_extra@.len() - cav[i].1.len()) as nat,
                            ));
                        }
                        assert(rt::vals_view(padded@) =~= padded_args(
                            cav,
                            cell::queue_view(max_extra).len(),
                        ));
                    }
                    let ghost p0 = rt::vals_view(padded@);
                    // One curry wrapper per owed layer.
                    let mut layer: usize = 0;
                    while layer < max_extra.len()
                        invariant
                            layer <= max_extra@.len(),
                            curry_wrap(v_head, p0, max_extra@.len() as nat) == curry_wrap(
                                rt::value_view(value),
                                rt::vals_view(padded@),
                                (max_extra@.len() - layer) as nat,
                            ),
                        decreases max_extra@.len() - layer,
                    {
                        let ghost v_old = rt::value_view(value);
                        let ghost pd_old = padded@;
                        padded.insert(0, value);
                        value = Value::Curry;
                        proof {
                            rt::lemma_vals_view(pd_old);
                            rt::lemma_vals_view(padded@);
                            assert(padded@.len() == pd_old.len() + 1);
                            assert forall|i: int| 0 <= i < padded@.len() implies rt::vals_view(
                                padded@,
                            )[i] == (seq![v_old] + rt::vals_view(pd_old))[i] by {
                                if i == 0 {
                                    assert(rt::value_view(padded@[0]) == v_old);
                                } else {
                                    assert(padded@[i] == pd_old[i - 1]);
                                }
                            }
                            assert(rt::vals_view(padded@) =~= seq![v_old] + rt::vals_view(pd_old));
                            assert(curry_wrap(
                                v_old,
                                rt::vals_view(pd_old),
                                (max_extra@.len() - layer) as nat,
                            ) == curry_wrap(
                                rt::ValModel::Curry,
                                seq![v_old] + rt::vals_view(pd_old),
                                (max_extra@.len() - layer - 1) as nat,
                            ));
                        }
                        layer = layer + 1;
                    }
                    proof {
                        assert(curry_wrap(v_head, p0, max_extra@.len() as nat) == (
                            rt::value_view(value),
                            rt::vals_view(padded@),
                        ));
                    }
                    // Rebuild the accumulated type: the return type under
                    // the layers still owed, innermost layer first.
                    let ghost n_mid = arena@;
                    let mut new_ty = ret_ty;
                    proof {
                        cell::lemma_resolve_some(n_iter, ty, cell::arena_fuel(n_iter));
                        assert(n_mid == na);
                        assert(cell::queue_view(max_extra).take(0) =~= Seq::<Seq<Ty>>::empty());
                    }
                    let mut li: usize = 0;
                    while li < max_extra.len()
                        invariant
                            arena.wf(),
                            arena_evolves(n_mid, arena@),
                            li <= max_extra@.len(),
                            new_ty.id < arena@.len(),
                            cell::queue_wf(cell::queue_view(max_extra), n_mid.len()),
                            arena@.len() == n_mid.len() + li,
                            rewrap_rel(
                                n_mid,
                                ret_ty,
                                cell::queue_view(max_extra).take(li as int),
                                arena@,
                                new_ty,
                            ),
                        decreases max_extra@.len() - li,
                    {
                        let layer_tys = cell::copy_tys(&max_extra[li]);
                        proof {
                            assert(cell::queue_view(max_extra)[li as int] == max_extra@[li as int]@);
                        }
                        let ghost n_b = arena@;
                        let ghost t_old = new_ty;
                        new_ty = Ty::new(arena, TyInner::Func { args: layer_tys, ret: new_ty });
                        proof {
                            cell::lemma_frame_compose(n_mid, n_b, arena@);
                            assert(n_b.is_prefix_of(arena@)) by {
                                assert(n_b =~= arena@.subrange(0, n_b.len() as int));
                            }
                            assert(new_ty == (Ty { id: n_b.len() as usize }));
                            lemma_rewrap_snoc(
                                n_mid,
                                ret_ty,
                                cell::queue_view(max_extra).take(li as int),
                                n_b,
                                t_old,
                                cell::queue_view(max_extra)[li as int],
                                arena@,
                                new_ty,
                            );
                            assert(cell::queue_view(max_extra).take(li as int).push(
                                cell::queue_view(max_extra)[li as int],
                            ) =~= cell::queue_view(max_extra).take(li as int + 1));
                        }
                        li = li + 1;
                    }
                    proof {
                        assert(cell::queue_view(max_extra).take(max_extra@.len() as int)
                            =~= cell::queue_view(max_extra));
                        assert(rewrap_rel(na, ret_ty, max_queue(cav), arena@, new_ty));
                    }
                    ty = new_ty;
                    // Dispatch the accumulated value on the padded
                    // arguments.
                    let ghost v_pre = value@;
                    let ghost s_pre = store@;
                    let ghost qm = max_queue(cav);
                    let ghost cwv = curry_wrap(v_head, padded_args(cav, qm.len()), qm.len());
                    proof {
                        assert(qm == cell::queue_view(max_extra));
                        assert(cwv == (v_pre, rt::vals_view(padded@)));
                        assert(s_pre == sa);
                    }
                    value = match value.call(&padded, store) {
                        Ok(v) => v,
                        Err(e) => {
                            proof {
                                rt::lemma_call_spec_store_len(v_pre, rt::vals_view(padded@), s_pre);
                                rt::lemma_call_spec_err_kind(v_pre, rt::vals_view(padded@), s_pre);
                                assert(calls@.skip(ci as int)[0] == calls@[ci as int]);
                                assert(args_rel(
                                    calls@[ci as int].args@,
                                    args_ty@,
                                    n_iter,
                                    vv,
                                    s_iter,
                                    na,
                                    sa,
                                    Ok::<Seq<(rt::ValModel, Seq<Seq<Ty>>)>, Error>(cav),
                                ));
                                assert(rewrap_rel(na, ret_ty, qm, arena@, ty));
                                assert(rt::call_spec(cwv.0, cwv.1, sa) == (
                                    store@,
                                    Err::<rt::ValModel, Error>(e),
                                ));
                                lemma_calls_rel_step(
                                    calls@.skip(ci as int),
                                    n_iter,
                                    vv,
                                    s_iter,
                                    ty_head,
                                    v_head,
                                    args_ty@,
                                    ret_ty,
                                    na,
                                    sa,
                                    cav,
                                    arena@,
                                    ty,
                                    arena@,
                                    store@,
                                    Err::<(Ty, rt::ValModel), Error>(e),
                                );
                                assert(calls_rel(
                                    calls@,
                                    n_sig,
                                    vv,
                                    old(store)@,
                                    ty0g,
                                    v0g,
                                    arena@,
                                    store@,
                                    Err::<(Ty, rt::ValModel), Error>(e),
                                ));
                                lemma_eval_rel_func(
                                    *self,
                                    n_entry,
                                    vv,
                                    old(store)@,
                                    n_sig,
                                    ty0g,
                                    arena@,
                                    store@,
                                    Err::<(Ty, rt::ValModel), Error>(e),
                                );
                            }
                            return Err(e);
                        },
                    };
                    proof {
                        rt::lemma_call_spec_store_len(v_pre, rt::vals_view(padded@), s_pre);
                        cell::lemma_frame_compose(n_iter, n_mid, arena@);
                        cell::lemma_frame_compose(n_entry, n_mid, arena@);
                        lemma_calls_wf_mono(
                            calls@,
                            vars@.len() as nat,
                            vars@.len() as nat,
                            n_iter.len(),
                            arena@.len() as nat,
                        );
                        assert(rt::call_spec(cwv.0, cwv.1, sa) == (
                            store@,
                            Ok::<rt::ValModel, Error>(rt::value_view(value)),
                        ));
                        assert forall|
                            n2x: Seq<TyInner>,
                            s2x: Seq<Option<rt::ValModel>>,
                            rx: Result<(Ty, rt::ValModel), Error>,
                        |
                            calls_rel(
                                calls@.skip(ci as int + 1),
                                arena@,
                                vv,
                                store@,
                                ty,
                                rt::value_view(value),
                                n2x,
                                s2x,
                                rx,
                            ) implies #[trigger] calls_rel(
                            calls@,
                            n_sig,
                            vv,
                            old(store)@,
                            ty0g,
                            v0g,
                            n2x,
                            s2x,
                            rx,
                        ) by {
                            assert(calls@.skip(ci as int)[0] == calls@[ci as int]);
                            assert(calls@.skip(ci as int).drop_first() =~= calls@.skip(
                                ci as int + 1,
                            ));
                            assert(args_rel(
                                calls@[ci as int].args@,
                                args_ty@,
                                n_iter,
                                vv,
                                s_iter,
                                na,
                                sa,
                                Ok::<Seq<(rt::ValModel, Seq<Seq<Ty>>)>, Error>(cav),
                            ));
                            assert(rewrap_rel(na, ret_ty, qm, arena@, ty));
                            lemma_calls_rel_step(
                                calls@.skip(ci as int),
                                n_iter,
                                vv,
                                s_iter,
                                ty_head,
                                v_head,
                                args_ty@,
                                ret_ty,
                                na,
                                sa,
                                cav,
                                arena@,
                                ty,
                                n2x,
                                s2x,
                                rx,
                            );
                            assert(calls_rel(
                                calls@,
                                n_sig,
                                vv,
                                old(store)@,
                                ty0g,
                                v0g,
                                n2x,
                                s2x,
                                rx,
                            ));
                        }
                    }
                    ci = ci + 1;
                }
                proof {
                    assert(calls@.skip(ci as int) =~= Seq::<Call>::empty());
                    assert(calls_rel(
                        calls@.skip(ci as int),
                        arena@,
                        vv,
                        store@,
                        ty,
                        rt::value_view(value),
                        arena@,
                        store@,
                        Ok::<(Ty, rt::ValModel), Error>((ty, rt::value_view(value))),
                    ));
                    assert(calls_rel(
                        calls@,
                        n_sig,
                        vv,
                        old(store)@,
                        ty0g,
                        v0g,
                        arena@,
                        store@,
                        Ok::<(Ty, rt::ValModel), Error>((ty, rt::value_view(value))),
                    ));
                    lemma_eval_rel_func(
                        *self,
                        n_entry,
                        vv,
                        old(store)@,
                        n_sig,
                        ty0g,
                        arena@,
                        store@,
                        Ok::<(Ty, rt::ValModel), Error>((ty, rt::value_view(value))),
                    );
                }
                Ok((ty, value))
            },
        }
    }
}

} // verus!
