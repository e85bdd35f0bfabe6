use crate::ast;
use crate::error::Error;
use crate::ir;
use vstd::prelude::*;

verus! {

broadcast use vstd::std_specs::vec::axiom_vec_index_decreases;

/// The translator's state: the names of the mutable variables seen so far,
/// in order of first appearance. A name's position is its slot.
#[derive(Debug)]
pub struct Context {
    variables_name: Vec<String>,
}

impl View for Context {
    type V = Seq<Seq<char>>;

    closed spec fn view(&self) -> Seq<Seq<char>> {
        self.variables_name@.map_values(|s: String| s@)
    }
}

/// Whether lowering `e` in value position succeeds.
pub open spec fn lowerable_expr(e: ast::Expr) -> bool
    decreases e, 1int,
{
    match e {
        ast::Expr::Id(_) => true,
        ast::Expr::Int(_) => true,
        ast::Expr::Var(_) => true,
        ast::Expr::Call(f, args) => lowerable_expr(*f) && is_func_form(*f) && lowerable_exprs(
            args@,
        ),
        ast::Expr::Bin(l, _, r) => lowerable_expr(*l) && lowerable_expr(*r),
        ast::Expr::Assign(_, _) => lowerable_ref(e),
    }
}

/// Whether lowering `e` in assignment-target position succeeds: only
/// variable references and further assignments are accepted.
pub open spec fn lowerable_ref(e: ast::Expr) -> bool
    decreases e, 0int,
{
    match e {
        ast::Expr::Var(_) => true,
        ast::Expr::Assign(l, r) => lowerable_ref(*l) && lowerable_expr(*r),
        _ => false,
    }
}

pub open spec fn lowerable_exprs(es: Seq<ast::Expr>) -> bool
    decreases es, 2int,
{
    if es.len() == 0 {
        true
    } else {
        lowerable_expr(es[0]) && lowerable_exprs(es.drop_first())
    }
}

/// Whether lowering `e` yields a builtin-with-calls node, the only form a
/// call chain may attach to.
pub open spec fn is_func_form(e: ast::Expr) -> bool
    decreases e,
{
    match e {
        ast::Expr::Int(_) => false,
        ast::Expr::Call(f, _) => is_func_form(*f),
        _ => true,
    }
}

/// What a bare identifier lowers to: an implicit dereference of the slot
/// that stands, first, for `name` among the recorded names — so one name
/// always means one slot.
pub open spec fn var_lowering(e: ir::Expr, name: Seq<char>, names: Seq<Seq<char>>) -> bool {
    match e {
        ir::Expr::Func { func, calls } => func is Deref && calls@.len() == 1
            && calls@[0].args@.len() == 1 && match calls@[0].args@[0] {
            ir::Expr::Var(idx) => idx < names.len() && names[idx as int] == name && (forall|j: int|
                0 <= j < idx ==> names[j] != name),
            _ => false,
        },
        _ => false,
    }
}


/// The name table after lowering `e` in value position: new names are
/// appended in the order translation first meets them — the left operand
/// of a binary operation before the right, a callee before its arguments,
/// an assignment's target before its source.
pub open spec fn names_after_expr(e: ast::Expr, names: Seq<Seq<char>>) -> Seq<Seq<char>>
    decreases e, 1int,
{
    match e {
        ast::Expr::Id(_) => names,
        ast::Expr::Int(_) => names,
        ast::Expr::Call(f, args) => names_after_exprs(args@, names_after_expr(*f, names)),
        ast::Expr::Bin(l, _, r) => names_after_expr(*r, names_after_expr(*l, names)),
        ast::Expr::Var(_) | ast::Expr::Assign(_, _) => names_after_ref(e, names),
    }
}

/// The name table after lowering `e` in assignment-target position: a
/// name not yet recorded gets the next slot; one already recorded changes
/// nothing.
pub open spec fn names_after_ref(e: ast::Expr, names: Seq<Seq<char>>) -> Seq<Seq<char>>
    decreases e, 0int,
{
    match e {
        ast::Expr::Var(name) => if exists|j: int| 0 <= j < names.len() && names[j] == name@ {
            names
        } else {
            names.push(name@)
        },
        ast::Expr::Assign(l, r) => names_after_expr(*r, names_after_ref(*l, names)),
        _ => names,
    }
}

/// The name table after lowering a list of argument expressions in order.
pub open spec fn names_after_exprs(es: Seq<ast::Expr>, names: Seq<Seq<char>>) -> Seq<Seq<char>>
    decreases es, 2int,
{
    if es.len() == 0 {
        names
    } else {
        names_after_exprs(es.drop_first(), names_after_expr(es[0], names))
    }
}

/// The arithmetic builtin an operator lowers to.
pub open spec fn bin_func(op: ast::BinOp) -> ir::Func {
    match op {
        ast::BinOp::Add => ir::Func::Add,
        ast::BinOp::Sub => ir::Func::Sub,
        ast::BinOp::Mul => ir::Func::Mul,
        ast::BinOp::Div => ir::Func::Div,
        ast::BinOp::Rem => ir::Func::Rem,
    }
}

/// `a`, lowered in value position, is exactly `e`, read against the name
/// table and the arena as they stand after the lowering.
pub open spec fn lowers_to(a: ast::Expr, e: ir::Expr, names: Seq<Seq<char>>, nodes: Seq<ir::TyInner>) -> bool
    decreases a, 3int,
{
    match a {
        ast::Expr::Int(v) => e == ir::Expr::Int(v),
        _ => match e {
            ir::Expr::Func { func, calls } => func_lowers(a, func, calls@, names, nodes),
            _ => false,
        },
    }
}

/// The builtin and call chain a function-shaped surface expression lowers
/// to: an annotation becomes the identity builtin at the lowered type, a
/// call appends to its callee's chain, a binary operation becomes one
/// two-argument call of the operator's builtin, and an identifier or
/// assignment is dereferenced through a fresh placeholder cell.
pub open spec fn func_lowers(
    a: ast::Expr,
    bf: ir::Func,
    cs: Seq<ir::Call>,
    names: Seq<Seq<char>>,
    nodes: Seq<ir::TyInner>,
) -> bool
    decreases a, 2int,
{
    match a {
        ast::Expr::Id(ty) => cs.len() == 0 && match bf {
            ir::Func::Id(t) => ty_lowers_to(ty, t, nodes),
            _ => false,
        },
        ast::Expr::Call(f, args) => cs.len() >= 1 && args_lower(
            args@,
            cs.last().args@,
            names,
            nodes,
        ) && func_lowers(*f, bf, cs.drop_last(), names, nodes),
        ast::Expr::Bin(l, op, r) => bf == bin_func(op) && cs.len() == 1 && cs[0].args@.len() == 2
            && lowers_to(*l, cs[0].args@[0], names, nodes) && lowers_to(
            *r,
            cs[0].args@[1],
            names,
            nodes,
        ),
        ast::Expr::Var(_) | ast::Expr::Assign(_, _) => (match bf {
            ir::Func::Deref(u) => u.id < nodes.len() && nodes[u.id as int] is Undetermined,
            _ => false,
        }) && cs.len() == 1 && cs[0].args@.len() == 1 && ref_lowers(
            a,
            cs[0].args@[0],
            names,
            nodes,
        ),
        ast::Expr::Int(_) => false,
    }
}

/// `a`, lowered in assignment-target position, is exactly `e`: a slot
/// reference for an identifier, the assignment builtin over a fresh
/// placeholder cell for an assignment.
pub open spec fn ref_lowers(a: ast::Expr, e: ir::Expr, names: Seq<Seq<char>>, nodes: Seq<ir::TyInner>) -> bool
    decreases a, 1int,
{
    match a {
        ast::Expr::Var(name) => match e {
            ir::Expr::Var(idx) => idx < names.len() && names[idx as int] == name@ && (forall|j: int|
                0 <= j < idx ==> names[j] != name@),
            _ => false,
        },
        ast::Expr::Assign(l, r) => match e {
            ir::Expr::Func { func, calls } => (match func {
                ir::Func::Assign(u) => u.id < nodes.len() && nodes[u.id as int] is Undetermined,
                _ => false,
            }) && calls@.len() == 1 && calls@[0].args@.len() == 2 && ref_lowers(
                *l,
                calls@[0].args@[0],
                names,
                nodes,
            ) && lowers_to(*r, calls@[0].args@[1], names, nodes),
            _ => false,
        },
        _ => false,
    }
}

/// Each surface argument lowers to the matching element of the list.
pub open spec fn args_lower(
    src: Seq<ast::Expr>,
    out: Seq<ir::Expr>,
    names: Seq<Seq<char>>,
    nodes: Seq<ir::TyInner>,
) -> bool
    decreases src, 4int,
{
    if src.len() != out.len() {
        false
    } else if src.len() == 0 {
        true
    } else {
        lowers_to(src[0], out[0], names, nodes) && args_lower(
            src.drop_first(),
            out.drop_first(),
            names,
            nodes,
        )
    }
}

/// A surface annotation lowers to a concrete cell of the same shape.
pub open spec fn ty_lowers_to(a: ast::Ty, t: ir::Ty, nodes: Seq<ir::TyInner>) -> bool
    decreases a, 1int,
{
    t.id < nodes.len() && match a {
        ast::Ty::Int => nodes[t.id as int] is Int,
        ast::Ty::Func { args, ret } => match nodes[t.id as int] {
            ir::TyInner::Func { args: la, ret: lr } => tys_lower(args@, la@, nodes)
                && ty_lowers_to(*ret, lr, nodes),
            _ => false,
        },
    }
}

pub open spec fn tys_lower(src: Seq<ast::Ty>, out: Seq<ir::Ty>, nodes: Seq<ir::TyInner>) -> bool
    decreases src, 2int,
{
    if src.len() != out.len() {
        false
    } else if src.len() == 0 {
        true
    } else {
        ty_lowers_to(src[0], out[0], nodes) && tys_lower(src.drop_first(), out.drop_first(), nodes)
    }
}

/// The lowering relations survive later lowering steps: both the name
/// table and the arena only grow at the end during translation.
pub proof fn lemma_lowers_mono(
    a: ast::Expr,
    e: ir::Expr,
    m1: Seq<Seq<char>>,
    m2: Seq<Seq<char>>,
    d1: Seq<ir::TyInner>,
    d2: Seq<ir::TyInner>,
)
    requires
        lowers_to(a, e, m1, d1),
        m1.is_prefix_of(m2),
        d1.is_prefix_of(d2),
    ensures
        lowers_to(a, e, m2, d2),
    decreases a, 3int,
{
    match a {
        ast::Expr::Int(_) => {},
        _ => {
            match e {
                ir::Expr::Func { func, calls } => {
                    lemma_func_lowers_mono(a, func, calls@, m1, m2, d1, d2);
                },
                _ => {},
            }
        },
    }
}

pub proof fn lemma_func_lowers_mono(
    a: ast::Expr,
    bf: ir::Func,
    cs: Seq<ir::Call>,
    m1: Seq<Seq<char>>,
    m2: Seq<Seq<char>>,
    d1: Seq<ir::TyInner>,
    d2: Seq<ir::TyInner>,
)
    requires
        func_lowers(a, bf, cs, m1, d1),
        m1.is_prefix_of(m2),
        d1.is_prefix_of(d2),
    ensures
        func_lowers(a, bf, cs, m2, d2),
    decreases a, 2int,
{
    match a {
        ast::Expr::Id(ty) => {
            match bf {
                ir::Func::Id(t) => {
                    lemma_ty_lowers_mono(ty, t, d1, d2);
                },
                _ => {},
            }
        },
        ast::Expr::Call(f, args) => {
            lemma_args_lower_mono(args@, cs.last().args@, m1, m2, d1, d2);
            lemma_func_lowers_mono(*f, bf, cs.drop_last(), m1, m2, d1, d2);
        },
        ast::Expr::Bin(l, _, r) => {
            lemma_lowers_mono(*l, cs[0].args@[0], m1, m2, d1, d2);
            lemma_lowers_mono(*r, cs[0].args@[1], m1, m2, d1, d2);
        },
        ast::Expr::Var(_) | ast::Expr::Assign(_, _) => {
            match bf {
                ir::Func::Deref(u) => {
                    assert(d2[u.id as int] == d1[u.id as int]);
                },
                _ => {},
            }
            lemma_ref_lowers_mono(a, cs[0].args@[0], m1, m2, d1, d2);
        },
        ast::Expr::Int(_) => {},
    }
}

pub proof fn lemma_ref_lowers_mono(
    a: ast::Expr,
    e: ir::Expr,
    m1: Seq<Seq<char>>,
    m2: Seq<Seq<char>>,
    d1: Seq<ir::TyInner>,
    d2: Seq<ir::TyInner>,
)
    requires
        ref_lowers(a, e, m1, d1),
        m1.is_prefix_of(m2),
        d1.is_prefix_of(d2),
    ensures
        ref_lowers(a, e, m2, d2),
    decreases a, 1int,
{
    match a {
        ast::Expr::Var(name) => {
            match e {
                ir::Expr::Var(idx) => {
                    assert(m2[idx as int] == m1[idx as int]);
                    assert forall|j: int| 0 <= j < idx implies m2[j] != name@ by {
                        assert(m2[j] == m1[j]);
                    }
                },
                _ => {},
            }
        },
        ast::Expr::Assign(l, r) => {
            match e {
                ir::Expr::Func { func, calls } => {
                    match func {
                        ir::Func::Assign(u) => {
                            assert(d2[u.id as int] == d1[u.id as int]);
                        },
                        _ => {},
                    }
                    lemma_ref_lowers_mono(*l, calls@[0].args@[0], m1, m2, d1, d2);
                    lemma_lowers_mono(*r, calls@[0].args@[1], m1, m2, d1, d2);
                },
                _ => {},
            }
        },
        _ => {},
    }
}

pub proof fn lemma_args_lower_mono(
    src: Seq<ast::Expr>,
    out: Seq<ir::Expr>,
    m1: Seq<Seq<char>>,
    m2: Seq<Seq<char>>,
    d1: Seq<ir::TyInner>,
    d2: Seq<ir::TyInner>,
)
    requires
        args_lower(src, out, m1, d1),
        m1.is_prefix_of(m2),
        d1.is_prefix_of(d2),
    ensures
        args_lower(src, out, m2, d2),
    decreases src, 4int,
{
    if src.len() == out.len() && src.len() > 0 {
        lemma_lowers_mono(src[0], out[0], m1, m2, d1, d2);
        lemma_args_lower_mono(src.drop_first(), out.drop_first(), m1, m2, d1, d2);
    }
}

pub proof fn lemma_ty_lowers_mono(a: ast::Ty, t: ir::Ty, d1: Seq<ir::TyInner>, d2: Seq<ir::TyInner>)
    requires
        ty_lowers_to(a, t, d1),
        d1.is_prefix_of(d2),
    ensures
        ty_lowers_to(a, t, d2),
    decreases a, 1int,
{
    assert(d2[t.id as int] == d1[t.id as int]);
    match a {
        ast::Ty::Int => {},
        ast::Ty::Func { args, ret } => {
            match d1[t.id as int] {
                ir::TyInner::Func { args: la, ret: lr } => {
                    lemma_tys_lower_mono(args@, la@, d1, d2);
                    lemma_ty_lowers_mono(*ret, lr, d1, d2);
                },
                _ => {},
            }
        },
    }
}

pub proof fn lemma_tys_lower_mono(
    src: Seq<ast::Ty>,
    out: Seq<ir::Ty>,
    d1: Seq<ir::TyInner>,
    d2: Seq<ir::TyInner>,
)
    requires
        tys_lower(src, out, d1),
        d1.is_prefix_of(d2),
    ensures
        tys_lower(src, out, d2),
    decreases src, 2int,
{
    if src.len() == out.len() && src.len() > 0 {
        lemma_ty_lowers_mono(src[0], out[0], d1, d2);
        lemma_tys_lower_mono(src.drop_first(), out.drop_first(), d1, d2);
    }
}

impl Context {
    /// No two recorded names are the same.
    pub open spec fn wf(&self) -> bool {
        forall|i: int, j: int| 0 <= i < j < self@.len() ==> self@[i] != self@[j]
    }

    pub fn new() -> (r: Context)
        ensures
            r.wf(),
            r@ =~= Seq::<Seq<char>>::empty(),
    {
        Context { variables_name: Vec::new() }
    }

    /// How many distinct variable names have been seen.
    pub fn num_variables(&self) -> (r: usize)
        ensures
            r == self@.len(),
    {
        self.variables_name.len()
    }

    /// The slot of `name`: its position among the recorded names, with a
    /// fresh slot appended for a name not seen before.
    fn lookup_or_insert(&mut self, name: String) -> (r: usize)
        requires
            old(self).wf(),
        ensures
            final(self).wf(),
            r < final(self)@.len(),
            final(self)@[r as int] == name@,
            forall|j: int| 0 <= j < r ==> final(self)@[j] != name@,
            old(self)@.is_prefix_of(final(self)@),
            (exists|j: int| 0 <= j < old(self)@.len() && #[trigger] old(self)@[j] == name@)
                ==> final(self)@ == old(self)@ && r < old(self)@.len(),
            !(exists|j: int| 0 <= j < old(self)@.len() && #[trigger] old(self)@[j] == name@)
                ==> final(self)@ == old(self)@.push(name@) && r == old(self)@.len(),
    {
        let n = self.variables_name.len();
        let mut i: usize = 0;
        while i < n
            invariant
                self.wf(),
                n == self@.len(),
                i <= n,
                forall|j: int| 0 <= j < i ==> self@[j] != name@,
            decreases n - i,
        {
            if self.variables_name[i] == name {
                proof {
                    assert(self@[i as int] == self.variables_name@[i as int]@);
                    assert(self@.is_prefix_of(self@));
                    assert(self@[i as int] == name@);
                }
                return i;
            }
            proof {
                assert(self@[i as int] == self.variables_name@[i as int]@);
            }
            i = i + 1;
        }
        let ghost old_view = self@;
        self.variables_name.push(name);
        proof {
            assert(self@ =~= old_view.push(name@));
            assert(old_view.is_prefix_of(self@));
        }
        n
    }

    /// Lowers a surface expression in value position. Identifiers and
    /// assignments fall through to the reference path under an implicit
    /// dereference.
    pub fn translate_expr(&mut self, expr: ast::Expr, arena: &mut ir::TyArena) -> (r: Result<
        ir::Expr,
        Error,
    >)
        requires
            old(self).wf(),
            old(arena).wf(),
        ensures
            final(self).wf(),
            final(arena).wf(),
            ir::arena_evolves(old(arena)@, final(arena)@),
            old(arena)@.is_prefix_of(final(arena)@),
            old(self)@.is_prefix_of(final(self)@),
            r is Ok <==> lowerable_expr(expr),
            r is Ok ==> final(self)@ == names_after_expr(expr, old(self)@),
            r is Ok ==> ir::expr_wf(r.unwrap(), final(self)@.len(), final(arena)@.len()),
            r is Ok ==> (r.unwrap() is Func <==> is_func_form(expr)),
            r is Ok ==> lowers_to(expr, r.unwrap(), final(self)@, final(arena)@),
            r is Err ==> (r.unwrap_err() == Error::NotLvalue || r.unwrap_err()
                == Error::NotFunction),
            match expr {
                ast::Expr::Call(f, _) => (lowerable_expr(*f) && !is_func_form(*f)) ==> r
                    == Err::<ir::Expr, Error>(Error::NotFunction),
                _ => true,
            },
            match expr {
                ast::Expr::Var(name) => r is Ok && var_lowering(
                    r.unwrap(),
                    name@,
                    final(self)@,
                ),
                _ => true,
            },
        decreases expr, 1int,
    {
        match expr {
            ast::Expr::Id(ty) => {
                let t = translate_ty(ty, arena);
                let calls0: Vec<ir::Call> = Vec::new();
                let out = ir::Expr::Func { func: ir::Func::Id(t), calls: calls0 };
                proof {
                    assert(lowers_to(expr, out, self@, arena@));
                }
                Ok(out)
            },
            ast::Expr::Int(value) => Ok(ir::Expr::Int(value)),
            ast::Expr::Call(func, args) => {
                let ghost f_g = *func;
                let ghost args_g = args@;
                let inner = match self.translate_expr(*func, arena) {
                    Ok(e) => e,
                    Err(e) => {
                        return Err(e);
                    },
                };
                match inner {
                    ir::Expr::Func { func: bf, calls: mut cs } => {
                        let ghost names_mid = self@;
                        let ghost n_mid = arena@;
                        let ghost cs_pre = cs@;
                        let targs = match self.translate_exprs(args, arena) {
                            Ok(v) => v,
                            Err(e) => {
                                return Err(e);
                            },
                        };
                        let ghost targs_v = targs@;
                        cs.push(ir::Call::new(targs));
                        proof {
                            ir::lemma_calls_wf_mono(
                                cs_pre,
                                names_mid.len(),
                                self@.len() as nat,
                                n_mid.len(),
                                arena@.len() as nat,
                            );
                            lemma_calls_wf_snoc(
                                cs_pre,
                                cs@.last(),
                                self@.len() as nat,
                                arena@.len() as nat,
                            );
                            assert(func_lowers(f_g, bf, cs_pre, names_mid, n_mid));
                            lemma_func_lowers_mono(f_g, bf, cs_pre, names_mid, self@, n_mid, arena@);
                            assert(cs@.drop_last() =~= cs_pre);
                            assert(cs@.last().args@ == targs_v);
                            assert(func_lowers(expr, bf, cs@, self@, arena@));
                        }
                        Ok(ir::Expr::Func { func: bf, calls: cs })
                    },
                    _ => Err(Error::NotFunction),
                }
            },
            ast::Expr::Bin(left, op, right) => {
                let ghost l_g = *left;
                let ghost r_g = *right;
                let lt = match self.translate_expr(*left, arena) {
                    Ok(e) => e,
                    Err(e) => {
                        return Err(e);
                    },
                };
                let ghost names_mid = self@;
                let ghost n_mid = arena@;
                let rt = match self.translate_expr(*right, arena) {
                    Ok(e) => e,
                    Err(e) => {
                        return Err(e);
                    },
                };
                proof {
                    ir::lemma_expr_wf_mono(
                        lt,
                        names_mid.len(),
                        self@.len() as nat,
                        n_mid.len(),
                        arena@.len() as nat,
                    );
                }
                let f = match op {
                    ast::BinOp::Add => ir::Func::Add,
                    ast::BinOp::Sub => ir::Func::Sub,
                    ast::BinOp::Mul => ir::Func::Mul,
                    ast::BinOp::Div => ir::Func::Div,
                    ast::BinOp::Rem => ir::Func::Rem,
                };
                let mut cargs: Vec<ir::Expr> = Vec::new();
                cargs.push(lt);
                cargs.push(rt);
                proof {
                    assert(cargs@.drop_first() =~= seq![cargs@[1]]);
                    assert(ir::exprs_wf(Seq::<ir::Expr>::empty(), self@.len() as nat, arena@.len() as nat));
                    assert(seq![cargs@[1]].drop_first() =~= Seq::<ir::Expr>::empty());
                    assert(ir::exprs_wf(seq![cargs@[1]], self@.len() as nat, arena@.len() as nat));
                    assert(ir::exprs_wf(cargs@, self@.len() as nat, arena@.len() as nat));
                }
                let mut cs: Vec<ir::Call> = Vec::new();
                cs.push(ir::Call::new(cargs));
                proof {
                    assert(cs@.drop_first() =~= Seq::<ir::Call>::empty());
                    assert(ir::calls_wf(Seq::<ir::Call>::empty(), self@.len() as nat, arena@.len() as nat));
                    assert(ir::calls_wf(cs@, self@.len() as nat, arena@.len() as nat));
                    lemma_lowers_mono(l_g, lt, names_mid, self@, n_mid, arena@);
                    assert(cargs@[0] == lt);
                    assert(cargs@[1] == rt);
                    assert(func_lowers(expr, f, cs@, self@, arena@));
                }
                Ok(ir::Expr::Func { func: f, calls: cs })
            },
            _ => {
                let u = ir::Ty::new(arena, ir::TyInner::Undetermined);
                let ghost n_mid = arena@;
                let target = match self.translate_ref(expr, arena) {
                    Ok(e) => e,
                    Err(e) => {
                        return Err(e);
                    },
                };
                proof {
                    ir::cell::lemma_frame_compose(old(arena)@, n_mid, arena@);
                }
                let mut cargs: Vec<ir::Expr> = Vec::new();
                cargs.push(target);
                proof {
                    assert(cargs@.drop_first() =~= Seq::<ir::Expr>::empty());
                    assert(ir::exprs_wf(Seq::<ir::Expr>::empty(), self@.len() as nat, arena@.len() as nat));
                    assert(ir::exprs_wf(cargs@, self@.len() as nat, arena@.len() as nat));
                }
                let mut cs: Vec<ir::Call> = Vec::new();
                cs.push(ir::Call::new(cargs));
                proof {
                    assert(cs@.drop_first() =~= Seq::<ir::Call>::empty());
                    assert(ir::calls_wf(Seq::<ir::Call>::empty(), self@.len() as nat, arena@.len() as nat));
                    assert(ir::calls_wf(cs@, self@.len() as nat, arena@.len() as nat));
                    assert(arena@[u.id as int] == n_mid[u.id as int]);
                    assert(func_lowers(expr, ir::Func::Deref(u), cs@, self@, arena@));
                }
                Ok(ir::Expr::Func { func: ir::Func::Deref(u), calls: cs })
            },
        }
    }

    /// Lowers a list of argument expressions in order.
    fn translate_exprs(&mut self, exprs: Vec<ast::Expr>, arena: &mut ir::TyArena) -> (r: Result<
        Vec<ir::Expr>,
        Error,
    >)
        requires
            old(self).wf(),
            old(arena).wf(),
        ensures
            final(self).wf(),
            final(arena).wf(),
            ir::arena_evolves(old(arena)@, final(arena)@),
            old(arena)@.is_prefix_of(final(arena)@),
            old(self)@.is_prefix_of(final(self)@),
            r is Ok <==> lowerable_exprs(exprs@),
            r is Ok ==> final(self)@ == names_after_exprs(exprs@, old(self)@),
            r is Ok ==> ir::exprs_wf(r.unwrap()@, final(self)@.len(), final(arena)@.len()),
            r is Ok ==> args_lower(exprs@, r.unwrap()@, final(self)@, final(arena)@),
            r is Err ==> (r.unwrap_err() == Error::NotLvalue || r.unwrap_err()
                == Error::NotFunction),
        decreases exprs@, 2int,
    {
        if exprs.len() == 0 {
            let out: Vec<ir::Expr> = Vec::new();
            proof {
                assert(args_lower(exprs@, out@, final(self)@, final(arena)@));
            }
            Ok(out)
        } else {
            let ghost exprs_g = exprs@;
            let mut rest = exprs;
            let a = rest.remove(0);
            let ghost a_g = a;
            proof {
                assert(rest@ =~= exprs_g.subrange(1, exprs_g.len() as int));
                assert(exprs_g.drop_first() =~= rest@);
                assert(exprs_g[0] == a_g);
            }
            let ta = match self.translate_expr(a, arena) {
                Ok(e) => e,
                Err(e) => {
                    return Err(e);
                },
            };
            let ghost names_mid = self@;
            let ghost n_mid = arena@;
            let tas = match self.translate_exprs(rest, arena) {
                Ok(v) => v,
                Err(e) => {
                    return Err(e);
                },
            };
            let mut out = tas;
            let ghost ta_g = ta;
            out.insert(0, ta);
            proof {
                ir::lemma_expr_wf_mono(
                    ta_g,
                    names_mid.len(),
                    self@.len() as nat,
                    n_mid.len(),
                    arena@.len() as nat,
                );
                assert(out@[0] == ta_g);
                assert(out@.drop_first() =~= tas@);
                lemma_lowers_mono(a_g, ta_g, names_mid, self@, n_mid, arena@);
                assert(args_lower(exprs_g, out@, self@, arena@));
            }
            Ok(out)
        }
    }

    /// Lowers a surface expression in assignment-target position: a
    /// variable reference names its slot, an assignment recurses, anything
    /// else is no lvalue.
    fn translate_ref(&mut self, expr: ast::Expr, arena: &mut ir::TyArena) -> (r: Result<
        ir::Expr,
        Error,
    >)
        requires
            old(self).wf(),
            old(arena).wf(),
        ensures
            final(self).wf(),
            final(arena).wf(),
            ir::arena_evolves(old(arena)@, final(arena)@),
            old(arena)@.is_prefix_of(final(arena)@),
            old(self)@.is_prefix_of(final(self)@),
            r is Ok <==> lowerable_ref(expr),
            r is Ok ==> final(self)@ == names_after_ref(expr, old(self)@),
            r is Ok ==> ir::expr_wf(r.unwrap(), final(self)@.len(), final(arena)@.len()),
            r is Ok ==> ref_lowers(expr, r.unwrap(), final(self)@, final(arena)@),
            r is Err ==> (r.unwrap_err() == Error::NotLvalue || r.unwrap_err()
                == Error::NotFunction),
            match expr {
                ast::Expr::Var(name) => match r {
                    Ok(e) => (match e {
                        ir::Expr::Var(idx) => idx < final(self)@.len() && final(self)@[idx as int]
                            == name@ && (forall|j: int| 0 <= j < idx ==> final(self)@[j] != name@),
                        _ => false,
                    }) && ((exists|j: int|
                        0 <= j < old(self)@.len() && #[trigger] old(self)@[j] == name@)
                        ==> final(self)@ == old(self)@) && (!(exists|j: int|
                        0 <= j < old(self)@.len() && #[trigger] old(self)@[j] == name@)
                        ==> final(self)@ == old(self)@.push(name@)),
                    Err(_) => false,
                },
                _ => true,
            },
            match expr {
                ast::Expr::Var(_) | ast::Expr::Assign(_, _) => true,
                _ => r == Err::<ir::Expr, Error>(Error::NotLvalue) && final(self)@ == old(self)@
                    && final(arena)@ == old(arena)@,
            },
        decreases expr, 0int,
    {
        match expr {
            ast::Expr::Var(name) => {
                let idx = self.lookup_or_insert(name);
                Ok(ir::Expr::Var(idx))
            },
            ast::Expr::Assign(left, right) => {
                let ghost l_g = *left;
                let ghost r_g = *right;
                let lt = match self.translate_ref(*left, arena) {
                    Ok(e) => e,
                    Err(e) => {
                        return Err(e);
                    },
                };
                let ghost names_mid = self@;
                let ghost n_mid = arena@;
                let rt = match self.translate_expr(*right, arena) {
                    Ok(e) => e,
                    Err(e) => {
                        return Err(e);
                    },
                };
                proof {
                    ir::lemma_expr_wf_mono(
                        lt,
                        names_mid.len(),
                        self@.len() as nat,
                        n_mid.len(),
                        arena@.len() as nat,
                    );
                }
                let ghost n_mid2 = arena@;
                let u = ir::Ty::new(arena, ir::TyInner::Undetermined);
                proof {
                    ir::cell::lemma_frame_compose(old(arena)@, n_mid2, arena@);
                    ir::lemma_expr_wf_mono(
                        lt,
                        self@.len(),
                        self@.len(),
                        n_mid2.len(),
                        arena@.len() as nat,
                    );
                    ir::lemma_expr_wf_mono(
                        rt,
                        self@.len(),
                        self@.len(),
                        n_mid2.len(),
                        arena@.len() as nat,
                    );
                }
                let mut cargs: Vec<ir::Expr> = Vec::new();
                cargs.push(lt);
                cargs.push(rt);
                proof {
                    assert(cargs@.drop_first() =~= seq![cargs@[1]]);
                    assert(ir::exprs_wf(Seq::<ir::Expr>::empty(), self@.len() as nat, arena@.len() as nat));
                    assert(seq![cargs@[1]].drop_first() =~= Seq::<ir::Expr>::empty());
                    assert(ir::exprs_wf(seq![cargs@[1]], self@.len() as nat, arena@.len() as nat));
                    assert(ir::exprs_wf(cargs@, self@.len() as nat, arena@.len() as nat));
                }
                let mut cs: Vec<ir::Call> = Vec::new();
                cs.push(ir::Call::new(cargs));
                proof {
                    assert(cs@.drop_first() =~= Seq::<ir::Call>::empty());
                    assert(ir::calls_wf(Seq::<ir::Call>::empty(), self@.len() as nat, arena@.len() as nat));
                    assert(ir::calls_wf(cs@, self@.len() as nat, arena@.len() as nat));
                    lemma_ref_lowers_mono(l_g, cargs@[0], names_mid, self@, n_mid, arena@);
                    lemma_lowers_mono(r_g, cargs@[1], self@, self@, n_mid2, arena@);
                    assert(arena@[u.id as int] is Undetermined);
                    assert(ref_lowers(expr, ir::Expr::Func { func: ir::Func::Assign(u), calls: cs }, self@, arena@));
                }
                Ok(ir::Expr::Func { func: ir::Func::Assign(u), calls: cs })
            },
            _ => Err(Error::NotLvalue),
        }
    }
}

/// Appending a call whose arguments are well-formed keeps a chain
/// well-formed.
proof fn lemma_calls_wf_snoc(cs: Seq<ir::Call>, c: ir::Call, nvars: nat, len: nat)
    requires
        ir::calls_wf(cs, nvars, len),
        ir::exprs_wf(c.args@, nvars, len),
    ensures
        ir::calls_wf(cs.push(c), nvars, len),
    decreases cs,
{
    if cs.len() == 0 {
        assert(cs.push(c)[0] == c);
        assert(cs.push(c).drop_first() =~= Seq::<ir::Call>::empty());
        assert(ir::calls_wf(Seq::<ir::Call>::empty(), nvars, len));
    } else {
        assert(cs.push(c)[0] == cs[0]);
        lemma_calls_wf_snoc(cs.drop_first(), c, nvars, len);
        assert(cs.push(c).drop_first() =~= cs.drop_first().push(c));
    }
}

/// Lowers a surface type annotation into fresh type cells.
pub fn translate_ty(ty: ast::Ty, arena: &mut ir::TyArena) -> (r: ir::Ty)
    requires
        old(arena).wf(),
    ensures
        final(arena).wf(),
        ir::arena_evolves(old(arena)@, final(arena)@),
        old(arena)@.is_prefix_of(final(arena)@),
        ty_lowers_to(ty, r, final(arena)@),
        r.id < final(arena)@.len(),
        r.id >= old(arena)@.len(),
    decreases ty, 1int,
{
    match ty {
        ast::Ty::Int => ir::Ty::new(arena, ir::TyInner::Int),
        ast::Ty::Func { args, ret } => {
            let ghost args_g = args@;
            let ghost ret_g = *ret;
            let targs = translate_tys(args, arena);
            let ghost targs_v = targs@;
            let ghost n_mid = arena@;
            let rt = translate_ty(*ret, arena);
            proof {
                ir::cell::lemma_frame_compose(old(arena)@, n_mid, arena@);
            }
            let ghost n_mid2 = arena@;
            let r = ir::Ty::new(arena, ir::TyInner::Func { args: targs, ret: rt });
            proof {
                ir::cell::lemma_frame_compose(old(arena)@, n_mid2, arena@);
                assert(n_mid2.is_prefix_of(arena@)) by {
                    assert(n_mid2 =~= arena@.subrange(0, n_mid2.len() as int));
                }
                assert(n_mid.is_prefix_of(arena@)) by {
                    assert(n_mid =~= arena@.subrange(0, n_mid.len() as int));
                }
                lemma_tys_lower_mono(args_g, targs_v, n_mid, arena@);
                lemma_ty_lowers_mono(ret_g, rt, n_mid2, arena@);
                assert(arena@[r.id as int] == ir::TyInner::Func { args: targs, ret: rt });
                assert(ty_lowers_to(ty, r, arena@));
            }
            r
        },
    }
}

/// Lowers a list of surface type annotations in order.
fn translate_tys(tys: Vec<ast::Ty>, arena: &mut ir::TyArena) -> (r: Vec<ir::Ty>)
    requires
        old(arena).wf(),
    ensures
        final(arena).wf(),
        ir::arena_evolves(old(arena)@, final(arena)@),
        old(arena)@.is_prefix_of(final(arena)@),
        tys_lower(tys@, r@, final(arena)@),
        forall|i: int| 0 <= i < r@.len() ==> (#[trigger] r@[i]).id < final(arena)@.len(),
    decreases tys@, 2int,
{
    if tys.len() == 0 {
        let out: Vec<ir::Ty> = Vec::new();
        proof {
            assert(tys_lower(tys@, out@, final(arena)@));
        }
        out
    } else {
        let ghost tys_g = tys@;
        let mut rest = tys;
        let a = rest.remove(0);
        let ghost a_g = a;
        proof {
            assert(rest@ =~= tys_g.subrange(1, tys_g.len() as int));
            assert(tys_g.drop_first() =~= rest@);
            assert(tys_g[0] == a_g);
        }
        let ta = translate_ty(a, arena);
        let ghost n_mid = arena@;
        let tas = translate_tys(rest, arena);
        proof {
            ir::cell::lemma_frame_compose(old(arena)@, n_mid, arena@);
        }
        let mut out = tas;
        let ghost ta_g = ta;
        out.insert(0, ta);
        proof {
            assert(out@[0] == ta_g);
            assert(out@.drop_first() =~= tas@);
            lemma_ty_lowers_mono(a_g, ta_g, n_mid, arena@);
            assert(tys_lower(tys_g, out@, arena@));
        }
        out
    }
}

} // verus!
