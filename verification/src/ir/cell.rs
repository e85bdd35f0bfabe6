use crate::error::Error;
use vstd::prelude::*;

verus! {

/// A handle to one type cell of a `TyArena`.
#[derive(Clone, Copy, PartialEq, Eq, Structural, Debug)]
pub struct Ty {
    pub id: usize,
}

/// The shape held by one type cell.
#[derive(Debug)]
pub enum TyInner {
    /// The integer type.
    Int,
    /// A mutable storage cell holding a value of the inner type.
    Ref(Ty),
    /// A function from an ordered parameter list to a return type.
    Func { args: Vec<Ty>, ret: Ty },
    /// A placeholder, to be resolved by unification.
    Undetermined,
    /// An alias: this cell's true type is whatever the target resolves to.
    SameAs(Ty),
}

/// The arena of type cells. A cell, once created, is only ever rewritten
/// from `Undetermined` to `SameAs`; every other shape is permanent.
#[derive(Debug)]
pub struct TyArena {
    nodes: Vec<TyInner>,
}

impl View for TyArena {
    type V = Seq<TyInner>;

    closed spec fn view(&self) -> Seq<TyInner> {
        self.nodes@
    }
}

/// Every handle held by `n` stays inside an arena of `len` cells.
pub open spec fn node_wf(n: TyInner, len: nat) -> bool {
    match n {
        TyInner::Int => true,
        TyInner::Undetermined => true,
        TyInner::Ref(t) => t.id < len,
        TyInner::SameAs(t) => t.id < len,
        TyInner::Func { args, ret } => ret.id < len && forall|i: int|
            0 <= i < args@.len() ==> (#[trigger] args@[i]).id < len,
    }
}

/// Follows alias links from `t` for at most `fuel` steps; the handle of the
/// first non-alias cell reached, if any.
pub open spec fn resolve_spec(nodes: Seq<TyInner>, t: Ty, fuel: nat) -> Option<Ty>
    decreases fuel,
{
    if t.id >= nodes.len() {
        None
    } else {
        match nodes[t.id as int] {
            TyInner::SameAs(u) => if fuel == 0 {
                None
            } else {
                resolve_spec(nodes, u, (fuel - 1) as nat)
            },
            _ => Some(t),
        }
    }
}

/// How many cells of the arena are aliases.
pub open spec fn count_same(nodes: Seq<TyInner>) -> nat
    decreases nodes.len(),
{
    if nodes.len() == 0 {
        0
    } else {
        count_same(nodes.drop_last()) + if nodes.last() is SameAs {
            1nat
        } else {
            0nat
        }
    }
}

/// The well-formed arenas: handles stay in bounds, and every alias chain
/// reaches a non-alias cell within one step per alias cell of the arena.
pub open spec fn nodes_wf(nodes: Seq<TyInner>) -> bool {
    &&& forall|i: int| 0 <= i < nodes.len() ==> node_wf(#[trigger] nodes[i], nodes.len())
    &&& forall|i: int|
        0 <= i < nodes.len() ==> #[trigger] resolve_spec(
            nodes,
            Ty { id: i as usize },
            count_same(nodes) + 1,
        ) is Some
}

/// The alias-step budget that the arena's operations hand to `resolve_spec`:
/// enough for any chain of a well-formed arena.
pub open spec fn arena_fuel(nodes: Seq<TyInner>) -> nat {
    nodes.len() + 1
}

/// A successful resolution lands, within bounds, on a non-alias cell.
pub proof fn lemma_resolve_some(nodes: Seq<TyInner>, t: Ty, fuel: nat)
    requires
        resolve_spec(nodes, t, fuel) is Some,
    ensures
        ({
            let r = resolve_spec(nodes, t, fuel).unwrap();
            r.id < nodes.len() && !(nodes[r.id as int] is SameAs)
        }),
    decreases fuel,
{
    if t.id < nodes.len() {
        match nodes[t.id as int] {
            TyInner::SameAs(u) => {
                lemma_resolve_some(nodes, u, (fuel - 1) as nat);
            },
            _ => {},
        }
    }
}

/// More fuel never changes a resolution that succeeds.
pub proof fn lemma_resolve_mono(nodes: Seq<TyInner>, t: Ty, f1: nat, f2: nat)
    requires
        resolve_spec(nodes, t, f1) is Some,
        f1 <= f2,
    ensures
        resolve_spec(nodes, t, f2) == resolve_spec(nodes, t, f1),
    decreases f1,
{
    if t.id < nodes.len() {
        match nodes[t.id as int] {
            TyInner::SameAs(u) => {
                lemma_resolve_mono(nodes, u, (f1 - 1) as nat, (f2 - 1) as nat);
            },
            _ => {},
        }
    }
}

/// Appending a cell leaves every old chain as it was.
pub proof fn lemma_resolve_push(nodes: Seq<TyInner>, x: TyInner, t: Ty, fuel: nat)
    requires
        forall|i: int| 0 <= i < nodes.len() ==> node_wf(#[trigger] nodes[i], nodes.len()),
        t.id < nodes.len(),
    ensures
        resolve_spec(nodes.push(x), t, fuel) == resolve_spec(nodes, t, fuel),
    decreases fuel,
{
    assert(nodes.push(x)[t.id as int] == nodes[t.id as int]);
    match nodes[t.id as int] {
        TyInner::SameAs(u) => {
            if fuel > 0 {
                lemma_resolve_push(nodes, x, u, (fuel - 1) as nat);
            }
        },
        _ => {},
    }
}

/// Rewriting the `Undetermined` cell `rb` to alias the non-alias cell `ra`
/// reroutes exactly the chains that ended at `rb`, at the cost of one more
/// step.
pub proof fn lemma_resolve_bind(nodes: Seq<TyInner>, rb: Ty, ra: Ty, t: Ty, fuel: nat)
    requires
        rb.id < nodes.len(),
        ra.id < nodes.len(),
        nodes[rb.id as int] is Undetermined,
        !(nodes[ra.id as int] is SameAs),
        ra != rb,
        resolve_spec(nodes, t, fuel) is Some,
    ensures
        ({
            let n2 = nodes.update(rb.id as int, TyInner::SameAs(ra));
            if resolve_spec(nodes, t, fuel).unwrap() == rb {
                resolve_spec(n2, t, fuel + 1) == Some(ra)
            } else {
                resolve_spec(n2, t, fuel + 1) == resolve_spec(nodes, t, fuel)
            }
        }),
    decreases fuel,
{
    let n2 = nodes.update(rb.id as int, TyInner::SameAs(ra));
    if t.id < nodes.len() {
        if t == rb {
            assert(n2[t.id as int] == TyInner::SameAs(ra));
            assert(resolve_spec(n2, t, fuel + 1) == resolve_spec(n2, ra, fuel as nat));
            assert(!(n2[ra.id as int] is SameAs));
        } else {
            assert(n2[t.id as int] == nodes[t.id as int]);
            match nodes[t.id as int] {
                TyInner::SameAs(u) => {
                    lemma_resolve_bind(nodes, rb, ra, u, (fuel - 1) as nat);
                },
                _ => {},
            }
        }
    }
}

/// `count_same` never exceeds the arena's size.
pub proof fn lemma_count_same_le(nodes: Seq<TyInner>)
    ensures
        count_same(nodes) <= nodes.len(),
    decreases nodes.len(),
{
    if nodes.len() > 0 {
        lemma_count_same_le(nodes.drop_last());
    }
}

/// An arena with at least one non-alias cell has strictly fewer aliases
/// than cells.
pub proof fn lemma_count_same_lt(nodes: Seq<TyInner>, w: int)
    requires
        0 <= w < nodes.len(),
        !(nodes[w] is SameAs),
    ensures
        count_same(nodes) < nodes.len(),
    decreases nodes.len(),
{
    if w == nodes.len() - 1 {
        lemma_count_same_le(nodes.drop_last());
    } else {
        lemma_count_same_lt(nodes.drop_last(), w);
    }
}

/// `count_same` after rewriting one cell.
pub proof fn lemma_count_same_update(nodes: Seq<TyInner>, i: int, x: TyInner)
    requires
        0 <= i < nodes.len(),
    ensures
        count_same(nodes.update(i, x)) + (if nodes[i] is SameAs {
            1nat
        } else {
            0nat
        }) == count_same(nodes) + (if x is SameAs {
            1nat
        } else {
            0nat
        }),
    decreases nodes.len(),
{
    let n2 = nodes.update(i, x);
    if i == nodes.len() - 1 {
        assert(n2.drop_last() =~= nodes.drop_last());
        assert(n2.last() == x);
    } else {
        assert(n2.drop_last() =~= nodes.drop_last().update(i, x));
        assert(n2.last() == nodes.last());
        lemma_count_same_update(nodes.drop_last(), i, x);
    }
}

impl TyArena {
    /// The arena's well-formedness invariant; every public operation
    /// preserves it.
    pub open spec fn wf(&self) -> bool {
        nodes_wf(self@)
    }

    /// An empty arena.
    pub fn new() -> (r: TyArena)
        ensures
            r.wf(),
            r@ =~= Seq::<TyInner>::empty(),
    {
        TyArena { nodes: Vec::new() }
    }

    pub fn len(&self) -> (r: usize)
        ensures
            r == self@.len(),
    {
        self.nodes.len()
    }

    /// A copy of the shape held by cell `t`.
    pub fn node(&self, t: Ty) -> (r: &TyInner)
        requires
            t.id < self@.len(),
        ensures
            *r == self@[t.id as int],
    {
        &self.nodes[t.id]
    }

    /// Follows alias links from `t` to the cell that holds `t`'s shape.
    /// Under the invariant this never fails for an in-bounds handle.
    pub fn resolve(&self, t: Ty) -> (r: Option<Ty>)
        requires
            self.wf(),
        ensures
            r == resolve_spec(self@, t, arena_fuel(self@)),
            t.id < self@.len() ==> r is Some,
            r is Some ==> r.unwrap().id < self@.len() && !(self@[r.unwrap().id as int] is SameAs),
    {
        proof {
            if t.id < self@.len() {
                assert(resolve_spec(self@, Ty { id: t.id as int as usize }, count_same(self@) + 1)
                    is Some);
                lemma_resolve_some(self@, t, count_same(self@) + 1);
                lemma_count_same_lt(
                    self@,
                    resolve_spec(self@, t, count_same(self@) + 1).unwrap().id as int,
                );
                lemma_resolve_mono(self@, t, count_same(self@) + 1, self@.len() as nat);
                lemma_resolve_mono(self@, t, count_same(self@) + 1, arena_fuel(self@));
            }
        }
        let mut cur = t;
        let mut fuel: usize = self.nodes.len();
        loop
            invariant
                self.wf(),
                fuel <= arena_fuel(self@),
                resolve_spec(self@, cur, fuel as nat) == resolve_spec(self@, t, arena_fuel(self@)),
                t.id < self@.len() ==> resolve_spec(self@, t, arena_fuel(self@)) is Some,
            decreases fuel,
        {
            if cur.id >= self.nodes.len() {
                proof {
                    if resolve_spec(self@, t, arena_fuel(self@)) is Some {
                        lemma_resolve_some(self@, t, arena_fuel(self@));
                    }
                }
                return None;
            }
            match &self.nodes[cur.id] {
                TyInner::SameAs(u) => {
                    if fuel == 0 {
                        proof {
                            if resolve_spec(self@, t, arena_fuel(self@)) is Some {
                                lemma_resolve_some(self@, t, arena_fuel(self@));
                            }
                        }
                        return None;
                    }
                    cur = *u;
                    fuel = fuel - 1;
                },
                _ => {
                    return Some(cur);
                },
            }
        }
    }
}

/// Binding an `Undetermined` cell to a resolved cell keeps the arena
/// well-formed.
pub proof fn lemma_bind_preserves_wf(nodes: Seq<TyInner>, rb: Ty, ra: Ty)
    requires
        nodes_wf(nodes),
        rb.id < nodes.len(),
        ra.id < nodes.len(),
        nodes[rb.id as int] is Undetermined,
        !(nodes[ra.id as int] is SameAs),
        ra != rb,
    ensures
        nodes_wf(nodes.update(rb.id as int, TyInner::SameAs(ra))),
{
    let n2 = nodes.update(rb.id as int, TyInner::SameAs(ra));
    lemma_count_same_update(nodes, rb.id as int, TyInner::SameAs(ra));
    assert(count_same(n2) == count_same(nodes) + 1);
    assert forall|i: int| 0 <= i < n2.len() implies node_wf(#[trigger] n2[i], n2.len()) by {
        if i != rb.id as int {
            assert(node_wf(nodes[i], nodes.len()));
        }
    }
    assert forall|i: int| 0 <= i < n2.len() implies #[trigger] resolve_spec(
        n2,
        Ty { id: i as usize },
        count_same(n2) + 1,
    ) is Some by {
        let t = Ty { id: i as usize };
        assert(resolve_spec(nodes, t, count_same(nodes) + 1) is Some);
        lemma_resolve_bind(nodes, rb, ra, t, count_same(nodes) + 1);
        assert(resolve_spec(n2, t, count_same(nodes) + 2) is Some);
    }
}

/// The queue of extra curry layers, viewed as a sequence of parameter
/// lists.
pub open spec fn queue_view(q: Vec<Vec<Ty>>) -> Seq<Seq<Ty>> {
    q@.map_values(|v: Vec<Ty>| v@)
}

/// The view of a unification result.
pub open spec fn unify_res_view(r: Result<Vec<Vec<Ty>>, Error>) -> Result<Seq<Seq<Ty>>, Error> {
    match r {
        Ok(q) => Ok(queue_view(q)),
        Err(e) => Err(e),
    }
}

/// What unification computes: the arena after any placeholder bindings,
/// and either the queue of extra curry layers or the error. The rules, in
/// priority order after resolving both sides:
/// bind an `Undetermined` expected side to the actual, bind an
/// `Undetermined` actual to the expected, accept `Int` against `Int`,
/// descend through `Ref` on both sides, peel one layer of an expected
/// `Func` and drop the front queue entry it accounts for, peel one layer
/// of an actual `Func` and owe its parameter list at the back of the
/// queue, and otherwise fail. Two sides that resolve to the same cell
/// unify with an empty queue and no binding.
pub open spec fn unify_spec(nodes: Seq<TyInner>, a: Ty, b: Ty, afuel: nat, bfuel: nat) -> (Seq<
    TyInner,
>, Result<Seq<Seq<Ty>>, Error>)
    decreases afuel + bfuel,
{
    let ra_o = resolve_spec(nodes, a, arena_fuel(nodes));
    let rb_o = resolve_spec(nodes, b, arena_fuel(nodes));
    if ra_o is None || rb_o is None {
        (nodes, Err(Error::CyclicType))
    } else {
        let ra = ra_o.unwrap();
        let rb = rb_o.unwrap();
        if ra == rb {
            (nodes, Ok(Seq::empty()))
        } else {
            match (nodes[ra.id as int], nodes[rb.id as int]) {
                (_, TyInner::Undetermined) => (
                    nodes.update(rb.id as int, TyInner::SameAs(ra)),
                    Ok(Seq::empty()),
                ),
                (TyInner::Undetermined, _) => (
                    nodes.update(ra.id as int, TyInner::SameAs(rb)),
                    Ok(Seq::empty()),
                ),
                (TyInner::Int, TyInner::Int) => (nodes, Ok(Seq::empty())),
                (TyInner::Ref(x), TyInner::Ref(y)) => if afuel == 0 || bfuel == 0 {
                    (nodes, Err(Error::CyclicType))
                } else {
                    unify_spec(nodes, x, y, (afuel - 1) as nat, (bfuel - 1) as nat)
                },
                (_, TyInner::Func { args: _, ret }) => if bfuel == 0 {
                    (nodes, Err(Error::CyclicType))
                } else {
                    let (n2, r) = unify_spec(nodes, ra, ret, afuel, (bfuel - 1) as nat);
                    match r {
                        Ok(q) => (
                            n2,
                            Ok(
                                if q.len() == 0 {
                                    q
                                } else {
                                    q.drop_first()
                                },
                            ),
                        ),
                        Err(e) => (n2, Err(e)),
                    }
                },
                (TyInner::Func { args, ret }, _) => if afuel == 0 {
                    (nodes, Err(Error::CyclicType))
                } else {
                    let (n2, r) = unify_spec(nodes, ret, rb, (afuel - 1) as nat, bfuel);
                    match r {
                        Ok(q) => (n2, Ok(q.push(args@))),
                        Err(e) => (n2, Err(e)),
                    }
                },
                _ => (nodes, Err(Error::TypeMismatch)),
            }
        }
    }
}

/// Unification never lengthens the arena, keeps it well-formed, and only
/// ever rewrites `Undetermined` cells into aliases: a cell's shape, once
/// concrete, is pinned.
pub proof fn lemma_unify_spec_frame(nodes: Seq<TyInner>, a: Ty, b: Ty, afuel: nat, bfuel: nat)
    requires
        nodes_wf(nodes),
    ensures
        ({
            let (n2, r) = unify_spec(nodes, a, b, afuel, bfuel);
            &&& n2.len() == nodes.len()
            &&& nodes_wf(n2)
            &&& forall|i: int|
                0 <= i < nodes.len() ==> #[trigger] n2[i] == nodes[i] || (nodes[i]
                    is Undetermined && n2[i] is SameAs)
        }),
    decreases afuel + bfuel,
{
    let ra_o = resolve_spec(nodes, a, arena_fuel(nodes));
    let rb_o = resolve_spec(nodes, b, arena_fuel(nodes));
    if ra_o is Some && rb_o is Some {
        let ra = ra_o.unwrap();
        let rb = rb_o.unwrap();
        lemma_resolve_some(nodes, a, arena_fuel(nodes));
        lemma_resolve_some(nodes, b, arena_fuel(nodes));
        if ra != rb {
            match (nodes[ra.id as int], nodes[rb.id as int]) {
                (_, TyInner::Undetermined) => {
                    lemma_bind_preserves_wf(nodes, rb, ra);
                },
                (TyInner::Undetermined, _) => {
                    lemma_bind_preserves_wf(nodes, ra, rb);
                },
                (TyInner::Ref(x), TyInner::Ref(y)) => {
                    if afuel > 0 && bfuel > 0 {
                        lemma_unify_spec_frame(nodes, x, y, (afuel - 1) as nat, (bfuel - 1) as nat);
                    }
                },
                (_, TyInner::Func { args: _, ret }) => {
                    if bfuel > 0 {
                        lemma_unify_spec_frame(nodes, ra, ret, afuel, (bfuel - 1) as nat);
                    }
                },
                (TyInner::Func { args: _, ret }, _) => {
                    if afuel > 0 {
                        lemma_unify_spec_frame(nodes, ret, rb, (afuel - 1) as nat, bfuel);
                    }
                },
                _ => {},
            }
        }
    }
}

/// Every handle in a layer queue stays inside an arena of `len` cells.
pub open spec fn queue_wf(q: Seq<Seq<Ty>>, len: nat) -> bool {
    forall|i: int, j: int|
        0 <= i < q.len() && 0 <= j < q[i].len() ==> (#[trigger] q[i][j]).id < len
}

/// A successful unification hands back only handles of existing cells.
pub proof fn lemma_unify_spec_queue_wf(nodes: Seq<TyInner>, a: Ty, b: Ty, afuel: nat, bfuel: nat)
    requires
        nodes_wf(nodes),
    ensures
        ({
            let (n2, r) = unify_spec(nodes, a, b, afuel, bfuel);
            r is Ok ==> queue_wf(r.unwrap(), nodes.len())
        }),
    decreases afuel + bfuel,
{
    let ra_o = resolve_spec(nodes, a, arena_fuel(nodes));
    let rb_o = resolve_spec(nodes, b, arena_fuel(nodes));
    if ra_o is Some && rb_o is Some {
        let ra = ra_o.unwrap();
        let rb = rb_o.unwrap();
        lemma_resolve_some(nodes, a, arena_fuel(nodes));
        lemma_resolve_some(nodes, b, arena_fuel(nodes));
        if ra != rb {
            match (nodes[ra.id as int], nodes[rb.id as int]) {
                (TyInner::Ref(x), TyInner::Ref(y)) => {
                    if afuel > 0 && bfuel > 0 {
                        lemma_unify_spec_queue_wf(nodes, x, y, (afuel - 1) as nat, (bfuel - 1) as nat);
                    }
                },
                (_, TyInner::Func { args: _, ret }) => {
                    if bfuel > 0 {
                        lemma_unify_spec_queue_wf(nodes, ra, ret, afuel, (bfuel - 1) as nat);
                        let (n2, r) = unify_spec(nodes, ra, ret, afuel, (bfuel - 1) as nat);
                        if r is Ok {
                            let q = r.unwrap();
                            if q.len() > 0 {
                                assert forall|i: int, j: int|
                                    0 <= i < q.drop_first().len() && 0 <= j
                                        < q.drop_first()[i].len() implies (#[trigger] q.drop_first()[i][j]).id
                                    < nodes.len() by {
                                    assert(q.drop_first()[i] == q[i + 1]);
                                }
                            }
                        }
                    }
                },
                (TyInner::Func { args, ret }, _) => {
                    if afuel > 0 {
                        lemma_unify_spec_queue_wf(nodes, ret, rb, (afuel - 1) as nat, bfuel);
                        let (n2, r) = unify_spec(nodes, ret, rb, (afuel - 1) as nat, bfuel);
                        if r is Ok {
                            let q = r.unwrap().push(args@);
                            assert(node_wf(nodes[ra.id as int], nodes.len()));
                            assert forall|i: int, j: int|
                                0 <= i < q.len() && 0 <= j < q[i].len() implies (#[trigger] q[i][j]).id
                                < nodes.len() by {
                                if i < q.len() - 1 {
                                    assert(q[i] == r.unwrap()[i]);
                                } else {
                                    assert(q[i] == args@);
                                }
                            }
                        }
                    }
                },
                _ => {},
            }
        }
    }
}

/// A failed unification reports a shape mismatch or a cell cycle, nothing
/// else.
pub proof fn lemma_unify_spec_err_kind(nodes: Seq<TyInner>, a: Ty, b: Ty, afuel: nat, bfuel: nat)
    ensures
        ({
            let (n2, r) = unify_spec(nodes, a, b, afuel, bfuel);
            r is Err ==> r->Err_0 == Error::TypeMismatch || r->Err_0 == Error::CyclicType
        }),
    decreases afuel + bfuel,
{
    let ra_o = resolve_spec(nodes, a, arena_fuel(nodes));
    let rb_o = resolve_spec(nodes, b, arena_fuel(nodes));
    if ra_o is Some && rb_o is Some {
        let ra = ra_o.unwrap();
        let rb = rb_o.unwrap();
        lemma_resolve_some(nodes, a, arena_fuel(nodes));
        lemma_resolve_some(nodes, b, arena_fuel(nodes));
        if ra != rb {
            match (nodes[ra.id as int], nodes[rb.id as int]) {
                (TyInner::Ref(x), TyInner::Ref(y)) => {
                    if afuel > 0 && bfuel > 0 {
                        lemma_unify_spec_err_kind(nodes, x, y, (afuel - 1) as nat, (bfuel - 1) as nat);
                    }
                },
                (_, TyInner::Func { args: _, ret }) => {
                    if bfuel > 0 {
                        lemma_unify_spec_err_kind(nodes, ra, ret, afuel, (bfuel - 1) as nat);
                    }
                },
                (TyInner::Func { args: _, ret }, _) => {
                    if afuel > 0 {
                        lemma_unify_spec_err_kind(nodes, ret, rb, (afuel - 1) as nat, bfuel);
                    }
                },
                _ => {},
            }
        }
    }
}

/// Composing two evolutions that each only bind `Undetermined` cells
/// yields another such evolution.
pub proof fn lemma_frame_compose(n0: Seq<TyInner>, n1: Seq<TyInner>, n2: Seq<TyInner>)
    requires
        n0.len() <= n1.len() <= n2.len(),
        forall|i: int|
            0 <= i < n0.len() ==> #[trigger] n1[i] == n0[i] || (n0[i] is Undetermined && n1[i]
                is SameAs),
        forall|i: int|
            0 <= i < n1.len() ==> #[trigger] n2[i] == n1[i] || (n1[i] is Undetermined && n2[i]
                is SameAs),
    ensures
        forall|i: int|
            0 <= i < n0.len() ==> #[trigger] n2[i] == n0[i] || (n0[i] is Undetermined && n2[i]
                is SameAs),
{
}

/// Updates that only turn `Undetermined` cells into aliases leave every
/// chain with a concrete root untouched.
pub proof fn lemma_resolve_frame(nodes: Seq<TyInner>, n2: Seq<TyInner>, t: Ty, fuel: nat)
    requires
        n2.len() == nodes.len(),
        forall|i: int|
            0 <= i < nodes.len() ==> #[trigger] n2[i] == nodes[i] || (nodes[i] is Undetermined
                && n2[i] is SameAs),
        resolve_spec(nodes, t, fuel) is Some,
        !(nodes[resolve_spec(nodes, t, fuel).unwrap().id as int] is Undetermined),
    ensures
        resolve_spec(n2, t, fuel) == resolve_spec(nodes, t, fuel),
    decreases fuel,
{
    lemma_resolve_some(nodes, t, fuel);
    match nodes[t.id as int] {
        TyInner::SameAs(u) => {
            assert(n2[t.id as int] == nodes[t.id as int]);
            lemma_resolve_frame(nodes, n2, u, (fuel - 1) as nat);
        },
        _ => {
            assert(n2[t.id as int] == nodes[t.id as int]);
        },
    }
}

/// Structural equality of two cells' resolved shapes, compared to `fuel`
/// levels of structure.
pub open spec fn equiv_spec(nodes: Seq<TyInner>, a: Ty, b: Ty, fuel: nat) -> bool
    decreases fuel,
{
    if fuel == 0 {
        false
    } else {
        let ra_o = resolve_spec(nodes, a, arena_fuel(nodes));
        let rb_o = resolve_spec(nodes, b, arena_fuel(nodes));
        if ra_o is None || rb_o is None {
            false
        } else {
            let ra = ra_o.unwrap();
            let rb = rb_o.unwrap();
            ra == rb || match (nodes[ra.id as int], nodes[rb.id as int]) {
                (TyInner::Int, TyInner::Int) => true,
                (TyInner::Ref(x), TyInner::Ref(y)) => equiv_spec(nodes, x, y, (fuel - 1) as nat),
                (
                    TyInner::Func { args: a1, ret: r1 },
                    TyInner::Func { args: a2, ret: r2 },
                ) => a1@.len() == a2@.len() && (forall|i: int|
                    0 <= i < a1@.len() ==> equiv_spec(
                        nodes,
                        #[trigger] a1@[i],
                        a2@[i],
                        (fuel - 1) as nat,
                    )) && equiv_spec(nodes, r1, r2, (fuel - 1) as nat),
                _ => false,
            }
        }
    }
}

/// `a`'s resolved shape equals `b`'s wrapped in the function layers of
/// `q`, the outermost layer standing last in the queue.
pub open spec fn equiv_wrapped(nodes: Seq<TyInner>, a: Ty, b: Ty, q: Seq<Seq<Ty>>, fuel: nat) -> bool
    decreases q.len(),
{
    if q.len() == 0 {
        equiv_spec(nodes, a, b, fuel)
    } else {
        let ra_o = resolve_spec(nodes, a, arena_fuel(nodes));
        ra_o is Some && match nodes[ra_o.unwrap().id as int] {
            TyInner::Func { args, ret } => args@ == q.last() && equiv_wrapped(
                nodes,
                ret,
                b,
                q.drop_last(),
                fuel,
            ),
            _ => false,
        }
    }
}

/// Reflexivity: a cell unifies with itself at once, with an empty layer
/// queue and no binding, whatever shape it resolves to.
pub proof fn lemma_unify_reflexive(nodes: Seq<TyInner>, t: Ty, afuel: nat, bfuel: nat)
    requires
        nodes_wf(nodes),
        t.id < nodes.len(),
    ensures
        unify_spec(nodes, t, t, afuel, bfuel) == (nodes, Ok::<Seq<Seq<Ty>>, Error>(Seq::empty())),
{
    assert(resolve_spec(nodes, Ty { id: t.id as int as usize }, count_same(nodes) + 1) is Some);
    lemma_count_same_le(nodes);
    lemma_resolve_mono(nodes, t, count_same(nodes) + 1, arena_fuel(nodes));
}

/// Placeholder resolution: unifying any cell `a` against a cell `b` whose
/// shape is still undetermined succeeds with an empty queue, binds `b` to
/// `a`'s root for good, and is idempotent: the same unification, repeated
/// with any budget, succeeds again with an empty queue and changes
/// nothing.
pub proof fn lemma_unify_binds_placeholder(
    nodes: Seq<TyInner>,
    a: Ty,
    b: Ty,
    afuel: nat,
    bfuel: nat,
    afuel2: nat,
    bfuel2: nat,
)
    requires
        nodes_wf(nodes),
        a.id < nodes.len(),
        b.id < nodes.len(),
        nodes[resolve_spec(nodes, b, arena_fuel(nodes)).unwrap().id as int] is Undetermined,
    ensures
        ({
            let ra = resolve_spec(nodes, a, arena_fuel(nodes)).unwrap();
            let (n2, r) = unify_spec(nodes, a, b, afuel, bfuel);
            &&& r == Ok::<Seq<Seq<Ty>>, Error>(Seq::empty())
            &&& resolve_spec(n2, a, arena_fuel(n2)) == Some(ra)
            &&& resolve_spec(n2, b, arena_fuel(n2)) == Some(ra)
            &&& unify_spec(n2, a, b, afuel2, bfuel2) == (
                n2,
                Ok::<Seq<Seq<Ty>>, Error>(Seq::empty()),
            )
        }),
{
    let cs = count_same(nodes);
    assert(resolve_spec(nodes, Ty { id: a.id as int as usize }, cs + 1) is Some);
    assert(resolve_spec(nodes, Ty { id: b.id as int as usize }, cs + 1) is Some);
    lemma_count_same_le(nodes);
    lemma_resolve_mono(nodes, a, cs + 1, arena_fuel(nodes));
    lemma_resolve_mono(nodes, b, cs + 1, arena_fuel(nodes));
    let ra = resolve_spec(nodes, a, arena_fuel(nodes)).unwrap();
    let rb = resolve_spec(nodes, b, arena_fuel(nodes)).unwrap();
    lemma_resolve_some(nodes, a, arena_fuel(nodes));
    lemma_resolve_some(nodes, b, arena_fuel(nodes));
    if ra == rb {
        let (n2, r) = unify_spec(nodes, a, b, afuel, bfuel);
        assert(n2 == nodes);
    } else {
        let n2 = nodes.update(rb.id as int, TyInner::SameAs(ra));
        lemma_bind_preserves_wf(nodes, rb, ra);
        lemma_count_same_update(nodes, rb.id as int, TyInner::SameAs(ra));
        lemma_resolve_bind(nodes, rb, ra, a, cs + 1);
        lemma_resolve_bind(nodes, rb, ra, b, cs + 1);
        lemma_count_same_le(n2);
        lemma_resolve_mono(n2, a, cs + 2, arena_fuel(n2));
        lemma_resolve_mono(n2, b, cs + 2, arena_fuel(n2));
    }
}

/// Arity-reconciliation soundness at a ground expected cell: when the
/// expected side is an `Int` or still-undetermined cell, a successful
/// unification returns exactly the curry layers by which the actual side
/// exceeds it, so that rebuilding the expected type under those layers
/// recovers the actual type's resolved shape.
///
/// The restriction to a ground expected cell is as far as the statement
/// is true. When the expected side is itself a function, its own layers
/// silently truncate the front of the queue, so the queue no longer
/// rebuilds the actual shape; and when the arity gap sits inside a `Ref`,
/// no queue entry records it at all.
pub proof fn lemma_unify_sound_ground(nodes: Seq<TyInner>, a: Ty, b: Ty, afuel: nat, bfuel: nat)
    requires
        nodes_wf(nodes),
        b.id < nodes.len(),
        nodes[b.id as int] is Int || nodes[b.id as int] is Undetermined,
    ensures
        ({
            let (n2, r) = unify_spec(nodes, a, b, afuel, bfuel);
            r is Ok ==> equiv_wrapped(n2, a, b, r.unwrap(), 1)
        }),
    decreases afuel,
{
    let cs = count_same(nodes);
    lemma_count_same_le(nodes);
    let ra_o = resolve_spec(nodes, a, arena_fuel(nodes));
    let rb_o = resolve_spec(nodes, b, arena_fuel(nodes));
    assert(rb_o == Some(b));
    if ra_o is Some {
        let ra = ra_o.unwrap();
        lemma_resolve_some(nodes, a, arena_fuel(nodes));
        if ra == b {
            assert(equiv_spec(nodes, a, b, 1));
        } else {
            match (nodes[ra.id as int], nodes[b.id as int]) {
                (_, TyInner::Undetermined) => {
                    let n2 = nodes.update(b.id as int, TyInner::SameAs(ra));
                    lemma_bind_preserves_wf(nodes, b, ra);
                    lemma_count_same_update(nodes, b.id as int, TyInner::SameAs(ra));
                    assert(resolve_spec(nodes, Ty { id: a.id as int as usize }, cs + 1) is Some);
                    lemma_resolve_mono(nodes, a, cs + 1, arena_fuel(nodes));
                    lemma_resolve_bind(nodes, b, ra, a, cs + 1);
                    lemma_resolve_bind(nodes, b, ra, b, cs + 1);
                    lemma_count_same_le(n2);
                    lemma_resolve_mono(n2, a, cs + 2, arena_fuel(n2));
                    lemma_resolve_mono(n2, b, cs + 2, arena_fuel(n2));
                    assert(equiv_spec(n2, a, b, 1));
                },
                (TyInner::Undetermined, TyInner::Int) => {
                    let n2 = nodes.update(ra.id as int, TyInner::SameAs(b));
                    lemma_bind_preserves_wf(nodes, ra, b);
                    lemma_count_same_update(nodes, ra.id as int, TyInner::SameAs(b));
                    assert(resolve_spec(nodes, Ty { id: a.id as int as usize }, cs + 1) is Some);
                    lemma_resolve_mono(nodes, a, cs + 1, arena_fuel(nodes));
                    lemma_resolve_bind(nodes, ra, b, a, cs + 1);
                    lemma_resolve_bind(nodes, ra, b, b, cs + 1);
                    lemma_count_same_le(n2);
                    lemma_resolve_mono(n2, a, cs + 2, arena_fuel(n2));
                    lemma_resolve_mono(n2, b, cs + 2, arena_fuel(n2));
                    assert(equiv_spec(n2, a, b, 1));
                },
                (TyInner::Int, TyInner::Int) => {
                    assert(equiv_spec(nodes, a, b, 1));
                },
                (TyInner::Func { args, ret }, _) => {
                    if afuel > 0 {
                        lemma_unify_sound_ground(nodes, ret, b, (afuel - 1) as nat, bfuel);
                        let (n2, r) = unify_spec(nodes, ret, b, (afuel - 1) as nat, bfuel);
                        if r is Ok {
                            lemma_unify_spec_frame(nodes, ret, b, (afuel - 1) as nat, bfuel);
                            lemma_resolve_frame(nodes, n2, a, arena_fuel(nodes));
                            let q = r.unwrap().push(args@);
                            assert(q.drop_last() =~= r.unwrap());
                            assert(q.last() == args@);
                            assert(resolve_spec(n2, a, arena_fuel(n2)) == Some(ra));
                            assert(n2[ra.id as int] == nodes[ra.id as int]);
                            assert(equiv_wrapped(n2, a, b, q, 1));
                        }
                    }
                },
                _ => {},
            }
        }
    }
}

/// The parameter list and return type behind a cell, read through its
/// alias chain.
pub open spec fn get_args_ret_spec(nodes: Seq<TyInner>, t: Ty) -> Result<(Seq<Ty>, Ty), Error> {
    match resolve_spec(nodes, t, arena_fuel(nodes)) {
        Some(r) => match nodes[r.id as int] {
            TyInner::Func { args, ret } => Ok((args@, ret)),
            _ => Err(Error::TypeMismatch),
        },
        None => Err(Error::CyclicType),
    }
}

/// An element-for-element copy of a parameter list.
pub(crate) fn copy_tys(v: &Vec<Ty>) -> (r: Vec<Ty>)
    ensures
        r@ == v@,
{
    let mut r: Vec<Ty> = Vec::new();
    let mut i: usize = 0;
    while i < v.len()
        invariant
            i <= v@.len(),
            r@ =~= v@.subrange(0, i as int),
        decreases v@.len() - i,
    {
        r.push(v[i]);
        i = i + 1;
    }
    proof {
        assert(r@ =~= v@);
    }
    r
}

/// A layer-for-layer copy of an extra-layer queue.
pub(crate) fn copy_queue(q: &Vec<Vec<Ty>>) -> (r: Vec<Vec<Ty>>)
    ensures
        queue_view(r) == queue_view(*q),
        r@.len() == q@.len(),
{
    let mut r: Vec<Vec<Ty>> = Vec::new();
    let mut i: usize = 0;
    while i < q.len()
        invariant
            i <= q@.len(),
            r@.len() == i,
            forall|j: int| 0 <= j < i ==> (#[trigger] r@[j])@ == q@[j]@,
        decreases q@.len() - i,
    {
        r.push(copy_tys(&q[i]));
        i = i + 1;
    }
    proof {
        assert(queue_view(r) =~= queue_view(*q));
    }
    r
}

impl TyArena {
    /// One step of unification, with one descent budget for each side;
    /// mirrors `unify_spec` exactly.
    fn unify_at(&mut self, a: Ty, b: Ty, afuel: usize, bfuel: usize) -> (r: Result<
        Vec<Vec<Ty>>,
        Error,
    >)
        requires
            old(self).wf(),
        ensures
            final(self).wf(),
            ({
                let (n2, r2) = unify_spec(old(self)@, a, b, afuel as nat, bfuel as nat);
                final(self)@ == n2 && unify_res_view(r) == r2
            }),
        decreases afuel + bfuel,
    {
        let ghost n0 = self@;
        let ra = match self.resolve(a) {
            Some(t) => t,
            None => {
                return Err(Error::CyclicType);
            },
        };
        let rb = match self.resolve(b) {
            Some(t) => t,
            None => {
                return Err(Error::CyclicType);
            },
        };
        if ra == rb {
            let r: Vec<Vec<Ty>> = Vec::new();
            proof {
                assert(queue_view(r) =~= Seq::<Seq<Ty>>::empty());
            }
            return Ok(r);
        }
        match (&self.nodes[ra.id], &self.nodes[rb.id]) {
            (_, TyInner::Undetermined) => {
                self.nodes[rb.id] = TyInner::SameAs(ra);
                proof {
                    lemma_bind_preserves_wf(n0, rb, ra);
                    assert(self@ =~= n0.update(rb.id as int, TyInner::SameAs(ra)));
                }
                let r: Vec<Vec<Ty>> = Vec::new();
                proof {
                    assert(queue_view(r) =~= Seq::<Seq<Ty>>::empty());
                }
                Ok(r)
            },
            (TyInner::Undetermined, _) => {
                self.nodes[ra.id] = TyInner::SameAs(rb);
                proof {
                    lemma_bind_preserves_wf(n0, ra, rb);
                    assert(self@ =~= n0.update(ra.id as int, TyInner::SameAs(rb)));
                }
                let r: Vec<Vec<Ty>> = Vec::new();
                proof {
                    assert(queue_view(r) =~= Seq::<Seq<Ty>>::empty());
                }
                Ok(r)
            },
            (TyInner::Int, TyInner::Int) => {
                let r: Vec<Vec<Ty>> = Vec::new();
                proof {
                    assert(queue_view(r) =~= Seq::<Seq<Ty>>::empty());
                }
                Ok(r)
            },
            (TyInner::Ref(x), TyInner::Ref(y)) => {
                let x = *x;
                let y = *y;
                if afuel == 0 || bfuel == 0 {
                    Err(Error::CyclicType)
                } else {
                    self.unify_at(x, y, afuel - 1, bfuel - 1)
                }
            },
            (_, TyInner::Func { args: _, ret }) => {
                let ret = *ret;
                if bfuel == 0 {
                    Err(Error::CyclicType)
                } else {
                    match self.unify_at(ra, ret, afuel, bfuel - 1) {
                        Ok(mut q) => {
                            let ghost q0 = queue_view(q);
                            if q.len() > 0 {
                                q.remove(0);
                                proof {
                                    assert(queue_view(q) =~= q0.drop_first());
                                }
                            }
                            Ok(q)
                        },
                        Err(e) => Err(e),
                    }
                }
            },
            (TyInner::Func { args, ret }, _) => {
                let ret = *ret;
                let args_c = copy_tys(args);
                if afuel == 0 {
                    Err(Error::CyclicType)
                } else {
                    match self.unify_at(ret, rb, afuel - 1, bfuel) {
                        Ok(mut q) => {
                            let ghost q0 = queue_view(q);
                            q.push(args_c);
                            proof {
                                assert(queue_view(q) =~= q0.push(args_c@));
                            }
                            Ok(q)
                        },
                        Err(e) => Err(e),
                    }
                }
            },
            _ => Err(Error::TypeMismatch),
        }
    }
}

impl Ty {
    /// Arity-reconciling unification of this cell (the actual type) against
    /// `other` (the expected type). On success the queue lists, in release
    /// order, the parameter lists of the curry layers by which the actual
    /// side outruns the expected one; placeholders met along the way are
    /// bound for good. Each side's descent gets one step per cell of the
    /// arena: in an acyclic arena a descent never revisits a cell, so the
    /// budget runs out, with `Error::CyclicType`, only where aliasing has
    /// made a cell contain itself.
    pub fn unify(self, other: Ty, arena: &mut TyArena) -> (r: Result<Vec<Vec<Ty>>, Error>)
        requires
            old(arena).wf(),
        ensures
            final(arena).wf(),
            final(arena)@.len() == old(arena)@.len(),
            ({
                let (n2, r2) = unify_spec(
                    old(arena)@,
                    self,
                    other,
                    old(arena)@.len() as nat,
                    old(arena)@.len() as nat,
                );
                final(arena)@ == n2 && unify_res_view(r) == r2
            }),
            forall|i: int|
                0 <= i < old(arena)@.len() ==> #[trigger] final(arena)@[i] == old(arena)@[i] || (old(
                    arena,
                )@[i] is Undetermined && final(arena)@[i] is SameAs),
    {
        proof {
            lemma_unify_spec_frame(
                arena@,
                self,
                other,
                arena@.len() as nat,
                arena@.len() as nat,
            );
        }
        let fuel = arena.len();
        arena.unify_at(self, other, fuel, fuel)
    }

    /// The parameter list and return type of this cell, which must resolve
    /// to a function shape.
    pub fn get_args_ret(self, arena: &TyArena) -> (r: Result<(Vec<Ty>, Ty), Error>)
        requires
            arena.wf(),
        ensures
            match (r, get_args_ret_spec(arena@, self)) {
                (Ok(p), Ok(sp)) => p.0@ == sp.0 && p.1 == sp.1,
                (Err(e1), Err(e2)) => e1 == e2,
                _ => false,
            },
    {
        match arena.resolve(self) {
            Some(r) => match arena.node(r) {
                TyInner::Func { args, ret } => Ok((copy_tys(args), *ret)),
                _ => Err(Error::TypeMismatch),
            },
            None => Err(Error::CyclicType),
        }
    }

    /// A fresh cell holding `inner`, appended to the arena.
    pub fn new(arena: &mut TyArena, inner: TyInner) -> (r: Ty)
        requires
            old(arena).wf(),
            node_wf(inner, old(arena)@.len()),
        ensures
            final(arena).wf(),
            final(arena)@ == old(arena)@.push(inner),
            r.id == old(arena)@.len(),
    {
        let ghost nodes0 = arena@;
        let r = Ty { id: arena.nodes.len() };
        arena.nodes.push(inner);
        proof {
            let nodes2 = arena@;
            assert(nodes2 == nodes0.push(inner));
            assert(nodes2.drop_last() =~= nodes0);
            assert(count_same(nodes2) == count_same(nodes0) + (if inner is SameAs {
                1nat
            } else {
                0nat
            }));
            assert forall|i: int| 0 <= i < nodes2.len() implies node_wf(
                #[trigger] nodes2[i],
                nodes2.len(),
            ) by {
                if i < nodes0.len() {
                    assert(node_wf(nodes0[i], nodes0.len()));
                    assert(nodes2[i] == nodes0[i]);
                }
            }
            assert forall|i: int| 0 <= i < nodes2.len() implies #[trigger] resolve_spec(
                nodes2,
                Ty { id: i as usize },
                count_same(nodes2) + 1,
            ) is Some by {
                if i < nodes0.len() {
                    lemma_resolve_push(nodes0, inner, Ty { id: i as usize }, count_same(nodes0) + 1);
                    lemma_resolve_mono(
                        nodes2,
                        Ty { id: i as usize },
                        count_same(nodes0) + 1,
                        count_same(nodes2) + 1,
                    );
                } else {
                    match inner {
                        TyInner::SameAs(u) => {
                            assert(resolve_spec(
                                nodes2,
                                Ty { id: i as usize },
                                count_same(nodes2) + 1,
                            ) == resolve_spec(nodes2, u, count_same(nodes2) as nat));
                            assert(count_same(nodes2) == count_same(nodes0) + 1);
                            lemma_resolve_push(nodes0, inner, u, count_same(nodes0) + 1);
                            assert(resolve_spec(
                                nodes0,
                                Ty { id: u.id as int as usize },
                                count_same(nodes0) + 1,
                            ) is Some);
                            assert(resolve_spec(nodes0, u, count_same(nodes0) + 1) is Some);
                        },
                        _ => {},
                    }
                }
            }
        }
        r
    }
}

} // verus!
