use crate::error::Error;
use vstd::prelude::*;

verus! {

broadcast use vstd::std_specs::vec::axiom_vec_index_decreases;

/// A runtime value: an integer, a handle to a storage cell, one of the
/// primitive closures, or a synthesized wrapper built by the evaluator.
#[derive(Debug)]
pub enum Value {
    /// A 32-bit integer.
    Int(i32),
    /// A handle to the storage cell of variable slot `0`, `1`, ...
    Var(usize),
    /// The identity primitive: returns its first argument.
    Id,
    Add,
    Sub,
    Mul,
    Div,
    Rem,
    /// Stores its second argument into the cell named by its first.
    Assign,
    /// Reads the cell named by its argument.
    Deref,
    /// Rebuilds its arguments into an `App` wrapper: the first argument
    /// becomes the head, the rest become the argument producers.
    Curry,
    /// A synthesized wrapper: calling it with arguments `a` calls each
    /// producer on `a` and hands the results to the head.
    App(Box<Value>, Vec<Value>),
    /// A wrapper that ignores its arguments and returns the held value.
    Const(Box<Value>),
}

/// The mathematical shape of a runtime value: `Value` with the vector of
/// argument producers abstracted to a sequence.
pub enum ValModel {
    Int(i32),
    Var(usize),
    Id,
    Add,
    Sub,
    Mul,
    Div,
    Rem,
    Assign,
    Deref,
    Curry,
    App(Box<ValModel>, Seq<ValModel>),
    Const(Box<ValModel>),
}

/// The shapes of every value of a sequence, elementwise.
pub open spec fn vals_view(s: Seq<Value>) -> Seq<ValModel>
    decreases s,
{
    if s.len() == 0 {
        Seq::empty()
    } else {
        seq![value_view(s[0])] + vals_view(s.drop_first())
    }
}

/// The shape of one value.
pub open spec fn value_view(v: Value) -> ValModel
    decreases v,
{
    match v {
        Value::Int(n) => ValModel::Int(n),
        Value::Var(slot) => ValModel::Var(slot),
        Value::Id => ValModel::Id,
        Value::Add => ValModel::Add,
        Value::Sub => ValModel::Sub,
        Value::Mul => ValModel::Mul,
        Value::Div => ValModel::Div,
        Value::Rem => ValModel::Rem,
        Value::Assign => ValModel::Assign,
        Value::Deref => ValModel::Deref,
        Value::Curry => ValModel::Curry,
        Value::App(f, cs) => ValModel::App(Box::new(value_view(*f)), vals_view(cs@)),
        Value::Const(inner) => ValModel::Const(Box::new(value_view(*inner))),
    }
}

impl View for Value {
    type V = ValModel;

    open spec fn view(&self) -> ValModel {
        value_view(*self)
    }
}

/// `vals_view` is the elementwise image of `value_view`.
pub proof fn lemma_vals_view(s: Seq<Value>)
    ensures
        vals_view(s).len() == s.len(),
        forall|i: int| 0 <= i < s.len() ==> vals_view(s)[i] == value_view(#[trigger] s[i]),
    decreases s,
{
    if s.len() > 0 {
        lemma_vals_view(s.drop_first());
        assert forall|i: int| 0 <= i < s.len() implies vals_view(s)[i] == value_view(#[trigger] s[i]) by {
            if i > 0 {
                assert(s.drop_first()[i - 1] == s[i]);
                assert(vals_view(s)[i] == vals_view(s.drop_first())[i - 1]);
            }
        }
    }
}

impl Value {
    /// A structural copy: the copy has the same shape as the original.
    pub fn duplicate(&self) -> (r: Value)
        ensures
            r@ == self@,
        decreases self,
    {
        match self {
            Value::Int(n) => Value::Int(*n),
            Value::Var(slot) => Value::Var(*slot),
            Value::Id => Value::Id,
            Value::Add => Value::Add,
            Value::Sub => Value::Sub,
            Value::Mul => Value::Mul,
            Value::Div => Value::Div,
            Value::Rem => Value::Rem,
            Value::Assign => Value::Assign,
            Value::Deref => Value::Deref,
            Value::Curry => Value::Curry,
            Value::App(f, cs) => {
                let f2 = Box::new((**f).duplicate());
                let mut cs2: Vec<Value> = Vec::new();
                let mut i: usize = 0;
                proof {
                    lemma_vals_view(cs@);
                }
                while i < cs.len()
                    invariant
                        i <= cs.len(),
                        cs2@.len() == i,
                        forall|j: int| 0 <= j < i ==> value_view(#[trigger] cs2@[j]) == value_view(cs@[j]),
                        forall|j: int| 0 <= j < cs@.len() ==> decreases_to!(*self => #[trigger] cs@[j]),
                    decreases cs.len() - i,
                {
                    cs2.push(cs[i].duplicate());
                    i = i + 1;
                }
                proof {
                    lemma_vals_view(cs@);
                    lemma_vals_view(cs2@);
                    assert forall|j: int| 0 <= j < cs@.len() implies vals_view(cs2@)[j] == vals_view(
                        cs@,
                    )[j] by {
                        assert(value_view(cs2@[j]) == value_view(cs@[j]));
                    }
                    assert(vals_view(cs2@) =~= vals_view(cs@));
                }
                Value::App(f2, cs2)
            }
            Value::Const(inner) => Value::Const(Box::new((**inner).duplicate())),
        }
    }
}

/// The persistent storage cells, one per variable slot. A cell is empty
/// until the first assignment to it.
#[derive(Debug)]
pub struct Store {
    cells: Vec<Option<Value>>,
}

impl View for Store {
    type V = Seq<Option<ValModel>>;

    closed spec fn view(&self) -> Seq<Option<ValModel>> {
        self.cells@.map_values(
            |c: Option<Value>|
                match c {
                    Some(v) => Some(value_view(v)),
                    None => None,
                },
        )
    }
}

impl Store {
    /// A store of `n` cells, all still unassigned.
    pub fn new(n: usize) -> (r: Store)
        ensures
            r@ =~= Seq::new(n as nat, |i: int| None::<ValModel>),
    {
        let mut cells: Vec<Option<Value>> = Vec::new();
        let mut i: usize = 0;
        while i < n
            invariant
                i <= n,
                cells@.len() == i,
                forall|j: int| 0 <= j < i ==> cells@[j] is None,
            decreases n - i,
        {
            cells.push(None);
            i = i + 1;
        }
        Store { cells }
    }

    pub fn len(&self) -> (r: usize)
        ensures
            r == self@.len(),
    {
        self.cells.len()
    }

    /// A copy of the value held in cell `slot`, if one was ever assigned.
    pub fn get(&self, slot: usize) -> (r: Result<Value, Error>)
        requires
            slot < self@.len(),
        ensures
            match r {
                Ok(v) => self@[slot as int] == Some(v@),
                Err(e) => self@[slot as int] is None && e == Error::UninitializedRead,
            },
    {
        match &self.cells[slot] {
            Some(v) => Ok(v.duplicate()),
            None => Err(Error::UninitializedRead),
        }
    }

    /// Overwrites cell `slot` with `v`.
    pub fn set(&mut self, slot: usize, v: Value)
        requires
            slot < old(self)@.len(),
        ensures
            final(self)@ =~= old(self)@.update(slot as int, Some(v@)),
    {
        self.cells[slot] = Some(v);
    }
}

/// The result of dispatching one primitive or wrapper on a list of argument
/// shapes, together with the store it leaves behind.
pub open spec fn call_spec(
    f: ValModel,
    args: Seq<ValModel>,
    store: Seq<Option<ValModel>>,
) -> (Seq<Option<ValModel>>, Result<ValModel, Error>)
    decreases f,
{
    match f {
        ValModel::Id => if args.len() >= 1 {
            (store, Ok(args[0]))
        } else {
            (store, Err(Error::ArityMismatch))
        },
        ValModel::Add => if args.len() < 2 {
            (store, Err(Error::ArityMismatch))
        } else {
            match (args[0], args[1]) {
                (ValModel::Int(x), ValModel::Int(y)) => (
                    store,
                    match x.checked_add(y) {
                        Some(z) => Ok(ValModel::Int(z)),
                        None => Err(Error::ArithmeticFault),
                    },
                ),
                _ => (store, Err(Error::TypeMismatch)),
            }
        },
        ValModel::Sub => if args.len() < 2 {
            (store, Err(Error::ArityMismatch))
        } else {
            match (args[0], args[1]) {
                (ValModel::Int(x), ValModel::Int(y)) => (
                    store,
                    match x.checked_sub(y) {
                        Some(z) => Ok(ValModel::Int(z)),
                        None => Err(Error::ArithmeticFault),
                    },
                ),
                _ => (store, Err(Error::TypeMismatch)),
            }
        },
        ValModel::Mul => if args.len() < 2 {
            (store, Err(Error::ArityMismatch))
        } else {
            match (args[0], args[1]) {
                (ValModel::Int(x), ValModel::Int(y)) => (
                    store,
                    match x.checked_mul(y) {
                        Some(z) => Ok(ValModel::Int(z)),
                        None => Err(Error::ArithmeticFault),
                    },
                ),
                _ => (store, Err(Error::TypeMismatch)),
            }
        },
        ValModel::Div => if args.len() < 2 {
            (store, Err(Error::ArityMismatch))
        } else {
            match (args[0], args[1]) {
                (ValModel::Int(x), ValModel::Int(y)) => (
                    store,
                    match x.checked_div(y) {
                        Some(z) => Ok(ValModel::Int(z)),
                        None => Err(Error::ArithmeticFault),
                    },
                ),
                _ => (store, Err(Error::TypeMismatch)),
            }
        },
        ValModel::Rem => if args.len() < 2 {
            (store, Err(Error::ArityMismatch))
        } else {
            match (args[0], args[1]) {
                (ValModel::Int(x), ValModel::Int(y)) => (
                    store,
                    match x.checked_rem(y) {
                        Some(z) => Ok(ValModel::Int(z)),
                        None => Err(Error::ArithmeticFault),
                    },
                ),
                _ => (store, Err(Error::TypeMismatch)),
            }
        },
        ValModel::Assign => if args.len() < 2 {
            (store, Err(Error::ArityMismatch))
        } else {
            match args[0] {
                ValModel::Var(slot) => if slot < store.len() {
                    (store.update(slot as int, Some(args[1])), Ok(ValModel::Var(slot)))
                } else {
                    (store, Err(Error::TypeMismatch))
                },
                _ => (store, Err(Error::TypeMismatch)),
            }
        },
        ValModel::Deref => if args.len() < 1 {
            (store, Err(Error::ArityMismatch))
        } else {
            match args[0] {
                ValModel::Var(slot) => if slot < store.len() {
                    match store[slot as int] {
                        Some(v) => (store, Ok(v)),
                        None => (store, Err(Error::UninitializedRead)),
                    }
                } else {
                    (store, Err(Error::TypeMismatch))
                },
                _ => (store, Err(Error::TypeMismatch)),
            }
        },
        ValModel::Curry => if args.len() < 1 {
            (store, Err(Error::ArityMismatch))
        } else {
            (store, Ok(ValModel::App(Box::new(args[0]), args.drop_first())))
        },
        ValModel::App(head, producers) => {
            let (store2, converted) = call_list_spec(producers, args, store);
            match converted {
                Ok(vs) => call_spec(*head, vs, store2),
                Err(e) => (store2, Err(e)),
            }
        },
        ValModel::Const(v) => (store, Ok(*v)),
        _ => (store, Err(Error::TypeMismatch)),
    }
}

/// Dispatches every producer of a list on the same argument list, left to
/// right, threading the store through.
pub open spec fn call_list_spec(
    producers: Seq<ValModel>,
    args: Seq<ValModel>,
    store: Seq<Option<ValModel>>,
) -> (Seq<Option<ValModel>>, Result<Seq<ValModel>, Error>)
    decreases producers,
{
    if producers.len() == 0 {
        (store, Ok(Seq::empty()))
    } else {
        let (store2, first) = call_spec(producers[0], args, store);
        match first {
            Ok(v) => {
                let (store3, rest) = call_list_spec(producers.drop_first(), args, store2);
                match rest {
                    Ok(vs) => (store3, Ok(seq![v] + vs)),
                    Err(e) => (store3, Err(e)),
                }
            },
            Err(e) => (store2, Err(e)),
        }
    }
}

/// Dispatch writes cells but never resizes the store.
pub proof fn lemma_call_spec_store_len(
    f: ValModel,
    args: Seq<ValModel>,
    store: Seq<Option<ValModel>>,
)
    ensures
        call_spec(f, args, store).0.len() == store.len(),
    decreases f,
{
    match f {
        ValModel::App(head, producers) => {
            lemma_call_list_spec_store_len(producers, args, store);
            let (store2, converted) = call_list_spec(producers, args, store);
            if converted is Ok {
                lemma_call_spec_store_len(*head, converted.unwrap(), store2);
            }
        },
        _ => {},
    }
}

pub proof fn lemma_call_list_spec_store_len(
    producers: Seq<ValModel>,
    args: Seq<ValModel>,
    store: Seq<Option<ValModel>>,
)
    ensures
        call_list_spec(producers, args, store).0.len() == store.len(),
    decreases producers,
{
    if producers.len() > 0 {
        lemma_call_spec_store_len(producers[0], args, store);
        let (store2, first) = call_spec(producers[0], args, store);
        if first is Ok {
            lemma_call_list_spec_store_len(producers.drop_first(), args, store2);
        }
    }
}

/// A failed dispatch reports an arity mismatch, a shape mismatch, an
/// arithmetic fault or an uninitialized read, nothing else.
pub proof fn lemma_call_spec_err_kind(f: ValModel, args: Seq<ValModel>, store: Seq<Option<ValModel>>)
    ensures
        ({
            let (s2, r) = call_spec(f, args, store);
            r is Err ==> r->Err_0 == Error::ArityMismatch || r->Err_0 == Error::TypeMismatch
                || r->Err_0 == Error::ArithmeticFault || r->Err_0 == Error::UninitializedRead
        }),
    decreases f,
{
    match f {
        ValModel::App(head, producers) => {
            lemma_call_list_spec_err_kind(producers, args, store);
            let (store2, converted) = call_list_spec(producers, args, store);
            if converted is Ok {
                lemma_call_spec_err_kind(*head, converted.unwrap(), store2);
            }
        },
        _ => {},
    }
}

pub proof fn lemma_call_list_spec_err_kind(
    producers: Seq<ValModel>,
    args: Seq<ValModel>,
    store: Seq<Option<ValModel>>,
)
    ensures
        ({
            let (s2, r) = call_list_spec(producers, args, store);
            r is Err ==> r->Err_0 == Error::ArityMismatch || r->Err_0 == Error::TypeMismatch
                || r->Err_0 == Error::ArithmeticFault || r->Err_0 == Error::UninitializedRead
        }),
    decreases producers,
{
    if producers.len() > 0 {
        lemma_call_spec_err_kind(producers[0], args, store);
        let (store2, first) = call_spec(producers[0], args, store);
        if first is Ok {
            lemma_call_list_spec_err_kind(producers.drop_first(), args, store2);
        }
    }
}

/// Assignment writes exactly the named cell and hands the cell back;
/// every other cell keeps its contents.
pub proof fn lemma_assign_writes_cell(slot: usize, v: ValModel, store: Seq<Option<ValModel>>)
    requires
        slot < store.len(),
    ensures
        call_spec(ValModel::Assign, seq![ValModel::Var(slot), v], store) == (
            store.update(slot as int, Some(v)),
            Ok::<ValModel, Error>(ValModel::Var(slot)),
        ),
{
    assert(seq![ValModel::Var(slot), v][0] == ValModel::Var(slot));
    assert(seq![ValModel::Var(slot), v][1] == v);
}

/// Dereferencing an assigned cell returns a copy of what it holds and
/// leaves the store as it was; dereferencing a cell never assigned is
/// exactly the uninitialized-read error, and also leaves the store as it
/// was.
pub proof fn lemma_deref_reads_cell(slot: usize, store: Seq<Option<ValModel>>)
    requires
        slot < store.len(),
    ensures
        call_spec(ValModel::Deref, seq![ValModel::Var(slot)], store) == (
            store,
            match store[slot as int] {
                Some(v) => Ok::<ValModel, Error>(v),
                None => Err::<ValModel, Error>(Error::UninitializedRead),
            },
        ),
{
    assert(seq![ValModel::Var(slot)][0] == ValModel::Var(slot));
}

/// The assignment/dereference round trip: writing `v` into a cell and
/// then reading that cell back yields `v` and no further store change.
pub proof fn lemma_assign_deref_round_trip(slot: usize, v: ValModel, store: Seq<Option<ValModel>>)
    requires
        slot < store.len(),
    ensures
        ({
            let (s2, w) = call_spec(ValModel::Assign, seq![ValModel::Var(slot), v], store);
            &&& w == Ok::<ValModel, Error>(ValModel::Var(slot))
            &&& call_spec(ValModel::Deref, seq![ValModel::Var(slot)], s2) == (
                s2,
                Ok::<ValModel, Error>(v),
            )
        }),
{
    lemma_assign_writes_cell(slot, v, store);
    let (s2, w) = call_spec(ValModel::Assign, seq![ValModel::Var(slot), v], store);
    lemma_deref_reads_cell(slot, s2);
    assert(s2[slot as int] == Some(v));
}

/// The shape of a dispatch result.
pub open spec fn val_res_view(r: Result<Value, Error>) -> Result<ValModel, Error> {
    match r {
        Ok(v) => Ok(v@),
        Err(e) => Err(e),
    }
}

impl Value {
    /// Dispatches this value as a function on `args`, reading and writing
    /// storage cells through `store`: the dispatch semantics of the
    /// evaluator's runtime.
    pub fn call(&self, args: &Vec<Value>, store: &mut Store) -> (r: Result<Value, Error>)
        ensures
            ({
                let (s2, r2) = call_spec(self@, vals_view(args@), old(store)@);
                final(store)@ == s2 && val_res_view(r) == r2
            }),
        decreases self,
    {
        proof {
            lemma_vals_view(args@);
        }
        match self {
            Value::Id => {
                if args.len() >= 1 {
                    Ok(args[0].duplicate())
                } else {
                    Err(Error::ArityMismatch)
                }
            },
            Value::Add => {
                if args.len() < 2 {
                    return Err(Error::ArityMismatch);
                }
                match (&args[0], &args[1]) {
                    (Value::Int(x), Value::Int(y)) => match x.checked_add(*y) {
                        Some(z) => Ok(Value::Int(z)),
                        None => Err(Error::ArithmeticFault),
                    },
                    _ => Err(Error::TypeMismatch),
                }
            },
            Value::Sub => {
                if args.len() < 2 {
                    return Err(Error::ArityMismatch);
                }
                match (&args[0], &args[1]) {
                    (Value::Int(x), Value::Int(y)) => match x.checked_sub(*y) {
                        Some(z) => Ok(Value::Int(z)),
                        None => Err(Error::ArithmeticFault),
                    },
                    _ => Err(Error::TypeMismatch),
                }
            },
            Value::Mul => {
                if args.len() < 2 {
                    return Err(Error::ArityMismatch);
                }
                match (&args[0], &args[1]) {
                    (Value::Int(x), Value::Int(y)) => match x.checked_mul(*y) {
                        Some(z) => Ok(Value::Int(z)),
                        None => Err(Error::ArithmeticFault),
                    },
                    _ => Err(Error::TypeMismatch),
                }
            },
            Value::Div => {
                if args.len() < 2 {
                    return Err(Error::ArityMismatch);
                }
                match (&args[0], &args[1]) {
                    (Value::Int(x), Value::Int(y)) => match x.checked_div(*y) {
                        Some(z) => Ok(Value::Int(z)),
                        None => Err(Error::ArithmeticFault),
                    },
                    _ => Err(Error::TypeMismatch),
                }
            },
            Value::Rem => {
                if args.len() < 2 {
                    return Err(Error::ArityMismatch);
                }
                match (&args[0], &args[1]) {
                    (Value::Int(x), Value::Int(y)) => match x.checked_rem(*y) {
                        Some(z) => Ok(Value::Int(z)),
                        None => Err(Error::ArithmeticFault),
                    },
                    _ => Err(Error::TypeMismatch),
                }
            },
            Value::Assign => {
                if args.len() < 2 {
                    return Err(Error::ArityMismatch);
                }
                match &args[0] {
                    Value::Var(slot) => {
                        let slot = *slot;
                        if slot < store.len() {
                            store.set(slot, args[1].duplicate());
                            Ok(Value::Var(slot))
                        } else {
                            Err(Error::TypeMismatch)
                        }
                    },
                    _ => Err(Error::TypeMismatch),
                }
            },
            Value::Deref => {
                if args.len() < 1 {
                    return Err(Error::ArityMismatch);
                }
                match &args[0] {
                    Value::Var(slot) => {
                        if *slot < store.len() {
                            store.get(*slot)
                        } else {
                            Err(Error::TypeMismatch)
                        }
                    },
                    _ => Err(Error::TypeMismatch),
                }
            },
            Value::Curry => {
                if args.len() < 1 {
                    return Err(Error::ArityMismatch);
                }
                let head = Box::new(args[0].duplicate());
                let mut rest: Vec<Value> = Vec::new();
                let mut i: usize = 1;
                while i < args.len()
                    invariant
                        1 <= i <= args@.len(),
                        rest@.len() == i - 1,
                        forall|j: int|
                            0 <= j < i - 1 ==> value_view(#[trigger] rest@[j]) == value_view(
                                args@[j + 1],
                            ),
                    decreases args@.len() - i,
                {
                    rest.push(args[i].duplicate());
                    i = i + 1;
                }
                proof {
                    lemma_vals_view(args@);
                    lemma_vals_view(rest@);
                    assert forall|j: int| 0 <= j < rest@.len() implies vals_view(rest@)[j]
                        == vals_view(args@).drop_first()[j] by {
                        assert(vals_view(rest@)[j] == value_view(rest@[j]));
                        assert(value_view(rest@[j]) == value_view(args@[j + 1]));
                        assert(vals_view(args@)[j + 1] == value_view(args@[j + 1]));
                        assert(vals_view(args@).drop_first()[j] == vals_view(args@)[j + 1]);
                    }
                    assert(vals_view(rest@) =~= vals_view(args@).drop_first());
                }
                Ok(Value::App(head, rest))
            },
            Value::App(head, producers) => {
                let ghost a = vals_view(args@);
                let ghost p = vals_view(producers@);
                let ghost s0 = store@;
                let mut converted: Vec<Value> = Vec::new();
                let mut i: usize = 0;
                proof {
                    lemma_vals_view(producers@);
                    assert(p.skip(0) =~= p);
                    assert(call_list_spec(p, a, s0).1 is Ok ==> vals_view(converted@)
                        + call_list_spec(p, a, s0).1.unwrap() =~= call_list_spec(p, a, s0).1.unwrap());
                }
                while i < producers.len()
                    invariant
                        i <= producers@.len(),
                        converted@.len() == i,
                        a == vals_view(args@),
                        p == vals_view(producers@),
                        vals_view(producers@).len() == producers@.len(),
                        forall|j: int|
                            0 <= j < producers@.len() ==> vals_view(producers@)[j] == value_view(
                                #[trigger] producers@[j],
                            ),
                        forall|j: int|
                            0 <= j < producers@.len() ==> decreases_to!(*self => #[trigger] producers@[j]),
                        decreases_to!(*self => **head),
                        self@ == ValModel::App(Box::new(value_view(**head)), vals_view(producers@)),
                        s0 == old(store)@,
                        ({
                            let full = call_list_spec(p, a, s0);
                            let (sr, rr) = call_list_spec(p.skip(i as int), a, store@);
                            match rr {
                                Ok(vs) => full == (sr, Ok::<Seq<ValModel>, Error>(vals_view(converted@) + vs)),
                                Err(e) => full == (sr, Err::<Seq<ValModel>, Error>(e)),
                            }
                        }),
                    decreases producers@.len() - i,
                {
                    proof {
                        assert(p.skip(i as int)[0] == p[i as int]);
                        assert(p.skip(i as int).drop_first() =~= p.skip(i + 1));
                    }
                    let ghost s_before = store@;
                    let ghost oldc = converted@;
                    match producers[i].call(args, store) {
                        Ok(v) => {
                            let ghost vv = value_view(v);
                            converted.push(v);
                            proof {
                                lemma_vals_view(oldc);
                                lemma_vals_view(converted@);
                                assert(converted@.drop_last() =~= oldc);
                                assert(vals_view(converted@) =~= vals_view(oldc) + seq![vv]) by {
                                    assert forall|j: int| 0 <= j < converted@.len() implies vals_view(
                                        converted@,
                                    )[j] == (vals_view(oldc) + seq![vv])[j] by {
                                        if j < oldc.len() {
                                            assert(converted@[j] == oldc[j]);
                                        } else {
                                            assert(converted@[j] == v);
                                        }
                                    }
                                }
                                let (sr, rr) = call_list_spec(p.skip(i + 1), a, store@);
                                if rr is Ok {
                                    assert(vals_view(oldc) + (seq![vv] + rr.unwrap()) =~= (vals_view(
                                        oldc,
                                    ) + seq![vv]) + rr.unwrap());
                                }
                            }
                        },
                        Err(e) => {
                            proof {
                                assert(self@ == ValModel::App(
                                    Box::new(value_view(**head)),
                                    vals_view(producers@),
                                ));
                            }
                            return Err(e);
                        },
                    }
                    i = i + 1;
                }
                proof {
                    assert(p.skip(producers@.len() as int) =~= Seq::empty());
                    let full = call_list_spec(p, a, s0);
                    if full.1 is Ok {
                        assert(vals_view(converted@) + Seq::<ValModel>::empty() =~= vals_view(
                            converted@,
                        ));
                    }
                    assert(self@ == ValModel::App(
                        Box::new(value_view(**head)),
                        vals_view(producers@),
                    ));
                }
                (**head).call(&converted, store)
            },
            Value::Const(inner) => Ok((**inner).duplicate()),
            Value::Int(_) => Err(Error::TypeMismatch),
            Value::Var(_) => Err(Error::TypeMismatch),
        }
    }
}

} // verus!
