//! Tree nodes, environment, evaluation context, and the evaluator.
use vstd::prelude::*;
use crate::registry::{
    MethodId, is_registered, is_registered_exec, FLATMAP_METHOD_ID, INDEX_OF_METHOD_ID, INDICES_METHOD_ID, ZIP_METHOD_ID,
};
use crate::types::TypeCode;
use crate::value::{
    Value, ValueModel, bools_of, clone_value, lemma_values_model, lemma_values_model_push, try_extract_bools, value_eq,
    value_model, values_model,
};

verus! {

/// Cost charged on entry to every node.
pub const NODE_COST: u64 = 1;

/// Boolean disjunction over a collection-valued input.
#[derive(Debug)]
pub struct Or {
    pub input: Box<Expr>,
}

/// Boolean conjunction over a collection-valued input.
#[derive(Debug)]
pub struct And {
    pub input: Box<Expr>,
}

/// A node of the abstract syntax tree.
#[derive(Debug)]
pub enum Expr {
    Const(Value),
    ValUse(u32),
    Or(Or),
    And(And),
    If(Box<Expr>, Box<Expr>, Box<Expr>),
    /// Binds the value of the first child to the id while evaluating the second.
    Let(u32, Box<Expr>, Box<Expr>),
    /// Sum of two 32-bit integers, failing on overflow.
    Plus(Box<Expr>, Box<Expr>),
    /// Less-than on two 32-bit integers.
    Lt(Box<Expr>, Box<Expr>),
    CollLit(Vec<Expr>),
    TupleLit(Vec<Expr>),
    /// Builtin method call: type code, method id, receiver, arguments.
    MethodCall(TypeCode, MethodId, Box<Expr>, Vec<Expr>),
    /// A one-argument function: parameter id and body. It stands only as
    /// the argument of a higher-order method call; evaluated alone it is a
    /// type mismatch.
    Lambda(u32, Box<Expr>),
}

/// Typed evaluation errors.
#[derive(Debug, PartialEq, Eq, Clone, Copy, Structural)]
pub enum EvalError {
    TypeMismatch,
    UnboundVariable(u32),
    UnknownMethod { type_id: TypeCode, method_id: MethodId },
    CostLimitExceeded,
    ArithmeticOverflow,
}

/// Per-run mutable evaluation state.
#[derive(Debug, PartialEq, Eq, Clone, Copy, Structural)]
pub struct EvalContext {
    pub cost: u64,
    pub cost_limit: u64,
    /// Opaque reference to the box being validated.
    pub self_box: u64,
}

/// Variable bindings; the last binding of an id shadows earlier ones.
#[derive(Debug)]
pub struct Env {
    pub bindings: Vec<(u32, Value)>,
}

pub open spec fn env_model(b: Seq<(u32, Value)>) -> Seq<(u32, ValueModel)> {
    b.map_values(|p: (u32, Value)| (p.0, value_model(p.1)))
}

pub open spec fn env_lookup(env: Seq<(u32, ValueModel)>, id: u32) -> Option<ValueModel>
    decreases env.len(),
{
    if env.len() == 0 {
        Option::None
    } else if env.last().0 == id {
        Option::Some(env.last().1)
    } else {
        env_lookup(env.drop_last(), id)
    }
}

pub open spec fn result_model(r: Result<Value, EvalError>) -> Result<ValueModel, EvalError> {
    match r {
        Ok(v) => Ok(value_model(v)),
        Err(e) => Err(e),
    }
}

/// The counter after charging `amount`, or `None` where that crosses the ceiling.
pub open spec fn charge_spec(cost: u64, limit: u64, amount: u64) -> Option<u64> {
    if cost + amount <= limit {
        Option::Some((cost + amount) as u64)
    } else {
        Option::None
    }
}

pub open spec fn any_true(bs: Seq<bool>) -> bool {
    exists|i: int| 0 <= i < bs.len() && bs[i]
}

pub open spec fn all_true(bs: Seq<bool>) -> bool {
    forall|i: int| 0 <= i < bs.len() ==> bs[i]
}

/// Narrow, charge one unit per element, then reduce by disjunction or conjunction.
pub open spec fn reduce_spec(m: ValueModel, is_or: bool, cost: u64, limit: u64) -> (
    Result<ValueModel, EvalError>,
    u64,
) {
    match bools_of(m) {
        Option::None => (Err(EvalError::TypeMismatch), cost),
        Option::Some(bs) => match charge_spec(cost, limit, bs.len() as u64) {
            Option::None => (Err(EvalError::CostLimitExceeded), cost),
            Option::Some(c) => (
                Ok(ValueModel::Boolean(if is_or { any_true(bs) } else { all_true(bs) })),
                c,
            ),
        },
    }
}

/// Lowest index at or after `i` whose element equals `x`, or -1.
pub open spec fn first_index_from(items: Seq<ValueModel>, x: ValueModel, i: int) -> int
    decreases items.len() - i,
{
    if i < 0 || i >= items.len() {
        -1
    } else if items[i] == x {
        i
    } else {
        first_index_from(items, x, i + 1)
    }
}

pub open spec fn coll_len(m: ValueModel) -> nat {
    match m {
        ValueModel::Coll(items) => items.len(),
        _ => 0,
    }
}

/// Result of a registered collection method on evaluated receiver and arguments.
pub open spec fn apply_method_spec(
    method_id: MethodId,
    obj: ValueModel,
    args: Seq<ValueModel>,
) -> Result<ValueModel, EvalError> {
    match obj {
        ValueModel::Coll(items) => if method_id == INDICES_METHOD_ID && args.len() == 0 {
            if items.len() > i32::MAX {
                Err(EvalError::ArithmeticOverflow)
            } else {
                Ok(ValueModel::Coll(Seq::new(items.len(), |i: int| ValueModel::Int(i as i32))))
            }
        } else if method_id == ZIP_METHOD_ID && args.len() == 1 && args[0] is Coll {
            let other = args[0]->Coll_0;
            let n = if items.len() <= other.len() { items.len() } else { other.len() };
            Ok(ValueModel::Coll(Seq::new(n, |i: int| ValueModel::Tup(seq![items[i], other[i]]))))
        } else if method_id == INDEX_OF_METHOD_ID && args.len() == 2 && args[1] is Int {
            if items.len() > i32::MAX {
                Err(EvalError::ArithmeticOverflow)
            } else {
                let from = args[1]->Int_0;
                let start = if from < 0 { 0 } else { from as int };
                Ok(ValueModel::Int(first_index_from(items, args[0], start) as i32))
            }
        } else {
            Err(EvalError::TypeMismatch)
        },
        _ => Err(EvalError::TypeMismatch),
    }
}

/// What evaluating `e` in `env` returns, and the cost counter afterwards.
pub open spec fn eval_spec(e: Expr, env: Seq<(u32, ValueModel)>, cost: u64, limit: u64) -> (
    Result<ValueModel, EvalError>,
    u64,
)
    decreases e, 1int,
{
    match charge_spec(cost, limit, NODE_COST) {
        Option::None => (Err(EvalError::CostLimitExceeded), cost),
        Option::Some(c0) => match e {
            Expr::Const(v) => (Ok(value_model(v)), c0),
            Expr::ValUse(id) => match env_lookup(env, id) {
                Option::Some(m) => (Ok(m), c0),
                Option::None => (Err(EvalError::UnboundVariable(id)), c0),
            },
            Expr::Or(o) => {
                let r = eval_spec(*o.input, env, c0, limit);
                match r.0 {
                    Ok(m) => reduce_spec(m, true, r.1, limit),
                    Err(err) => (Err(err), r.1),
                }
            },
            Expr::And(a) => {
                let r = eval_spec(*a.input, env, c0, limit);
                match r.0 {
                    Ok(m) => reduce_spec(m, false, r.1, limit),
                    Err(err) => (Err(err), r.1),
                }
            },
            Expr::If(c, t, f) => {
                let r = eval_spec(*c, env, c0, limit);
                match r.0 {
                    Ok(ValueModel::Boolean(b)) => if b {
                        eval_spec(*t, env, r.1, limit)
                    } else {
                        eval_spec(*f, env, r.1, limit)
                    },
                    Ok(_) => (Err(EvalError::TypeMismatch), r.1),
                    Err(err) => (Err(err), r.1),
                }
            },
            Expr::Let(id, bound, body) => {
                let r = eval_spec(*bound, env, c0, limit);
                match r.0 {
                    Ok(m) => eval_spec(*body, env.push((id, m)), r.1, limit),
                    Err(err) => (Err(err), r.1),
                }
            },
            Expr::Plus(a, b) => {
                let ra = eval_spec(*a, env, c0, limit);
                match ra.0 {
                    Err(err) => (Err(err), ra.1),
                    Ok(ma) => {
                        let rb = eval_spec(*b, env, ra.1, limit);
                        match (rb.0, ma) {
                            (Err(err), _) => (Err(err), rb.1),
                            (Ok(ValueModel::Int(x)), ValueModel::Int(y)) => if i32::MIN <= y + x
                                <= i32::MAX {
                                (Ok(ValueModel::Int((y + x) as i32)), rb.1)
                            } else {
                                (Err(EvalError::ArithmeticOverflow), rb.1)
                            },
                            _ => (Err(EvalError::TypeMismatch), rb.1),
                        }
                    },
                }
            },
            Expr::Lt(a, b) => {
                let ra = eval_spec(*a, env, c0, limit);
                match ra.0 {
                    Err(err) => (Err(err), ra.1),
                    Ok(ma) => {
                        let rb = eval_spec(*b, env, ra.1, limit);
                        match (rb.0, ma) {
                            (Err(err), _) => (Err(err), rb.1),
                            (Ok(ValueModel::Int(x)), ValueModel::Int(y)) => (
                                Ok(ValueModel::Boolean(y < x)),
                                rb.1,
                            ),
                            _ => (Err(EvalError::TypeMismatch), rb.1),
                        }
                    },
                }
            },
            Expr::CollLit(items) => {
                let r = evals_spec(items@, env, c0, limit);
                match r.0 {
                    Ok(ms) => (Ok(ValueModel::Coll(ms)), r.1),
                    Err(err) => (Err(err), r.1),
                }
            },
            Expr::TupleLit(items) => {
                let r = evals_spec(items@, env, c0, limit);
                match r.0 {
                    Ok(ms) => (Ok(ValueModel::Tup(ms)), r.1),
                    Err(err) => (Err(err), r.1),
                }
            },
            Expr::MethodCall(type_id, method_id, obj, args) => if !is_registered(
                type_id,
                method_id,
            ) {
                (Err(EvalError::UnknownMethod { type_id, method_id }), c0)
            } else {
                let ro = eval_spec(*obj, env, c0, limit);
                match ro.0 {
                    Err(err) => (Err(err), ro.1),
                    Ok(mo) => if method_id == FLATMAP_METHOD_ID && args@.len() == 1
                        && args@[0] is Lambda {
                        match charge_spec(ro.1, limit, coll_len(mo) as u64) {
                            Option::None => (Err(EvalError::CostLimitExceeded), ro.1),
                            Option::Some(c) => match mo {
                                ValueModel::Coll(items) => {
                                    let rf = flat_map_spec(
                                        items,
                                        args@[0]->Lambda_0,
                                        *args@[0]->Lambda_1,
                                        env,
                                        c,
                                        limit,
                                    );
                                    match rf.0 {
                                        Ok(xs) => (Ok(ValueModel::Coll(xs)), rf.1),
                                        Err(err) => (Err(err), rf.1),
                                    }
                                },
                                _ => (Err(EvalError::TypeMismatch), c),
                            },
                        }
                    } else {
                        let ra = evals_spec(args@, env, ro.1, limit);
                        match ra.0 {
                            Err(err) => (Err(err), ra.1),
                            Ok(margs) => match charge_spec(ra.1, limit, coll_len(mo) as u64) {
                                Option::None => (Err(EvalError::CostLimitExceeded), ra.1),
                                Option::Some(c) => (apply_method_spec(method_id, mo, margs), c),
                            },
                        }
                    },
                }
            },
            Expr::Lambda(_, _) => (Err(EvalError::TypeMismatch), c0),
        },
    }
}

/// Evaluates `body` with `id` bound to each item in turn, left to right,
/// and concatenates the collections it yields.
pub open spec fn flat_map_spec(
    items: Seq<ValueModel>,
    id: u32,
    body: Expr,
    env: Seq<(u32, ValueModel)>,
    cost: u64,
    limit: u64,
) -> (Result<Seq<ValueModel>, EvalError>, u64)
    decreases body, items.len() + 2,
{
    if items.len() == 0 {
        (Ok(Seq::empty()), cost)
    } else {
        let r = flat_map_spec(items.drop_last(), id, body, env, cost, limit);
        match r.0 {
            Err(err) => (Err(err), r.1),
            Ok(acc) => {
                let rb = eval_spec(body, env.push((id, items.last())), r.1, limit);
                match rb.0 {
                    Ok(ValueModel::Coll(xs)) => (Ok(acc + xs), rb.1),
                    Ok(_) => (Err(EvalError::TypeMismatch), rb.1),
                    Err(err) => (Err(err), rb.1),
                }
            },
        }
    }
}

/// Evaluates a list of nodes from left to right, stopping at the first error.
pub open spec fn evals_spec(es: Seq<Expr>, env: Seq<(u32, ValueModel)>, cost: u64, limit: u64) -> (
    Result<Seq<ValueModel>, EvalError>,
    u64,
)
    decreases es, 0int,
{
    if es.len() == 0 {
        (Ok(Seq::empty()), cost)
    } else {
        let r = evals_spec(es.drop_last(), env, cost, limit);
        match r.0 {
            Err(err) => (Err(err), r.1),
            Ok(ms) => {
                let rl = eval_spec(es.last(), env, r.1, limit);
                match rl.0 {
                    Err(err) => (Err(err), rl.1),
                    Ok(m) => (Ok(ms.push(m)), rl.1),
                }
            },
        }
    }
}

impl EvalContext {
    /// A fresh context with a zero counter.
    pub fn new(cost_limit: u64, self_box: u64) -> (r: EvalContext)
        ensures
            r.cost == 0,
            r.cost_limit == cost_limit,
            r.self_box == self_box,
    {
        EvalContext { cost: 0, cost_limit, self_box }
    }

    /// Adds `amount` to the counter; where that would cross the ceiling,
    /// fails and leaves the context as it was.
    pub fn charge(&mut self, amount: u64) -> (r: Result<(), EvalError>)
        requires
            old(self).cost <= old(self).cost_limit,
        ensures
            charge_spec(old(self).cost, old(self).cost_limit, amount) is Some ==> r is Ok
                && final(self).cost == charge_spec(old(self).cost, old(self).cost_limit, amount)->0
                && final(self).cost_limit == old(self).cost_limit
                && final(self).self_box == old(self).self_box,
            charge_spec(old(self).cost, old(self).cost_limit, amount) is None ==> r == Err::<
                (),
                EvalError,
            >(EvalError::CostLimitExceeded) && *final(self) == *old(self),
            final(self).cost <= final(self).cost_limit,
    {
        if amount > self.cost_limit - self.cost {
            Err(EvalError::CostLimitExceeded)
        } else {
            self.cost = self.cost + amount;
            Ok(())
        }
    }
}

impl Env {
    /// An environment with no bindings.
    pub fn empty() -> (r: Env)
        ensures
            r.bindings@.len() == 0,
    {
        Env { bindings: Vec::new() }
    }

    /// The value most recently bound to `id`.
    pub fn get(&self, id: u32) -> (r: Option<Value>)
        ensures
            r is Some <==> env_lookup(env_model(self.bindings@), id) is Some,
            r is Some ==> r->0@ == env_lookup(env_model(self.bindings@), id)->0,
    {
        let ghost m = env_model(self.bindings@);
        let mut i: usize = self.bindings.len();
        assert(m.subrange(0, i as int) =~= m);
        while i > 0
            invariant
                i <= self.bindings@.len(),
                m == env_model(self.bindings@),
                env_lookup(m, id) == env_lookup(m.subrange(0, i as int), id),
            decreases i,
        {
            let ghost sub = m.subrange(0, i as int);
            assert(sub.drop_last() =~= m.subrange(0, i - 1));
            if self.bindings[i - 1].0 == id {
                return Some(clone_value(&self.bindings[i - 1].1));
            }
            i = i - 1;
        }
        assert(m.subrange(0, 0) =~= Seq::<(u32, ValueModel)>::empty());
        None
    }
}

/// Disjunction of a sequence of booleans; false when it is empty.
pub fn or_bools(bs: &Vec<bool>) -> (r: bool)
    ensures
        r == any_true(bs@),
{
    let mut i: usize = 0;
    while i < bs.len()
        invariant
            i <= bs@.len(),
            forall|j: int| 0 <= j < i ==> !bs@[j],
        decreases bs@.len() - i,
    {
        if bs[i] {
            return true;
        }
        i = i + 1;
    }
    false
}

/// Conjunction of a sequence of booleans; true when it is empty.
pub fn and_bools(bs: &Vec<bool>) -> (r: bool)
    ensures
        r == all_true(bs@),
{
    let mut i: usize = 0;
    while i < bs.len()
        invariant
            i <= bs@.len(),
            forall|j: int| 0 <= j < i ==> bs@[j],
        decreases bs@.len() - i,
    {
        if !bs[i] {
            return false;
        }
        i = i + 1;
    }
    true
}

/// The boolean-connective rule applied to an evaluated input.
pub fn reduce(v: &Value, is_or: bool, ctx: &mut EvalContext) -> (r: Result<Value, EvalError>)
    requires
        old(ctx).cost <= old(ctx).cost_limit,
    ensures
        (result_model(r), final(ctx).cost) == reduce_spec(
            v@,
            is_or,
            old(ctx).cost,
            old(ctx).cost_limit,
        ),
        final(ctx).cost_limit == old(ctx).cost_limit,
        final(ctx).self_box == old(ctx).self_box,
        final(ctx).cost <= final(ctx).cost_limit,
{
    let bs = match try_extract_bools(v) {
        Ok(bs) => bs,
        Err(_) => return Err(EvalError::TypeMismatch),
    };
    ctx.charge(bs.len() as u64)?;
    if is_or {
        Ok(Value::Boolean(or_bools(&bs)))
    } else {
        Ok(Value::Boolean(and_bools(&bs)))
    }
}

fn indices_exec(n: usize) -> (r: Vec<Value>)
    requires
        n <= i32::MAX,
    ensures
        values_model(r@) == Seq::new(n as nat, |i: int| ValueModel::Int(i as i32)),
{
    let mut out: Vec<Value> = Vec::new();
    let mut i: usize = 0;
    while i < n
        invariant
            i <= n <= i32::MAX,
            values_model(out@) == Seq::new(i as nat, |j: int| ValueModel::Int(j as i32)),
        decreases n - i,
    {
        let v = Value::Int(i as i32);
        proof {
            lemma_values_model_push(out@, v);
            assert(Seq::new(i as nat, |j: int| ValueModel::Int(j as i32)).push(value_model(v))
                =~= Seq::new((i + 1) as nat, |j: int| ValueModel::Int(j as i32)));
        }
        out.push(v);
        i = i + 1;
    }
    out
}

fn zip_exec(a: &Vec<Value>, b: &Vec<Value>) -> (r: Vec<Value>)
    ensures
        values_model(r@) == ({
            let am = values_model(a@);
            let bm = values_model(b@);
            let n = if am.len() <= bm.len() { am.len() } else { bm.len() };
            Seq::new(n, |i: int| ValueModel::Tup(seq![am[i], bm[i]]))
        }),
{
    let ghost am = values_model(a@);
    let ghost bm = values_model(b@);
    proof {
        lemma_values_model(a@);
        lemma_values_model(b@);
    }
    let n: usize = if a.len() <= b.len() { a.len() } else { b.len() };
    let mut out: Vec<Value> = Vec::new();
    let mut i: usize = 0;
    while i < n
        invariant
            i <= n,
            n <= a@.len(),
            n <= b@.len(),
            am == values_model(a@),
            bm == values_model(b@),
            am.len() == a@.len(),
            bm.len() == b@.len(),
            forall|j: int| 0 <= j < a@.len() ==> #[trigger] am[j] == value_model(a@[j]),
            forall|j: int| 0 <= j < b@.len() ==> #[trigger] bm[j] == value_model(b@[j]),
            values_model(out@) == Seq::new(i as nat, |j: int| ValueModel::Tup(seq![am[j], bm[j]])),
        decreases n - i,
    {
        let x = clone_value(&a[i]);
        let y = clone_value(&b[i]);
        let pair = vec![x, y];
        proof {
            lemma_values_model(pair@);
            assert(values_model(pair@) =~= seq![am[i as int], bm[i as int]]);
        }
        let v = Value::Tup(pair);
        proof {
            lemma_values_model_push(out@, v);
            assert(Seq::new(i as nat, |j: int| ValueModel::Tup(seq![am[j], bm[j]])).push(
                value_model(v),
            ) =~= Seq::new((i + 1) as nat, |j: int| ValueModel::Tup(seq![am[j], bm[j]])));
        }
        out.push(v);
        i = i + 1;
    }
    out
}

fn index_of_exec(items: &Vec<Value>, x: &Value, from: i32) -> (r: i32)
    requires
        items@.len() <= i32::MAX,
    ensures
        r as int == first_index_from(
            values_model(items@),
            x@,
            if from < 0 { 0 } else { from as int },
        ),
{
    let ghost m = values_model(items@);
    proof {
        lemma_values_model(items@);
    }
    let mut i: usize = if from < 0 { 0 } else { from as usize };
    let ghost start: int = i as int;
    while i < items.len()
        invariant
            start <= i,
            items@.len() <= i32::MAX,
            0 <= start,
            start == if from < 0 { 0 } else { from as int },
            m == values_model(items@),
            m.len() == items@.len(),
            forall|j: int| 0 <= j < items@.len() ==> #[trigger] m[j] == value_model(items@[j]),
            first_index_from(m, x@, start) == first_index_from(m, x@, i as int),
        decreases items@.len() - i,
    {
        assert(m[i as int] == value_model(items@[i as int]));
        if value_eq(&items[i], x) {
            return i as i32;
        }
        i = i + 1;
    }
    -1
}

/// A registered collection method applied to an evaluated receiver and arguments.
pub fn apply_method(method_id: MethodId, obj: &Value, args: &Vec<Value>) -> (r: Result<
    Value,
    EvalError,
>)
    ensures
        result_model(r) == apply_method_spec(method_id, obj@, values_model(args@)),
{
    proof {
        lemma_values_model(args@);
    }
    let ghost margs = values_model(args@);
    match obj {
        Value::Coll(items) => {
            assert(obj@ == ValueModel::Coll(values_model(items@)));
            proof {
                lemma_values_model(items@);
            }
            if method_id == INDICES_METHOD_ID && args.len() == 0 {
                if items.len() > i32::MAX as usize {
                    Err(EvalError::ArithmeticOverflow)
                } else {
                    Ok(Value::Coll(indices_exec(items.len())))
                }
            } else if method_id == ZIP_METHOD_ID && args.len() == 1 && matches!(&args[0], Value::Coll(_)) {
                match &args[0] {
                    Value::Coll(other) => Ok(Value::Coll(zip_exec(items, other))),
                    _ => Err(EvalError::TypeMismatch),
                }
            } else if method_id == INDEX_OF_METHOD_ID && args.len() == 2 && matches!(&args[1], Value::Int(_)) {
                if items.len() > i32::MAX as usize {
                    Err(EvalError::ArithmeticOverflow)
                } else {
                    match &args[1] {
                        Value::Int(from) => Ok(Value::Int(index_of_exec(items, &args[0], *from))),
                        _ => Err(EvalError::TypeMismatch),
                    }
                }
            } else {
                Err(EvalError::TypeMismatch)
            }
        },
        _ => Err(EvalError::TypeMismatch),
    }
}

proof fn lemma_evals_err_prefix(
    es: Seq<Expr>,
    k: int,
    env: Seq<(u32, ValueModel)>,
    cost: u64,
    limit: u64,
)
    requires
        0 <= k <= es.len(),
        evals_spec(es.subrange(0, k), env, cost, limit).0 is Err,
    ensures
        evals_spec(es, env, cost, limit) == evals_spec(es.subrange(0, k), env, cost, limit),
    decreases es.len(),
{
    if k == es.len() {
        assert(es.subrange(0, k) =~= es);
    } else {
        assert(es.drop_last().subrange(0, k) =~= es.subrange(0, k));
        lemma_evals_err_prefix(es.drop_last(), k, env, cost, limit);
    }
}

/// Evaluates the nodes from left to right, stopping at the first error.
pub fn eval_list(es: &Vec<Expr>, env: &mut Env, ctx: &mut EvalContext) -> (r: Result<
    Vec<Value>,
    EvalError,
>)
    requires
        old(ctx).cost <= old(ctx).cost_limit,
    ensures
        ({
            let s = evals_spec(
                es@,
                env_model(old(env).bindings@),
                old(ctx).cost,
                old(ctx).cost_limit,
            );
            &&& final(ctx).cost == s.1
            &&& r is Ok <==> s.0 is Ok
            &&& r is Ok ==> values_model(r->Ok_0@) == s.0->Ok_0
            &&& r is Err ==> r->Err_0 == s.0->Err_0
        }),
        final(ctx).cost_limit == old(ctx).cost_limit,
        final(ctx).self_box == old(ctx).self_box,
        final(ctx).cost <= final(ctx).cost_limit,
        final(env).bindings@ == old(env).bindings@,
    decreases es@, 1int,
{
    let ghost envm = env_model(env.bindings@);
    let ghost cost0 = ctx.cost;
    let ghost limit = ctx.cost_limit;
    let ghost bind0 = env.bindings@;
    let ghost box0 = ctx.self_box;
    let mut out: Vec<Value> = Vec::new();
    let mut failed: Option<EvalError> = None;
    let mut i: usize = 0;
    assert(es@.subrange(0, 0) =~= Seq::<Expr>::empty());
    while i < es.len() && failed.is_none()
        invariant
            i <= es@.len(),
            env.bindings@ == bind0,
            envm == env_model(bind0),
            ctx.cost_limit == limit,
            ctx.self_box == box0,
            ctx.cost <= ctx.cost_limit,
            failed is None ==> evals_spec(es@.subrange(0, i as int), envm, cost0, limit) == (
                Ok::<Seq<ValueModel>, EvalError>(values_model(out@)),
                ctx.cost,
            ),
            failed is Some ==> evals_spec(es@, envm, cost0, limit) == (
                Err::<Seq<ValueModel>, EvalError>(failed->0),
                ctx.cost,
            ),
        decreases es@.len() - i,
    {
        proof {
            assert(decreases_to!(es@ => es@[i as int]));
            assert(es@.subrange(0, i + 1).drop_last() =~= es@.subrange(0, i as int));
            assert(es@.subrange(0, i + 1).last() == es@[i as int]);
        }
        match es[i].eval(env, ctx) {
            Ok(v) => {
                proof {
                    lemma_values_model_push(out@, v);
                }
                out.push(v);
            },
            Err(err) => {
                proof {
                    assert(evals_spec(es@.subrange(0, i + 1), envm, cost0, limit) == (
                        Err::<Seq<ValueModel>, EvalError>(err),
                        ctx.cost,
                    ));
                    lemma_evals_err_prefix(es@, i + 1, envm, cost0, limit);
                }
                failed = Some(err);
            },
        }
        i = i + 1;
    }
    match failed {
        Some(err) => Err(err),
        None => {
            assert(es@.subrange(0, i as int) =~= es@);
            Ok(out)
        },
    }
}

proof fn lemma_flat_map_err_prefix(
    items: Seq<ValueModel>,
    k: int,
    id: u32,
    body: Expr,
    env: Seq<(u32, ValueModel)>,
    cost: u64,
    limit: u64,
)
    requires
        0 <= k <= items.len(),
        flat_map_spec(items.subrange(0, k), id, body, env, cost, limit).0 is Err,
    ensures
        flat_map_spec(items, id, body, env, cost, limit) == flat_map_spec(
            items.subrange(0, k),
            id,
            body,
            env,
            cost,
            limit,
        ),
    decreases items.len(),
{
    if k == items.len() {
        assert(items.subrange(0, k) =~= items);
    } else {
        assert(items.drop_last().subrange(0, k) =~= items.subrange(0, k));
        lemma_flat_map_err_prefix(items.drop_last(), k, id, body, env, cost, limit);
    }
}

proof fn lemma_values_model_concat(a: Seq<Value>, b: Seq<Value>)
    ensures
        values_model(a + b) == values_model(a) + values_model(b),
{
    lemma_values_model(a);
    lemma_values_model(b);
    lemma_values_model(a + b);
    assert forall|i: int| 0 <= i < (a + b).len() implies #[trigger] values_model(a + b)[i] == (
    values_model(a) + values_model(b))[i] by {
        if i < a.len() {
            assert((a + b)[i] == a[i]);
        } else {
            assert((a + b)[i] == b[i - a.len()]);
        }
    }
    assert(values_model(a + b) =~= values_model(a) + values_model(b));
}

/// Evaluates `body` with `id` bound to each item in turn and concatenates
/// the collections it yields, stopping at the first error.
pub fn flat_map_exec(
    items: &Vec<Value>,
    id: u32,
    body: &Expr,
    env: &mut Env,
    ctx: &mut EvalContext,
) -> (r: Result<Vec<Value>, EvalError>)
    requires
        old(ctx).cost <= old(ctx).cost_limit,
    ensures
        ({
            let s = flat_map_spec(
                values_model(items@),
                id,
                *body,
                env_model(old(env).bindings@),
                old(ctx).cost,
                old(ctx).cost_limit,
            );
            &&& final(ctx).cost == s.1
            &&& r is Ok <==> s.0 is Ok
            &&& r is Ok ==> values_model(r->Ok_0@) == s.0->Ok_0
            &&& r is Err ==> r->Err_0 == s.0->Err_0
        }),
        final(ctx).cost_limit == old(ctx).cost_limit,
        final(ctx).self_box == old(ctx).self_box,
        final(ctx).cost <= final(ctx).cost_limit,
        final(env).bindings@ == old(env).bindings@,
    decreases body, 2int,
{
    let ghost envm = env_model(env.bindings@);
    let ghost cost0 = ctx.cost;
    let ghost limit = ctx.cost_limit;
    let ghost bind0 = env.bindings@;
    let ghost box0 = ctx.self_box;
    let ghost im = values_model(items@);
    proof {
        lemma_values_model(items@);
        assert(im.subrange(0, 0) =~= Seq::<ValueModel>::empty());
    }
    let mut out: Vec<Value> = Vec::new();
    let mut failed: Option<EvalError> = None;
    let mut i: usize = 0;
    while i < items.len() && failed.is_none()
        invariant
            i <= items@.len(),
            im == values_model(items@),
            im.len() == items@.len(),
            forall|j: int| 0 <= j < items@.len() ==> #[trigger] im[j] == value_model(items@[j]),
            env.bindings@ == bind0,
            envm == env_model(bind0),
            ctx.cost_limit == limit,
            ctx.self_box == box0,
            ctx.cost <= ctx.cost_limit,
            failed is None ==> flat_map_spec(im.subrange(0, i as int), id, *body, envm, cost0, limit)
                == (Ok::<Seq<ValueModel>, EvalError>(values_model(out@)), ctx.cost),
            failed is Some ==> flat_map_spec(im, id, *body, envm, cost0, limit) == (
                Err::<Seq<ValueModel>, EvalError>(failed->0),
                ctx.cost,
            ),
        decreases items@.len() - i,
    {
        proof {
            assert(im.subrange(0, i + 1).drop_last() =~= im.subrange(0, i as int));
            assert(im.subrange(0, i + 1).last() == im[i as int]);
        }
        let item = clone_value(&items[i]);
        let ghost vm = item@;
        env.bindings.push((id, item));
        proof {
            assert(env_model(env.bindings@) =~= envm.push((id, vm)));
        }
        let r = body.eval(env, ctx);
        env.bindings.pop();
        proof {
            assert(env.bindings@ =~= bind0);
        }
        match r {
            Ok(Value::Coll(mut xs)) => {
                proof {
                    lemma_values_model_concat(out@, xs@);
                }
                out.append(&mut xs);
            },
            Ok(_) => {
                proof {
                    lemma_flat_map_err_prefix(im, i + 1, id, *body, envm, cost0, limit);
                }
                failed = Some(EvalError::TypeMismatch);
            },
            Err(err) => {
                proof {
                    lemma_flat_map_err_prefix(im, i + 1, id, *body, envm, cost0, limit);
                }
                failed = Some(err);
            },
        }
        i = i + 1;
    }
    match failed {
        Some(err) => Err(err),
        None => {
            assert(im.subrange(0, i as int) =~= im);
            Ok(out)
        },
    }
}

impl Or {
    /// Evaluates the input, narrows it to booleans, and reduces by disjunction.
    pub fn eval(&self, env: &mut Env, ctx: &mut EvalContext) -> (r: Result<Value, EvalError>)
        requires
            old(ctx).cost <= old(ctx).cost_limit,
        ensures
            ({
                let s = eval_spec(*self.input, env_model(old(env).bindings@), old(ctx).cost, old(ctx).cost_limit);
                let t = match s.0 {
                    Ok(m) => reduce_spec(m, true, s.1, old(ctx).cost_limit),
                    Err(err) => (Err(err), s.1),
                };
                (result_model(r), final(ctx).cost) == t
            }),
            final(ctx).cost_limit == old(ctx).cost_limit,
            final(ctx).self_box == old(ctx).self_box,
            final(ctx).cost <= final(ctx).cost_limit,
            final(env).bindings@ == old(env).bindings@,
        decreases self, 1int,
    {
        let input_v = match self.input.eval(env, ctx) {
            Ok(x) => x,
            Err(e) => return Err(e),
        };
        reduce(&input_v, true, ctx)
    }
}

impl And {
    /// Evaluates the input, narrows it to booleans, and reduces by conjunction.
    pub fn eval(&self, env: &mut Env, ctx: &mut EvalContext) -> (r: Result<Value, EvalError>)
        requires
            old(ctx).cost <= old(ctx).cost_limit,
        ensures
            ({
                let s = eval_spec(*self.input, env_model(old(env).bindings@), old(ctx).cost, old(ctx).cost_limit);
                let t = match s.0 {
                    Ok(m) => reduce_spec(m, false, s.1, old(ctx).cost_limit),
                    Err(err) => (Err(err), s.1),
                };
                (result_model(r), final(ctx).cost) == t
            }),
            final(ctx).cost_limit == old(ctx).cost_limit,
            final(ctx).self_box == old(ctx).self_box,
            final(ctx).cost <= final(ctx).cost_limit,
            final(env).bindings@ == old(env).bindings@,
        decreases self, 1int,
    {
        let input_v = match self.input.eval(env, ctx) {
            Ok(x) => x,
            Err(e) => return Err(e),
        };
        reduce(&input_v, false, ctx)
    }
}

impl Expr {
    /// Evaluates the node in `env`, charging `ctx`; the result and the final
    /// counter are those of `eval_spec`.
    pub fn eval(&self, env: &mut Env, ctx: &mut EvalContext) -> (r: Result<Value, EvalError>)
        requires
            old(ctx).cost <= old(ctx).cost_limit,
        ensures
            (result_model(r), final(ctx).cost) == eval_spec(
                *self,
                env_model(old(env).bindings@),
                old(ctx).cost,
                old(ctx).cost_limit,
            ),
            final(ctx).cost_limit == old(ctx).cost_limit,
            final(ctx).self_box == old(ctx).self_box,
            final(ctx).cost <= final(ctx).cost_limit,
            final(env).bindings@ == old(env).bindings@,
        decreases self, 1int,
    {
        if let Err(e) = ctx.charge(NODE_COST) {
            return Err(e);
        }
        match self {
            Expr::Const(v) => Ok(clone_value(v)),
            Expr::ValUse(id) => match env.get(*id) {
                Some(v) => Ok(v),
                None => Err(EvalError::UnboundVariable(*id)),
            },
            Expr::Or(o) => o.eval(env, ctx),
            Expr::And(a) => a.eval(env, ctx),
            Expr::If(c, t, f) => {
                let cv = match c.eval(env, ctx) {
            Ok(x) => x,
            Err(e) => return Err(e),
        };
                match cv {
                    Value::Boolean(b) => if b {
                        t.eval(env, ctx)
                    } else {
                        f.eval(env, ctx)
                    },
                    _ => Err(EvalError::TypeMismatch),
                }
            },
            Expr::Let(id, bound, body) => {
                let v = match bound.eval(env, ctx) {
            Ok(x) => x,
            Err(e) => return Err(e),
        };
                let ghost b0 = env.bindings@;
                let ghost vm = v@;
                env.bindings.push((*id, v));
                proof {
                    assert(env_model(env.bindings@) =~= env_model(b0).push((*id, vm)));
                }
                let r = body.eval(env, ctx);
                env.bindings.pop();
                proof {
                    assert(env.bindings@ =~= b0);
                }
                r
            },
            Expr::Plus(a, b) => {
                let va = match a.eval(env, ctx) {
            Ok(x) => x,
            Err(e) => return Err(e),
        };
                let vb = match b.eval(env, ctx) {
            Ok(x) => x,
            Err(e) => return Err(e),
        };
                match (vb, va) {
                    (Value::Int(x), Value::Int(y)) => match y.checked_add(x) {
                        Some(z) => Ok(Value::Int(z)),
                        None => Err(EvalError::ArithmeticOverflow),
                    },
                    _ => Err(EvalError::TypeMismatch),
                }
            },
            Expr::Lt(a, b) => {
                let va = match a.eval(env, ctx) {
            Ok(x) => x,
            Err(e) => return Err(e),
        };
                let vb = match b.eval(env, ctx) {
            Ok(x) => x,
            Err(e) => return Err(e),
        };
                match (vb, va) {
                    (Value::Int(x), Value::Int(y)) => Ok(Value::Boolean(y < x)),
                    _ => Err(EvalError::TypeMismatch),
                }
            },
            Expr::CollLit(items) => {
                let vs = match eval_list(items, env, ctx) {
            Ok(x) => x,
            Err(e) => return Err(e),
        };
                Ok(Value::Coll(vs))
            },
            Expr::TupleLit(items) => {
                let vs = match eval_list(items, env, ctx) {
            Ok(x) => x,
            Err(e) => return Err(e),
        };
                Ok(Value::Tup(vs))
            },
            Expr::MethodCall(type_id, method_id, obj, args) => {
                if !is_registered_exec(*type_id, *method_id) {
                    return Err(EvalError::UnknownMethod { type_id: *type_id, method_id: *method_id });
                }
                let vo = match obj.eval(env, ctx) {
            Ok(x) => x,
            Err(e) => return Err(e),
        };
                if *method_id == FLATMAP_METHOD_ID && args.len() == 1 && matches!(&args[0], Expr::Lambda(..)) {
                    let n: u64 = match &vo {
                        Value::Coll(items) => {
                            proof {
                                lemma_values_model(items@);
                            }
                            items.len() as u64
                        },
                        _ => 0,
                    };
                    if let Err(e) = ctx.charge(n) {
                        return Err(e);
                    }
                    return match (&vo, &args[0]) {
                        (Value::Coll(items), Expr::Lambda(id, body)) => {
                            proof {
                                assert(decreases_to!(args@ => args@[0]));
                            }
                            match flat_map_exec(items, *id, body, env, ctx) {
                                Ok(xs) => Ok(Value::Coll(xs)),
                                Err(e) => Err(e),
                            }
                        },
                        _ => Err(EvalError::TypeMismatch),
                    };
                }
                let vargs = match eval_list(args, env, ctx) {
            Ok(x) => x,
            Err(e) => return Err(e),
        };
                let n: u64 = match &vo {
                    Value::Coll(items) => {
                        proof {
                            lemma_values_model(items@);
                        }
                        items.len() as u64
                    },
                    _ => 0,
                };
                if let Err(e) = ctx.charge(n) {
                    return Err(e);
                }
                apply_method(*method_id, &vo, &vargs)
            },
            Expr::Lambda(_, _) => Err(EvalError::TypeMismatch),
        }
    }
}

/// OR over a collection of booleans is true exactly when some element is
/// true, and false on an empty collection; AND is true exactly when every
/// element is true, and true on an empty collection.
pub proof fn lemma_or_and_semantics(
    v: Value,
    bs: Seq<bool>,
    env: Seq<(u32, ValueModel)>,
    cost: u64,
    limit: u64,
)
    requires
        bools_of(value_model(v)) == Option::Some(bs),
        cost + 2 + bs.len() <= limit,
    ensures
        eval_spec(Expr::Or(Or { input: Box::new(Expr::Const(v)) }), env, cost, limit).0 == Ok::<
            ValueModel,
            EvalError,
        >(ValueModel::Boolean(exists|i: int| 0 <= i < bs.len() && bs[i])),
        eval_spec(Expr::And(And { input: Box::new(Expr::Const(v)) }), env, cost, limit).0 == Ok::<
            ValueModel,
            EvalError,
        >(ValueModel::Boolean(forall|i: int| 0 <= i < bs.len() ==> bs[i])),
        bs.len() == 0 ==> eval_spec(
            Expr::Or(Or { input: Box::new(Expr::Const(v)) }),
            env,
            cost,
            limit,
        ).0 == Ok::<ValueModel, EvalError>(ValueModel::Boolean(false)),
        bs.len() == 0 ==> eval_spec(
            Expr::And(And { input: Box::new(Expr::Const(v)) }),
            env,
            cost,
            limit,
        ).0 == Ok::<ValueModel, EvalError>(ValueModel::Boolean(true)),
{
    reveal_with_fuel(eval_spec, 2);
}

/// Evaluation never lowers the cost counter and never leaves it above the ceiling.
pub proof fn lemma_cost_within_ceiling(
    e: Expr,
    env: Seq<(u32, ValueModel)>,
    cost: u64,
    limit: u64,
)
    requires
        cost <= limit,
    ensures
        cost <= eval_spec(e, env, cost, limit).1 <= limit,
    decreases e, 1int,
{
    match charge_spec(cost, limit, NODE_COST) {
        Option::None => {},
        Option::Some(c0) => match e {
            Expr::Or(o) => {
                lemma_cost_within_ceiling(*o.input, env, c0, limit);
            },
            Expr::And(a) => {
                lemma_cost_within_ceiling(*a.input, env, c0, limit);
            },
            Expr::If(c, t, f) => {
                lemma_cost_within_ceiling(*c, env, c0, limit);
                let r = eval_spec(*c, env, c0, limit);
                lemma_cost_within_ceiling(*t, env, r.1, limit);
                lemma_cost_within_ceiling(*f, env, r.1, limit);
            },
            Expr::Let(id, bound, body) => {
                lemma_cost_within_ceiling(*bound, env, c0, limit);
                let r = eval_spec(*bound, env, c0, limit);
                if r.0 is Ok {
                    lemma_cost_within_ceiling(*body, env.push((id, r.0->Ok_0)), r.1, limit);
                }
            },
            Expr::Plus(a, b) => {
                lemma_cost_within_ceiling(*a, env, c0, limit);
                let r = eval_spec(*a, env, c0, limit);
                lemma_cost_within_ceiling(*b, env, r.1, limit);
            },
            Expr::Lt(a, b) => {
                lemma_cost_within_ceiling(*a, env, c0, limit);
                let r = eval_spec(*a, env, c0, limit);
                lemma_cost_within_ceiling(*b, env, r.1, limit);
            },
            Expr::CollLit(items) => {
                lemma_list_cost_within_ceiling(items@, env, c0, limit);
            },
            Expr::TupleLit(items) => {
                lemma_list_cost_within_ceiling(items@, env, c0, limit);
            },
            Expr::MethodCall(type_id, method_id, obj, args) => {
                lemma_cost_within_ceiling(*obj, env, c0, limit);
                let r = eval_spec(*obj, env, c0, limit);
                lemma_list_cost_within_ceiling(args@, env, r.1, limit);
                if r.0 is Ok && args@.len() == 1 && args@[0] is Lambda {
                    let mo = r.0->Ok_0;
                    if let Option::Some(c) = charge_spec(r.1, limit, coll_len(mo) as u64) {
                        if mo is Coll {
                            assert(decreases_to!(args@ => args@[0]));
                            lemma_flat_map_cost(
                                mo->Coll_0,
                                args@[0]->Lambda_0,
                                *args@[0]->Lambda_1,
                                env,
                                c,
                                limit,
                            );
                        }
                    }
                }
            },
            _ => {},
        },
    }
}

/// Evaluating a list never lowers the cost counter and never leaves it above the ceiling.
pub proof fn lemma_list_cost_within_ceiling(
    es: Seq<Expr>,
    env: Seq<(u32, ValueModel)>,
    cost: u64,
    limit: u64,
)
    requires
        cost <= limit,
    ensures
        cost <= evals_spec(es, env, cost, limit).1 <= limit,
    decreases es, 0int,
{
    if es.len() > 0 {
        lemma_list_cost_within_ceiling(es.drop_last(), env, cost, limit);
        let r = evals_spec(es.drop_last(), env, cost, limit);
        lemma_cost_within_ceiling(es.last(), env, r.1, limit);
    }
}

/// Applying a function body across a collection never lowers the cost
/// counter and never leaves it above the ceiling.
pub proof fn lemma_flat_map_cost(
    items: Seq<ValueModel>,
    id: u32,
    body: Expr,
    env: Seq<(u32, ValueModel)>,
    cost: u64,
    limit: u64,
)
    requires
        cost <= limit,
    ensures
        cost <= flat_map_spec(items, id, body, env, cost, limit).1 <= limit,
    decreases body, items.len() + 2,
{
    if items.len() > 0 {
        lemma_flat_map_cost(items.drop_last(), id, body, env, cost, limit);
        let r = flat_map_spec(items.drop_last(), id, body, env, cost, limit);
        lemma_cost_within_ceiling(body, env.push((id, items.last())), r.1, limit);
    }
}

/// A node whose entry charge would cross the ceiling fails with the
/// cost-limit error and leaves the counter where it was.
pub proof fn lemma_cost_abort(e: Expr, env: Seq<(u32, ValueModel)>, cost: u64, limit: u64)
    requires
        cost + NODE_COST > limit,
    ensures
        eval_spec(e, env, cost, limit) == (
            Err::<ValueModel, EvalError>(EvalError::CostLimitExceeded),
            cost,
        ),
{
}

/// A method call on a pair that the registry does not hold fails with the
/// unknown-method error, whatever its receiver and arguments.
pub proof fn lemma_unknown_method(
    type_id: TypeCode,
    method_id: MethodId,
    obj: Box<Expr>,
    args: Vec<Expr>,
    env: Seq<(u32, ValueModel)>,
    cost: u64,
    limit: u64,
)
    requires
        !is_registered(type_id, method_id),
        cost + NODE_COST <= limit,
    ensures
        eval_spec(Expr::MethodCall(type_id, method_id, obj, args), env, cost, limit).0 == Err::<
            ValueModel,
            EvalError,
        >(EvalError::UnknownMethod { type_id, method_id }),
{
}

} // verus!
