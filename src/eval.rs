use vstd::prelude::*;
use crate::builtins::{apply_primitive, prim_apply, result_view};
use crate::env::{assign_in, capture_in, define_in, entry_put, release_in, lookup_from, Entries, Environment, Frame, Store, StoreModel};
use crate::error::{Fault, SchemeError};
use crate::print::{container_depth, render, show};
use crate::text::{count_text, digits, text};
use crate::value::{views, Datum, Primitive, Value};

verus! {

/// What one evaluator step leaves for the trampoline.
pub enum EvalResult {
    /// The expression's final value.
    Value(Value),
    /// An expression in tail position, to evaluate next in `env`.
    Continue { expr: Value, env: usize },
    /// A call to make: a procedure, its evaluated arguments, and the scope of
    /// the call site.
    TailCall { procedure: Value, args: Vec<Value>, env: usize },
}

/// The model of an `EvalResult`.
pub enum StepModel {
    Done(Datum),
    Continue(Datum, nat),
    Call(Datum, Seq<Datum>, nat),
}

impl View for EvalResult {
    type V = StepModel;

    open spec fn view(&self) -> StepModel {
        match self {
            EvalResult::Value(v) => StepModel::Done(v@),
            EvalResult::Continue { expr, env } => StepModel::Continue(expr@, *env as nat),
            EvalResult::TailCall { procedure, args, env } => StepModel::Call(procedure@, views(args@), *env as nat),
        }
    }
}

/// Where an evaluation ends: the store, the value or fault, and the fuel left.
pub struct Outcome<T> {
    pub store: StoreModel,
    pub result: Result<T, Fault>,
    pub fuel: nat,
}

/// The fault of an evaluation that has used up its fuel.
pub open spec fn exhausted_fault() -> Fault {
    Fault::Runtime("Evaluation step limit reached"@)
}

/// `f`, but never above `limit`.
pub open spec fn cap(f: nat, limit: nat) -> nat {
    if f <= limit {
        f
    } else {
        limit
    }
}

/// `b` with the first `n` of `params` bound to the matching `args`, in order,
/// so that a repeated name keeps the later argument.
pub open spec fn bind_params(b: Entries, params: Seq<Seq<char>>, args: Seq<Datum>, n: nat) -> Entries
    decreases n,
{
    if n == 0 || n > params.len() || n > args.len() {
        b
    } else {
        entry_put(bind_params(b, params, args, (n - 1) as nat), params[n - 1], args[n - 1])
    }
}

/// Whether every element of `ps` is a symbol.
pub open spec fn all_symbols(ps: Seq<Datum>) -> bool {
    forall|i: int| 0 <= i < ps.len() ==> (#[trigger] ps[i]) is Symbol
}

/// The names of a sequence of symbols.
pub open spec fn symbol_names(ps: Seq<Datum>) -> Seq<Seq<char>> {
    Seq::new(ps.len(), |i: int| ps[i]->Symbol_0)
}

/// The body of a closure: its one expression, or its expressions in a `begin`.
pub open spec fn lambda_body(body: Seq<Datum>) -> Datum {
    if body.len() == 1 {
        body[0]
    } else {
        Datum::List(seq![Datum::Symbol("begin"@)] + body)
    }
}

/// Evaluates `e` in scope `env` with at most `fuel` trampoline iterations in
/// all: a step, then a tail expression or closure body in place, until a value,
/// a primitive's result or a fault ends it.
pub open spec fn run(st: StoreModel, e: Datum, env: nat, fuel: nat) -> Outcome<Datum>
    decreases fuel, 0nat, 1nat,
{
    run_in(st, e, env, fuel, false)
}

/// `eval` on `args` in the scope of the call: its one argument is evaluated
/// once more.
pub open spec fn eval_prim(st: StoreModel, args: Seq<Datum>, env: nat, fuel: nat) -> Outcome<Datum>
    decreases fuel, 0nat, 2nat,
{
    if args.len() != 1 {
        Outcome { store: st, result: Err(Fault::Arity { expected: "1"@, got: args.len() }), fuel }
    } else {
        run(st, args[0], env, fuel)
    }
}

/// `run` from scope `env`, which this evaluation made itself when `owned`:
/// each time the evaluation leaves such a scope (for a closure body's new
/// scope, or at its end), the scope is released.
pub open spec fn run_in(st: StoreModel, e: Datum, env: nat, fuel: nat, owned: bool) -> Outcome<Datum>
    decreases fuel, 0nat, 0nat,
{
    if fuel == 0 {
        Outcome { store: release_in(st, env, owned), result: Err(exhausted_fault()), fuel: 0 }
    } else {
        let o = step(st, e, env, (fuel - 1) as nat);
        let f = cap(o.fuel, (fuel - 1) as nat);
        match o.result {
            Err(x) => Outcome { store: release_in(o.store, env, owned), result: Err(x), fuel: f },
            Ok(StepModel::Done(d)) => Outcome { store: release_in(o.store, env, owned), result: Ok(d), fuel: f },
            Ok(StepModel::Continue(e2, env2)) => run_in(o.store, e2, env2, f, owned),
            Ok(StepModel::Call(p, args, env2)) => match p {
                Datum::Lambda { params, body, env: cenv } => if params.len() != args.len() {
                    Outcome {
                        store: release_in(o.store, env, owned),
                        result: Err(Fault::Arity { expected: digits(params.len()), got: args.len() }),
                        fuel: f,
                    }
                } else {
                    let frame = Frame {
                        bindings: bind_params(Seq::empty(), params, args, params.len()),
                        parent: Some(cenv),
                        captured: false,
                    };
                    let s1 = release_in(o.store, env, owned);
                    let st2 = StoreModel { scopes: s1.scopes.push(frame), ..s1 };
                    run_in(st2, *body, s1.scopes.len(), f, true)
                },
                Datum::Builtin(Primitive::Eval) => {
                    let r = eval_prim(o.store, args, env2, f);
                    Outcome { store: release_in(r.store, env, owned), result: r.result, fuel: r.fuel }
                },
                Datum::Builtin(prim) => {
                    let (st3, r) = prim_apply(o.store, prim, args);
                    Outcome { store: release_in(st3, env, owned), result: r, fuel: f }
                },
                _ => Outcome {
                    store: release_in(o.store, env, owned),
                    result: Err(Fault::NotProcedure(render(o.store, p, container_depth(o.store)))),
                    fuel: f,
                },
            },
        }
    }
}

/// Evaluates `xs` left to right, each in full; the first fault ends it.
pub open spec fn eval_list(st: StoreModel, xs: Seq<Datum>, env: nat, fuel: nat) -> Outcome<Seq<Datum>>
    decreases fuel, 1nat, xs.len(),
{
    if xs.len() == 0 {
        Outcome { store: st, result: Ok(Seq::empty()), fuel }
    } else {
        let o = eval_list(st, xs.drop_last(), env, fuel);
        match o.result {
            Err(x) => Outcome { store: o.store, result: Err(x), fuel: o.fuel },
            Ok(vs) => {
                let r = run(o.store, xs.last(), env, cap(o.fuel, fuel));
                match r.result {
                    Ok(v) => Outcome { store: r.store, result: Ok(vs.push(v)), fuel: r.fuel },
                    Err(x) => Outcome { store: r.store, result: Err(x), fuel: r.fuel },
                }
            },
        }
    }
}

/// One evaluator step on `e` in scope `env`: a value, an expression in tail
/// position, or a call for the trampoline to make. Sub-expressions outside
/// tail position are evaluated here in full.
pub open spec fn step(st: StoreModel, e: Datum, env: nat, fuel: nat) -> Outcome<StepModel>
    decreases fuel, 4nat, 0nat,
{
    match e {
        Datum::Symbol(s) => if s.len() == 0 {
            Outcome { store: st, result: Ok(StepModel::Done(Datum::Nil)), fuel }
        } else {
            match lookup_from(st, env, s) {
                Some(d) => Outcome { store: st, result: Ok(StepModel::Done(d)), fuel },
                None => Outcome { store: st, result: Err(Fault::UndefinedVariable(s)), fuel },
            }
        },
        Datum::List(l) => if l.len() == 0 {
            Outcome { store: st, result: Ok(StepModel::Done(Datum::Nil)), fuel }
        } else {
            step_list(st, l, env, fuel)
        },
        _ => Outcome { store: st, result: Ok(StepModel::Done(e)), fuel },
    }
}

pub open spec fn fault<T>(st: StoreModel, x: Fault, fuel: nat) -> Outcome<T> {
    Outcome { store: st, result: Err(x), fuel }
}

pub open spec fn done(st: StoreModel, d: Datum, fuel: nat) -> Outcome<StepModel> {
    Outcome { store: st, result: Ok(StepModel::Done(d)), fuel }
}

/// A step on a non-empty list: a special form, or an application.
pub open spec fn step_list(st: StoreModel, l: Seq<Datum>, env: nat, fuel: nat) -> Outcome<StepModel>
    recommends
        l.len() > 0,
    decreases fuel, 3nat, 0nat,
{
    let args = l.subrange(1, l.len() as int);
    let op = l[0];
    if op == Datum::Symbol("quote"@) {
        if args.len() != 1 {
            fault(st, Fault::Arity { expected: "1"@, got: args.len() }, fuel)
        } else {
            done(st, args[0], fuel)
        }
    } else if op == Datum::Symbol("if"@) {
        if_spec(st, args, env, fuel)
    } else if op == Datum::Symbol("define"@) {
        binding_spec(st, args, env, fuel, true)
    } else if op == Datum::Symbol("set!"@) {
        binding_spec(st, args, env, fuel, false)
    } else if op == Datum::Symbol("lambda"@) {
        lambda_spec(st, args, env, fuel)
    } else if op == Datum::Symbol("begin"@) {
        begin_spec(st, args, env, fuel)
    } else {
        apply_spec(st, op, args, env, fuel)
    }
}

/// `if`: the test is evaluated here; the chosen branch is left in tail position.
pub open spec fn if_spec(st: StoreModel, args: Seq<Datum>, env: nat, fuel: nat) -> Outcome<StepModel>
    decreases fuel, 2nat, 0nat,
{
    if !(args.len() == 2 || args.len() == 3) {
        fault(st, Fault::Arity { expected: "2 or 3"@, got: args.len() }, fuel)
    } else {
        let c = run(st, args[0], env, fuel);
        let f = cap(c.fuel, fuel);
        match c.result {
            Err(x) => fault(c.store, x, f),
            Ok(Datum::Bool(false)) => if args.len() == 3 {
                Outcome { store: c.store, result: Ok(StepModel::Continue(args[2], env)), fuel: f }
            } else {
                done(c.store, Datum::Nil, f)
            },
            Ok(_) => Outcome { store: c.store, result: Ok(StepModel::Continue(args[1], env)), fuel: f },
        }
    }
}

/// `define` (binding in scope `env` itself) and `set!` (assigning along its chain).
pub open spec fn binding_spec(st: StoreModel, args: Seq<Datum>, env: nat, fuel: nat, is_define: bool) -> Outcome<
    StepModel,
>
    decreases fuel, 2nat, 0nat,
{
    if args.len() != 2 {
        fault(st, Fault::Arity { expected: "2"@, got: args.len() }, fuel)
    } else {
        match args[0] {
            Datum::Symbol(name) => {
                let v = run(st, args[1], env, fuel);
                let f = cap(v.fuel, fuel);
                match v.result {
                    Err(x) => fault(v.store, x, f),
                    Ok(d) => if is_define {
                        done(define_in(v.store, env, name, d), Datum::Nil, f)
                    } else {
                        match assign_in(v.store, env, name, d) {
                            Some(st2) => done(st2, Datum::Nil, f),
                            None => fault(v.store, Fault::UndefinedVariable(name), f),
                        }
                    },
                }
            },
            d => fault(st, Fault::Type { expected: "symbol"@, found: crate::value::type_label(d) }, fuel),
        }
    }
}

/// `lambda`: a closure over scope `env`.
pub open spec fn lambda_spec(st: StoreModel, args: Seq<Datum>, env: nat, fuel: nat) -> Outcome<StepModel> {
    if args.len() < 1 {
        fault(st, Fault::Eval("Invalid lambda syntax: requires parameters and body"@), fuel)
    } else {
        match args[0] {
            Datum::List(ps) => if all_symbols(ps) {
                done(
                    capture_in(st, env),
                    Datum::Lambda {
                        params: symbol_names(ps),
                        body: Box::new(lambda_body(args.subrange(1, args.len() as int))),
                        env,
                    },
                    fuel,
                )
            } else {
                fault(st, Fault::Eval("Lambda parameters must be symbols"@), fuel)
            },
            _ => fault(st, Fault::Eval("Lambda parameters must be a list of symbols"@), fuel),
        }
    }
}

/// `begin`: all but the last operand are evaluated here; the last is left in
/// tail position.
pub open spec fn begin_spec(st: StoreModel, args: Seq<Datum>, env: nat, fuel: nat) -> Outcome<StepModel>
    decreases fuel, 2nat, 0nat,
{
    if args.len() == 0 {
        done(st, Datum::Nil, fuel)
    } else {
        let o = eval_list(st, args.drop_last(), env, fuel);
        let f = cap(o.fuel, fuel);
        match o.result {
            Err(x) => fault(o.store, x, f),
            Ok(_) => Outcome { store: o.store, result: Ok(StepModel::Continue(args.last(), env)), fuel: f },
        }
    }
}

/// Whether a datum can be called.
pub open spec fn is_procedure(d: Datum) -> bool {
    d is Lambda || d is Builtin
}

/// An application: the operator is evaluated here and must be a procedure;
/// only then are the operands evaluated, left to right. The call is left to
/// the trampoline.
pub open spec fn apply_spec(st: StoreModel, op: Datum, args: Seq<Datum>, env: nat, fuel: nat) -> Outcome<StepModel>
    decreases fuel, 2nat, 0nat,
{
    let p = run(st, op, env, fuel);
    let f = cap(p.fuel, fuel);
    match p.result {
        Err(x) => fault(p.store, x, f),
        Ok(pv) => if !is_procedure(pv) {
            fault(p.store, Fault::NotProcedure(render(p.store, pv, container_depth(p.store))), f)
        } else {
            let a = eval_list(p.store, args, env, f);
            let g = cap(a.fuel, fuel);
            match a.result {
                Err(x) => fault(a.store, x, g),
                Ok(vals) => match pv {
                    Datum::Lambda { env: cenv, .. } => Outcome {
                        store: a.store,
                        result: Ok(StepModel::Call(pv, vals, cenv)),
                        fuel: g,
                    },
                    _ => Outcome { store: a.store, result: Ok(StepModel::Call(pv, vals, env)), fuel: g },
                },
            }
        },
    }
}

/// The model of a step's result.
pub open spec fn step_view(r: Result<EvalResult, SchemeError>) -> Result<StepModel, Fault> {
    match r {
        Ok(s) => Ok(s@),
        Err(e) => Err(e@),
    }
}

/// The model of evaluated arguments.
pub open spec fn values_view(r: Result<Vec<Value>, SchemeError>) -> Result<Seq<Datum>, Fault> {
    match r {
        Ok(v) => Ok(views(v@)),
        Err(e) => Err(e@),
    }
}

/// The special forms.
pub enum Form {
    Quote,
    If,
    Define,
    Assign,
    Lambda,
    Begin,
}

/// The special form that a symbol names, if any.
pub fn special_form(s: &String) -> (r: Option<Form>)
    ensures
        match r {
            Some(Form::Quote) => s@ == "quote"@,
            Some(Form::If) => s@ == "if"@,
            Some(Form::Define) => s@ == "define"@,
            Some(Form::Assign) => s@ == "set!"@,
            Some(Form::Lambda) => s@ == "lambda"@,
            Some(Form::Begin) => s@ == "begin"@,
            None => s@ != "quote"@ && s@ != "if"@ && s@ != "define"@ && s@ != "set!"@ && s@ != "lambda"@
                && s@ != "begin"@,
        },
{
    if *s == text("quote") {
        Some(Form::Quote)
    } else if *s == text("if") {
        Some(Form::If)
    } else if *s == text("define") {
        Some(Form::Define)
    } else if *s == text("set!") {
        Some(Form::Assign)
    } else if *s == text("lambda") {
        Some(Form::Lambda)
    } else if *s == text("begin") {
        Some(Form::Begin)
    } else {
        None
    }
}

/// Copies of `v[from..]` behind a `begin` symbol.
fn begin_block(v: &Vec<Value>, from: usize) -> (r: Value)
    requires
        from <= v@.len(),
    ensures
        r@ == Datum::List(seq![Datum::Symbol("begin"@)] + views(v@).subrange(from as int, v@.len() as int)),
{
    let mut out: Vec<Value> = Vec::new();
    out.push(Value::Symbol(text("begin")));
    let mut rest = crate::builtins::copy_range(v.as_slice(), from);
    let ghost head = out@;
    let ghost tail = rest@;
    out.append(&mut rest);
    proof {
        Value::lemma_list_view(out);
        assert(views(out@) =~= seq![Datum::Symbol("begin"@)] + views(v@).subrange(from as int, v@.len() as int));
    }
    Value::List(out)
}

/// One evaluator step on `expr` in scope `env`.
pub fn eval_step(store: &mut Store, expr: &Value, env: usize, fuel: u64) -> (r: (Result<EvalResult, SchemeError>, u64))
    ensures
        step(old(store)@, expr@, env as nat, fuel as nat) == (Outcome {
            store: final(store)@,
            result: step_view(r.0),
            fuel: r.1 as nat,
        }),
        r.1 <= fuel,
    decreases fuel, 4nat, 0nat,
{
    match expr {
        Value::Symbol(s) => {
            if s.as_str().is_empty() {
                return (Ok(EvalResult::Value(Value::Nil)), fuel);
            }
            assert(s@.len() != 0);
            match store.lookup(env, s) {
                Some(v) => (Ok(EvalResult::Value(v)), fuel),
                None => (Err(SchemeError::UndefinedVariable(s.clone())), fuel),
            }
        },
        Value::List(l) => {
            proof {
                Value::lemma_list_view(*l);
            }
            if l.len() == 0 {
                return (Ok(EvalResult::Value(Value::Nil)), fuel);
            }
            step_list_exec(store, l, env, fuel)
        },
        _ => (Ok(EvalResult::Value(expr.copy())), fuel),
    }
}

/// The special forms' names are distinct.
pub proof fn lemma_words_differ()
    ensures
        "if"@ != "quote"@,
        "define"@ != "quote"@,
        "define"@ != "if"@,
        "set!"@ != "quote"@,
        "set!"@ != "if"@,
        "set!"@ != "define"@,
        "lambda"@ != "quote"@,
        "lambda"@ != "if"@,
        "lambda"@ != "define"@,
        "lambda"@ != "set!"@,
        "begin"@ != "quote"@,
        "begin"@ != "if"@,
        "begin"@ != "define"@,
        "begin"@ != "set!"@,
        "begin"@ != "lambda"@,
{
    reveal_strlit("quote");
    reveal_strlit("if");
    reveal_strlit("define");
    reveal_strlit("set!");
    reveal_strlit("lambda");
    reveal_strlit("begin");
    assert("if"@.len() != "quote"@.len());
    assert("define"@.len() != "quote"@.len());
    assert("define"@.len() != "if"@.len());
    assert("set!"@[0] != "quote"@[0]);
    assert("set!"@.len() != "if"@.len());
    assert("set!"@.len() != "define"@.len());
    assert("lambda"@.len() != "quote"@.len());
    assert("lambda"@.len() != "if"@.len());
    assert("lambda"@[0] != "define"@[0]);
    assert("lambda"@.len() != "set!"@.len());
    assert("begin"@[0] != "quote"@[0]);
    assert("begin"@.len() != "if"@.len());
    assert("begin"@.len() != "define"@.len());
    assert("begin"@.len() != "set!"@.len());
    assert("begin"@.len() != "lambda"@.len());
}

/// A step on a non-empty list: a special form, or an application.
fn step_list_exec(store: &mut Store, l: &Vec<Value>, env: usize, fuel: u64) -> (r: (Result<EvalResult, SchemeError>, u64))
    requires
        l@.len() > 0,
    ensures
        step_list(old(store)@, views(l@), env as nat, fuel as nat) == (Outcome {
            store: final(store)@,
            result: step_view(r.0),
            fuel: r.1 as nat,
        }),
        r.1 <= fuel,
    decreases fuel, 3nat, 0nat,
{
    let form = match &l[0] {
        Value::Symbol(s) => special_form(s),
        _ => None,
    };
    let ghost ls = views(l@);
    let ghost args = ls.subrange(1, ls.len() as int);
    assert(ls[0] == l@[0]@);
    match form {
        Some(Form::Quote) => {
            let n = l.len();
            if n - 1 != 1 {
                return (Err(SchemeError::Arity { expected: text("1"), got: n - 1 }), fuel);
            }
            assert(views(l@).subrange(1, n as int)[0] == l@[1]@);
            (Ok(EvalResult::Value(l[1].copy())), fuel)
        },
        Some(Form::If) => {
            proof {
                lemma_words_differ();
            }
            step_if(store, l, env, fuel)
        },
        Some(Form::Define) => {
            proof {
                lemma_words_differ();
            }
            step_binding(store, l, env, fuel, true)
        },
        Some(Form::Assign) => {
            proof {
                lemma_words_differ();
            }
            step_binding(store, l, env, fuel, false)
        },
        Some(Form::Lambda) => {
            proof {
                lemma_words_differ();
            }
            step_lambda(store, l, env, fuel)
        },
        Some(Form::Begin) => {
            proof {
                lemma_words_differ();
            }
            step_begin(store, l, env, fuel)
        },
        None => step_apply(store, l, env, fuel),
    }
}

/// `if` on the operands of `l`.
fn step_if(store: &mut Store, l: &Vec<Value>, env: usize, fuel: u64) -> (r: (Result<EvalResult, SchemeError>, u64))
    requires
        l@.len() > 0,
    ensures
        if_spec(old(store)@, views(l@).subrange(1, l@.len() as int), env as nat, fuel as nat) == (Outcome {
            store: final(store)@,
            result: step_view(r.0),
            fuel: r.1 as nat,
        }),
        r.1 <= fuel,
    decreases fuel, 2nat, 0nat,
{
    let ghost ls = views(l@);
    let ghost args = ls.subrange(1, ls.len() as int);
    let n = l.len();
    if !(n - 1 == 2 || n - 1 == 3) {
        return (Err(SchemeError::Arity { expected: text("2 or 3"), got: n - 1 }), fuel);
    }
    assert(args[0] == l@[1]@);
    assert(args[1] == l@[2]@);
    let (c, f) = evaluate_trampolined(store, &l[1], env, fuel);
    match c {
        Err(e) => (Err(e), f),
        Ok(Value::Bool(false)) => {
            if n == 4 {
                assert(args[2] == l@[3]@);
                (Ok(EvalResult::Continue { expr: l[3].copy(), env }), f)
            } else {
                (Ok(EvalResult::Value(Value::Nil)), f)
            }
        },
        Ok(_) => (Ok(EvalResult::Continue { expr: l[2].copy(), env }), f),
    }
}

/// `define` or `set!` on the operands of `l`.
fn step_binding(store: &mut Store, l: &Vec<Value>, env: usize, fuel: u64, is_define: bool) -> (r: (
    Result<EvalResult, SchemeError>,
    u64,
))
    requires
        l@.len() > 0,
    ensures
        binding_spec(old(store)@, views(l@).subrange(1, l@.len() as int), env as nat, fuel as nat, is_define) == (Outcome {
            store: final(store)@,
            result: step_view(r.0),
            fuel: r.1 as nat,
        }),
        r.1 <= fuel,
    decreases fuel, 2nat, 0nat,
{
    let ghost ls = views(l@);
    let ghost args = ls.subrange(1, ls.len() as int);
    let n = l.len();
    if n - 1 != 2 {
        return (Err(SchemeError::Arity { expected: text("2"), got: n - 1 }), fuel);
    }
    assert(args[0] == l@[1]@);
    assert(args[1] == l@[2]@);
    let name = match &l[1] {
        Value::Symbol(s) => s.clone(),
        other => {
            return (Err(Value::type_error("symbol", other)), fuel);
        },
    };
    let (v, f) = evaluate_trampolined(store, &l[2], env, fuel);
    match v {
        Err(e) => (Err(e), f),
        Ok(v) => {
            if is_define {
                store.define(env, name, v);
                (Ok(EvalResult::Value(Value::Nil)), f)
            } else {
                match Environment::set(store, env, &name, v) {
                    Ok(()) => (Ok(EvalResult::Value(Value::Nil)), f),
                    Err(e) => (Err(e), f),
                }
            }
        },
    }
}

/// `lambda` on the operands of `l`.
fn step_lambda(store: &mut Store, l: &Vec<Value>, env: usize, fuel: u64) -> (r: (Result<EvalResult, SchemeError>, u64))
    requires
        l@.len() > 0,
    ensures
        lambda_spec(old(store)@, views(l@).subrange(1, l@.len() as int), env as nat, fuel as nat) == (Outcome {
            store: final(store)@,
            result: step_view(r.0),
            fuel: r.1 as nat,
        }),
        r.1 <= fuel,
{
    let ghost ls = views(l@);
    let ghost args = ls.subrange(1, ls.len() as int);
    let n = l.len();
    if n - 1 < 1 {
        return (Err(SchemeError::Eval(text("Invalid lambda syntax: requires parameters and body"))), fuel);
    }
    assert(args[0] == l@[1]@);
    match &l[1] {
        Value::List(ps) => {
            proof {
                Value::lemma_list_view(*ps);
            }
            let ghost pv = views(ps@);
            let mut names: Vec<String> = Vec::new();
            let mut i: usize = 0;
            while i < ps.len()
                invariant
                    i <= ps@.len(),
                    pv == views(ps@),
                    n == l@.len(),
                    n >= 2,
                    ls == views(l@),
                    args == ls.subrange(1, ls.len() as int),
                    args[0] == Datum::List(pv),
                    store@ == old(store)@,
                    names@.len() == i,
                    forall|j: int| 0 <= j < i ==> (#[trigger] pv[j]) is Symbol,
                    forall|j: int| 0 <= j < i ==> names@[j]@ == pv[j]->Symbol_0,
                decreases ps@.len() - i,
            {
                assert(pv[i as int] == ps@[i as int]@);
                match &ps[i] {
                    Value::Symbol(s) => {
                        names.push(s.clone());
                    },
                    _ => {
                        assert(!(pv[i as int] is Symbol));
                        assert(!all_symbols(pv));
                        return (Err(SchemeError::Eval(text("Lambda parameters must be symbols"))), fuel);
                    },
                }
                i = i + 1;
            }
            assert(crate::value::strings_view(names@) =~= symbol_names(pv));
            let body = if n == 3 {
                assert(args.subrange(1, args.len() as int)[0] == l@[2]@);
                l[2].copy()
            } else {
                let b = begin_block(l, 2);
                assert(args.subrange(1, args.len() as int) =~= ls.subrange(2, ls.len() as int));
                b
            };
            store.capture(env);
            (Ok(EvalResult::Value(Value::Lambda { params: names, body: Box::new(body), env })), fuel)
        },
        _ => (Err(SchemeError::Eval(text("Lambda parameters must be a list of symbols"))), fuel),
    }
}

/// `begin` on the operands of `l`.
fn step_begin(store: &mut Store, l: &Vec<Value>, env: usize, fuel: u64) -> (r: (Result<EvalResult, SchemeError>, u64))
    requires
        l@.len() > 0,
    ensures
        begin_spec(old(store)@, views(l@).subrange(1, l@.len() as int), env as nat, fuel as nat) == (Outcome {
            store: final(store)@,
            result: step_view(r.0),
            fuel: r.1 as nat,
        }),
        r.1 <= fuel,
    decreases fuel, 2nat, 0nat,
{
    let ghost ls = views(l@);
    let ghost args = ls.subrange(1, ls.len() as int);
    let n = l.len();
    if n - 1 == 0 {
        return (Ok(EvalResult::Value(Value::Nil)), fuel);
    }
    assert(args.drop_last() =~= ls.subrange(1, n - 1));
    assert(args.last() == l@[n - 1]@);
    let (r, f) = eval_list_exec(store, l, 1, n - 1, env, fuel);
    match r {
        Err(e) => (Err(e), f),
        Ok(_) => (Ok(EvalResult::Continue { expr: l[n - 1].copy(), env }), f),
    }
}

/// An application: the operator and operands of `l`.
fn step_apply(store: &mut Store, l: &Vec<Value>, env: usize, fuel: u64) -> (r: (Result<EvalResult, SchemeError>, u64))
    requires
        l@.len() > 0,
    ensures
        apply_spec(old(store)@, l@[0]@, views(l@).subrange(1, l@.len() as int), env as nat, fuel as nat) == (Outcome {
            store: final(store)@,
            result: step_view(r.0),
            fuel: r.1 as nat,
        }),
        r.1 <= fuel,
    decreases fuel, 2nat, 0nat,
{
    let ghost ls = views(l@);
    let ghost args = ls.subrange(1, ls.len() as int);
    let n = l.len();
    assert(ls[0] == l@[0]@);
    let (p, f) = evaluate_trampolined(store, &l[0], env, fuel);
    let pv = match p {
        Err(e) => {
            return (Err(e), f);
        },
        Ok(pv) => pv,
    };
    let callable = match &pv {
        Value::Lambda { .. } => true,
        Value::Builtin(_) => true,
        _ => false,
    };
    if !callable {
        return (Err(SchemeError::NotProcedure(show(store, &pv))), f);
    }
    let (a, g) = eval_list_exec(store, l, 1, n, env, f);
    let vals = match a {
        Err(e) => {
            return (Err(e), g);
        },
        Ok(vals) => vals,
    };
    match pv {
        Value::Lambda { params, body, env: cenv } => (
            Ok(EvalResult::TailCall { procedure: Value::Lambda { params, body, env: cenv }, args: vals, env: cenv }),
            g,
        ),
        Value::Builtin(b) => (Ok(EvalResult::TailCall { procedure: Value::Builtin(b), args: vals, env }), g),
        other => {
            assert(false);
            (Err(SchemeError::NotProcedure(show(store, &other))), g)
        },
    }
}

/// Once a prefix of a list fails to evaluate, the whole list fails the same way.
pub proof fn lemma_eval_list_err_sticks(st: StoreModel, xs: Seq<Datum>, from: int, k: int, m: int, env: nat, fuel: nat)
    requires
        0 <= from <= k <= m <= xs.len(),
        eval_list(st, xs.subrange(from, k), env, fuel).result is Err,
    ensures
        eval_list(st, xs.subrange(from, m), env, fuel) == eval_list(st, xs.subrange(from, k), env, fuel),
    decreases m - k,
{
    if k < m {
        lemma_eval_list_err_sticks(st, xs, from, k, m - 1, env, fuel);
        assert(xs.subrange(from, m).drop_last() =~= xs.subrange(from, m - 1));
    }
}

/// Evaluates `xs[from..to]` left to right, each in full.
pub fn eval_list_exec(store: &mut Store, xs: &Vec<Value>, from: usize, to: usize, env: usize, fuel: u64) -> (r: (
    Result<Vec<Value>, SchemeError>,
    u64,
))
    requires
        from <= to <= xs@.len(),
    ensures
        eval_list(old(store)@, views(xs@).subrange(from as int, to as int), env as nat, fuel as nat) == (Outcome {
            store: final(store)@,
            result: values_view(r.0),
            fuel: r.1 as nat,
        }),
        r.1 <= fuel,
    decreases fuel, 1nat, to - from,
{
    let ghost s = views(xs@);
    let ghost st0 = store@;
    let mut vals: Vec<Value> = Vec::new();
    let mut f = fuel;
    let mut i = from;
    assert(s.subrange(from as int, from as int) =~= Seq::<Datum>::empty());
    assert(views(vals@) =~= Seq::<Datum>::empty());
    while i < to
        invariant
            from <= i <= to <= xs@.len(),
            s == views(xs@),
            st0 == old(store)@,
            f <= fuel,
            eval_list(st0, s.subrange(from as int, i as int), env as nat, fuel as nat) == (Outcome {
                store: store@,
                result: Ok::<Seq<Datum>, Fault>(views(vals@)),
                fuel: f as nat,
            }),
        decreases to - i,
    {
        assert(s.subrange(from as int, i + 1).drop_last() =~= s.subrange(from as int, i as int));
        assert(s.subrange(from as int, i + 1).last() == xs@[i as int]@);
        let ghost st_before = store@;
        let (r, f2) = evaluate_trampolined(store, &xs[i], env, f);
        match r {
            Ok(v) => {
                let ghost before = vals@;
                vals.push(v);
                assert(views(vals@) =~= views(before).push(vals@[vals@.len() - 1]@));
                f = f2;
            },
            Err(e) => {
                assert(eval_list(st0, s.subrange(from as int, i + 1), env as nat, fuel as nat) == (Outcome {
                    store: store@,
                    result: Err::<Seq<Datum>, Fault>(e@),
                    fuel: f2 as nat,
                }));
                proof {
                    lemma_eval_list_err_sticks(st0, s, from as int, i + 1, to as int, env as nat, fuel as nat);
                }
                return (Err(e), f2);
            },
        }
        i = i + 1;
    }
    (Ok(vals), f)
}

/// Evaluates `expr` in scope `env` with at most `fuel` trampoline iterations:
/// tail expressions and closure bodies replace the current expression and
/// scope in place, so that tail calls do not deepen the native stack.
pub fn evaluate_trampolined(store: &mut Store, expr: &Value, env: usize, fuel: u64) -> (r: (
    Result<Value, SchemeError>,
    u64,
))
    ensures
        run(old(store)@, expr@, env as nat, fuel as nat) == (Outcome {
            store: final(store)@,
            result: result_view(r.0),
            fuel: r.1 as nat,
        }),
        r.1 <= fuel,
    decreases fuel, 0nat, 0nat,
{
    let mut cur: Value = expr.copy();
    let mut cur_env: usize = env;
    let mut f: u64 = fuel;
    let mut owned = false;
    loop
        invariant
            f <= fuel,
            run(old(store)@, expr@, env as nat, fuel as nat) == run_in(store@, cur@, cur_env as nat, f as nat, owned),
        decreases f,
    {
        if f == 0 {
            store.release(cur_env, owned);
            return (Err(SchemeError::Runtime(text("Evaluation step limit reached"))), 0);
        }
        let ghost st1 = store@;
        let (r, f1) = eval_step(store, &cur, cur_env, f - 1);
        match r {
            Err(e) => {
                store.release(cur_env, owned);
                return (Err(e), f1);
            },
            Ok(EvalResult::Value(v)) => {
                store.release(cur_env, owned);
                return (Ok(v), f1);
            },
            Ok(EvalResult::Continue { expr: e2, env: env2 }) => {
                cur = e2;
                cur_env = env2;
                f = f1;
            },
            Ok(EvalResult::TailCall { procedure, args, env: env2 }) => {
                match procedure {
                    Value::Lambda { params, body, env: cenv } => {
                        if params.len() != args.len() {
                            store.release(cur_env, owned);
                            return (Err(SchemeError::Arity { expected: count_text(params.len()), got: args.len() }), f1);
                        }
                        let ghost ps = crate::value::strings_view(params@);
                        let ghost avs = views(args@);
                        let mut sc = Environment::new_child(cenv);
                        let mut i: usize = 0;
                        while i < params.len()
                            invariant
                                i <= params@.len(),
                                params@.len() == args@.len(),
                                ps == crate::value::strings_view(params@),
                                avs == views(args@),
                                sc@ == (Frame {
                                    bindings: bind_params(Seq::empty(), ps, avs, i as nat),
                                    parent: Some(cenv as nat),
                                    captured: false,
                                }),
                            decreases params@.len() - i,
                        {
                            sc.define(params[i].clone(), args[i].copy());
                            i = i + 1;
                        }
                        store.release(cur_env, owned);
                        let h = store.scopes.len();
                        let ghost st2 = store@;
                        store.scopes.push(sc);
                        assert(store@.scopes =~= st2.scopes.push(sc@));
                        assert(store@ == (StoreModel { scopes: st2.scopes.push(sc@), ..st2 }));
                        cur = *body;
                        cur_env = h;
                        f = f1;
                        owned = true;
                    },
                    Value::Builtin(Primitive::Eval) => {
                        let r = builtin_eval(store, args.as_slice(), env2, f1);
                        store.release(cur_env, owned);
                        return r;
                    },
                    Value::Builtin(p) => {
                        let r = apply_primitive(store, p, args.as_slice());
                        store.release(cur_env, owned);
                        return (r, f1);
                    },
                    other => {
                        let m = show(store, &other);
                        store.release(cur_env, owned);
                        return (Err(SchemeError::NotProcedure(m)), f1);
                    },
                }
            },
        }
    }
}

/// `eval`: evaluates an already evaluated argument once more, in the scope
/// of the call.
pub fn builtin_eval(store: &mut Store, args: &[Value], env: usize, fuel: u64) -> (r: (Result<Value, SchemeError>, u64))
    ensures
        eval_prim(old(store)@, views(args@), env as nat, fuel as nat) == (Outcome {
            store: final(store)@,
            result: result_view(r.0),
            fuel: r.1 as nat,
        }),
        r.1 <= fuel,
    decreases fuel, 5nat, 0nat,
{
    if args.len() != 1 {
        return (Err(SchemeError::Arity { expected: text("1"), got: args.len() }), fuel);
    }
    evaluate_trampolined(store, &args[0], env, fuel)
}

/// Evaluates `expr` in scope `env` until it ends; the fuel is large enough
/// that no program reaches its end in practice.
pub fn evaluate(store: &mut Store, expr: &Value, env: usize) -> (r: Result<Value, SchemeError>)
    ensures
        result_view(r) == run(old(store)@, expr@, env as nat, u64::MAX as nat).result,
        final(store)@ == run(old(store)@, expr@, env as nat, u64::MAX as nat).store,
{
    let (r, _) = evaluate_trampolined(store, expr, env, u64::MAX);
    r
}

} // verus!
