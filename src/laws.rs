use vstd::prelude::*;
use crate::env::{
    assign_in, capture_in, define_in, keys_unique, lemma_put_unique, release_in, store_keys_unique, defining_scope, entry_get, entry_put, key_index, lemma_key_index_range, lookup_from,
    Entries, Frame, StoreModel,
};
use crate::builtins::{key_text, map_set_spec};
use crate::equality::{datum_eq, entries_eq, entries_within};
use crate::error::Fault;
use crate::eval::{apply_spec, bind_params, eval_list, if_spec, lemma_words_differ, run, run_in, step, step_list, StepModel};
use crate::print::{container_depth, table_entries};
use crate::value::Datum;

verus! {

/// After `k` is bound to `d`, `k` names `d`.
pub proof fn lemma_put_get(b: Entries, k: Seq<char>, d: Datum)
    ensures
        entry_get(entry_put(b, k, d), k) == Some(d),
    decreases b.len(),
{
    lemma_key_index_range(b, k);
    let i = key_index(b, k);
    if i >= 0 {
        lemma_index_after_update(b, k, i, d);
    } else {
        let b2 = b.push((k, d));
        assert(b2.last().0 == k);
    }
}

proof fn lemma_index_after_update(b: Entries, k: Seq<char>, i: int, d: Datum)
    requires
        i == key_index(b, k),
        0 <= i < b.len(),
    ensures
        key_index(b.update(i, (k, d)), k) == i,
    decreases b.len(),
{
    if i < b.len() - 1 {
        lemma_key_index_range(b.drop_last(), k);
        lemma_index_after_update(b.drop_last(), k, i, d);
        assert(b.update(i, (k, d)).drop_last() =~= b.drop_last().update(i, (k, d)));
    }
}

/// Binding `k` leaves what other names name unchanged.
pub proof fn lemma_put_other(b: Entries, k: Seq<char>, d: Datum, k2: Seq<char>)
    requires
        k2 != k,
    ensures
        entry_get(entry_put(b, k, d), k2) == entry_get(b, k2),
{
    lemma_key_index_range(b, k);
    lemma_key_index_range(b, k2);
    let i = key_index(b, k);
    if i >= 0 {
        lemma_index_other_update(b, k, i, d, k2);
    } else {
        let b2 = b.push((k, d));
        assert(b2.drop_last() =~= b);
        assert(key_index(b2, k2) == key_index(b, k2));
        if key_index(b, k2) >= 0 {
            assert(b2[key_index(b, k2)] == b[key_index(b, k2)]);
        }
    }
}

proof fn lemma_index_other_update(b: Entries, k: Seq<char>, i: int, d: Datum, k2: Seq<char>)
    requires
        k2 != k,
        0 <= i < b.len(),
        b[i].0 == k,
    ensures
        key_index(b.update(i, (k, d)), k2) == key_index(b, k2),
        key_index(b, k2) >= 0 ==> b.update(i, (k, d))[key_index(b, k2)] == b[key_index(b, k2)],
    decreases b.len(),
{
    if i < b.len() - 1 {
        lemma_index_other_update(b.drop_last(), k, i, d, k2);
        assert(b.update(i, (k, d)).drop_last() =~= b.drop_last().update(i, (k, d)));
    } else {
        assert(b.update(i, (k, d)).drop_last() =~= b.drop_last());
    }
    lemma_key_index_range(b, k2);
}

/// Binding parameters other than `k` leaves `k` unbound in a fresh frame.
pub proof fn lemma_params_miss(params: Seq<Seq<char>>, args: Seq<Datum>, n: nat, k: Seq<char>)
    requires
        !params.contains(k),
    ensures
        entry_get(bind_params(Seq::empty(), params, args, n), k) is None,
    decreases n,
{
    if !(n == 0 || n > params.len() || n > args.len()) {
        lemma_params_miss(params, args, (n - 1) as nat, k);
        assert(params[n - 1] != k);
        lemma_put_other(bind_params(Seq::empty(), params, args, (n - 1) as nat), params[n - 1], args[n - 1], k);
    }
}

/// Defining in a scope leaves every lookup from an older scope unchanged.
pub proof fn lemma_define_older(st: StoreModel, j: nat, x: Seq<char>, v: Datum, env: nat, k: Seq<char>)
    requires
        env < j,
    ensures
        lookup_from(define_in(st, j, x, v), env, k) == lookup_from(st, env, k),
    decreases env,
{
    let st2 = define_in(st, j, x, v);
    if env < st.scopes.len() {
        assert(st2.scopes[env as int] == st.scopes[env as int]);
        match st.scopes[env as int].parent {
            Some(p) => if p < env {
                lemma_define_older(st, j, x, v, p, k);
            },
            None => {},
        }
    }
}

/// Shadowing: a name defined in a call's scope names the new value there,
/// while every older scope, the defining scope of the outer binding among
/// them, still sees what it saw before.
pub proof fn law_shadowing(st: StoreModel, outer: nat, inner: nat, x: Seq<char>, v: Datum)
    requires
        outer < inner < st.scopes.len(),
    ensures
        lookup_from(define_in(st, inner, x, v), inner, x) == Some(v),
        lookup_from(define_in(st, inner, x, v), outer, x) == lookup_from(st, outer, x),
{
    lemma_put_get(st.scopes[inner as int].bindings, x, v);
    lemma_define_older(st, inner, x, v, outer, x);
}

/// Closures see later assignments: after `x`, bound in scope `e`, is assigned
/// `v`, the frame of a call to a closure that captured `e` (binding parameters
/// other than `x`) finds `v` for `x`.
pub proof fn law_closure_sees_assignment(
    st: StoreModel,
    e: nat,
    x: Seq<char>,
    v: Datum,
    params: Seq<Seq<char>>,
    args: Seq<Datum>,
)
    requires
        e < st.scopes.len(),
        entry_get(st.scopes[e as int].bindings, x) is Some,
        !params.contains(x),
        params.len() == args.len(),
    ensures
        assign_in(st, e, x, v) is Some,
        ({
            let st2 = assign_in(st, e, x, v)->Some_0;
            let frame = Frame { bindings: bind_params(Seq::empty(), params, args, params.len()), parent: Some(e), captured: false };
            let st3 = StoreModel { scopes: st2.scopes.push(frame), ..st2 };
            lookup_from(st3, st2.scopes.len(), x) == Some(v)
        }),
{
    assert(defining_scope(st, e, x) == Some(e));
    let st2 = define_in(st, e, x, v);
    let frame = Frame { bindings: bind_params(Seq::empty(), params, args, params.len()), parent: Some(e), captured: false };
    let st3 = StoreModel { scopes: st2.scopes.push(frame), ..st2 };
    lemma_params_miss(params, args, params.len(), x);
    lemma_put_get(st.scopes[e as int].bindings, x, v);
    assert(st3.scopes[st2.scopes.len() as int] == frame);
    assert(st3.scopes[e as int] == st2.scopes[e as int]);
    assert(lookup_from(st3, e, x) == Some(v));
}

/// A closure observes assignments made after it was created: with `f` bound
/// in the global scope to a closure over that scope that reads `x`, calling
/// `(f)` after `x` is assigned `v` gives `v`.
pub proof fn law_closure_call_sees_assignment(st: StoreModel, f: Seq<char>, x: Seq<char>, v: Datum, fuel: nat)
    requires
        st.scopes.len() >= 1,
        st.scopes[0].parent is None,
        fuel >= 3,
        f != x,
        f.len() > 0,
        x.len() > 0,
        f != "quote"@ && f != "if"@ && f != "define"@ && f != "set!"@ && f != "lambda"@ && f != "begin"@,
        entry_get(st.scopes[0].bindings, x) is Some,
        entry_get(st.scopes[0].bindings, f) == Some(
            Datum::Lambda { params: Seq::empty(), body: Box::new(Datum::Symbol(x)), env: 0 },
        ),
    ensures
        assign_in(st, 0, x, v) is Some,
        run(assign_in(st, 0, x, v)->Some_0, Datum::List(seq![Datum::Symbol(f)]), 0, fuel).result == Ok::<
            Datum,
            Fault,
        >(v),
{
    let lam = Datum::Lambda { params: Seq::<Seq<char>>::empty(), body: Box::new(Datum::Symbol(x)), env: 0 };
    assert(defining_scope(st, 0, x) == Some(0nat));
    let st2 = define_in(st, 0, x, v);
    lemma_put_get(st.scopes[0].bindings, x, v);
    lemma_put_other(st.scopes[0].bindings, x, v, f);
    assert(lookup_from(st2, 0, f) == Some(lam));
    assert(lookup_from(st2, 0, x) == Some(v));
    let l = seq![Datum::Symbol(f)];
    let args = l.subrange(1, 1);
    assert(args =~= Seq::<Datum>::empty());
    let g = (fuel - 1) as nat;
    // the operator
    let p = run(st2, Datum::Symbol(f), 0, g);
    assert(step(st2, Datum::Symbol(f), 0, (g - 1) as nat).result == Ok::<StepModel, Fault>(StepModel::Done(lam)));
    assert(p.result == Ok::<Datum, Fault>(lam));
    assert(p.store == st2);
    assert(p.fuel == g - 1);
    // the operands
    let a = eval_list(st2, args, 0, (g - 1) as nat);
    assert(a.result == Ok::<Seq<Datum>, Fault>(Seq::empty()));
    // the step hands the call to the trampoline
    lemma_words_differ();
    assert(step_list(st2, l, 0, g) == apply_spec(st2, Datum::Symbol(f), args, 0, g));
    let o = step(st2, Datum::List(l), 0, g);
    assert(o.result == Ok::<StepModel, Fault>(StepModel::Call(lam, Seq::empty(), 0)));
    assert(o.store == st2);
    assert(o.fuel == g - 1);
    // the body runs in a fresh scope whose parent is the global scope
    let frame = Frame {
        bindings: bind_params(Seq::empty(), Seq::<Seq<char>>::empty(), Seq::<Datum>::empty(), 0),
        parent: Some(0nat),
        captured: false,
    };
    let n = st2.scopes.len();
    let st3 = StoreModel { scopes: st2.scopes.push(frame), ..st2 };
    assert(release_in(st2, 0, false) == st2);
    assert(entry_get(frame.bindings, x) is None);
    assert(st3.scopes[0] == st2.scopes[0]);
    assert(lookup_from(st3, 0, x) == lookup_from(st2, 0, x));
    assert(lookup_from(st3, n, x) == Some(v));
    let h = (g - 1) as nat;
    assert(step(st3, Datum::Symbol(x), n, (h - 1) as nat).result == Ok::<StepModel, Fault>(StepModel::Done(v)));
    assert(run_in(st3, Datum::Symbol(x), n, h, true).result == Ok::<Datum, Fault>(v));
    assert(run_in(st2, Datum::List(l), 0, fuel, false) == run_in(st3, Datum::Symbol(x), n, h, true));
}

/// A closure call made from a scope that the current evaluation made itself,
/// that is the newest and that no closure captured, first releases that scope
/// and so leaves the number of scopes as it was: a chain of tail calls runs in
/// a store of constant size.
pub proof fn law_tail_call_reuses_scope(st: StoreModel, env: nat, frame: Frame)
    requires
        env + 1 == st.scopes.len(),
        !st.scopes[env as int].captured,
    ensures
        release_in(st, env, true).scopes.push(frame).len() == st.scopes.len(),
{
}

/// A call's fresh scope binds each parameter name once.
pub proof fn lemma_params_unique(params: Seq<Seq<char>>, args: Seq<Datum>, n: nat)
    ensures
        keys_unique(bind_params(Seq::empty(), params, args, n)),
    decreases n,
{
    if !(n == 0 || n > params.len() || n > args.len()) {
        lemma_params_unique(params, args, (n - 1) as nat);
        lemma_put_unique(bind_params(Seq::empty(), params, args, (n - 1) as nat), params[n - 1], args[n - 1]);
    }
}

/// Every way the store's bindings and maps are written keeps each name bound
/// at most once per scope and per map: `define`, `set!`, marking and
/// releasing scopes, a call's fresh scope, `make-map` and `map-set!`.
pub proof fn law_writers_keep_keys_unique(
    st: StoreModel,
    env: nat,
    k: Seq<char>,
    d: Datum,
    params: Seq<Seq<char>>,
    args: Seq<Datum>,
    owned: bool,
    map_args: Seq<Datum>,
)
    requires
        store_keys_unique(st),
    ensures
        store_keys_unique(define_in(st, env, k, d)),
        assign_in(st, env, k, d) matches Some(st2) ==> store_keys_unique(st2),
        store_keys_unique(capture_in(st, env)),
        store_keys_unique(release_in(st, env, owned)),
        store_keys_unique(
            StoreModel {
                scopes: st.scopes.push(
                    Frame { bindings: bind_params(Seq::empty(), params, args, params.len()), parent: Some(env), captured: false },
                ),
                ..st
            },
        ),
        store_keys_unique(StoreModel { tables: st.tables.push(Seq::empty()), ..st }),
        store_keys_unique(map_set_spec(st, map_args).0),
{
    lemma_define_keeps_unique(st, env, k, d);
    match defining_scope(st, env, k) {
        Some(j) => lemma_define_keeps_unique(st, j, k, d),
        None => {},
    }
    let st1 = capture_in(st, env);
    assert forall|i: int| 0 <= i < st1.scopes.len() implies keys_unique(#[trigger] st1.scopes[i].bindings) by {
        assert(st1.scopes[i].bindings == st.scopes[i].bindings);
    }
    let st2 = release_in(st, env, owned);
    assert forall|i: int| 0 <= i < st2.scopes.len() implies keys_unique(#[trigger] st2.scopes[i].bindings) by {
        assert(st2.scopes[i] == st.scopes[i]);
    }
    lemma_params_unique(params, args, params.len());
    let frame = Frame { bindings: bind_params(Seq::empty(), params, args, params.len()), parent: Some(env), captured: false };
    let st3 = StoreModel { scopes: st.scopes.push(frame), ..st };
    assert forall|i: int| 0 <= i < st3.scopes.len() implies keys_unique(#[trigger] st3.scopes[i].bindings) by {
        if i < st.scopes.len() {
            assert(st3.scopes[i] == st.scopes[i]);
        }
    }
    let st4 = StoreModel { tables: st.tables.push(Seq::empty()), ..st };
    assert forall|i: int| 0 <= i < st4.tables.len() implies keys_unique(#[trigger] st4.tables[i]) by {
        if i < st.tables.len() {
            assert(st4.tables[i] == st.tables[i]);
        }
    }
    if map_args.len() == 3 {
        match key_text(map_args[1]) {
            Some(key) => match map_args[0] {
                Datum::Table(m) => if m < st.tables.len() {
                    lemma_put_unique(st.tables[m as int], key, map_args[2]);
                    let st5 = map_set_spec(st, map_args).0;
                    assert forall|i: int| 0 <= i < st5.tables.len() implies keys_unique(#[trigger] st5.tables[i]) by {
                        if i != m {
                            assert(st5.tables[i] == st.tables[i]);
                        }
                    }
                },
                _ => {},
            },
            None => {},
        }
    }
}

proof fn lemma_define_keeps_unique(st: StoreModel, env: nat, k: Seq<char>, d: Datum)
    requires
        store_keys_unique(st),
    ensures
        store_keys_unique(define_in(st, env, k, d)),
{
    if env < st.scopes.len() {
        lemma_put_unique(st.scopes[env as int].bindings, k, d);
        let st2 = define_in(st, env, k, d);
        assert forall|i: int| 0 <= i < st2.scopes.len() implies keys_unique(#[trigger] st2.scopes[i].bindings) by {
            if i != env {
                assert(st2.scopes[i] == st.scopes[i]);
            }
        }
    }
}

/// Two maps with no entries are equal, whether or not they are the same map.
pub proof fn law_empty_maps_equal(st: StoreModel, i: nat, j: nat)
    requires
        i < st.tables.len(),
        j < st.tables.len(),
        st.tables[i as int].len() == 0,
        st.tables[j as int].len() == 0,
    ensures
        datum_eq(st, Datum::Table(i), Datum::Table(j), container_depth(st)),
{
    let d = container_depth(st);
    assert(d >= 1);
    assert(table_entries(st, i).len() == 0);
    assert(table_entries(st, j).len() == 0);
    assert(entries_within(st, table_entries(st, i), table_entries(st, j), (d - 1) as nat));
    assert(entries_eq(st, table_entries(st, i), table_entries(st, j), (d - 1) as nat));
}

/// A closure is equal to nothing, another closure with the same parameters
/// and body included.
pub proof fn law_closures_never_equal(st: StoreModel, a: Datum, b: Datum, depth: nat)
    requires
        a is Lambda,
    ensures
        !datum_eq(st, a, b, depth),
        !datum_eq(st, b, a, depth),
{
}

/// Evaluating `(quote x)` gives `x` unevaluated and leaves the store alone.
pub proof fn law_quote(st: StoreModel, x: Datum, env: nat, fuel: nat)
    requires
        fuel >= 1,
    ensures
        run(st, Datum::List(seq![Datum::Symbol("quote"@), x]), env, fuel).result == Ok::<Datum, Fault>(x),
        run(st, Datum::List(seq![Datum::Symbol("quote"@), x]), env, fuel).store == st,
{
    let l = seq![Datum::Symbol("quote"@), x];
    assert(l.subrange(1, 2) =~= seq![x]);
    let o = step(st, Datum::List(l), env, (fuel - 1) as nat);
    assert(step_list(st, l, env, (fuel - 1) as nat).result == Ok::<StepModel, Fault>(StepModel::Done(x)));
    assert(o.result == Ok::<StepModel, Fault>(StepModel::Done(x)));
    assert(o.store == st);
}

/// Data other than symbols and lists evaluate to themselves, so a quoted
/// datum of that kind evaluates again to itself.
pub proof fn law_self_evaluating(st: StoreModel, x: Datum, env: nat, fuel: nat)
    requires
        fuel >= 1,
        !(x is Symbol),
        !(x is List),
    ensures
        run(st, x, env, fuel).result == Ok::<Datum, Fault>(x),
        run(st, x, env, fuel).store == st,
{
    let o = step(st, x, env, (fuel - 1) as nat);
    assert(o.result == Ok::<StepModel, Fault>(StepModel::Done(x)));
    assert(o.store == st);
}

/// `if` whose test evaluates to `#f` and that has no else-branch gives `()`.
pub proof fn law_if_without_else(st: StoreModel, test: Datum, then: Datum, env: nat, fuel: nat)
    requires
        fuel >= 1,
        run(st, test, env, (fuel - 1) as nat).result == Ok::<Datum, Fault>(Datum::Bool(false)),
    ensures
        run(st, Datum::List(seq![Datum::Symbol("if"@), test, then]), env, fuel).result == Ok::<Datum, Fault>(
            Datum::Nil,
        ),
{
    lemma_words_differ();
    let l = seq![Datum::Symbol("if"@), test, then];
    let args = l.subrange(1, 3);
    assert(args =~= seq![test, then]);
    let f = (fuel - 1) as nat;
    let c = run(st, test, env, f);
    assert(if_spec(st, args, env, f).result == Ok::<StepModel, Fault>(StepModel::Done(Datum::Nil)));
    assert(step_list(st, l, env, f) == if_spec(st, args, env, f));
    assert(step(st, Datum::List(l), env, f).result == Ok::<StepModel, Fault>(StepModel::Done(Datum::Nil)));
}

} // verus!
