use vstd::prelude::*;
use crate::env::{entries_view, entry_get, find_entry, lemma_key_index_range, Entries, Store, StoreModel};
use crate::print::{array_items, container_depth, container_limit, table_entries};
use crate::value::{views, Datum, Value};

verus! {

/// Structural equality of data. Lists, arrays and maps compare by contents
/// (arrays and maps also by handle); procedures are never equal. Arrays and
/// maps nested deeper than `depth` compare by handle alone.
pub open spec fn datum_eq(st: StoreModel, a: Datum, b: Datum, depth: nat) -> bool
    decreases depth, a,
{
    match a {
        Datum::Integer(x) => b == Datum::Integer(x),
        Datum::Bool(x) => b == Datum::Bool(x),
        Datum::Symbol(x) => b == Datum::Symbol(x),
        Datum::Str(x) => b == Datum::Str(x),
        Datum::Nil => b == Datum::Nil,
        Datum::List(x) => match b {
            Datum::List(y) => seq_eq(st, x, y, depth),
            _ => false,
        },
        Datum::Array(i) => match b {
            Datum::Array(j) => i == j || (depth > 0 && seq_eq(
                st,
                array_items(st, i),
                array_items(st, j),
                (depth - 1) as nat,
            )),
            _ => false,
        },
        Datum::Table(i) => match b {
            Datum::Table(j) => i == j || (depth > 0 && entries_eq(
                st,
                table_entries(st, i),
                table_entries(st, j),
                (depth - 1) as nat,
            )),
            _ => false,
        },
        Datum::Lambda { .. } => false,
        Datum::Builtin(_) => false,
    }
}

/// Element-wise equality of two sequences.
pub open spec fn seq_eq(st: StoreModel, x: Seq<Datum>, y: Seq<Datum>, depth: nat) -> bool
    decreases depth, x, x.len(),
{
    if x.len() != y.len() {
        false
    } else if x.len() == 0 {
        true
    } else {
        seq_eq(st, x.subrange(0, x.len() - 1), y.subrange(0, y.len() - 1), depth) && datum_eq(
            st,
            x[x.len() - 1],
            y[y.len() - 1],
            depth,
        )
    }
}

/// Every entry of `x` has its key in `y`, with an equal value.
pub open spec fn entries_within(st: StoreModel, x: Entries, y: Entries, depth: nat) -> bool
    decreases depth, x, x.len(),
{
    if x.len() == 0 {
        true
    } else {
        entries_within(st, x.subrange(0, x.len() - 1), y, depth) && match entry_get(y, x[x.len() - 1].0) {
            Some(w) => datum_eq(st, x[x.len() - 1].1, w, depth),
            None => false,
        }
    }
}

/// Equality of two maps: as many entries, each found in the other with an equal value.
pub open spec fn entries_eq(st: StoreModel, x: Entries, y: Entries, depth: nat) -> bool
    decreases depth, x, x.len() + 1,
{
    x.len() == y.len() && entries_within(st, x, y, depth)
}

/// Whether `a` and `b` are equal in the sense of `datum_eq`.
pub fn values_equal(st: &Store, a: &Value, b: &Value, depth: usize) -> (r: bool)
    ensures
        r == datum_eq(st@, a@, b@, depth as nat),
    decreases depth, a,
{
    match a {
        Value::Integer(x) => match b {
            Value::Integer(y) => *x == *y,
            _ => false,
        },
        Value::Bool(x) => match b {
            Value::Bool(y) => *x == *y,
            _ => false,
        },
        Value::Symbol(x) => match b {
            Value::Symbol(y) => *x == *y,
            _ => false,
        },
        Value::String(x) => match b {
            Value::String(y) => *x == *y,
            _ => false,
        },
        Value::Nil => match b {
            Value::Nil => true,
            _ => false,
        },
        Value::List(x) => match b {
            Value::List(y) => {
                proof {
                    Value::lemma_list_view(*x);
                    Value::lemma_list_view(*y);
                }
                vecs_equal(st, x, y, depth)
            },
            _ => false,
        },
        Value::Array(i) => match b {
            Value::Array(j) => {
                if *i == *j {
                    true
                } else if depth == 0 {
                    false
                } else {
                    let empty: Vec<Value> = Vec::new();
                    assert(views(empty@) =~= Seq::empty());
                    let x = if *i < st.arrays.len() {
                        &st.arrays[*i]
                    } else {
                        &empty
                    };
                    let y = if *j < st.arrays.len() {
                        &st.arrays[*j]
                    } else {
                        &empty
                    };
                    vecs_equal(st, x, y, depth - 1)
                }
            },
            _ => false,
        },
        Value::Table(i) => match b {
            Value::Table(j) => {
                if *i == *j {
                    true
                } else if depth == 0 {
                    false
                } else {
                    let empty: Vec<(String, Value)> = Vec::new();
                    assert(entries_view(empty@) =~= Seq::empty());
                    let x = if *i < st.tables.len() {
                        &st.tables[*i]
                    } else {
                        &empty
                    };
                    let y = if *j < st.tables.len() {
                        &st.tables[*j]
                    } else {
                        &empty
                    };
                    x.len() == y.len() && entries_within_exec(st, x, y, depth - 1)
                }
            },
            _ => false,
        },
        Value::Lambda { .. } => false,
        Value::Builtin(_) => false,
    }
}

/// Element-wise equality of two vectors of values.
pub fn vecs_equal(st: &Store, x: &Vec<Value>, y: &Vec<Value>, depth: usize) -> (r: bool)
    ensures
        r == seq_eq(st@, views(x@), views(y@), depth as nat),
    decreases depth, x,
{
    let ghost xs = views(x@);
    let ghost ys = views(y@);
    if x.len() != y.len() {
        return false;
    }
    let mut i: usize = 0;
    while i < x.len()
        invariant
            i <= x.len(),
            x.len() == y.len(),
            xs == views(x@),
            ys == views(y@),
            seq_eq(st@, xs.subrange(0, i as int), ys.subrange(0, i as int), depth as nat),
        decreases x.len() - i,
    {
        assert(xs.subrange(0, i + 1).subrange(0, i as int) =~= xs.subrange(0, i as int));
        assert(ys.subrange(0, i + 1).subrange(0, i as int) =~= ys.subrange(0, i as int));
        if !values_equal(st, &x[i], &y[i], depth) {
            assert(!seq_eq(st@, xs.subrange(0, i + 1), ys.subrange(0, i + 1), depth as nat));
            proof {
                if seq_eq(st@, xs, ys, depth as nat) {
                    lemma_seq_eq_prefix(st@, xs, ys, depth as nat, (i + 1) as nat);
                }
            }
            return false;
        }
        i = i + 1;
    }
    assert(xs.subrange(0, x.len() as int) =~= xs);
    assert(ys.subrange(0, y.len() as int) =~= ys);
    true
}

/// Sequences that are equal have equal prefixes.
pub proof fn lemma_seq_eq_prefix(st: StoreModel, x: Seq<Datum>, y: Seq<Datum>, depth: nat, n: nat)
    requires
        x.len() == y.len(),
        n <= x.len(),
        seq_eq(st, x, y, depth),
    ensures
        seq_eq(st, x.subrange(0, n as int), y.subrange(0, n as int), depth),
    decreases x.len() - n,
{
    if n < x.len() {
        let m = x.len() - 1;
        assert(x.subrange(0, m as int) =~= x.subrange(0, x.len() - 1));
        lemma_seq_eq_prefix(
            st,
            x.subrange(0, m as int),
            y.subrange(0, m as int),
            depth,
            n,
        );
        assert(x.subrange(0, m as int).subrange(0, n as int) =~= x.subrange(0, n as int));
        assert(y.subrange(0, m as int).subrange(0, n as int) =~= y.subrange(0, n as int));
    } else {
        assert(x.subrange(0, n as int) =~= x);
        assert(y.subrange(0, n as int) =~= y);
    }
}

/// Entries that all lie within `y` have prefixes that do too.
pub proof fn lemma_within_prefix(st: StoreModel, x: Entries, y: Entries, depth: nat, n: nat)
    requires
        n <= x.len(),
        entries_within(st, x, y, depth),
    ensures
        entries_within(st, x.subrange(0, n as int), y, depth),
    decreases x.len() - n,
{
    if n < x.len() {
        let m = x.len() - 1;
        lemma_within_prefix(st, x.subrange(0, m as int), y, depth, n);
        assert(x.subrange(0, m as int).subrange(0, n as int) =~= x.subrange(0, n as int));
    } else {
        assert(x.subrange(0, n as int) =~= x);
    }
}

/// Whether each entry of `x` is found in `y` with an equal value.
pub fn entries_within_exec(st: &Store, x: &Vec<(String, Value)>, y: &Vec<(String, Value)>, depth: usize) -> (r: bool)
    ensures
        r == entries_within(st@, entries_view(x@), entries_view(y@), depth as nat),
    decreases depth, x,
{
    let ghost xs = entries_view(x@);
    let ghost ys = entries_view(y@);
    let mut i: usize = 0;
    while i < x.len()
        invariant
            i <= x.len(),
            xs == entries_view(x@),
            ys == entries_view(y@),
            entries_within(st@, xs.subrange(0, i as int), ys, depth as nat),
        decreases x.len() - i,
    {
        assert(xs.subrange(0, i + 1).subrange(0, i as int) =~= xs.subrange(0, i as int));
        let ok = match find_entry(y, &x[i].0) {
            Some(j) => {
                proof {
                    lemma_key_index_range(ys, x@[i as int].0@);
                }
                values_equal(st, &x[i].1, &y[j].1, depth)
            },
            None => false,
        };
        if !ok {
            proof {
                if entries_within(st@, xs, ys, depth as nat) {
                    lemma_within_prefix(st@, xs, ys, depth as nat, (i + 1) as nat);
                }
            }
            return false;
        }
        i = i + 1;
    }
    assert(xs.subrange(0, x.len() as int) =~= xs);
    true
}

/// `equal?`: structural equality, following arrays and maps as far as
/// `container_depth` allows.
pub fn equal_values(st: &Store, a: &Value, b: &Value) -> (r: bool)
    ensures
        r == datum_eq(st@, a@, b@, container_depth(st@)),
{
    values_equal(st, a, b, container_limit(st))
}

} // verus!
