use vstd::prelude::*;
use crate::env::{Entries, Store, StoreModel};
use crate::text::{int_text, push_char, write_int};
use crate::value::{prim_name, strings_view, views, Datum, Value};

verus! {

/// The elements of array `a`; a handle with no array has none.
pub open spec fn array_items(st: StoreModel, a: nat) -> Seq<Datum> {
    if a < st.arrays.len() {
        st.arrays[a as int]
    } else {
        Seq::empty()
    }
}

/// The entries of map `m`; a handle with no map has none.
pub open spec fn table_entries(st: StoreModel, m: nat) -> Entries {
    if m < st.tables.len() {
        st.tables[m as int]
    } else {
        Seq::empty()
    }
}

/// How deeply printing and structural equality follow arrays and maps: as
/// many levels as the store has containers, so that data without cycles is
/// followed to the end.
pub open spec fn container_depth(st: StoreModel) -> nat {
    if st.arrays.len() + st.tables.len() <= usize::MAX {
        st.arrays.len() + st.tables.len()
    } else {
        usize::MAX as nat
    }
}

/// The names `s`, separated by `sep`.
pub open spec fn join(s: Seq<Seq<char>>, sep: Seq<char>) -> Seq<char>
    decreases s.len(),
{
    if s.len() == 0 {
        Seq::empty()
    } else if s.len() == 1 {
        s[0]
    } else {
        join(s.drop_last(), sep) + sep + s.last()
    }
}

/// The printed form of a datum. Containers nested deeper than `depth` print
/// as `[...]` and `{...}`.
pub open spec fn render(st: StoreModel, d: Datum, depth: nat) -> Seq<char>
    decreases depth, d,
{
    match d {
        Datum::Integer(n) => int_text(n as int),
        Datum::Bool(b) => if b {
            "#t"@
        } else {
            "#f"@
        },
        Datum::Symbol(s) => s,
        Datum::Str(s) => seq!['"'] + s + seq!['"'],
        Datum::Nil => "()"@,
        Datum::List(l) => seq!['('] + render_seq(st, l, depth, " "@) + seq![')'],
        Datum::Array(a) => if depth == 0 {
            "[...]"@
        } else {
            seq!['['] + render_seq(st, array_items(st, a), (depth - 1) as nat, ", "@) + seq![']']
        },
        Datum::Table(m) => if depth == 0 {
            "{...}"@
        } else {
            seq!['{'] + render_entries(st, table_entries(st, m), (depth - 1) as nat) + seq!['}']
        },
        Datum::Lambda { params, .. } => "#<procedure:"@ + join(params, " "@) + ">"@,
        Datum::Builtin(p) => "#<builtin:"@ + prim_name(p) + ">"@,
    }
}

/// The printed forms of `s`, separated by `sep`.
pub open spec fn render_seq(st: StoreModel, s: Seq<Datum>, depth: nat, sep: Seq<char>) -> Seq<char>
    decreases depth, s, s.len(),
{
    if s.len() == 0 {
        Seq::empty()
    } else if s.len() == 1 {
        render(st, s[0], depth)
    } else {
        render_seq(st, s.subrange(0, s.len() - 1), depth, sep) + sep + render(st, s[s.len() - 1], depth)
    }
}

/// The entries `b` printed as `key: value`, separated by `, `.
pub open spec fn render_entries(st: StoreModel, b: Entries, depth: nat) -> Seq<char>
    decreases depth, b, b.len(),
{
    if b.len() == 0 {
        Seq::empty()
    } else if b.len() == 1 {
        b[0].0 + ": "@ + render(st, b[0].1, depth)
    } else {
        render_entries(st, b.subrange(0, b.len() - 1), depth) + ", "@ + b[b.len() - 1].0 + ": "@ + render(
            st,
            b[b.len() - 1].1,
            depth,
        )
    }
}

/// Appends the names `s`, separated by `sep`.
pub fn write_joined(s: &Vec<String>, sep: &str, out: &mut String)
    ensures
        final(out)@ == old(out)@ + join(strings_view(s@), sep@),
{
    let ghost names = strings_view(s@);
    let mut i: usize = 0;
    assert(names.subrange(0, 0) =~= Seq::<Seq<char>>::empty());
    assert(old(out)@ + join(names.subrange(0, 0), sep@) =~= old(out)@);
    while i < s.len()
        invariant
            i <= s.len(),
            names == strings_view(s@),
            out@ == old(out)@ + join(names.subrange(0, i as int), sep@),
        decreases s.len() - i,
    {
        let ghost before = out@;
        assert(names.subrange(0, i + 1).drop_last() =~= names.subrange(0, i as int));
        if i > 0 {
            out.append(sep);
        }
        out.append(s[i].as_str());
        assert(out@ =~= old(out)@ + join(names.subrange(0, i + 1), sep@));
        i = i + 1;
    }
    assert(names.subrange(0, s.len() as int) =~= names);
}

/// Appends the printed form of `v`.
pub fn write_value(st: &Store, v: &Value, depth: usize, out: &mut String)
    ensures
        final(out)@ == old(out)@ + render(st@, v@, depth as nat),
    decreases depth, v,
{
    match v {
        Value::Integer(n) => write_int(out, *n),
        Value::Bool(b) => {
            if *b {
                out.append("#t");
            } else {
                out.append("#f");
            }
        },
        Value::Symbol(s) => out.append(s.as_str()),
        Value::String(s) => {
            push_char(out, '"');
            out.append(s.as_str());
            push_char(out, '"');
            assert(out@ =~= old(out)@ + render(st@, v@, depth as nat));
        },
        Value::Nil => out.append("()"),
        Value::List(l) => {
            proof {
                Value::lemma_list_view(*l);
            }
            push_char(out, '(');
            write_values(st, l, depth, " ", out);
            push_char(out, ')');
            assert(out@ =~= old(out)@ + render(st@, v@, depth as nat));
        },
        Value::Array(a) => {
            if depth == 0 {
                out.append("[...]");
            } else {
                push_char(out, '[');
                if *a < st.arrays.len() {
                    write_values(st, &st.arrays[*a], depth - 1, ", ", out);
                } else {
                    let empty: Vec<Value> = Vec::new();
                    assert(views(empty@) =~= Seq::empty());
                    write_values(st, &empty, depth - 1, ", ", out);
                }
                push_char(out, ']');
                assert(out@ =~= old(out)@ + render(st@, v@, depth as nat));
            }
        },
        Value::Table(m) => {
            if depth == 0 {
                out.append("{...}");
            } else {
                push_char(out, '{');
                if *m < st.tables.len() {
                    write_entries(st, &st.tables[*m], depth - 1, out);
                } else {
                    let empty: Vec<(String, Value)> = Vec::new();
                    assert(crate::env::entries_view(empty@) =~= Seq::empty());
                    write_entries(st, &empty, depth - 1, out);
                }
                push_char(out, '}');
                assert(out@ =~= old(out)@ + render(st@, v@, depth as nat));
            }
        },
        Value::Lambda { params, .. } => {
            out.append("#<procedure:");
            write_joined(params, " ", out);
            out.append(">");
            assert(out@ =~= old(out)@ + render(st@, v@, depth as nat));
        },
        Value::Builtin(p) => {
            out.append("#<builtin:");
            out.append(p.name());
            out.append(">");
            assert(out@ =~= old(out)@ + render(st@, v@, depth as nat));
        },
    }
}

/// Appends the printed forms of `items`, separated by `sep`.
pub fn write_values(st: &Store, items: &Vec<Value>, depth: usize, sep: &str, out: &mut String)
    ensures
        final(out)@ == old(out)@ + render_seq(st@, views(items@), depth as nat, sep@),
    decreases depth, items,
{
    let ghost ds = views(items@);
    let mut i: usize = 0;
    assert(old(out)@ + render_seq(st@, ds.subrange(0, 0), depth as nat, sep@) =~= old(out)@);
    while i < items.len()
        invariant
            i <= items.len(),
            ds == views(items@),
            out@ == old(out)@ + render_seq(st@, ds.subrange(0, i as int), depth as nat, sep@),
        decreases items.len() - i,
    {
        assert(ds.subrange(0, i + 1).subrange(0, i as int) =~= ds.subrange(0, i as int));
        if i > 0 {
            out.append(sep);
        }
        write_value(st, &items[i], depth, out);
        assert(out@ =~= old(out)@ + render_seq(st@, ds.subrange(0, i + 1), depth as nat, sep@));
        i = i + 1;
    }
    assert(ds.subrange(0, items.len() as int) =~= ds);
}

/// Appends the entries `b` printed as `key: value`, separated by `, `.
pub fn write_entries(st: &Store, b: &Vec<(String, Value)>, depth: usize, out: &mut String)
    ensures
        final(out)@ == old(out)@ + render_entries(st@, crate::env::entries_view(b@), depth as nat),
    decreases depth, b,
{
    let ghost es = crate::env::entries_view(b@);
    let mut i: usize = 0;
    assert(old(out)@ + render_entries(st@, es.subrange(0, 0), depth as nat) =~= old(out)@);
    while i < b.len()
        invariant
            i <= b.len(),
            es == crate::env::entries_view(b@),
            out@ == old(out)@ + render_entries(st@, es.subrange(0, i as int), depth as nat),
        decreases b.len() - i,
    {
        assert(es.subrange(0, i + 1).subrange(0, i as int) =~= es.subrange(0, i as int));
        if i > 0 {
            out.append(", ");
        }
        out.append(b[i].0.as_str());
        out.append(": ");
        write_value(st, &b[i].1, depth, out);
        assert(out@ =~= old(out)@ + render_entries(st@, es.subrange(0, i + 1), depth as nat));
        i = i + 1;
    }
    assert(es.subrange(0, b.len() as int) =~= es);
}

/// `container_depth` of the store.
pub fn container_limit(st: &Store) -> (r: usize)
    ensures
        r as nat == container_depth(st@),
{
    if st.arrays.len() <= usize::MAX - st.tables.len() {
        st.arrays.len() + st.tables.len()
    } else {
        usize::MAX
    }
}

/// The printed form of `v`, following arrays and maps as far as
/// `container_depth` allows.
pub fn show(st: &Store, v: &Value) -> (r: String)
    ensures
        r@ == render(st@, v@, container_depth(st@)),
{
    let mut out = String::new();
    let depth = container_limit(st);
    write_value(st, v, depth, &mut out);
    assert(out@ =~= render(st@, v@, container_depth(st@)));
    out
}

} // verus!
