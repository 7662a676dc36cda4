use vstd::prelude::*;
use crate::env::{entries_view, keys_unique, store_keys_unique, Frame, entry_get, entry_put, find_entry, lemma_key_index_range, put_entry, Entries, Environment, Store, StoreModel};
use crate::equality::{datum_eq, equal_values};
use crate::error::{Fault, SchemeError};
use crate::print::{array_items, container_depth, render, show, table_entries};
use crate::text::{digits, push_char, text};
use crate::value::{prim_name, type_label, views, Datum, Primitive, Value};

verus! {

/// The four arithmetic operators.
#[derive(Clone, Copy, PartialEq, Eq, Structural, Debug)]
pub enum ArithOp {
    Plus,
    Minus,
    Times,
    Quotient,
}

/// The three comparison operators.
#[derive(Clone, Copy, PartialEq, Eq, Structural, Debug)]
pub enum CompareOp {
    Equal,
    Below,
    Above,
}

pub open spec fn arity_fault(expected: Seq<char>, got: nat) -> Fault {
    Fault::Arity { expected, got }
}

pub open spec fn int_fault(d: Datum) -> Fault {
    Fault::Type { expected: "integer"@, found: type_label(d) }
}

pub open spec fn overflow_fault() -> Fault {
    Fault::Runtime("Integer overflow"@)
}

pub open spec fn zero_division_fault() -> Fault {
    Fault::Runtime("Division by zero"@)
}

pub open spec fn fits_i64(n: int) -> bool {
    i64::MIN <= n <= i64::MAX
}

/// Integer division rounding toward zero.
pub open spec fn trunc_div(a: int, b: int) -> int {
    let q = (if a < 0 { -a } else { a }) / (if b < 0 { -b } else { b });
    if (a < 0) != (b < 0) {
        -q
    } else {
        q
    }
}

/// One step of an arithmetic fold; results outside 64 bits are faults.
pub open spec fn arith_step(op: ArithOp, acc: int, x: int) -> Result<int, Fault> {
    let r = match op {
        ArithOp::Plus => acc + x,
        ArithOp::Minus => acc - x,
        ArithOp::Times => acc * x,
        ArithOp::Quotient => if x == 0 {
            0
        } else {
            trunc_div(acc, x)
        },
    };
    if op == ArithOp::Quotient && x == 0 {
        Err(zero_division_fault())
    } else if fits_i64(r) {
        Ok(r)
    } else {
        Err(overflow_fault())
    }
}

/// `init` combined by `op` with the first `n` of `args`, left to right; the
/// first non-integer or failing step ends it.
pub open spec fn arith_fold(op: ArithOp, args: Seq<Datum>, init: int, n: nat) -> Result<int, Fault>
    decreases n,
{
    if n == 0 || n > args.len() {
        Ok(init)
    } else {
        match arith_fold(op, args, init, (n - 1) as nat) {
            Err(e) => Err(e),
            Ok(acc) => match args[n - 1] {
                Datum::Integer(x) => arith_step(op, acc, x as int),
                d => Err(int_fault(d)),
            },
        }
    }
}

pub open spec fn compare(op: CompareOp, x: int, y: int) -> bool {
    match op {
        CompareOp::Equal => x == y,
        CompareOp::Below => x < y,
        CompareOp::Above => x > y,
    }
}

/// Whether each neighbouring pair of the first `n` of `args` is related by
/// `op`; it stops at the first pair that is not, before looking further.
pub open spec fn compare_chain(op: CompareOp, args: Seq<Datum>, n: nat) -> Result<bool, Fault>
    decreases n,
{
    if n == 0 || n > args.len() {
        Ok(true)
    } else if n == 1 {
        match args[0] {
            Datum::Integer(_) => Ok(true),
            d => Err(int_fault(d)),
        }
    } else {
        match compare_chain(op, args, (n - 1) as nat) {
            Err(e) => Err(e),
            Ok(false) => Ok(false),
            Ok(true) => match (args[n - 2], args[n - 1]) {
                (Datum::Integer(x), Datum::Integer(y)) => Ok(compare(op, x as int, y as int)),
                (_, d) => Err(int_fault(d)),
            },
        }
    }
}

/// The value of `+` or `*` on `args`.
pub open spec fn fold_all(op: ArithOp, args: Seq<Datum>, init: int) -> Result<Datum, Fault> {
    match arith_fold(op, args, init, args.len()) {
        Ok(v) => Ok(Datum::Integer(v as i64)),
        Err(e) => Err(e),
    }
}

/// The value of `-` or `/` on `args`: the first combined with the rest; a
/// lone argument is negated by `-` and refused by `/`.
pub open spec fn fold_rest(op: ArithOp, args: Seq<Datum>) -> Result<Datum, Fault> {
    if args.len() < 1 {
        Err(arity_fault("at least 1"@, args.len()))
    } else {
        match args[0] {
            Datum::Integer(first) => if args.len() == 1 {
                if op == ArithOp::Minus {
                    if fits_i64(-(first as int)) {
                        Ok(Datum::Integer((-(first as int)) as i64))
                    } else {
                        Err(overflow_fault())
                    }
                } else if first == 0 {
                    Err(zero_division_fault())
                } else {
                    Err(arity_fault("at least 2 for integer division"@, 1))
                }
            } else {
                match arith_fold(op, args.subrange(1, args.len() as int), first as int, (args.len() - 1) as nat) {
                    Ok(v) => Ok(Datum::Integer(v as i64)),
                    Err(e) => Err(e),
                }
            },
            d => Err(int_fault(d)),
        }
    }
}

/// The value of a comparison on `args`.
pub open spec fn compare_all(op: CompareOp, args: Seq<Datum>) -> Result<Datum, Fault> {
    if args.len() < 2 {
        Err(arity_fault("at least 2"@, args.len()))
    } else {
        match compare_chain(op, args, args.len()) {
            Ok(b) => Ok(Datum::Bool(b)),
            Err(e) => Err(e),
        }
    }
}

/// Once a fold has failed, longer folds fail with the same fault.
pub proof fn lemma_fold_err_sticks(op: ArithOp, args: Seq<Datum>, init: int, n: nat, m: nat)
    requires
        n <= m <= args.len(),
        arith_fold(op, args, init, n) is Err,
    ensures
        arith_fold(op, args, init, m) == arith_fold(op, args, init, n),
    decreases m - n,
{
    if n < m {
        lemma_fold_err_sticks(op, args, init, n, (m - 1) as nat);
    }
}

/// Folds the integers `args[from..]` into `init` by `op`.
fn fold_ints(op: ArithOp, args: &[Value], from: usize, init: i64) -> (r: Result<i64, SchemeError>)
    requires
        from <= args@.len(),
    ensures
        match arith_fold(op, views(args@).subrange(from as int, args@.len() as int), init as int, (args@.len() - from) as nat) {
            Ok(v) => r matches Ok(x) && x as int == v,
            Err(e) => r matches Err(x) && x@ == e,
        },
{
    let ghost s = views(args@).subrange(from as int, args@.len() as int);
    let mut acc: i64 = init;
    let mut i: usize = from;
    while i < args.len()
        invariant
            from <= i <= args@.len(),
            s == views(args@).subrange(from as int, args@.len() as int),
            arith_fold(op, s, init as int, (i - from) as nat) == Ok::<int, Fault>(acc as int),
        decreases args@.len() - i,
    {
        let x = match &args[i] {
            Value::Integer(x) => *x,
            other => {
                proof {
                    lemma_fold_err_sticks(op, s, init as int, (i + 1 - from) as nat, s.len());
                }
                return Err(Value::type_error("integer", other));
            },
        };
        assert(s[(i + 1 - from) - 1] == args@[i as int]@);
        let next: Option<i64> = match op {
            ArithOp::Plus => acc.checked_add(x),
            ArithOp::Minus => acc.checked_sub(x),
            ArithOp::Times => acc.checked_mul(x),
            ArithOp::Quotient => {
                if x == 0 {
                    proof {
                        lemma_fold_err_sticks(op, s, init as int, (i + 1 - from) as nat, s.len());
                    }
                    return Err(SchemeError::Runtime(text("Division by zero")));
                }
                checked_quotient(acc, x)
            },
        };
        match next {
            Some(v) => {
                acc = v;
            },
            None => {
                proof {
                    lemma_fold_err_sticks(op, s, init as int, (i + 1 - from) as nat, s.len());
                }
                return Err(SchemeError::Runtime(text("Integer overflow")));
            },
        }
        i = i + 1;
    }
    Ok(acc)
}

/// `a / b` rounded toward zero, when it fits in 64 bits.
fn checked_quotient(a: i64, b: i64) -> (r: Option<i64>)
    requires
        b != 0,
    ensures
        match r {
            Some(q) => fits_i64(trunc_div(a as int, b as int)) && q as int == trunc_div(a as int, b as int),
            None => !fits_i64(trunc_div(a as int, b as int)),
        },
{
    let ua: u128 = if a < 0 { (-(a as i128)) as u128 } else { a as u128 };
    let ub: u128 = if b < 0 { (-(b as i128)) as u128 } else { b as u128 };
    let q: u128 = ua / ub;
    assert(q <= ua) by (nonlinear_arith)
        requires ub >= 1, q == ua / ub;
    if (a < 0) != (b < 0) {
        let n: i128 = -(q as i128);
        if n < i64::MIN as i128 {
            None
        } else {
            Some(n as i64)
        }
    } else {
        if q > i64::MAX as u128 {
            None
        } else {
            Some(q as i64)
        }
    }
}

/// Maps an integer result of a fold to a value.
fn integer_result(r: Result<i64, SchemeError>) -> (o: Result<Value, SchemeError>)
    ensures
        match r {
            Ok(v) => o matches Ok(x) && x@ == Datum::Integer(v),
            Err(e) => o matches Err(x) && x@ == e@,
        },
{
    match r {
        Ok(v) => Ok(Value::Integer(v)),
        Err(e) => Err(e),
    }
}

/// `+`: the sum of integer arguments.
pub fn add(args: &[Value]) -> (r: Result<Value, SchemeError>)
    ensures
        result_view(r) == fold_all(ArithOp::Plus, views(args@), 0),
{
    assert(views(args@).subrange(0, args@.len() as int) =~= views(args@));
    integer_result(fold_ints(ArithOp::Plus, args, 0, 0))
}

/// `*`: the product of integer arguments.
pub fn multiply(args: &[Value]) -> (r: Result<Value, SchemeError>)
    ensures
        result_view(r) == fold_all(ArithOp::Times, views(args@), 1),
{
    assert(views(args@).subrange(0, args@.len() as int) =~= views(args@));
    integer_result(fold_ints(ArithOp::Times, args, 0, 1))
}

fn fold_rest_exec(op: ArithOp, args: &[Value]) -> (r: Result<Value, SchemeError>)
    requires
        op == ArithOp::Minus || op == ArithOp::Quotient,
    ensures
        result_view(r) == fold_rest(op, views(args@)),
{
    if args.len() < 1 {
        return Err(SchemeError::Arity { expected: text("at least 1"), got: args.len() });
    }
    let first = match &args[0] {
        Value::Integer(x) => *x,
        other => {
            return Err(Value::type_error("integer", other));
        },
    };
    if args.len() == 1 {
        if op == ArithOp::Minus {
            if first == i64::MIN {
                Err(SchemeError::Runtime(text("Integer overflow")))
            } else {
                Ok(Value::Integer(-first))
            }
        } else if first == 0 {
            Err(SchemeError::Runtime(text("Division by zero")))
        } else {
            Err(SchemeError::Arity { expected: text("at least 2 for integer division"), got: 1 })
        }
    } else {
        assert(views(args@).subrange(1, args@.len() as int) =~= views(args@).subrange(1, args@.len() as int));
        integer_result(fold_ints(op, args, 1, first))
    }
}

/// `-`: the first argument less the rest, or its negation when alone.
pub fn subtract(args: &[Value]) -> (r: Result<Value, SchemeError>)
    ensures
        result_view(r) == fold_rest(ArithOp::Minus, views(args@)),
{
    fold_rest_exec(ArithOp::Minus, args)
}

/// `/`: the first argument divided by each of the rest, rounding toward zero.
pub fn divide(args: &[Value]) -> (r: Result<Value, SchemeError>)
    ensures
        result_view(r) == fold_rest(ArithOp::Quotient, views(args@)),
{
    fold_rest_exec(ArithOp::Quotient, args)
}

/// A failed or false chain stays so when it is longer.
pub proof fn lemma_chain_sticks(op: CompareOp, args: Seq<Datum>, n: nat, m: nat)
    requires
        1 <= n <= m <= args.len(),
        compare_chain(op, args, n) != Ok::<bool, Fault>(true),
    ensures
        compare_chain(op, args, m) == compare_chain(op, args, n),
    decreases m - n,
{
    if n < m {
        lemma_chain_sticks(op, args, n, (m - 1) as nat);
    }
}

fn compare_exec(op: CompareOp, args: &[Value]) -> (r: Result<Value, SchemeError>)
    ensures
        result_view(r) == compare_all(op, views(args@)),
{
    let ghost s = views(args@);
    if args.len() < 2 {
        return Err(SchemeError::Arity { expected: text("at least 2"), got: args.len() });
    }
    let mut prev = match &args[0] {
        Value::Integer(x) => *x,
        other => {
            proof {
                lemma_chain_sticks(op, s, 1, s.len());
            }
            return Err(Value::type_error("integer", other));
        },
    };
    let mut i: usize = 1;
    while i < args.len()
        invariant
            1 <= i <= args@.len(),
            s == views(args@),
            compare_chain(op, s, i as nat) == Ok::<bool, Fault>(true),
            s[i - 1] == Datum::Integer(prev),
        decreases args@.len() - i,
    {
        let cur = match &args[i] {
            Value::Integer(x) => *x,
            other => {
                proof {
                    lemma_chain_sticks(op, s, (i + 1) as nat, s.len());
                }
                return Err(Value::type_error("integer", other));
            },
        };
        let holds = match op {
            CompareOp::Equal => prev == cur,
            CompareOp::Below => prev < cur,
            CompareOp::Above => prev > cur,
        };
        if !holds {
            proof {
                lemma_chain_sticks(op, s, (i + 1) as nat, s.len());
            }
            return Ok(Value::Bool(false));
        }
        prev = cur;
        i = i + 1;
    }
    Ok(Value::Bool(true))
}

/// `=`: whether all arguments are the same integer.
pub fn equals(args: &[Value]) -> (r: Result<Value, SchemeError>)
    ensures
        result_view(r) == compare_all(CompareOp::Equal, views(args@)),
{
    compare_exec(CompareOp::Equal, args)
}

/// `<`: whether the integer arguments strictly increase.
pub fn less_than(args: &[Value]) -> (r: Result<Value, SchemeError>)
    ensures
        result_view(r) == compare_all(CompareOp::Below, views(args@)),
{
    compare_exec(CompareOp::Below, args)
}

/// `>`: whether the integer arguments strictly decrease.
pub fn greater_than(args: &[Value]) -> (r: Result<Value, SchemeError>)
    ensures
        result_view(r) == compare_all(CompareOp::Above, views(args@)),
{
    compare_exec(CompareOp::Above, args)
}

/// Copies of `v[from..]`.
pub fn copy_range(v: &[Value], from: usize) -> (r: Vec<Value>)
    requires
        from <= v@.len(),
    ensures
        views(r@) == views(v@).subrange(from as int, v@.len() as int),
{
    let mut out: Vec<Value> = Vec::new();
    let mut i: usize = from;
    assert(views(out@) =~= views(v@).subrange(from as int, i as int));
    while i < v.len()
        invariant
            from <= i <= v@.len(),
            views(out@) == views(v@).subrange(from as int, i as int),
        decreases v@.len() - i,
    {
        let ghost before = out@;
        out.push(v[i].copy());
        assert(views(out@) =~= views(before).push(v@[i as int]@));
        assert(views(v@).subrange(from as int, i + 1) =~= views(v@).subrange(from as int, i as int).push(v@[i as int]@));
        i = i + 1;
    }
    out
}

pub open spec fn cons_spec(args: Seq<Datum>) -> Result<Datum, Fault> {
    if args.len() != 2 {
        Err(arity_fault("2"@, args.len()))
    } else {
        match args[1] {
            Datum::List(l) => Ok(Datum::List(seq![args[0]] + l)),
            Datum::Nil => Ok(Datum::List(seq![args[0]])),
            d => Err(Fault::Type { expected: "list or nil"@, found: type_label(d) }),
        }
    }
}

pub open spec fn car_spec(args: Seq<Datum>) -> Result<Datum, Fault> {
    if args.len() != 1 {
        Err(arity_fault("1"@, args.len()))
    } else {
        match args[0] {
            Datum::List(l) if l.len() > 0 => Ok(l[0]),
            d => Err(Fault::Type { expected: "non-empty list"@, found: type_label(d) }),
        }
    }
}

pub open spec fn cdr_spec(args: Seq<Datum>) -> Result<Datum, Fault> {
    if args.len() != 1 {
        Err(arity_fault("1"@, args.len()))
    } else {
        match args[0] {
            Datum::List(l) if l.len() > 0 => if l.len() == 1 {
                Ok(Datum::Nil)
            } else {
                Ok(Datum::List(l.subrange(1, l.len() as int)))
            },
            d => Err(Fault::Type { expected: "non-empty list"@, found: type_label(d) }),
        }
    }
}

/// `cons`: a list with one more element at the front.
pub fn cons(args: &[Value]) -> (r: Result<Value, SchemeError>)
    ensures
        result_view(r) == cons_spec(views(args@)),
{
    if args.len() != 2 {
        return Err(SchemeError::Arity { expected: text("2"), got: args.len() });
    }
    match &args[1] {
        Value::List(l) => {
            let mut out: Vec<Value> = Vec::new();
            out.push(args[0].copy());
            let mut rest = copy_range(l.as_slice(), 0);
            let ghost first = out@;
            let ghost tail = rest@;
            out.append(&mut rest);
            proof {
                Value::lemma_list_view(*l);
                Value::lemma_list_view(out);
                assert(views(l@).subrange(0, l@.len() as int) =~= views(l@));
                assert(views(out@) =~= seq![args@[0]@] + views(l@));
            }
            Ok(Value::List(out))
        },
        Value::Nil => {
            let mut out: Vec<Value> = Vec::new();
            out.push(args[0].copy());
            proof {
                Value::lemma_list_view(out);
                assert(views(out@) =~= seq![args@[0]@]);
            }
            Ok(Value::List(out))
        },
        other => Err(Value::type_error("list or nil", other)),
    }
}

/// `car`: the first element of a non-empty list.
pub fn car(args: &[Value]) -> (r: Result<Value, SchemeError>)
    ensures
        result_view(r) == car_spec(views(args@)),
{
    if args.len() != 1 {
        return Err(SchemeError::Arity { expected: text("1"), got: args.len() });
    }
    match &args[0] {
        Value::List(l) => {
            proof {
                Value::lemma_list_view(*l);
            }
            if l.len() > 0 {
                Ok(l[0].copy())
            } else {
                Err(Value::type_error("non-empty list", &args[0]))
            }
        },
        other => Err(Value::type_error("non-empty list", other)),
    }
}

/// `cdr`: a non-empty list without its first element; `()` when that leaves nothing.
pub fn cdr(args: &[Value]) -> (r: Result<Value, SchemeError>)
    ensures
        result_view(r) == cdr_spec(views(args@)),
{
    if args.len() != 1 {
        return Err(SchemeError::Arity { expected: text("1"), got: args.len() });
    }
    match &args[0] {
        Value::List(l) => {
            proof {
                Value::lemma_list_view(*l);
            }
            if l.len() == 0 {
                Err(Value::type_error("non-empty list", &args[0]))
            } else if l.len() == 1 {
                Ok(Value::Nil)
            } else {
                let out = copy_range(l.as_slice(), 1);
                proof {
                    Value::lemma_list_view(out);
                }
                Ok(Value::List(out))
            }
        },
        other => Err(Value::type_error("non-empty list", other)),
    }
}

/// `list`: the arguments as a list.
pub fn list(args: &[Value]) -> (r: Result<Value, SchemeError>)
    ensures
        result_view(r) == Ok::<Datum, Fault>(Datum::List(views(args@))),
{
    let out = copy_range(args, 0);
    proof {
        Value::lemma_list_view(out);
        assert(views(args@).subrange(0, args@.len() as int) =~= views(args@));
    }
    Ok(Value::List(out))
}

/// The variant test of each type predicate.
pub open spec fn kind_test(p: Primitive, d: Datum) -> bool {
    match p {
        Primitive::IsNull => d is Nil,
        Primitive::IsBoolean => d is Bool,
        Primitive::IsSymbol => d is Symbol,
        Primitive::IsInteger => d is Integer,
        Primitive::IsString => d is Str,
        Primitive::IsList => d is List,
        Primitive::IsProcedure => d is Lambda || d is Builtin,
        Primitive::IsArray => d is Array,
        Primitive::IsMap => d is Table,
        _ => false,
    }
}

pub open spec fn is_kind_test(p: Primitive) -> bool {
    p == Primitive::IsNull || p == Primitive::IsBoolean || p == Primitive::IsSymbol || p == Primitive::IsInteger
        || p == Primitive::IsString || p == Primitive::IsList || p == Primitive::IsProcedure
        || p == Primitive::IsArray || p == Primitive::IsMap
}

pub open spec fn predicate_spec(p: Primitive, args: Seq<Datum>) -> Result<Datum, Fault> {
    if args.len() != 1 {
        Err(arity_fault("1"@, args.len()))
    } else {
        Ok(Datum::Bool(kind_test(p, args[0])))
    }
}

/// A type predicate (`null?`, `integer?`, ...) on one argument.
pub fn type_predicate(p: Primitive, args: &[Value]) -> (r: Result<Value, SchemeError>)
    requires
        is_kind_test(p),
    ensures
        result_view(r) == predicate_spec(p, views(args@)),
{
    if args.len() != 1 {
        return Err(SchemeError::Arity { expected: text("1"), got: args.len() });
    }
    let b = match (p, &args[0]) {
        (Primitive::IsNull, Value::Nil) => true,
        (Primitive::IsBoolean, Value::Bool(_)) => true,
        (Primitive::IsSymbol, Value::Symbol(_)) => true,
        (Primitive::IsInteger, Value::Integer(_)) => true,
        (Primitive::IsString, Value::String(_)) => true,
        (Primitive::IsList, Value::List(_)) => true,
        (Primitive::IsProcedure, Value::Lambda { .. }) => true,
        (Primitive::IsProcedure, Value::Builtin(_)) => true,
        (Primitive::IsArray, Value::Array(_)) => true,
        (Primitive::IsMap, Value::Table(_)) => true,
        _ => false,
    };
    Ok(Value::Bool(b))
}

/// The position that an integer index names: negative ones wrap around 2^64,
/// far past the end of any array.
pub open spec fn index_of(i: i64) -> nat {
    if i >= 0 {
        i as nat
    } else {
        (i + 0x1_0000_0000_0000_0000) as nat
    }
}

fn index_exec(i: i64) -> (r: u64)
    ensures
        r as nat == index_of(i),
{
    if i >= 0 {
        i as u64
    } else {
        (i as i128 + 0x1_0000_0000_0000_0000i128) as u64
    }
}

pub open spec fn bounds_fault(idx: nat) -> Fault {
    Fault::Runtime("Array index out of bounds: "@ + digits(idx))
}

fn bounds_error(idx: u64) -> (r: SchemeError)
    ensures
        r@ == bounds_fault(idx as nat),
{
    let mut m = text("Array index out of bounds: ");
    crate::text::write_digits(&mut m, idx);
    SchemeError::Runtime(m)
}

pub open spec fn array_fault(d: Datum) -> Fault {
    Fault::Type { expected: "array"@, found: type_label(d) }
}

pub open spec fn map_fault(d: Datum) -> Fault {
    Fault::Type { expected: "map"@, found: type_label(d) }
}

pub open spec fn key_fault(d: Datum) -> Fault {
    Fault::Type { expected: "symbol or string"@, found: type_label(d) }
}

pub open spec fn make_array_spec(st: StoreModel, args: Seq<Datum>) -> (StoreModel, Result<Datum, Fault>) {
    if args.len() < 1 || args.len() > 2 {
        (st, Err(arity_fault("between 1 and 2"@, args.len())))
    } else {
        match args[0] {
            Datum::Integer(k) => if k < 0 {
                (st, Err(Fault::Runtime("Array size must not be negative"@)))
            } else {
                let fill = if args.len() == 2 {
                    args[1]
                } else {
                    Datum::Nil
                };
                (
                    StoreModel { arrays: st.arrays.push(Seq::new(k as nat, |i: int| fill)), ..st },
                    Ok(Datum::Array(st.arrays.len())),
                )
            },
            d => (st, Err(int_fault(d))),
        }
    }
}

pub open spec fn array_ref_spec(st: StoreModel, args: Seq<Datum>) -> Result<Datum, Fault> {
    if args.len() != 2 {
        Err(arity_fault("2"@, args.len()))
    } else {
        match args[1] {
            Datum::Integer(i) => match args[0] {
                Datum::Array(a) => if index_of(i) < array_items(st, a).len() {
                    Ok(array_items(st, a)[index_of(i) as int])
                } else {
                    Err(bounds_fault(index_of(i)))
                },
                d => Err(array_fault(d)),
            },
            d => Err(int_fault(d)),
        }
    }
}

pub open spec fn array_set_spec(st: StoreModel, args: Seq<Datum>) -> (StoreModel, Result<Datum, Fault>) {
    if args.len() != 3 {
        (st, Err(arity_fault("3"@, args.len())))
    } else {
        match args[1] {
            Datum::Integer(i) => match args[0] {
                Datum::Array(a) => if index_of(i) < array_items(st, a).len() {
                    (
                        StoreModel {
                            arrays: st.arrays.update(a as int, st.arrays[a as int].update(index_of(i) as int, args[2])),
                            ..st
                        },
                        Ok(Datum::Nil),
                    )
                } else {
                    (st, Err(bounds_fault(index_of(i))))
                },
                d => (st, Err(array_fault(d))),
            },
            d => (st, Err(int_fault(d))),
        }
    }
}

pub open spec fn array_length_spec(st: StoreModel, args: Seq<Datum>) -> Result<Datum, Fault> {
    if args.len() != 1 {
        Err(arity_fault("1"@, args.len()))
    } else {
        match args[0] {
            Datum::Array(a) => Ok(Datum::Integer(array_items(st, a).len() as i64)),
            d => Err(array_fault(d)),
        }
    }
}

/// The key text of a symbol or string.
pub open spec fn key_text(d: Datum) -> Option<Seq<char>> {
    match d {
        Datum::Symbol(s) => Some(s),
        Datum::Str(s) => Some(s),
        _ => None,
    }
}

pub open spec fn map_ref_spec(st: StoreModel, args: Seq<Datum>) -> Result<Datum, Fault> {
    if args.len() != 2 {
        Err(arity_fault("2"@, args.len()))
    } else {
        match key_text(args[1]) {
            Some(k) => match args[0] {
                Datum::Table(m) => match entry_get(table_entries(st, m), k) {
                    Some(d) => Ok(d),
                    None => Ok(Datum::Nil),
                },
                d => Err(map_fault(d)),
            },
            None => Err(key_fault(args[1])),
        }
    }
}

pub open spec fn map_set_spec(st: StoreModel, args: Seq<Datum>) -> (StoreModel, Result<Datum, Fault>) {
    if args.len() != 3 {
        (st, Err(arity_fault("3"@, args.len())))
    } else {
        match key_text(args[1]) {
            Some(k) => match args[0] {
                Datum::Table(m) => if m < st.tables.len() {
                    (
                        StoreModel {
                            tables: st.tables.update(m as int, entry_put(st.tables[m as int], k, args[2])),
                            ..st
                        },
                        Ok(Datum::Nil),
                    )
                } else {
                    (st, Ok(Datum::Nil))
                },
                d => (st, Err(map_fault(d))),
            },
            None => (st, Err(key_fault(args[1]))),
        }
    }
}

pub open spec fn map_keys_spec(st: StoreModel, args: Seq<Datum>) -> Result<Datum, Fault> {
    if args.len() != 1 {
        Err(arity_fault("1"@, args.len()))
    } else {
        match args[0] {
            Datum::Table(m) => Ok(Datum::List(
                Seq::new(table_entries(st, m).len(), |i: int| Datum::Symbol(table_entries(st, m)[i].0)),
            )),
            d => Err(map_fault(d)),
        }
    }
}

/// What `display` writes for one argument: a string's characters bare,
/// anything else in its printed form.
pub open spec fn display_one(st: StoreModel, d: Datum) -> Seq<char> {
    match d {
        Datum::Str(s) => s,
        _ => render(st, d, container_depth(st)),
    }
}

/// What `display` writes for `args`: each as `display_one`, separated by spaces.
pub open spec fn display_text(st: StoreModel, args: Seq<Datum>) -> Seq<char>
    decreases args.len(),
{
    if args.len() == 0 {
        Seq::empty()
    } else if args.len() == 1 {
        display_one(st, args[0])
    } else {
        display_text(st, args.drop_last()) + " "@ + display_one(st, args.last())
    }
}

/// No element of `ks` occurs twice.
pub open spec fn no_repeats(ks: Seq<Datum>) -> bool {
    forall|i: int, j: int| 0 <= i < j < ks.len() ==> #[trigger] ks[i] != #[trigger] ks[j]
}

/// `make-array`: a new array of `k` copies of the fill value (`()` by default).
pub fn make_array(store: &mut Store, args: &[Value]) -> (r: Result<Value, SchemeError>)
    ensures
        (final(store)@, result_view(r)) == make_array_spec(old(store)@, views(args@)),
{
    if args.len() < 1 || args.len() > 2 {
        return Err(SchemeError::Arity { expected: text("between 1 and 2"), got: args.len() });
    }
    let k = match &args[0] {
        Value::Integer(k) => *k,
        other => {
            return Err(Value::type_error("integer", other));
        },
    };
    if k < 0 {
        return Err(SchemeError::Runtime(text("Array size must not be negative")));
    }
    let ghost fill = if args.len() == 2 {
        args@[1]@
    } else {
        Datum::Nil
    };
    let mut items: Vec<Value> = Vec::new();
    let mut i: i64 = 0;
    while i < k
        invariant
            0 <= i <= k,
            views(items@) =~= Seq::new(i as nat, |j: int| fill),
            fill == (if args@.len() == 2 {
                args@[1]@
            } else {
                Datum::Nil
            }),
        decreases k - i,
    {
        let ghost before = items@;
        if args.len() == 2 {
            items.push(args[1].copy());
        } else {
            items.push(Value::Nil);
        }
        assert(views(items@) =~= views(before).push(fill));
        i = i + 1;
    }
    let h = store.arrays.len();
    store.arrays.push(items);
    proof {
        assert(store@.arrays =~= old(store)@.arrays.push(Seq::new(k as nat, |j: int| fill)));
    }
    Ok(Value::Array(h))
}

/// `array-ref`: the element at an index.
pub fn array_ref(store: &Store, args: &[Value]) -> (r: Result<Value, SchemeError>)
    ensures
        result_view(r) == array_ref_spec(store@, views(args@)),
{
    if args.len() != 2 {
        return Err(SchemeError::Arity { expected: text("2"), got: args.len() });
    }
    let i = match &args[1] {
        Value::Integer(i) => *i,
        other => {
            return Err(Value::type_error("integer", other));
        },
    };
    let idx = index_exec(i);
    match &args[0] {
        Value::Array(a) => {
            if *a < store.arrays.len() && idx < store.arrays[*a].len() as u64 {
                Ok(store.arrays[*a][idx as usize].copy())
            } else {
                Err(bounds_error(idx))
            }
        },
        other => Err(Value::type_error("array", other)),
    }
}

/// `array-set!`: replaces the element at an index, in place.
pub fn array_set(store: &mut Store, args: &[Value]) -> (r: Result<Value, SchemeError>)
    ensures
        (final(store)@, result_view(r)) == array_set_spec(old(store)@, views(args@)),
{
    if args.len() != 3 {
        return Err(SchemeError::Arity { expected: text("3"), got: args.len() });
    }
    let i = match &args[1] {
        Value::Integer(i) => *i,
        other => {
            return Err(Value::type_error("integer", other));
        },
    };
    let idx = index_exec(i);
    match &args[0] {
        Value::Array(a) => {
            let a = *a;
            if a < store.arrays.len() && idx < store.arrays[a].len() as u64 {
                let mut items: Vec<Value> = Vec::new();
                store.arrays.set_and_swap(a, &mut items);
                let ghost old_items = items@;
                items.set(idx as usize, args[2].copy());
                store.arrays.set(a, items);
                proof {
                    assert(views(items@) =~= views(old_items).update(idx as int, args@[2]@));
                    assert(store@.arrays =~= old(store)@.arrays.update(
                        a as int,
                        old(store)@.arrays[a as int].update(idx as int, args@[2]@),
                    ));
                }
                Ok(Value::Nil)
            } else {
                Err(bounds_error(idx))
            }
        },
        other => Err(Value::type_error("array", other)),
    }
}

/// `array-length`: the number of elements of an array.
pub fn array_length(store: &Store, args: &[Value]) -> (r: Result<Value, SchemeError>)
    ensures
        result_view(r) == array_length_spec(store@, views(args@)),
{
    if args.len() != 1 {
        return Err(SchemeError::Arity { expected: text("1"), got: args.len() });
    }
    match &args[0] {
        Value::Array(a) => {
            let n: usize = if *a < store.arrays.len() {
                store.arrays[*a].len()
            } else {
                0
            };
            Ok(Value::Integer(n as i64))
        },
        other => Err(Value::type_error("array", other)),
    }
}

/// `make-map`: a new empty map; any arguments are ignored.
pub fn make_map(store: &mut Store, args: &[Value]) -> (r: Result<Value, SchemeError>)
    ensures
        final(store)@ == (StoreModel { tables: old(store)@.tables.push(Seq::empty()), ..old(store)@ }),
        result_view(r) == Ok::<Datum, Fault>(Datum::Table(old(store)@.tables.len())),
{
    let h = store.tables.len();
    store.tables.push(Vec::new());
    proof {
        assert(entries_view(store.tables@[h as int]@) =~= Seq::empty());
        assert(store@.tables =~= old(store)@.tables.push(Seq::empty()));
    }
    Ok(Value::Table(h))
}

/// The key that a symbol or string argument names.
fn key_of(v: &Value) -> (r: Result<String, SchemeError>)
    ensures
        match key_text(v@) {
            Some(k) => r matches Ok(s) && s@ == k,
            None => r matches Err(e) && e@ == key_fault(v@),
        },
{
    match v {
        Value::Symbol(s) => Ok(s.clone()),
        Value::String(s) => Ok(s.clone()),
        other => Err(Value::type_error("symbol or string", other)),
    }
}

/// `map-ref`: the value under a key, `()` when there is none.
pub fn map_ref(store: &Store, args: &[Value]) -> (r: Result<Value, SchemeError>)
    ensures
        result_view(r) == map_ref_spec(store@, views(args@)),
{
    if args.len() != 2 {
        return Err(SchemeError::Arity { expected: text("2"), got: args.len() });
    }
    let key = match key_of(&args[1]) {
        Ok(k) => k,
        Err(e) => {
            return Err(e);
        },
    };
    match &args[0] {
        Value::Table(m) => {
            if *m < store.tables.len() {
                match find_entry(&store.tables[*m], &key) {
                    Some(j) => {
                        proof {
                            lemma_key_index_range(entries_view(store.tables@[*m as int]@), key@);
                        }
                        Ok(store.tables[*m][j].1.copy())
                    },
                    None => Ok(Value::Nil),
                }
            } else {
                Ok(Value::Nil)
            }
        },
        other => Err(Value::type_error("map", other)),
    }
}

/// `map-set!`: binds a key in a map, in place.
pub fn map_set(store: &mut Store, args: &[Value]) -> (r: Result<Value, SchemeError>)
    ensures
        (final(store)@, result_view(r)) == map_set_spec(old(store)@, views(args@)),
{
    if args.len() != 3 {
        return Err(SchemeError::Arity { expected: text("3"), got: args.len() });
    }
    let key = match key_of(&args[1]) {
        Ok(k) => k,
        Err(e) => {
            return Err(e);
        },
    };
    match &args[0] {
        Value::Table(m) => {
            let m = *m;
            if m < store.tables.len() {
                let mut entries: Vec<(String, Value)> = Vec::new();
                store.tables.set_and_swap(m, &mut entries);
                put_entry(&mut entries, key, args[2].copy());
                store.tables.set(m, entries);
                proof {
                    assert(store@.tables =~= old(store)@.tables.update(
                        m as int,
                        entry_put(old(store)@.tables[m as int], key_text(args@[1]@)->Some_0, args@[2]@),
                    ));
                }
            }
            Ok(Value::Nil)
        },
        other => Err(Value::type_error("map", other)),
    }
}

/// `map-keys`: the keys of a map, as symbols.
pub fn map_keys(store: &Store, args: &[Value]) -> (r: Result<Value, SchemeError>)
    ensures
        result_view(r) == map_keys_spec(store@, views(args@)),
        store_keys_unique(store@) ==> (result_view(r) matches Ok(Datum::List(ks)) ==> no_repeats(ks)),
{
    if args.len() != 1 {
        return Err(SchemeError::Arity { expected: text("1"), got: args.len() });
    }
    match &args[0] {
        Value::Table(m) => {
            let empty: Vec<(String, Value)> = Vec::new();
            assert(entries_view(empty@) =~= Seq::empty());
            let entries = if *m < store.tables.len() {
                &store.tables[*m]
            } else {
                &empty
            };
            let ghost es = entries_view(entries@);
            let mut out: Vec<Value> = Vec::new();
            let mut i: usize = 0;
            while i < entries.len()
                invariant
                    i <= entries@.len(),
                    es == entries_view(entries@),
                    views(out@) =~= Seq::new(i as nat, |j: int| Datum::Symbol(es[j].0)),
                decreases entries@.len() - i,
            {
                let ghost before = out@;
                out.push(Value::Symbol(entries[i].0.clone()));
                assert(views(out@) =~= views(before).push(Datum::Symbol(es[i as int].0)));
                i = i + 1;
            }
            proof {
                Value::lemma_list_view(out);
                if store_keys_unique(store@) {
                    if *m < store.tables.len() {
                        assert(keys_unique(store@.tables[*m as int]));
                    }
                    assert(es == table_entries(store@, *m as nat));
                    let ks = views(out@);
                    assert forall|i: int, j: int| 0 <= i < j < ks.len() implies #[trigger] ks[i] != #[trigger] ks[j] by {
                        assert(ks[i] == Datum::Symbol(es[i].0));
                        assert(ks[j] == Datum::Symbol(es[j].0));
                        assert(es[i].0 != es[j].0);
                    }
                }
            }
            Ok(Value::List(out))
        },
        other => Err(Value::type_error("map", other)),
    }
}

/// `display`: writes the arguments, separated by spaces, and a newline.
pub fn display(store: &mut Store, args: &[Value]) -> (r: Result<Value, SchemeError>)
    ensures
        final(store)@ == (StoreModel {
            output: old(store)@.output + display_text(old(store)@, views(args@)) + seq!['\n'],
            ..old(store)@
        }),
        result_view(r) == Ok::<Datum, Fault>(Datum::Nil),
{
    let ghost ds = views(args@);
    let mut line = String::new();
    let mut i: usize = 0;
    assert(ds.subrange(0, 0) =~= Seq::<Datum>::empty());
    assert(line@ =~= display_text(store@, ds.subrange(0, 0)));
    while i < args.len()
        invariant
            i <= args@.len(),
            ds == views(args@),
            line@ == display_text(store@, ds.subrange(0, i as int)),
        decreases args@.len() - i,
    {
        assert(ds.subrange(0, i + 1).drop_last() =~= ds.subrange(0, i as int));
        if i > 0 {
            push_char(&mut line, ' ');
        }
        assert(ds[i as int] == args@[i as int]@);
        let ghost one = display_one(store@, ds[i as int]);
        let ghost before = line@;
        match &args[i] {
            Value::String(s) => line.append(s.as_str()),
            other => {
                let shown = show(store, other);
                line.append(shown.as_str());
            },
        }
        assert(line@ =~= before + one);
        assert(ds.subrange(0, i + 1).last() == ds[i as int]);
        proof {
            reveal_strlit(" ");
        }
        assert(line@ =~= display_text(store@, ds.subrange(0, i + 1)));
        i = i + 1;
    }
    assert(ds.subrange(0, args@.len() as int) =~= ds);
    push_char(&mut line, '\n');
    store.output.append(line.as_str());
    proof {
        assert(store@.output =~= old(store)@.output + display_text(old(store)@, ds) + seq!['\n']);
        assert(store@.scopes =~= old(store)@.scopes);
        assert(store@.arrays =~= old(store)@.arrays);
        assert(store@.tables =~= old(store)@.tables);
    }
    Ok(Value::Nil)
}

pub open spec fn newline_spec(st: StoreModel, args: Seq<Datum>) -> (StoreModel, Result<Datum, Fault>) {
    if args.len() != 0 {
        (st, Err(arity_fault("0"@, args.len())))
    } else {
        (StoreModel { output: st.output.push('\n'), ..st }, Ok(Datum::Nil))
    }
}

/// `newline`: writes a newline.
pub fn newline(store: &mut Store, args: &[Value]) -> (r: Result<Value, SchemeError>)
    ensures
        (final(store)@, result_view(r)) == newline_spec(old(store)@, views(args@)),
{
    if args.len() != 0 {
        return Err(SchemeError::Arity { expected: text("0"), got: args.len() });
    }
    push_char(&mut store.output, '\n');
    proof {
        assert(store@.scopes =~= old(store)@.scopes);
        assert(store@.arrays =~= old(store)@.arrays);
        assert(store@.tables =~= old(store)@.tables);
    }
    Ok(Value::Nil)
}

pub open spec fn equal_spec(st: StoreModel, args: Seq<Datum>) -> Result<Datum, Fault> {
    if args.len() != 2 {
        Err(arity_fault("2"@, args.len()))
    } else {
        Ok(Datum::Bool(datum_eq(st, args[0], args[1], container_depth(st))))
    }
}

/// `equal?`: structural equality of two values.
pub fn equal_q(store: &Store, args: &[Value]) -> (r: Result<Value, SchemeError>)
    ensures
        result_view(r) == equal_spec(store@, views(args@)),
{
    if args.len() != 2 {
        return Err(SchemeError::Arity { expected: text("2"), got: args.len() });
    }
    Ok(Value::Bool(equal_values(store, &args[0], &args[1])))
}

/// What a primitive other than `eval` does to the store and returns.
pub open spec fn prim_apply(st: StoreModel, p: Primitive, args: Seq<Datum>) -> (StoreModel, Result<Datum, Fault>) {
    match p {
        Primitive::Add => (st, fold_all(ArithOp::Plus, args, 0)),
        Primitive::Subtract => (st, fold_rest(ArithOp::Minus, args)),
        Primitive::Multiply => (st, fold_all(ArithOp::Times, args, 1)),
        Primitive::Divide => (st, fold_rest(ArithOp::Quotient, args)),
        Primitive::NumEq => (st, compare_all(CompareOp::Equal, args)),
        Primitive::Less => (st, compare_all(CompareOp::Below, args)),
        Primitive::Greater => (st, compare_all(CompareOp::Above, args)),
        Primitive::Cons => (st, cons_spec(args)),
        Primitive::Car => (st, car_spec(args)),
        Primitive::Cdr => (st, cdr_spec(args)),
        Primitive::List => (st, Ok(Datum::List(args))),
        Primitive::EqualQ => (st, equal_spec(st, args)),
        Primitive::MakeArray => make_array_spec(st, args),
        Primitive::ArrayRef => (st, array_ref_spec(st, args)),
        Primitive::ArraySet => array_set_spec(st, args),
        Primitive::ArrayLength => (st, array_length_spec(st, args)),
        Primitive::MakeMap => (StoreModel { tables: st.tables.push(Seq::empty()), ..st }, Ok(Datum::Table(st.tables.len()))),
        Primitive::MapRef => (st, map_ref_spec(st, args)),
        Primitive::MapSet => map_set_spec(st, args),
        Primitive::MapKeys => (st, map_keys_spec(st, args)),
        Primitive::Display => (
            StoreModel { output: st.output + display_text(st, args) + seq!['\n'], ..st },
            Ok(Datum::Nil),
        ),
        Primitive::Newline => newline_spec(st, args),
        Primitive::Eval => (st, Err(arity_fault("1"@, args.len()))),
        _ => (st, predicate_spec(p, args)),
    }
}

/// Applies a primitive other than `eval`, which re-enters the evaluator.
pub fn apply_primitive(store: &mut Store, p: Primitive, args: &[Value]) -> (r: Result<Value, SchemeError>)
    requires
        p != Primitive::Eval,
    ensures
        (final(store)@, result_view(r)) == prim_apply(old(store)@, p, views(args@)),
{
    match p {
        Primitive::Add => crate::builtins::add(args),
        Primitive::Subtract => subtract(args),
        Primitive::Multiply => multiply(args),
        Primitive::Divide => divide(args),
        Primitive::NumEq => equals(args),
        Primitive::Less => less_than(args),
        Primitive::Greater => greater_than(args),
        Primitive::Cons => cons(args),
        Primitive::Car => car(args),
        Primitive::Cdr => cdr(args),
        Primitive::List => list(args),
        Primitive::EqualQ => equal_q(store, args),
        Primitive::MakeArray => make_array(store, args),
        Primitive::ArrayRef => array_ref(store, args),
        Primitive::ArraySet => array_set(store, args),
        Primitive::ArrayLength => array_length(store, args),
        Primitive::MakeMap => make_map(store, args),
        Primitive::MapRef => map_ref(store, args),
        Primitive::MapSet => map_set(store, args),
        Primitive::MapKeys => map_keys(store, args),
        Primitive::Display => display(store, args),
        Primitive::Newline => newline(store, args),
        Primitive::Eval => Err(SchemeError::Arity { expected: text("1"), got: args.len() }),
        _ => type_predicate(p, args),
    }
}

/// Every primitive, in the order the global scope binds them.
pub open spec fn all_primitives() -> Seq<Primitive> {
    seq![
        Primitive::Add,
        Primitive::Subtract,
        Primitive::Multiply,
        Primitive::Divide,
        Primitive::NumEq,
        Primitive::Less,
        Primitive::Greater,
        Primitive::Cons,
        Primitive::Car,
        Primitive::Cdr,
        Primitive::List,
        Primitive::IsNull,
        Primitive::IsBoolean,
        Primitive::IsSymbol,
        Primitive::IsInteger,
        Primitive::IsString,
        Primitive::IsList,
        Primitive::IsProcedure,
        Primitive::IsArray,
        Primitive::IsMap,
        Primitive::EqualQ,
        Primitive::MakeArray,
        Primitive::ArrayRef,
        Primitive::ArraySet,
        Primitive::ArrayLength,
        Primitive::MakeMap,
        Primitive::MapRef,
        Primitive::MapSet,
        Primitive::MapKeys,
        Primitive::Display,
        Primitive::Newline,
        Primitive::Eval
    ]
}

/// `b` with each primitive of `ps` bound to its name, in order.
pub open spec fn bind_primitives(b: Entries, ps: Seq<Primitive>) -> Entries
    decreases ps.len(),
{
    if ps.len() == 0 {
        b
    } else {
        entry_put(bind_primitives(b, ps.drop_last()), prim_name(ps.last()), Datum::Builtin(ps.last()))
    }
}

/// Binds every primitive under its name in `env`.
pub fn populate_environment(env: &mut Environment)
    ensures
        final(env)@ == (Frame { bindings: bind_primitives(old(env)@.bindings, all_primitives()), ..old(env)@ }),
{
    let ps: Vec<Primitive> = vec![
        Primitive::Add,
        Primitive::Subtract,
        Primitive::Multiply,
        Primitive::Divide,
        Primitive::NumEq,
        Primitive::Less,
        Primitive::Greater,
        Primitive::Cons,
        Primitive::Car,
        Primitive::Cdr,
        Primitive::List,
        Primitive::IsNull,
        Primitive::IsBoolean,
        Primitive::IsSymbol,
        Primitive::IsInteger,
        Primitive::IsString,
        Primitive::IsList,
        Primitive::IsProcedure,
        Primitive::IsArray,
        Primitive::IsMap,
        Primitive::EqualQ,
        Primitive::MakeArray,
        Primitive::ArrayRef,
        Primitive::ArraySet,
        Primitive::ArrayLength,
        Primitive::MakeMap,
        Primitive::MapRef,
        Primitive::MapSet,
        Primitive::MapKeys,
        Primitive::Display,
        Primitive::Newline,
        Primitive::Eval
    ];
    assert(ps@ =~= all_primitives());
    let mut i: usize = 0;
    assert(ps@.subrange(0, 0) =~= Seq::<Primitive>::empty());
    while i < ps.len()
        invariant
            i <= ps@.len(),
            ps@ == all_primitives(),
            env@ == (Frame { bindings: bind_primitives(old(env)@.bindings, ps@.subrange(0, i as int)), ..old(env)@ }),
        decreases ps@.len() - i,
    {
        assert(ps@.subrange(0, i + 1).drop_last() =~= ps@.subrange(0, i as int));
        let p = ps[i];
        env.define(text(p.name()), Value::Builtin(p));
        i = i + 1;
    }
    assert(ps@.subrange(0, ps@.len() as int) =~= ps@);
}

/// The model of an evaluation result.
pub open spec fn result_view(r: Result<Value, SchemeError>) -> Result<Datum, Fault> {
    match r {
        Ok(v) => Ok(v@),
        Err(e) => Err(e@),
    }
}

} // verus!
