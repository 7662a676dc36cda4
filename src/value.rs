use vstd::prelude::*;
use crate::error::{Fault, SchemeError};
use crate::text::text;

verus! {

/// The primitive procedures that the global scope binds.
#[derive(Clone, Copy, PartialEq, Eq, Structural, Debug)]
pub enum Primitive {
    Add,
    Subtract,
    Multiply,
    Divide,
    NumEq,
    Less,
    Greater,
    Cons,
    Car,
    Cdr,
    List,
    IsNull,
    IsBoolean,
    IsSymbol,
    IsInteger,
    IsString,
    IsList,
    IsProcedure,
    IsArray,
    IsMap,
    EqualQ,
    MakeArray,
    ArrayRef,
    ArraySet,
    ArrayLength,
    MakeMap,
    MapRef,
    MapSet,
    MapKeys,
    Display,
    Newline,
    Eval,
}

/// The name that the global scope binds a primitive to.
pub open spec fn prim_name(p: Primitive) -> Seq<char> {
    match p {
        Primitive::Add => "+"@,
        Primitive::Subtract => "-"@,
        Primitive::Multiply => "*"@,
        Primitive::Divide => "/"@,
        Primitive::NumEq => "="@,
        Primitive::Less => "<"@,
        Primitive::Greater => ">"@,
        Primitive::Cons => "cons"@,
        Primitive::Car => "car"@,
        Primitive::Cdr => "cdr"@,
        Primitive::List => "list"@,
        Primitive::IsNull => "null?"@,
        Primitive::IsBoolean => "boolean?"@,
        Primitive::IsSymbol => "symbol?"@,
        Primitive::IsInteger => "integer?"@,
        Primitive::IsString => "string?"@,
        Primitive::IsList => "list?"@,
        Primitive::IsProcedure => "procedure?"@,
        Primitive::IsArray => "array?"@,
        Primitive::IsMap => "map?"@,
        Primitive::EqualQ => "equal?"@,
        Primitive::MakeArray => "make-array"@,
        Primitive::ArrayRef => "array-ref"@,
        Primitive::ArraySet => "array-set!"@,
        Primitive::ArrayLength => "array-length"@,
        Primitive::MakeMap => "make-map"@,
        Primitive::MapRef => "map-ref"@,
        Primitive::MapSet => "map-set!"@,
        Primitive::MapKeys => "map-keys"@,
        Primitive::Display => "display"@,
        Primitive::Newline => "newline"@,
        Primitive::Eval => "eval"@,
    }
}

impl Primitive {
    /// The name that the global scope binds this primitive to.
    pub fn name(&self) -> (r: &'static str)
        ensures
            r@ == prim_name(*self),
    {
        match self {
            Primitive::Add => "+",
            Primitive::Subtract => "-",
            Primitive::Multiply => "*",
            Primitive::Divide => "/",
            Primitive::NumEq => "=",
            Primitive::Less => "<",
            Primitive::Greater => ">",
            Primitive::Cons => "cons",
            Primitive::Car => "car",
            Primitive::Cdr => "cdr",
            Primitive::List => "list",
            Primitive::IsNull => "null?",
            Primitive::IsBoolean => "boolean?",
            Primitive::IsSymbol => "symbol?",
            Primitive::IsInteger => "integer?",
            Primitive::IsString => "string?",
            Primitive::IsList => "list?",
            Primitive::IsProcedure => "procedure?",
            Primitive::IsArray => "array?",
            Primitive::IsMap => "map?",
            Primitive::EqualQ => "equal?",
            Primitive::MakeArray => "make-array",
            Primitive::ArrayRef => "array-ref",
            Primitive::ArraySet => "array-set!",
            Primitive::ArrayLength => "array-length",
            Primitive::MakeMap => "make-map",
            Primitive::MapRef => "map-ref",
            Primitive::MapSet => "map-set!",
            Primitive::MapKeys => "map-keys",
            Primitive::Display => "display",
            Primitive::Newline => "newline",
            Primitive::Eval => "eval",
        }
    }
}

/// A runtime datum. Arrays, maps and closures' scopes live in a `Store` and
/// are named here by their handles, so that copies of a value share them.
#[derive(Debug)]
pub enum Value {
    Integer(i64),
    Bool(bool),
    Symbol(String),
    String(String),
    Nil,
    List(Vec<Value>),
    Array(usize),
    Table(usize),
    Lambda { params: Vec<String>, body: Box<Value>, env: usize },
    Builtin(Primitive),
}

/// The mathematical model of a `Value`.
pub enum Datum {
    Integer(i64),
    Bool(bool),
    Symbol(Seq<char>),
    Str(Seq<char>),
    Nil,
    List(Seq<Datum>),
    Array(nat),
    Table(nat),
    Lambda { params: Seq<Seq<char>>, body: Box<Datum>, env: nat },
    Builtin(Primitive),
}

pub open spec fn strings_view(v: Seq<String>) -> Seq<Seq<char>> {
    Seq::new(v.len(), |i: int| v[i]@)
}

impl Value {
    pub open spec fn view(&self) -> Datum
        decreases self,
    {
        match self {
            Value::Integer(n) => Datum::Integer(*n),
            Value::Bool(b) => Datum::Bool(*b),
            Value::Symbol(s) => Datum::Symbol(s@),
            Value::String(s) => Datum::Str(s@),
            Value::Nil => Datum::Nil,
            Value::List(v) => Datum::List(
                Seq::new(
                    v.len() as nat,
                    |i: int|
                        if 0 <= i < v.len() {
                            v[i].view()
                        } else {
                            Datum::Nil
                        },
                ),
            ),
            Value::Array(a) => Datum::Array(*a as nat),
            Value::Table(m) => Datum::Table(*m as nat),
            Value::Lambda { params, body, env } => Datum::Lambda {
                params: strings_view(params@),
                body: Box::new((**body).view()),
                env: *env as nat,
            },
            Value::Builtin(p) => Datum::Builtin(*p),
        }
    }
}

/// The models of a sequence of values.
pub open spec fn views(v: Seq<Value>) -> Seq<Datum> {
    Seq::new(v.len(), |i: int| v[i]@)
}

/// The model of an optional value.
pub open spec fn opt_view(o: Option<Value>) -> Option<Datum> {
    match o {
        Some(v) => Some(v@),
        None => None,
    }
}

/// The label that type faults use for a datum's variant.
pub open spec fn type_label(d: Datum) -> Seq<char> {
    match d {
        Datum::Integer(_) => "integer"@,
        Datum::Bool(_) => "boolean"@,
        Datum::Symbol(_) => "symbol"@,
        Datum::Str(_) => "string"@,
        Datum::Nil => "nil"@,
        Datum::List(_) => "list"@,
        Datum::Array(_) => "array"@,
        Datum::Table(_) => "map"@,
        Datum::Lambda { .. } => "procedure"@,
        Datum::Builtin(_) => "procedure"@,
    }
}

pub fn copy_strings(v: &Vec<String>) -> (r: Vec<String>)
    ensures
        strings_view(r@) == strings_view(v@),
{
    let mut out: Vec<String> = Vec::new();
    let mut i: usize = 0;
    while i < v.len()
        invariant
            i <= v.len(),
            out@.len() == i,
            forall|j: int| 0 <= j < i ==> out@[j]@ == v@[j]@,
        decreases v.len() - i,
    {
        out.push(v[i].clone());
        i = i + 1;
    }
    assert(strings_view(out@) =~= strings_view(v@));
    out
}

impl Value {
    pub proof fn lemma_list_view(v: Vec<Value>)
        ensures
            Value::List(v)@ == Datum::List(views(v@)),
    {
        let l = Value::List(v);
        match l@ {
            Datum::List(s) => {
                assert(s =~= views(v@));
            },
            _ => {},
        }
    }

    /// A copy of the value; arrays, maps and scopes stay shared.
    pub fn copy(&self) -> (r: Value)
        ensures
            r@ == self@,
        decreases self,
    {
        match self {
            Value::Integer(n) => Value::Integer(*n),
            Value::Bool(b) => Value::Bool(*b),
            Value::Symbol(s) => Value::Symbol(s.clone()),
            Value::String(s) => Value::String(s.clone()),
            Value::Nil => Value::Nil,
            Value::List(v) => {
                let r = copy_values(v);
                proof {
                    Value::lemma_list_view(*v);
                    Value::lemma_list_view(r);
                }
                Value::List(r)
            },
            Value::Array(a) => Value::Array(*a),
            Value::Table(m) => Value::Table(*m),
            Value::Lambda { params, body, env } => Value::Lambda {
                params: copy_strings(params),
                body: Box::new((**body).copy()),
                env: *env,
            },
            Value::Builtin(p) => Value::Builtin(*p),
        }
    }

    /// The stable lower-case label of the value's variant.
    pub fn kind_name(&self) -> (r: String)
        ensures
            r@ == type_label(self@),
    {
        match self {
            Value::Integer(_) => text("integer"),
            Value::Bool(_) => text("boolean"),
            Value::Symbol(_) => text("symbol"),
            Value::String(_) => text("string"),
            Value::Nil => text("nil"),
            Value::List(_) => text("list"),
            Value::Array(_) => text("array"),
            Value::Table(_) => text("map"),
            Value::Lambda { .. } => text("procedure"),
            Value::Builtin(_) => text("procedure"),
        }
    }

    /// The type fault for an operation that wanted `expected` and got `found`.
    pub fn type_error(expected: &str, found: &Value) -> (r: SchemeError)
        ensures
            r@ == (Fault::Type { expected: expected@, found: type_label(found@) }),
    {
        SchemeError::Type { expected: text(expected), found: found.kind_name() }
    }
}

/// Copies of each value of `v`, in order.
pub fn copy_values(v: &Vec<Value>) -> (r: Vec<Value>)
    ensures
        views(r@) == views(v@),
    decreases v,
{
    let mut out: Vec<Value> = Vec::new();
    let mut i: usize = 0;
    while i < v.len()
        invariant
            i <= v.len(),
            out@.len() == i,
            forall|j: int| 0 <= j < i ==> out@[j]@ == v@[j]@,
        decreases v.len() - i,
    {
        out.push(v[i].copy());
        i = i + 1;
    }
    assert(views(out@) =~= views(v@));
    out
}

} // verus!
