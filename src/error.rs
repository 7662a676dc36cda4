use vstd::prelude::*;

verus! {

/// The faults that reading or evaluating can end with.
#[derive(Debug)]
pub enum SchemeError {
    Parser(String),
    Eval(String),
    Runtime(String),
    Type { expected: String, found: String },
    UndefinedVariable(String),
    NotProcedure(String),
    Arity { expected: String, got: usize },
}

/// The model of a `SchemeError`.
pub enum Fault {
    Parser(Seq<char>),
    Eval(Seq<char>),
    Runtime(Seq<char>),
    Type { expected: Seq<char>, found: Seq<char> },
    UndefinedVariable(Seq<char>),
    NotProcedure(Seq<char>),
    Arity { expected: Seq<char>, got: nat },
}

impl View for SchemeError {
    type V = Fault;

    open spec fn view(&self) -> Fault {
        match self {
            SchemeError::Parser(m) => Fault::Parser(m@),
            SchemeError::Eval(m) => Fault::Eval(m@),
            SchemeError::Runtime(m) => Fault::Runtime(m@),
            SchemeError::Type { expected, found } => Fault::Type { expected: expected@, found: found@ },
            SchemeError::UndefinedVariable(n) => Fault::UndefinedVariable(n@),
            SchemeError::NotProcedure(m) => Fault::NotProcedure(m@),
            SchemeError::Arity { expected, got } => Fault::Arity { expected: expected@, got: *got as nat },
        }
    }
}

} // verus!
