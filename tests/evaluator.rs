use rusty_scheme::builtins::populate_environment;
use rusty_scheme::env::Store;
use rusty_scheme::error::SchemeError;
use rusty_scheme::eval::{evaluate, evaluate_trampolined};
use rusty_scheme::parser::parse;
use rusty_scheme::print::show;
use rusty_scheme::value::Value;

fn global() -> Store {
    let mut st = Store::new();
    populate_environment(&mut st.scopes[0]);
    st
}

fn run(st: &mut Store, text: &str) -> Result<Value, SchemeError> {
    let expr = parse(st, text).expect("the text reads");
    evaluate(st, &expr, 0)
}

fn shown(st: &mut Store, text: &str) -> String {
    match run(st, text) {
        Ok(v) => show(st, &v),
        Err(e) => panic!("{} failed: {:?}", text, e),
    }
}

fn as_int(v: Result<Value, SchemeError>) -> i64 {
    match v {
        Ok(Value::Integer(n)) => n,
        other => panic!("expected an integer, got {:?}", other),
    }
}

fn as_bool(v: Result<Value, SchemeError>) -> bool {
    match v {
        Ok(Value::Bool(b)) => b,
        other => panic!("expected a boolean, got {:?}", other),
    }
}

#[test]
fn tail_calls_run_a_million_iterations() {
    let mut st = global();
    run(&mut st, "(define count (lambda (n) (if (= n 0) 0 (count (- n 1)))))").unwrap();
    assert_eq!(as_int(run(&mut st, "(count 1000000)")), 0);
    assert_eq!(st.scopes.len(), 1);
}

#[test]
fn tail_calls_through_begin_accumulate() {
    let mut st = global();
    run(&mut st, "(define sum (lambda (n acc) (begin 0 (if (= n 0) acc (sum (- n 1) (+ acc n))))))").unwrap();
    assert_eq!(as_int(run(&mut st, "(sum 100000 0)")), 5000050000);
}

#[test]
fn closure_sees_later_assignment() {
    let mut st = global();
    run(&mut st, "(define x 1)").unwrap();
    run(&mut st, "(define get-x (lambda () x))").unwrap();
    assert_eq!(as_int(run(&mut st, "(get-x)")), 1);
    run(&mut st, "(set! x 2)").unwrap();
    assert_eq!(as_int(run(&mut st, "(get-x)")), 2);
}

#[test]
fn closure_counter_keeps_its_own_state() {
    let mut st = global();
    run(&mut st, "(define make (lambda () (begin (define n 0) (lambda () (begin (set! n (+ n 1)) n)))))").unwrap();
    run(&mut st, "(define c (make))").unwrap();
    run(&mut st, "(define d (make))").unwrap();
    assert_eq!(as_int(run(&mut st, "(c)")), 1);
    assert_eq!(as_int(run(&mut st, "(c)")), 2);
    assert_eq!(as_int(run(&mut st, "(d)")), 1);
}

#[test]
fn inner_define_shadows_outer_binding() {
    let mut st = global();
    run(&mut st, "(define x 10)").unwrap();
    run(&mut st, "(define g (lambda () (define x 20) x))").unwrap();
    assert_eq!(as_int(run(&mut st, "(g)")), 20);
    assert_eq!(as_int(run(&mut st, "x")), 10);
    run(&mut st, "(define h (lambda (x) (+ x 1)))").unwrap();
    assert_eq!(as_int(run(&mut st, "(h 5)")), 6);
    assert_eq!(as_int(run(&mut st, "x")), 10);
}

#[test]
fn quote_returns_datum_unevaluated() {
    let mut st = global();
    assert_eq!(shown(&mut st, "'(a (b c) 1)"), "(a (b c) 1)");
    assert_eq!(shown(&mut st, "(quote (if #f 1 2))"), "(if #f 1 2)");
    assert_eq!(as_int(run(&mut st, "(quote 5)")), 5);
    assert_eq!(as_int(run(&mut st, "5")), 5);
    assert_eq!(shown(&mut st, "(eval '(+ 1 2))"), "3");
    assert!(matches!(run(&mut st, "(quote)"), Err(SchemeError::Arity { got: 0, .. })));
}

#[test]
fn two_parameter_closure_called_with_one_argument() {
    let mut st = global();
    run(&mut st, "(define f (lambda (a b) a))").unwrap();
    match run(&mut st, "(f 1)") {
        Err(SchemeError::Arity { expected, got }) => {
            assert_eq!(expected, "2");
            assert_eq!(got, 1);
        },
        other => panic!("expected an arity fault, got {:?}", other),
    }
}

#[test]
fn array_index_out_of_bounds_is_runtime_fault() {
    let mut st = global();
    run(&mut st, "(define a (make-array 3 0))").unwrap();
    match run(&mut st, "(array-ref a 3)") {
        Err(SchemeError::Runtime(m)) => assert_eq!(m, "Array index out of bounds: 3"),
        other => panic!("expected a runtime fault, got {:?}", other),
    }
    assert!(matches!(run(&mut st, "(array-set! a 7 1)"), Err(SchemeError::Runtime(_))));
    match run(&mut st, "(array-ref a -1)") {
        Err(SchemeError::Runtime(m)) => assert_eq!(m, "Array index out of bounds: 18446744073709551615"),
        other => panic!("expected a runtime fault, got {:?}", other),
    }
}

#[test]
fn if_false_without_else_is_nil() {
    let mut st = global();
    assert!(matches!(run(&mut st, "(if #f 1)"), Ok(Value::Nil)));
    assert_eq!(as_int(run(&mut st, "(if #f 1 2)")), 2);
    assert_eq!(as_int(run(&mut st, "(if 0 1 2)")), 1);
    assert_eq!(as_int(run(&mut st, "(if '() 1 2)")), 1);
    assert!(matches!(run(&mut st, "(if #t)"), Err(SchemeError::Arity { got: 1, .. })));
}

#[test]
fn empty_maps_are_equal() {
    let mut st = global();
    assert!(as_bool(run(&mut st, "(equal? (make-map) (make-map))")));
    assert!(as_bool(run(&mut st, "(equal? {} {})")));
    assert!(as_bool(run(&mut st, "(equal? [] [])")));
    assert!(as_bool(run(&mut st, "(equal? {a: 1, b: [2]} {b: [2], a: 1})")));
    assert!(!as_bool(run(&mut st, "(equal? {a: 1} {a: 2})")));
    assert!(!as_bool(run(&mut st, "(equal? [1 ,2] [1])")));
}

#[test]
fn closures_are_never_equal() {
    let mut st = global();
    run(&mut st, "(define f (lambda (x) x))").unwrap();
    run(&mut st, "(define g (lambda (x) x))").unwrap();
    assert!(!as_bool(run(&mut st, "(equal? f g)")));
    assert!(!as_bool(run(&mut st, "(equal? f f)")));
    assert!(!as_bool(run(&mut st, "(equal? car car)")));
    assert!(as_bool(run(&mut st, "(equal? '(1 \"a\" b) (list 1 \"a\" 'b))")));
}

#[test]
fn arithmetic_results() {
    let mut st = global();
    assert_eq!(as_int(run(&mut st, "(+ 1 2 3)")), 6);
    assert_eq!(as_int(run(&mut st, "(+)")), 0);
    assert_eq!(as_int(run(&mut st, "(- 10 3 2)")), 5);
    assert_eq!(as_int(run(&mut st, "(- 5)")), -5);
    assert_eq!(as_int(run(&mut st, "(* 2 3 4)")), 24);
    assert_eq!(as_int(run(&mut st, "(*)")), 1);
    assert_eq!(as_int(run(&mut st, "(/ 20 3)")), 6);
    assert_eq!(as_int(run(&mut st, "(/ -7 2)")), -3);
    assert_eq!(as_int(run(&mut st, "(/ 100 5 2)")), 10);
}

#[test]
fn arithmetic_faults() {
    let mut st = global();
    match run(&mut st, "(/ 1 0)") {
        Err(SchemeError::Runtime(m)) => assert_eq!(m, "Division by zero"),
        other => panic!("expected division by zero, got {:?}", other),
    }
    match run(&mut st, "(/ 5)") {
        Err(SchemeError::Arity { expected, got }) => {
            assert_eq!(expected, "at least 2 for integer division");
            assert_eq!(got, 1);
        },
        other => panic!("expected an arity fault, got {:?}", other),
    }
    assert!(matches!(run(&mut st, "(/ 0)"), Err(SchemeError::Runtime(_))));
    assert!(matches!(run(&mut st, "(-)"), Err(SchemeError::Arity { got: 0, .. })));
    match run(&mut st, "(+ 1 \"a\")") {
        Err(SchemeError::Type { expected, found }) => {
            assert_eq!(expected, "integer");
            assert_eq!(found, "string");
        },
        other => panic!("expected a type fault, got {:?}", other),
    }
    assert!(matches!(run(&mut st, "(+ 9223372036854775807 1)"), Err(SchemeError::Runtime(_))));
    assert!(matches!(run(&mut st, "(- -9223372036854775808)"), Err(SchemeError::Runtime(_))));
}

#[test]
fn comparisons() {
    let mut st = global();
    assert!(as_bool(run(&mut st, "(< 1 2 3)")));
    assert!(!as_bool(run(&mut st, "(< 1 3 2)")));
    assert!(as_bool(run(&mut st, "(> 3 2 1)")));
    assert!(!as_bool(run(&mut st, "(> 3 3)")));
    assert!(as_bool(run(&mut st, "(= 4 4 4)")));
    assert!(!as_bool(run(&mut st, "(= 4 5 \"x\")")));
    assert!(matches!(run(&mut st, "(< 1)"), Err(SchemeError::Arity { got: 1, .. })));
    assert!(matches!(run(&mut st, "(< 1 'a)"), Err(SchemeError::Type { .. })));
}

#[test]
fn list_operations() {
    let mut st = global();
    assert_eq!(shown(&mut st, "(cons 1 '(2 3))"), "(1 2 3)");
    assert_eq!(shown(&mut st, "(cons 1 (cdr '(2)))"), "(1)");
    assert_eq!(as_int(run(&mut st, "(car '(7 8))")), 7);
    assert_eq!(shown(&mut st, "(cdr '(7 8 9))"), "(8 9)");
    assert!(matches!(run(&mut st, "(cdr '(7))"), Ok(Value::Nil)));
    assert_eq!(shown(&mut st, "(list 1 \"s\" #t)"), "(1 \"s\" #t)");
    assert!(matches!(run(&mut st, "(car '())"), Err(SchemeError::Type { .. })));
    assert!(matches!(run(&mut st, "(cons 1 2)"), Err(SchemeError::Type { .. })));
    assert!(matches!(run(&mut st, "(car)"), Err(SchemeError::Arity { got: 0, .. })));
}

#[test]
fn type_predicates() {
    let mut st = global();
    assert!(as_bool(run(&mut st, "(null? (if #f 1))")));
    assert!(as_bool(run(&mut st, "(boolean? #f)")));
    assert!(as_bool(run(&mut st, "(symbol? 'a)")));
    assert!(as_bool(run(&mut st, "(integer? -4)")));
    assert!(as_bool(run(&mut st, "(string? \"s\")")));
    assert!(as_bool(run(&mut st, "(list? '(1))")));
    assert!(as_bool(run(&mut st, "(procedure? car)")));
    assert!(as_bool(run(&mut st, "(procedure? (lambda () 1))")));
    assert!(as_bool(run(&mut st, "(array? [1])")));
    assert!(as_bool(run(&mut st, "(map? {})")));
    assert!(!as_bool(run(&mut st, "(integer? \"1\")")));
    assert!(matches!(run(&mut st, "(null? 1 2)"), Err(SchemeError::Arity { got: 2, .. })));
}

#[test]
fn arrays_are_shared_and_mutable() {
    let mut st = global();
    run(&mut st, "(define a (make-array 2))").unwrap();
    run(&mut st, "(define b a)").unwrap();
    run(&mut st, "(array-set! b 1 42)").unwrap();
    assert_eq!(as_int(run(&mut st, "(array-ref a 1)")), 42);
    assert_eq!(as_int(run(&mut st, "(array-length a)")), 2);
    assert_eq!(shown(&mut st, "a"), "[(), 42]");
    assert!(matches!(run(&mut st, "(make-array -1)"), Err(SchemeError::Runtime(_))));
    assert!(matches!(run(&mut st, "(array-ref 5 0)"), Err(SchemeError::Type { .. })));
    assert!(matches!(run(&mut st, "(make-array)"), Err(SchemeError::Arity { got: 0, .. })));
}

#[test]
fn maps_store_and_return_values() {
    let mut st = global();
    run(&mut st, "(define m (make-map))").unwrap();
    run(&mut st, "(map-set! m 'k 1)").unwrap();
    run(&mut st, "(map-set! m \"k\" 2)").unwrap();
    assert_eq!(as_int(run(&mut st, "(map-ref m 'k)")), 2);
    assert!(matches!(run(&mut st, "(map-ref m 'missing)"), Ok(Value::Nil)));
    assert_eq!(shown(&mut st, "(map-keys m)"), "(k)");
    assert_eq!(shown(&mut st, "m"), "{k: 2}");
    assert!(matches!(run(&mut st, "(map-ref m 1)"), Err(SchemeError::Type { .. })));
    assert!(matches!(run(&mut st, "(map-set! 1 'a 2)"), Err(SchemeError::Type { .. })));
    assert_eq!(as_int(run(&mut st, "(map-ref {x: 5} 'x)")), 5);
}

#[test]
fn display_and_newline_write_output() {
    let mut st = global();
    assert!(matches!(run(&mut st, "(display \"hi\" 1 '(a))"), Ok(Value::Nil)));
    run(&mut st, "(newline)").unwrap();
    assert_eq!(st.output, "hi 1 (a)\n\n");
    assert!(matches!(run(&mut st, "(newline 1)"), Err(SchemeError::Arity { got: 1, .. })));
}

#[test]
fn lookup_and_application_faults() {
    let mut st = global();
    match run(&mut st, "nowhere") {
        Err(SchemeError::UndefinedVariable(n)) => assert_eq!(n, "nowhere"),
        other => panic!("expected an undefined variable, got {:?}", other),
    }
    assert!(matches!(run(&mut st, "(set! nowhere 1)"), Err(SchemeError::UndefinedVariable(_))));
    match run(&mut st, "(5 1)") {
        Err(SchemeError::NotProcedure(m)) => assert_eq!(m, "5"),
        other => panic!("expected a non-procedure fault, got {:?}", other),
    }
    assert!(matches!(run(&mut st, "(define 1 2)"), Err(SchemeError::Type { .. })));
    assert!(matches!(run(&mut st, "(lambda)"), Err(SchemeError::Eval(_))));
    assert!(matches!(run(&mut st, "(lambda (1) 1)"), Err(SchemeError::Eval(_))));
    assert!(matches!(run(&mut st, "(lambda x 1)"), Err(SchemeError::Eval(_))));
}

#[test]
fn begin_and_lambda_bodies() {
    let mut st = global();
    assert!(matches!(run(&mut st, "(begin)"), Ok(Value::Nil)));
    assert_eq!(as_int(run(&mut st, "(begin 1 2)")), 2);
    run(&mut st, "(define f (lambda (x) (define y (* x 2)) (+ y 1)))").unwrap();
    assert_eq!(as_int(run(&mut st, "(f 4)")), 9);
    run(&mut st, "(define dup (lambda (x x) x))").unwrap();
    assert_eq!(as_int(run(&mut st, "(dup 1 2)")), 2);
    assert!(matches!(run(&mut st, "()"), Ok(Value::Nil)));
    assert!(matches!(run(&mut st, ""), Ok(Value::Nil)));
}

#[test]
fn printed_forms() {
    let mut st = global();
    assert_eq!(shown(&mut st, "\"a b\""), "\"a b\"");
    assert_eq!(shown(&mut st, "#t"), "#t");
    assert_eq!(shown(&mut st, "[1, [2], \"x\"]"), "[1, [2], \"x\"]");
    assert_eq!(shown(&mut st, "(lambda (a b) a)"), "#<procedure:a b>");
    assert_eq!(shown(&mut st, "car"), "#<builtin:car>");
    assert_eq!(shown(&mut st, "-12"), "-12");
}

#[test]
fn fuel_bounds_an_endless_loop() {
    let mut st = global();
    run(&mut st, "(define spin (lambda () (spin)))").unwrap();
    let call = parse(&mut st, "(spin)").unwrap();
    let (r, left) = evaluate_trampolined(&mut st, &call, 0, 50);
    match r {
        Err(SchemeError::Runtime(m)) => assert_eq!(m, "Evaluation step limit reached"),
        other => panic!("expected the step limit, got {:?}", other),
    }
    assert_eq!(left, 0);
    assert_eq!(st.scopes.len(), 1);
}

#[test]
fn faults_inside_calls_leave_no_scopes_behind() {
    let mut st = global();
    run(&mut st, "(define bad (lambda (n) (car n)))").unwrap();
    assert!(matches!(run(&mut st, "(bad 1)"), Err(SchemeError::Type { .. })));
    assert_eq!(st.scopes.len(), 1);
    run(&mut st, "(define keep (lambda (n) (lambda () n)))").unwrap();
    run(&mut st, "(define k (keep 7))").unwrap();
    assert_eq!(as_int(run(&mut st, "(k)")), 7);
    assert_eq!(st.scopes.len(), 2);
}

#[test]
fn operator_is_checked_before_operands_run() {
    let mut st = global();
    run(&mut st, "(define x 0)").unwrap();
    match run(&mut st, "(1 (set! x 5))") {
        Err(SchemeError::NotProcedure(m)) => assert_eq!(m, "1"),
        other => panic!("expected a non-procedure fault, got {:?}", other),
    }
    assert_eq!(as_int(run(&mut st, "x")), 0);
}

#[test]
fn map_keys_are_listed_once() {
    let mut st = global();
    run(&mut st, "(define m {a: 1, a: 2, b: 3})").unwrap();
    run(&mut st, "(map-set! m 'b 4)").unwrap();
    run(&mut st, "(map-set! m \"a\" 5)").unwrap();
    assert_eq!(shown(&mut st, "(map-keys m)"), "(a b)");
    assert_eq!(as_int(run(&mut st, "(map-ref m 'a)")), 5);
}
