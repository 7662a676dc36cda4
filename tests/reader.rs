use rusty_scheme::env::Store;
use rusty_scheme::error::SchemeError;
use rusty_scheme::lexer::{tokenize, Token};
use rusty_scheme::parser::parse;
use rusty_scheme::value::Value;

fn read(text: &str) -> Result<Value, SchemeError> {
    let mut st = Store::new();
    parse(&mut st, text)
}

#[test]
fn blank_text_reads_as_empty_symbol() {
    assert!(matches!(read("   "), Ok(Value::Symbol(s)) if s.is_empty()));
    assert!(matches!(read("; only a comment"), Ok(Value::Symbol(s)) if s.is_empty()));
}

#[test]
fn quote_mark_reads_as_quote_form() {
    match read("'x") {
        Ok(Value::List(items)) => {
            assert_eq!(items.len(), 2);
            assert!(matches!(&items[0], Value::Symbol(s) if s == "quote"));
            assert!(matches!(&items[1], Value::Symbol(s) if s == "x"));
        },
        other => panic!("expected a quote form, got {:?}", other),
    }
}

#[test]
fn literals_read_as_data() {
    assert!(matches!(read("-42"), Ok(Value::Integer(-42))));
    assert!(matches!(read("#f"), Ok(Value::Bool(false))));
    assert!(matches!(read("\"a\\nb\\\"\""), Ok(Value::String(s)) if s == "a\nb\""));
    assert!(matches!(read("-x"), Ok(Value::Symbol(s)) if s == "-x"));
    assert!(matches!(read("(a ; note\n b)"), Ok(Value::List(v)) if v.len() == 2));
    assert!(matches!(read("-9223372036854775808"), Ok(Value::Integer(i64::MIN))));
}

#[test]
fn array_and_map_literals_allocate() {
    let mut st = Store::new();
    assert!(matches!(parse(&mut st, "[1, 2,]"), Ok(Value::Array(0))));
    assert_eq!(st.arrays[0].len(), 2);
    assert!(matches!(parse(&mut st, "{a: 1, b: [2]}"), Ok(Value::Table(0))));
    assert_eq!(st.tables[0].len(), 2);
    assert_eq!(st.arrays.len(), 2);
}

#[test]
fn malformed_text_is_a_parser_fault() {
    assert!(matches!(read("(1 2"), Err(SchemeError::Parser(m)) if m == "Unmatched '('"));
    assert!(matches!(read(")"), Err(SchemeError::Parser(m)) if m == "Unexpected ')'"));
    assert!(matches!(read("#x"), Err(SchemeError::Parser(m)) if m == "Invalid boolean literal: #x"));
    assert!(matches!(read("#"), Err(SchemeError::Parser(_))));
    assert!(matches!(read("1 2"), Err(SchemeError::Parser(m)) if m == "Unexpected tokens after expression"));
    assert!(matches!(read("[1 2]"), Err(SchemeError::Parser(_))));
    assert!(matches!(read("[,]"), Err(SchemeError::Parser(_))));
    assert!(matches!(read("{a 1}"), Err(SchemeError::Parser(m)) if m == "Expected ':' after map key 'a'"));
    assert!(matches!(read("{a: }"), Err(SchemeError::Parser(_))));
    assert!(matches!(read("{1: 2}"), Err(SchemeError::Parser(_))));
    assert!(matches!(read("\"\\q\""), Err(SchemeError::Parser(_))));
    assert!(matches!(read("99999999999999999999"), Err(SchemeError::Parser(m)) if m == "Invalid integer literal: 99999999999999999999"));
    assert!(matches!(read("."), Err(SchemeError::Parser(_))));
}

#[test]
fn tokens_of_text() {
    let toks = tokenize("(a 'b) [1, 2] {k: \"v\"}").unwrap();
    assert_eq!(toks.len(), 15);
    assert!(matches!(toks[0], Token::LParen));
    assert!(matches!(&toks[1], Token::Symbol(s) if s == "a"));
    assert!(matches!(toks[2], Token::Quote));
    assert!(matches!(toks[6], Token::Integer(1)));
    assert!(matches!(toks[7], Token::Comma));
    assert!(matches!(&toks[13], Token::Str(s) if s == "v"));
}
