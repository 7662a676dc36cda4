use vstd::prelude::*;
use crate::env::{entries_view, entry_put, put_entry, Entries, Store, StoreModel};
use crate::error::{Fault, SchemeError};
use crate::lexer::{lex_from, tokenize, toks_view, Tok, Token};
use crate::text::text;
use crate::value::{views, Datum, Value};

verus! {

/// Where reading ends: the store (array and map literals are allocated in
/// it), and the datum read with the position after it, or a fault.
pub type Read = (StoreModel, Result<(Datum, nat), Fault>);

pub open spec fn perr(m: Seq<char>) -> Fault {
    Fault::Parser(m)
}

/// Reads one datum from token `i` on.
pub open spec fn parse_expr_s(st: StoreModel, ts: Seq<Tok>, i: nat) -> Read
    decreases ts.len() - i, 0nat,
{
    if i >= ts.len() {
        (st, Err(perr("Unexpected end of input"@)))
    } else {
        match ts[i as int] {
            Tok::LParen => parse_list_s(st, ts, i + 1, Seq::empty()),
            Tok::LBracket => parse_array_s(st, ts, i + 1, Seq::empty(), false),
            Tok::LBrace => parse_map_s(st, ts, i + 1, Seq::empty(), false, false, None),
            Tok::Quote => {
                let (st2, r) = parse_expr_s(st, ts, i + 1);
                match r {
                    Ok((d, j)) => (st2, Ok((Datum::List(seq![Datum::Symbol("quote"@), d]), j))),
                    Err(e) => (st2, Err(e)),
                }
            },
            Tok::RParen => (st, Err(perr("Unexpected ')'"@))),
            Tok::RBracket => (st, Err(perr("Unexpected ']'"@))),
            Tok::RBrace => (st, Err(perr("Unexpected '}'"@))),
            Tok::Colon => (st, Err(perr("Unexpected ':'"@))),
            Tok::Comma => (st, Err(perr("Unexpected ','"@))),
            Tok::Dot => (st, Err(perr("Unexpected '.'"@))),
            Tok::Symbol(s) => (st, Ok((Datum::Symbol(s), i + 1))),
            Tok::Integer(n) => (st, Ok((Datum::Integer(n), i + 1))),
            Tok::Bool(b) => (st, Ok((Datum::Bool(b), i + 1))),
            Tok::Str(s) => (st, Ok((Datum::Str(s), i + 1))),
        }
    }
}

/// Reads the rest of a list literal whose elements so far are `acc`.
pub open spec fn parse_list_s(st: StoreModel, ts: Seq<Tok>, i: nat, acc: Seq<Datum>) -> Read
    decreases ts.len() - i, 1nat,
{
    if i >= ts.len() {
        (st, Err(perr("Unmatched '('"@)))
    } else if ts[i as int] is RParen {
        (st, Ok((Datum::List(acc), i + 1)))
    } else {
        let (st2, r) = parse_expr_s(st, ts, i);
        match r {
            Err(e) => (st2, Err(e)),
            Ok((d, j)) => if j <= i || j > ts.len() {
                (st2, Err(perr("Unexpected end of input"@)))
            } else {
                parse_list_s(st2, ts, j, acc.push(d))
            },
        }
    }
}

/// Reads the rest of an array literal `[a, b, ...]` whose elements so far
/// are `acc`; a trailing comma is allowed. The array is allocated when it closes.
pub open spec fn parse_array_s(st: StoreModel, ts: Seq<Tok>, i: nat, acc: Seq<Datum>, expect_comma: bool) -> Read
    decreases ts.len() - i, 1nat,
{
    if i >= ts.len() {
        (st, Err(perr("Unmatched '['"@)))
    } else {
        match ts[i as int] {
            Tok::RBracket => (
                StoreModel { arrays: st.arrays.push(acc), ..st },
                Ok((Datum::Array(st.arrays.len()), i + 1)),
            ),
            Tok::Comma => if !expect_comma {
                (st, Err(perr("Unexpected comma in array literal"@)))
            } else {
                parse_array_s(st, ts, i + 1, acc, false)
            },
            _ => if expect_comma {
                (st, Err(perr("Expected comma or ']' in array literal"@)))
            } else {
                let (st2, r) = parse_expr_s(st, ts, i);
                match r {
                    Err(e) => (st2, Err(e)),
                    Ok((d, j)) => if j <= i || j > ts.len() {
                        (st2, Err(perr("Unexpected end of input"@)))
                    } else {
                        parse_array_s(st2, ts, j, acc.push(d), true)
                    },
                }
            },
        }
    }
}

/// Reads the value of a map entry at `i` and goes on after it.
pub open spec fn parse_map_value_s(st: StoreModel, ts: Seq<Tok>, i: nat, acc: Entries, key: Seq<char>) -> Read
    decreases ts.len() - i, 2nat,
{
    let (st2, r) = parse_expr_s(st, ts, i);
    match r {
        Err(e) => (st2, Err(e)),
        Ok((d, j)) => if j <= i || j > ts.len() {
            (st2, Err(perr("Unexpected end of input"@)))
        } else {
            parse_map_s(st2, ts, j, entry_put(acc, key, d), true, false, None)
        },
    }
}

/// Reads the rest of a map literal `{k: v, ...}` whose entries so far are
/// `acc`; keys are symbols, a repeated key keeps its last value, and a
/// trailing comma is allowed. The map is allocated when it closes.
pub open spec fn parse_map_s(
    st: StoreModel,
    ts: Seq<Tok>,
    i: nat,
    acc: Entries,
    expect_comma: bool,
    expect_value: bool,
    key: Option<Seq<char>>,
) -> Read
    decreases ts.len() - i, 3nat,
{
    if i >= ts.len() {
        (st, Err(perr("Unmatched '{'"@)))
    } else {
        match ts[i as int] {
            Tok::RBrace => if expect_value {
                (st, Err(perr("Expected value before '}' in map literal"@)))
            } else if key is Some {
                (st, Err(perr("Expected ':' and value before '}' in map literal"@)))
            } else {
                (StoreModel { tables: st.tables.push(acc), ..st }, Ok((Datum::Table(st.tables.len()), i + 1)))
            },
            Tok::Comma => if !expect_comma {
                (st, Err(perr("Unexpected comma in map literal"@)))
            } else if expect_value || key is Some {
                (st, Err(perr("Unexpected comma after key or colon in map literal"@)))
            } else {
                parse_map_s(st, ts, i + 1, acc, false, expect_value, key)
            },
            Tok::Colon => if key is None || expect_value {
                (st, Err(perr("Unexpected colon in map literal"@)))
            } else {
                parse_map_s(st, ts, i + 1, acc, expect_comma, true, key)
            },
            Tok::Symbol(k) => if expect_value {
                parse_map_value_s(st, ts, i, acc, key->Some_0)
            } else if key is Some {
                (st, Err(perr("Expected ':' after map key"@)))
            } else if expect_comma {
                (st, Err(perr("Expected comma before next key in map literal"@)))
            } else {
                parse_map_s(st, ts, i + 1, acc, expect_comma, expect_value, Some(k))
            },
            _ => if expect_value {
                parse_map_value_s(st, ts, i, acc, key->Some_0)
            } else if key is Some {
                (st, Err(perr("Expected ':' after map key '"@ + key->Some_0 + "'"@)))
            } else {
                (st, Err(perr("Unexpected token \"token\" in map literal; expected key (symbol)"@)))
            },
        }
    }
}

/// Reads a whole text: blank text (only space and comments) reads as the
/// empty symbol; otherwise exactly one datum, with nothing after it.
pub open spec fn parse_spec(st: StoreModel, input: Seq<char>) -> (StoreModel, Result<Datum, Fault>) {
    match lex_from(input, 0) {
        Err(e) => (st, Err(e)),
        Ok(ts) => if ts.len() == 0 {
            (st, Ok(Datum::Symbol(Seq::empty())))
        } else {
            let (st2, r) = parse_expr_s(st, ts, 0);
            match r {
                Err(e) => (st2, Err(e)),
                Ok((d, j)) => if j < ts.len() {
                    (st2, Err(perr("Unexpected tokens after expression"@)))
                } else {
                    (st2, Ok(d))
                },
            }
        },
    }
}

pub open spec fn read_view(r: Result<(Value, usize), SchemeError>) -> Result<(Datum, nat), Fault> {
    match r {
        Ok((v, j)) => Ok((v@, j as nat)),
        Err(e) => Err(e@),
    }
}

/// Reads one datum from token `i` on.
pub fn parse_expr(store: &mut Store, ts: &Vec<Token>, i: usize) -> (r: Result<(Value, usize), SchemeError>)
    requires
        i <= ts@.len(),
    ensures
        parse_expr_s(old(store)@, toks_view(ts@), i as nat) == (final(store)@, read_view(r)),
        r matches Ok((_, j)) ==> i < j <= ts@.len(),
    decreases ts@.len() - i, 0nat,
{
    if i >= ts.len() {
        return Err(SchemeError::Parser(text("Unexpected end of input")));
    }
    assert(toks_view(ts@)[i as int] == ts@[i as int]@);
    match &ts[i] {
        Token::LParen => parse_list(store, ts, i + 1),
        Token::LBracket => parse_array(store, ts, i + 1),
        Token::LBrace => parse_map(store, ts, i + 1),
        Token::Quote => match parse_expr(store, ts, i + 1) {
            Ok((d, j)) => {
                let mut items: Vec<Value> = Vec::new();
                items.push(Value::Symbol(text("quote")));
                items.push(d);
                proof {
                    Value::lemma_list_view(items);
                    assert(views(items@) =~= seq![Datum::Symbol("quote"@), items@[1]@]);
                }
                Ok((Value::List(items), j))
            },
            Err(e) => Err(e),
        },
        Token::RParen => Err(SchemeError::Parser(text("Unexpected ')'"))),
        Token::RBracket => Err(SchemeError::Parser(text("Unexpected ']'"))),
        Token::RBrace => Err(SchemeError::Parser(text("Unexpected '}'"))),
        Token::Colon => Err(SchemeError::Parser(text("Unexpected ':'"))),
        Token::Comma => Err(SchemeError::Parser(text("Unexpected ','"))),
        Token::Dot => Err(SchemeError::Parser(text("Unexpected '.'"))),
        Token::Symbol(s) => Ok((Value::Symbol(s.clone()), i + 1)),
        Token::Integer(n) => Ok((Value::Integer(*n), i + 1)),
        Token::Bool(b) => Ok((Value::Bool(*b), i + 1)),
        Token::Str(s) => Ok((Value::String(s.clone()), i + 1)),
    }
}

/// Reads the rest of a list literal from token `i` on.
pub fn parse_list(store: &mut Store, ts: &Vec<Token>, i: usize) -> (r: Result<(Value, usize), SchemeError>)
    requires
        i <= ts@.len(),
    ensures
        parse_list_s(old(store)@, toks_view(ts@), i as nat, Seq::empty()) == (final(store)@, read_view(r)),
        r matches Ok((_, j)) ==> i < j <= ts@.len(),
    decreases ts@.len() - i, 1nat,
{
    let ghost t = toks_view(ts@);
    let mut items: Vec<Value> = Vec::new();
    let mut k = i;
    assert(views(items@) =~= Seq::<Datum>::empty());
    while k < ts.len()
        invariant
            i <= k <= ts@.len(),
            t == toks_view(ts@),
            parse_list_s(old(store)@, t, i as nat, Seq::empty()) == parse_list_s(store@, t, k as nat, views(items@)),
        decreases ts@.len() - k,
    {
        assert(t[k as int] == ts@[k as int]@);
        if let Token::RParen = &ts[k] {
            proof {
                Value::lemma_list_view(items);
            }
            return Ok((Value::List(items), k + 1));
        }
        match parse_expr(store, ts, k) {
            Err(e) => {
                return Err(e);
            },
            Ok((d, j)) => {
                let ghost before = views(items@);
                items.push(d);
                assert(views(items@) =~= before.push(items@[items@.len() - 1]@));
                k = j;
            },
        }
    }
    Err(SchemeError::Parser(text("Unmatched '('")))
}

/// Reads the rest of an array literal from token `i` on.
pub fn parse_array(store: &mut Store, ts: &Vec<Token>, i: usize) -> (r: Result<(Value, usize), SchemeError>)
    requires
        i <= ts@.len(),
    ensures
        parse_array_s(old(store)@, toks_view(ts@), i as nat, Seq::empty(), false) == (final(store)@, read_view(r)),
        r matches Ok((_, j)) ==> i < j <= ts@.len(),
    decreases ts@.len() - i, 1nat,
{
    let ghost t = toks_view(ts@);
    let mut items: Vec<Value> = Vec::new();
    let mut expect_comma = false;
    let mut k = i;
    assert(views(items@) =~= Seq::<Datum>::empty());
    while k < ts.len()
        invariant
            i <= k <= ts@.len(),
            t == toks_view(ts@),
            parse_array_s(old(store)@, t, i as nat, Seq::empty(), false) == parse_array_s(
                store@,
                t,
                k as nat,
                views(items@),
                expect_comma,
            ),
        decreases ts@.len() - k,
    {
        assert(t[k as int] == ts@[k as int]@);
        match &ts[k] {
            Token::RBracket => {
                let h = store.arrays.len();
                let ghost st = store@;
                let ghost iv = views(items@);
                store.arrays.push(items);
                assert(store@.arrays =~= st.arrays.push(iv));
                return Ok((Value::Array(h), k + 1));
            },
            Token::Comma => {
                if !expect_comma {
                    return Err(SchemeError::Parser(text("Unexpected comma in array literal")));
                }
                expect_comma = false;
                k = k + 1;
            },
            _ => {
                if expect_comma {
                    return Err(SchemeError::Parser(text("Expected comma or ']' in array literal")));
                }
                match parse_expr(store, ts, k) {
                    Err(e) => {
                        return Err(e);
                    },
                    Ok((d, j)) => {
                        let ghost before = views(items@);
                        items.push(d);
                        assert(views(items@) =~= before.push(items@[items@.len() - 1]@));
                        expect_comma = true;
                        k = j;
                    },
                }
            },
        }
    }
    Err(SchemeError::Parser(text("Unmatched '['")))
}

pub open spec fn key_view(k: Option<String>) -> Option<Seq<char>> {
    match k {
        Some(s) => Some(s@),
        None => None,
    }
}

/// Reads the rest of a map literal from token `i` on.
pub fn parse_map(store: &mut Store, ts: &Vec<Token>, i: usize) -> (r: Result<(Value, usize), SchemeError>)
    requires
        i <= ts@.len(),
    ensures
        parse_map_s(old(store)@, toks_view(ts@), i as nat, Seq::empty(), false, false, None) == (
            final(store)@,
            read_view(r),
        ),
        r matches Ok((_, j)) ==> i < j <= ts@.len(),
    decreases ts@.len() - i, 3nat,
{
    let ghost t = toks_view(ts@);
    let mut entries: Vec<(String, Value)> = Vec::new();
    let mut expect_comma = false;
    let mut expect_value = false;
    let mut key: Option<String> = None;
    let mut k = i;
    assert(entries_view(entries@) =~= Seq::<(Seq<char>, Datum)>::empty());
    while k < ts.len()
        invariant
            i <= k <= ts@.len(),
            t == toks_view(ts@),
            expect_value ==> key is Some,
            parse_map_s(old(store)@, t, i as nat, Seq::empty(), false, false, None) == parse_map_s(
                store@,
                t,
                k as nat,
                entries_view(entries@),
                expect_comma,
                expect_value,
                key_view(key),
            ),
        decreases ts@.len() - k,
    {
        assert(t[k as int] == ts@[k as int]@);
        let is_value = match &ts[k] {
            Token::RBrace => {
                if expect_value {
                    return Err(SchemeError::Parser(text("Expected value before '}' in map literal")));
                }
                if key.is_some() {
                    return Err(SchemeError::Parser(text("Expected ':' and value before '}' in map literal")));
                }
                let h = store.tables.len();
                let ghost st = store@;
                let ghost ev = entries_view(entries@);
                store.tables.push(entries);
                assert(store@.tables =~= st.tables.push(ev));
                return Ok((Value::Table(h), k + 1));
            },
            Token::Comma => {
                if !expect_comma {
                    return Err(SchemeError::Parser(text("Unexpected comma in map literal")));
                }
                if expect_value || key.is_some() {
                    return Err(SchemeError::Parser(text("Unexpected comma after key or colon in map literal")));
                }
                expect_comma = false;
                k = k + 1;
                false
            },
            Token::Colon => {
                if key.is_none() || expect_value {
                    return Err(SchemeError::Parser(text("Unexpected colon in map literal")));
                }
                expect_value = true;
                k = k + 1;
                false
            },
            Token::Symbol(s) => {
                if expect_value {
                    true
                } else if key.is_some() {
                    return Err(SchemeError::Parser(text("Expected ':' after map key")));
                } else if expect_comma {
                    return Err(SchemeError::Parser(text("Expected comma before next key in map literal")));
                } else {
                    key = Some(s.clone());
                    k = k + 1;
                    false
                }
            },
            _ => {
                if expect_value {
                    true
                } else {
                    match &key {
                        Some(name) => {
                            let mut m = text("Expected ':' after map key '");
                            m.append(name.as_str());
                            m.append("'");
                            return Err(SchemeError::Parser(m));
                        },
                        None => {
                            return Err(
                                SchemeError::Parser(text("Unexpected token \"token\" in map literal; expected key (symbol)")),
                            );
                        },
                    }
                }
            },
        };
        if is_value {
            assert(parse_map_s(store@, t, k as nat, entries_view(entries@), expect_comma, expect_value, key_view(key))
                == parse_map_value_s(store@, t, k as nat, entries_view(entries@), key_view(key)->Some_0));
            let ghost st_before = store@;
            let ghost ev = entries_view(entries@);
            let ghost kv = key_view(key)->Some_0;
            match parse_expr(store, ts, k) {
                Err(e) => {
                    return Err(e);
                },
                Ok((d, j)) => {
                    let name = key.unwrap();
                    assert(name@ == kv);
                    put_entry(&mut entries, name, d);
                    assert(parse_map_value_s(st_before, t, k as nat, ev, kv) == parse_map_s(
                        store@,
                        t,
                        j as nat,
                        entries_view(entries@),
                        true,
                        false,
                        None,
                    ));
                    key = None;
                    expect_value = false;
                    expect_comma = true;
                    k = j;
                },
            }
        }
    }
    Err(SchemeError::Parser(text("Unmatched '{'")))
}

/// Reads program text as one datum. Blank text reads as the empty symbol,
/// which evaluates to `()`. Array and map literals are allocated in `store`.
pub fn parse(store: &mut Store, input: &str) -> (r: Result<Value, SchemeError>)
    ensures
        parse_spec(old(store)@, input@) == (final(store)@, crate::builtins::result_view(r)),
{
    let tokens = match tokenize(input) {
        Ok(t) => t,
        Err(e) => {
            return Err(e);
        },
    };
    if tokens.len() == 0 {
        let s = String::new();
        return Ok(Value::Symbol(s));
    }
    match parse_expr(store, &tokens, 0) {
        Err(e) => Err(e),
        Ok((v, j)) => {
            if j < tokens.len() {
                Err(SchemeError::Parser(text("Unexpected tokens after expression")))
            } else {
                Ok(v)
            }
        },
    }
}

} // verus!
