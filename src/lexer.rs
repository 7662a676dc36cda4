use vstd::prelude::*;
use crate::error::{Fault, SchemeError};
use crate::text::{chars_of, push_char, push_range, text};

verus! {

/// A token of program text.
#[derive(Debug)]
pub enum Token {
    LParen,
    RParen,
    LBracket,
    RBracket,
    LBrace,
    RBrace,
    Quote,
    Symbol(String),
    Integer(i64),
    Bool(bool),
    Str(String),
    Colon,
    Comma,
    Dot,
}

/// The model of a token.
pub enum Tok {
    LParen,
    RParen,
    LBracket,
    RBracket,
    LBrace,
    RBrace,
    Quote,
    Symbol(Seq<char>),
    Integer(i64),
    Bool(bool),
    Str(Seq<char>),
    Colon,
    Comma,
    Dot,
}

impl View for Token {
    type V = Tok;

    open spec fn view(&self) -> Tok {
        match self {
            Token::LParen => Tok::LParen,
            Token::RParen => Tok::RParen,
            Token::LBracket => Tok::LBracket,
            Token::RBracket => Tok::RBracket,
            Token::LBrace => Tok::LBrace,
            Token::RBrace => Tok::RBrace,
            Token::Quote => Tok::Quote,
            Token::Symbol(s) => Tok::Symbol(s@),
            Token::Integer(n) => Tok::Integer(*n),
            Token::Bool(b) => Tok::Bool(*b),
            Token::Str(s) => Tok::Str(s@),
            Token::Colon => Tok::Colon,
            Token::Comma => Tok::Comma,
            Token::Dot => Tok::Dot,
        }
    }
}

pub open spec fn toks_view(v: Seq<Token>) -> Seq<Tok> {
    Seq::new(v.len(), |i: int| v[i]@)
}

/// Unicode white space.
pub open spec fn is_space(c: char) -> bool {
    let u = c as u32;
    u == 0x20 || (0x09 <= u && u <= 0x0d) || u == 0x85 || u == 0xa0 || u == 0x1680 || (0x2000 <= u && u <= 0x200a)
        || u == 0x2028 || u == 0x2029 || u == 0x202f || u == 0x205f || u == 0x3000
}

/// Whether `c` is white space, as `char::is_whitespace` says.
pub fn space(c: char) -> (r: bool)
    ensures
        r == is_space(c),
{
    let u = c as u32;
    u == 0x20 || (0x09 <= u && u <= 0x0d) || u == 0x85 || u == 0xa0 || u == 0x1680 || (0x2000 <= u && u <= 0x200a)
        || u == 0x2028 || u == 0x2029 || u == 0x202f || u == 0x205f || u == 0x3000
}

pub open spec fn is_digit(c: char) -> bool {
    0x30 <= (c as u32) && (c as u32) <= 0x39
}

/// Characters that end a symbol.
pub open spec fn is_delimiter(c: char) -> bool {
    is_space(c) || c == '(' || c == ')' || c == '[' || c == ']' || c == '{' || c == '}' || c == ':' || c == ','
        || c == '\''
}

/// The position after the digits from `j`.
pub open spec fn digits_end(cs: Seq<char>, j: nat) -> nat
    decreases cs.len() - j,
{
    if j < cs.len() && is_digit(cs[j as int]) {
        digits_end(cs, j + 1)
    } else {
        j
    }
}

/// The position after the symbol characters from `j`.
pub open spec fn symbol_end(cs: Seq<char>, j: nat) -> nat
    decreases cs.len() - j,
{
    if j < cs.len() && !is_delimiter(cs[j as int]) {
        symbol_end(cs, j + 1)
    } else {
        j
    }
}

/// The position after the comment from `j`: past the next newline, or the end.
pub open spec fn line_end(cs: Seq<char>, j: nat) -> nat
    decreases cs.len() - j,
{
    if j >= cs.len() {
        j
    } else if cs[j as int] == '\n' {
        j + 1
    } else {
        line_end(cs, j + 1)
    }
}

/// The value of the decimal digits `cs[from..to]`.
pub open spec fn digits_value(cs: Seq<char>, from: int, to: int) -> int
    decreases to - from,
{
    if to <= from {
        0
    } else {
        digits_value(cs, from, to - 1) * 10 + ((cs[to - 1] as u32) - 0x30)
    }
}

/// The string literal whose body starts at `j`, as far as it has been read
/// into `acc`: its characters and the position after it. A literal that runs
/// to the end of the text ends there.
pub open spec fn string_scan(cs: Seq<char>, j: nat, acc: Seq<char>) -> Result<(Seq<char>, nat), Fault>
    decreases cs.len() - j,
{
    if j >= cs.len() {
        Ok((acc, j))
    } else if cs[j as int] == '"' {
        Ok((acc, j + 1))
    } else if cs[j as int] == '\\' {
        if j + 1 >= cs.len() {
            Err(Fault::Parser("Unterminated string literal after escape"@))
        } else {
            let e = cs[j + 1 as int];
            if e == 'n' {
                string_scan(cs, j + 2, acc.push('\n'))
            } else if e == 't' {
                string_scan(cs, j + 2, acc.push('\t'))
            } else if e == '\\' {
                string_scan(cs, j + 2, acc.push('\\'))
            } else if e == '"' {
                string_scan(cs, j + 2, acc.push('"'))
            } else {
                Err(Fault::Parser("Invalid escape sequence: \\"@.push(e)))
            }
        }
    } else {
        string_scan(cs, j + 1, acc.push(cs[j as int]))
    }
}

pub open spec fn punct(c: char) -> Option<Tok> {
    if c == '(' {
        Some(Tok::LParen)
    } else if c == ')' {
        Some(Tok::RParen)
    } else if c == '[' {
        Some(Tok::LBracket)
    } else if c == ']' {
        Some(Tok::RBracket)
    } else if c == '{' {
        Some(Tok::LBrace)
    } else if c == '}' {
        Some(Tok::RBrace)
    } else if c == '\'' {
        Some(Tok::Quote)
    } else if c == ':' {
        Some(Tok::Colon)
    } else if c == ',' {
        Some(Tok::Comma)
    } else if c == '.' {
        Some(Tok::Dot)
    } else {
        None
    }
}

/// Whether an integer literal starts at `i`: a digit, or `-` and a digit.
pub open spec fn starts_number(cs: Seq<char>, i: int) -> bool {
    is_digit(cs[i]) || (cs[i] == '-' && i + 1 < cs.len() && is_digit(cs[i + 1 as int]))
}

/// The integer literal at `i`, up to `end`: its value, if it fits in 64 bits.
pub open spec fn number_value(cs: Seq<char>, i: int, end: int) -> int {
    if cs[i] == '-' {
        -digits_value(cs, i + 1, end)
    } else {
        digits_value(cs, i, end)
    }
}

/// What the text at `i` holds: a token or nothing (space, a comment), and the
/// position after it.
pub open spec fn scan(cs: Seq<char>, i: nat) -> Result<(Option<Tok>, nat), Fault>
    recommends
        i < cs.len(),
{
    let c = cs[i as int];
    if punct(c) is Some {
        Ok((punct(c), i + 1))
    } else if c == '"' {
        match string_scan(cs, i + 1, Seq::empty()) {
            Ok((s, j)) => Ok((Some(Tok::Str(s)), j)),
            Err(e) => Err(e),
        }
    } else if is_space(c) {
        Ok((None, i + 1))
    } else if starts_number(cs, i as int) {
        let end = digits_end(cs, if c == '-' {
            i + 1
        } else {
            i
        });
        let v = number_value(cs, i as int, end as int);
        if i64::MIN <= v <= i64::MAX {
            Ok((Some(Tok::Integer(v as i64)), end))
        } else {
            Err(Fault::Parser("Invalid integer literal: "@ + cs.subrange(i as int, end as int)))
        }
    } else if c == ';' {
        Ok((None, line_end(cs, i + 1)))
    } else if c == '#' {
        if i + 1 >= cs.len() {
            Err(Fault::Parser("Incomplete boolean literal: #"@))
        } else if cs[i + 1 as int] == 't' {
            Ok((Some(Tok::Bool(true)), i + 2))
        } else if cs[i + 1 as int] == 'f' {
            Ok((Some(Tok::Bool(false)), i + 2))
        } else {
            Err(Fault::Parser("Invalid boolean literal: #"@.push(cs[i + 1 as int])))
        }
    } else {
        let end = symbol_end(cs, i);
        if end > i {
            Ok((Some(Tok::Symbol(cs.subrange(i as int, end as int))), end))
        } else {
            Err(Fault::Parser("Unexpected character: "@.push(c)))
        }
    }
}

/// The tokens of `cs` from `i` on.
pub open spec fn lex_from(cs: Seq<char>, i: nat) -> Result<Seq<Tok>, Fault>
    decreases cs.len() - i,
{
    if i >= cs.len() {
        Ok(Seq::empty())
    } else {
        match scan(cs, i) {
            Err(e) => Err(e),
            Ok((t, j)) => if j <= i || j > cs.len() {
                Err(Fault::Parser("Unexpected character: "@.push(cs[i as int])))
            } else {
                match lex_from(cs, j) {
                    Err(e) => Err(e),
                    Ok(rest) => match t {
                        Some(tok) => Ok(seq![tok] + rest),
                        None => Ok(rest),
                    },
                }
            },
        }
    }
}

fn digits_end_exec(cs: &Vec<char>, j: usize) -> (r: usize)
    requires
        j <= cs@.len(),
    ensures
        r as nat == digits_end(cs@, j as nat),
        j <= r <= cs@.len(),
        j < cs@.len() && is_digit(cs@[j as int]) ==> r > j,
{
    let mut k = j;
    while k < cs.len() && (cs[k] as u32) >= 0x30 && (cs[k] as u32) <= 0x39
        invariant
            j <= k <= cs@.len(),
            digits_end(cs@, j as nat) == digits_end(cs@, k as nat),
        decreases cs@.len() - k,
    {
        k = k + 1;
    }
    k
}

fn symbol_end_exec(cs: &Vec<char>, j: usize) -> (r: usize)
    requires
        j <= cs@.len(),
    ensures
        r as nat == symbol_end(cs@, j as nat),
        j <= r <= cs@.len(),
{
    let mut k = j;
    while k < cs.len() && !delimiter(cs[k])
        invariant
            j <= k <= cs@.len(),
            symbol_end(cs@, j as nat) == symbol_end(cs@, k as nat),
        decreases cs@.len() - k,
    {
        k = k + 1;
    }
    k
}

fn delimiter(c: char) -> (r: bool)
    ensures
        r == is_delimiter(c),
{
    space(c) || c == '(' || c == ')' || c == '[' || c == ']' || c == '{' || c == '}' || c == ':' || c == ',' || c
        == '\''
}

fn line_end_exec(cs: &Vec<char>, j: usize) -> (r: usize)
    requires
        j <= cs@.len(),
    ensures
        r as nat == line_end(cs@, j as nat),
        j <= r <= cs@.len(),
{
    let mut k = j;
    while k < cs.len()
        invariant
            j <= k <= cs@.len(),
            line_end(cs@, j as nat) == line_end(cs@, k as nat),
        decreases cs@.len() - k,
    {
        if cs[k] == '\n' {
            return k + 1;
        }
        k = k + 1;
    }
    k
}

proof fn lemma_digits_value_grows(cs: Seq<char>, from: int, to: int)
    requires
        from <= to <= cs.len(),
        forall|k: int| from <= k < to ==> is_digit(#[trigger] cs[k]),
    ensures
        digits_value(cs, from, to) >= 0,
        to > from ==> digits_value(cs, from, to) >= digits_value(cs, from, to - 1),
    decreases to - from,
{
    if to > from {
        lemma_digits_value_grows(cs, from, to - 1);
        assert(is_digit(cs[to - 1]));
    }
}

proof fn lemma_digits_value_mono(cs: Seq<char>, from: int, k: int, to: int)
    requires
        from <= k <= to <= cs.len(),
        forall|m: int| from <= m < to ==> is_digit(#[trigger] cs[m]),
    ensures
        digits_value(cs, from, to) >= digits_value(cs, from, k),
    decreases to - k,
{
    if k < to {
        lemma_digits_value_mono(cs, from, k, to - 1);
        lemma_digits_value_grows(cs, from, to);
    }
}

/// The value of the digits `cs[from..to]`, when at most 2^63.
fn digits_value_exec(cs: &Vec<char>, from: usize, to: usize) -> (r: Option<i128>)
    requires
        from <= to <= cs@.len(),
        forall|k: int| from <= k < to ==> is_digit(#[trigger] cs@[k]),
    ensures
        match r {
            Some(v) => v as int == digits_value(cs@, from as int, to as int) && 0 <= v <= 0x8000_0000_0000_0000,
            None => digits_value(cs@, from as int, to as int) > 0x8000_0000_0000_0000,
        },
{
    let mut acc: i128 = 0;
    let mut k = from;
    while k < to
        invariant
            from <= k <= to <= cs@.len(),
            forall|m: int| from <= m < to ==> is_digit(#[trigger] cs@[m]),
            acc as int == digits_value(cs@, from as int, k as int),
            0 <= acc <= 0x8000_0000_0000_0000,
        decreases to - k,
    {
        assert(is_digit(cs@[k as int]));
        let d = (cs[k] as u32 - 0x30) as i128;
        acc = acc * 10 + d;
        k = k + 1;
        if acc > 0x8000_0000_0000_0000 {
            proof {
                lemma_digits_value_mono(cs@, from as int, k as int, to as int);
            }
            return None;
        }
    }
    Some(acc)
}

/// The string literal whose body starts at `j`.
fn string_scan_exec(cs: &Vec<char>, j: usize) -> (r: Result<(String, usize), SchemeError>)
    requires
        j <= cs@.len(),
    ensures
        match string_scan(cs@, j as nat, Seq::empty()) {
            Ok((s, e)) => r matches Ok((t, k)) && t@ == s && k as nat == e && j <= k <= cs@.len(),
            Err(f) => r matches Err(x) && x@ == f,
        },
{
    let mut acc = String::new();
    let mut k = j;
    assert(acc@ =~= Seq::<char>::empty());
    while k < cs.len()
        invariant
            j <= k <= cs@.len(),
            string_scan(cs@, j as nat, Seq::empty()) == string_scan(cs@, k as nat, acc@),
        decreases cs@.len() - k,
    {
        let c = cs[k];
        if c == '"' {
            return Ok((acc, k + 1));
        } else if c == '\\' {
            if k + 1 >= cs.len() {
                return Err(SchemeError::Parser(text("Unterminated string literal after escape")));
            }
            let e = cs[k + 1];
            if e == 'n' {
                push_char(&mut acc, '\n');
            } else if e == 't' {
                push_char(&mut acc, '\t');
            } else if e == '\\' {
                push_char(&mut acc, '\\');
            } else if e == '"' {
                push_char(&mut acc, '"');
            } else {
                let mut m = text("Invalid escape sequence: \\");
                push_char(&mut m, e);
                return Err(SchemeError::Parser(m));
            }
            k = k + 2;
        } else {
            push_char(&mut acc, c);
            k = k + 1;
        }
    }
    Ok((acc, k))
}

fn punct_exec(c: char) -> (r: Option<Token>)
    ensures
        match punct(c) {
            Some(t) => r matches Some(x) && x@ == t,
            None => r is None,
        },
{
    if c == '(' {
        Some(Token::LParen)
    } else if c == ')' {
        Some(Token::RParen)
    } else if c == '[' {
        Some(Token::LBracket)
    } else if c == ']' {
        Some(Token::RBracket)
    } else if c == '{' {
        Some(Token::LBrace)
    } else if c == '}' {
        Some(Token::RBrace)
    } else if c == '\'' {
        Some(Token::Quote)
    } else if c == ':' {
        Some(Token::Colon)
    } else if c == ',' {
        Some(Token::Comma)
    } else if c == '.' {
        Some(Token::Dot)
    } else {
        None
    }
}

proof fn lemma_digits_end(cs: Seq<char>, j: nat)
    requires
        j <= cs.len(),
    ensures
        j <= digits_end(cs, j) <= cs.len(),
        forall|k: int| j <= k < digits_end(cs, j) ==> is_digit(#[trigger] cs[k]),
    decreases cs.len() - j,
{
    if j < cs.len() && is_digit(cs[j as int]) {
        lemma_digits_end(cs, j + 1);
    }
}

/// What the text at `i` holds.
fn scan_exec(cs: &Vec<char>, i: usize) -> (r: Result<(Option<Token>, usize), SchemeError>)
    requires
        i < cs@.len(),
    ensures
        match scan(cs@, i as nat) {
            Ok((t, e)) => r matches Ok((x, k)) && k as nat == e && i < k <= cs@.len() && match t {
                Some(tok) => x matches Some(y) && y@ == tok,
                None => x is None,
            },
            Err(f) => r matches Err(x) && x@ == f,
        },
{
    let n = cs.len();
    assert(i < n);
    let c = cs[i];
    if let Some(t) = punct_exec(c) {
        return Ok((Some(t), i + 1));
    }
    if c == '"' {
        return match string_scan_exec(cs, i + 1) {
            Ok((s, j)) => Ok((Some(Token::Str(s)), j)),
            Err(e) => Err(e),
        };
    }
    if space(c) {
        return Ok((None, i + 1));
    }
    let is_digit_here = (c as u32) >= 0x30 && (c as u32) <= 0x39;
    let negative = c == '-' && i + 1 < cs.len() && (cs[i + 1] as u32) >= 0x30 && (cs[i + 1] as u32) <= 0x39;
    if is_digit_here || negative {
        let start = if c == '-' {
            i + 1
        } else {
            i
        };
        let end = digits_end_exec(cs, start);
        proof {
            lemma_digits_end(cs@, start as nat);
        }
        let v = digits_value_exec(cs, start, end);
        assert(starts_number(cs@, i as int));
        assert(digits_end(cs@, start as nat) == end);
        let value: Option<i64> = match v {
            Some(m) => {
                if c == '-' {
                    Some((-m) as i64)
                } else if m <= 0x7fff_ffff_ffff_ffff {
                    Some(m as i64)
                } else {
                    None
                }
            },
            None => None,
        };
        return match value {
            Some(n) => Ok((Some(Token::Integer(n)), end)),
            None => {
                let mut msg = text("Invalid integer literal: ");
                push_range(&mut msg, cs, i, end);
                Err(SchemeError::Parser(msg))
            },
        };
    }
    if c == ';' {
        let end = line_end_exec(cs, i + 1);
        return Ok((None, end));
    }
    if c == '#' {
        if i + 1 >= cs.len() {
            return Err(SchemeError::Parser(text("Incomplete boolean literal: #")));
        }
        let d = cs[i + 1];
        if d == 't' {
            return Ok((Some(Token::Bool(true)), i + 2));
        } else if d == 'f' {
            return Ok((Some(Token::Bool(false)), i + 2));
        } else {
            let mut msg = text("Invalid boolean literal: #");
            push_char(&mut msg, d);
            return Err(SchemeError::Parser(msg));
        }
    }
    let end = symbol_end_exec(cs, i);
    if end > i {
        let mut s = String::new();
        push_range(&mut s, cs, i, end);
        assert(s@ =~= cs@.subrange(i as int, end as int));
        Ok((Some(Token::Symbol(s)), end))
    } else {
        let mut msg = text("Unexpected character: ");
        push_char(&mut msg, c);
        Err(SchemeError::Parser(msg))
    }
}

/// Splits program text into tokens, skipping white space and `;` comments.
pub fn tokenize(input: &str) -> (r: Result<Vec<Token>, SchemeError>)
    ensures
        match lex_from(input@, 0) {
            Ok(ts) => r matches Ok(v) && toks_view(v@) == ts,
            Err(f) => r matches Err(x) && x@ == f,
        },
{
    let cs = chars_of(input);
    let mut tokens: Vec<Token> = Vec::new();
    let mut i: usize = 0;
    assert(toks_view(tokens@) =~= Seq::<Tok>::empty());
    while i < cs.len()
        invariant
            i <= cs@.len(),
            cs@ == input@,
            lex_from(cs@, 0) == (match lex_from(cs@, i as nat) {
                Ok(rest) => Ok(toks_view(tokens@) + rest),
                Err(e) => Err(e),
            }),
        decreases cs@.len() - i,
    {
        match scan_exec(&cs, i) {
            Err(e) => {
                return Err(e);
            },
            Ok((t, j)) => {
                match t {
                    Some(tok) => {
                        let ghost before = toks_view(tokens@);
                        tokens.push(tok);
                        assert(toks_view(tokens@) =~= before.push(tokens@[tokens@.len() - 1]@));
                        proof {
                            match lex_from(cs@, j as nat) {
                                Ok(rest) => {
                                    assert(before + (seq![tokens@[tokens@.len() - 1]@] + rest) =~= toks_view(tokens@)
                                        + rest);
                                },
                                Err(_) => {},
                            }
                        }
                    },
                    None => {
                    },
                }
                i = j;
            },
        }
    }
    assert(toks_view(tokens@) + Seq::<Tok>::empty() =~= toks_view(tokens@));
    Ok(tokens)
}

} // verus!
