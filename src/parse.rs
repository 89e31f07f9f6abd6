use vstd::prelude::*;
use crate::value::{Val, Value, chars_equal, copy_chars};
use crate::text::{parse_int, parse_int_spec, is_digit};
use crate::expr::{Expr, BinOp, UnOp, Func};

verus! {

/// A token of the output language.
#[derive(Debug)]
pub enum Token {
    Ident(Vec<char>),
    Int(Vec<char>),
    Str(Vec<char>),
    Plus,
    Minus,
    Star,
    Slash,
    Percent,
    EqEq,
    NotEq,
    Lt,
    Le,
    Gt,
    Ge,
    Bang,
    LParen,
    RParen,
    Comma,
}

/// The model of a token.
pub enum TokV {
    Ident(Seq<char>),
    Int(Seq<char>),
    Str(Seq<char>),
    Plus,
    Minus,
    Star,
    Slash,
    Percent,
    EqEq,
    NotEq,
    Lt,
    Le,
    Gt,
    Ge,
    Bang,
    LParen,
    RParen,
    Comma,
}

/// Why an output expression was rejected.
#[derive(Debug, Clone, Copy, PartialEq, Eq, Structural)]
pub enum SyntaxError {
    /// A character that starts no token, at this position.
    UnexpectedChar(usize),
    /// A string literal without its closing quote.
    UnterminatedString,
    /// A real literal; reals are not part of this library.
    RealLiteral,
    /// An integer literal out of the 64-bit range.
    IntegerRange,
    /// A token where another was expected, at this token index.
    UnexpectedToken(usize),
    /// The text ended inside an expression.
    UnexpectedEnd,
}

/// The model of an expression.
pub enum ExprV {
    Binary(Box<ExprV>, BinOp, Box<ExprV>),
    Call(Func, Box<ExprV>),
    Concat(Box<ExprV>, Box<ExprV>),
    Ident(Seq<char>),
    Literal(Val),
    Unary(UnOp, Box<ExprV>),
}

pub open spec fn expr_view(e: Expr) -> ExprV
    decreases e,
{
    match e {
        Expr::Binary { left, op, right } => ExprV::Binary(
            Box::new(expr_view(*left)),
            op,
            Box::new(expr_view(*right)),
        ),
        Expr::Call { func, arg } => ExprV::Call(func, Box::new(expr_view(*arg))),
        Expr::Concat { left, right } => ExprV::Concat(
            Box::new(expr_view(*left)),
            Box::new(expr_view(*right)),
        ),
        Expr::Ident(n) => ExprV::Ident(n@),
        Expr::Literal(v) => ExprV::Literal(v@),
        Expr::Unary { unop, right } => ExprV::Unary(unop, Box::new(expr_view(*right))),
    }
}

pub open spec fn tok_view(t: Token) -> TokV {
    match t {
        Token::Ident(n) => TokV::Ident(n@),
        Token::Int(d) => TokV::Int(d@),
        Token::Str(s) => TokV::Str(s@),
        Token::Plus => TokV::Plus,
        Token::Minus => TokV::Minus,
        Token::Star => TokV::Star,
        Token::Slash => TokV::Slash,
        Token::Percent => TokV::Percent,
        Token::EqEq => TokV::EqEq,
        Token::NotEq => TokV::NotEq,
        Token::Lt => TokV::Lt,
        Token::Le => TokV::Le,
        Token::Gt => TokV::Gt,
        Token::Ge => TokV::Ge,
        Token::Bang => TokV::Bang,
        Token::LParen => TokV::LParen,
        Token::RParen => TokV::RParen,
        Token::Comma => TokV::Comma,
    }
}

pub open spec fn toks_view(t: Seq<Token>) -> Seq<TokV> {
    t.map_values(|x: Token| tok_view(x))
}

pub open spec fn is_ident_start(c: char) -> bool {
    ('a' <= c && c <= 'z') || ('A' <= c && c <= 'Z') || c == '_'
}

pub open spec fn is_ident_char(c: char) -> bool {
    is_ident_start(c) || ('0' <= c && c <= '9')
}

pub open spec fn is_space(c: char) -> bool {
    c == ' ' || c == '\t' || c == '\n' || c == '\r'
}

/// Where the run of identifier characters from `i` ends.
pub open spec fn ident_end(s: Seq<char>, i: int) -> int
    decreases s.len() - i,
{
    if 0 <= i < s.len() && is_ident_char(s[i]) {
        ident_end(s, i + 1)
    } else {
        i
    }
}

/// Where the run of digits from `i` ends.
pub open spec fn digits_end(s: Seq<char>, i: int) -> int
    decreases s.len() - i,
{
    if 0 <= i < s.len() && is_digit(s[i]) {
        digits_end(s, i + 1)
    } else {
        i
    }
}

pub open spec fn unescape(c: char) -> char {
    if c == 'n' {
        '\n'
    } else if c == 't' {
        '\t'
    } else {
        c
    }
}

/// A string literal's content from `i` (just after the opening quote), and the index
/// after its closing quote; a backslash takes the next character literally (`\n`, `\t`
/// stand for newline and tab).
pub open spec fn string_body(s: Seq<char>, i: int) -> Option<(Seq<char>, int)>
    decreases s.len() - i,
{
    if i < 0 || i >= s.len() {
        None
    } else if s[i] == '"' {
        Some((Seq::empty(), i + 1))
    } else if s[i] == '\\' && i + 1 < s.len() {
        match string_body(s, i + 2) {
            Some((t, e)) => Some((seq![unescape(s[i + 1])] + t, e)),
            None => None,
        }
    } else {
        match string_body(s, i + 1) {
            Some((t, e)) => Some((seq![s[i]] + t, e)),
            None => None,
        }
    }
}

/// The operator or bracket at `i`, and its width.
pub open spec fn punct(s: Seq<char>, i: int) -> Option<(TokV, int)> {
    let c = s[i];
    let next = if i + 1 < s.len() { s[i + 1] } else { ' ' };
    if c == '+' {
        Some((TokV::Plus, 1))
    } else if c == '-' {
        Some((TokV::Minus, 1))
    } else if c == '*' {
        Some((TokV::Star, 1))
    } else if c == '/' {
        Some((TokV::Slash, 1))
    } else if c == '%' {
        Some((TokV::Percent, 1))
    } else if c == '(' {
        Some((TokV::LParen, 1))
    } else if c == ')' {
        Some((TokV::RParen, 1))
    } else if c == ',' {
        Some((TokV::Comma, 1))
    } else if c == '=' && next == '=' {
        Some((TokV::EqEq, 2))
    } else if c == '!' && next == '=' {
        Some((TokV::NotEq, 2))
    } else if c == '!' {
        Some((TokV::Bang, 1))
    } else if c == '<' && next == '=' {
        Some((TokV::Le, 2))
    } else if c == '<' {
        Some((TokV::Lt, 1))
    } else if c == '>' && next == '=' {
        Some((TokV::Ge, 2))
    } else if c == '>' {
        Some((TokV::Gt, 1))
    } else {
        None
    }
}

pub open spec fn cons<T, E>(t: T, r: Result<Seq<T>, E>) -> Result<Seq<T>, E> {
    match r {
        Ok(ts) => Ok(seq![t] + ts),
        Err(e) => Err(e),
    }
}

pub open spec fn append_ok<T, E>(a: Seq<T>, r: Result<Seq<T>, E>) -> Result<Seq<T>, E> {
    match r {
        Ok(ts) => Ok(a + ts),
        Err(e) => Err(e),
    }
}

/// The tokens of `s[i..]`: blanks skip, identifiers and digits run as far as they go.
pub open spec fn lex(s: Seq<char>, i: int) -> Result<Seq<TokV>, SyntaxError>
    decreases s.len() - i,
{
    if i < 0 || i >= s.len() {
        Ok(Seq::empty())
    } else {
        let c = s[i];
        if is_space(c) {
            lex(s, i + 1)
        } else if is_ident_start(c) {
            let e = ident_end(s, i);
            if e <= i || e > s.len() {
                Err(SyntaxError::UnexpectedChar(i as usize))
            } else {
                cons(TokV::Ident(s.subrange(i, e)), lex(s, e))
            }
        } else if is_digit(c) {
            let e = digits_end(s, i);
            if e <= i || e > s.len() {
                Err(SyntaxError::UnexpectedChar(i as usize))
            } else if e < s.len() && (s[e] == '.' || s[e] == 'e' || s[e] == 'E') {
                Err(SyntaxError::RealLiteral)
            } else {
                cons(TokV::Int(s.subrange(i, e)), lex(s, e))
            }
        } else if c == '"' {
            match string_body(s, i + 1) {
                Some((t, e)) => if e <= i || e > s.len() {
                    Err(SyntaxError::UnterminatedString)
                } else {
                    cons(TokV::Str(t), lex(s, e))
                },
                None => Err(SyntaxError::UnterminatedString),
            }
        } else {
            match punct(s, i) {
                Some((t, w)) => if w < 1 {
                    Err(SyntaxError::UnexpectedChar(i as usize))
                } else {
                    cons(t, lex(s, i + w))
                },
                None => Err(SyntaxError::UnexpectedChar(i as usize)),
            }
        }
    }
}

proof fn lemma_ident_end(s: Seq<char>, i: int)
    requires
        0 <= i <= s.len(),
    ensures
        i <= ident_end(s, i) <= s.len(),
    decreases s.len() - i,
{
    if i < s.len() && is_ident_char(s[i]) {
        lemma_ident_end(s, i + 1);
    }
}

proof fn lemma_digits_end(s: Seq<char>, i: int)
    requires
        0 <= i <= s.len(),
    ensures
        i <= digits_end(s, i) <= s.len(),
    decreases s.len() - i,
{
    if i < s.len() && is_digit(s[i]) {
        lemma_digits_end(s, i + 1);
    }
}

proof fn lemma_string_body(s: Seq<char>, i: int)
    requires
        0 <= i,
    ensures
        string_body(s, i) matches Some((t, e)) ==> i < e <= s.len(),
    decreases s.len() - i,
{
    if 0 <= i < s.len() {
        if s[i] == '"' {
        } else if s[i] == '\\' && i + 1 < s.len() {
            lemma_string_body(s, i + 2);
        } else {
            lemma_string_body(s, i + 1);
        }
    }
}

fn punct_at(s: &Vec<char>, i: usize) -> (r: Option<(Token, usize)>)
    requires
        i < s.len(),
    ensures
        match punct(s@, i as int) {
            Some((t, w)) => r matches Some((x, v)) && tok_view(x) == t && v == w,
            None => r is None,
        },
{
    let n = s.len();
    let c = s[i];
    let next = if i + 1 < n { s[i + 1] } else { ' ' };
    if c == '+' {
        Some((Token::Plus, 1))
    } else if c == '-' {
        Some((Token::Minus, 1))
    } else if c == '*' {
        Some((Token::Star, 1))
    } else if c == '/' {
        Some((Token::Slash, 1))
    } else if c == '%' {
        Some((Token::Percent, 1))
    } else if c == '(' {
        Some((Token::LParen, 1))
    } else if c == ')' {
        Some((Token::RParen, 1))
    } else if c == ',' {
        Some((Token::Comma, 1))
    } else if c == '=' && next == '=' {
        Some((Token::EqEq, 2))
    } else if c == '!' && next == '=' {
        Some((Token::NotEq, 2))
    } else if c == '!' {
        Some((Token::Bang, 1))
    } else if c == '<' && next == '=' {
        Some((Token::Le, 2))
    } else if c == '<' {
        Some((Token::Lt, 1))
    } else if c == '>' && next == '=' {
        Some((Token::Ge, 2))
    } else if c == '>' {
        Some((Token::Gt, 1))
    } else {
        None
    }
}

/// Cuts an output expression into tokens.
pub fn tokenize(s: &Vec<char>) -> (r: Result<Vec<Token>, SyntaxError>)
    ensures
        match lex(s@, 0) {
            Ok(t) => r matches Ok(x) && toks_view(x@) == t,
            Err(e) => r == Err::<Vec<Token>, SyntaxError>(e),
        },
{
    let mut out: Vec<Token> = Vec::new();
    let n = s.len();
    let mut i: usize = 0;
    assert(toks_view(out@) =~= Seq::<TokV>::empty());
    assert(append_ok(Seq::<TokV>::empty(), lex(s@, 0)) =~= lex(s@, 0)) by {
        if let Ok(t) = lex(s@, 0) {
            assert(Seq::<TokV>::empty() + t =~= t);
        }
    }
    while i < n
        invariant
            n == s.len(),
            i <= n,
            lex(s@, 0) == append_ok(toks_view(out@), lex(s@, i as int)),
        decreases n - i,
    {
        let c = s[i];
        let ghost before = toks_view(out@);
        if c == ' ' || c == '\t' || c == '\n' || c == '\r' {
            i = i + 1;
        } else if ('a' <= c && c <= 'z') || ('A' <= c && c <= 'Z') || c == '_' {
            let mut name: Vec<char> = Vec::new();
            let start = i;
            proof {
                lemma_ident_end(s@, start as int);
            }
            while i < n && (('a' <= s[i] && s[i] <= 'z') || ('A' <= s[i] && s[i] <= 'Z') || s[i] == '_'
                || ('0' <= s[i] && s[i] <= '9'))
                invariant
                    n == s.len(),
                    start <= i <= n,
                    start < n,
                    name@ == s@.subrange(start as int, i as int),
                    ident_end(s@, start as int) == ident_end(s@, i as int),
                    i == start ==> is_ident_char(s@[i as int]),
                decreases n - i,
            {
                name.push(s[i]);
                i = i + 1;
                assert(name@ =~= s@.subrange(start as int, i as int));
            }
            assert(ident_end(s@, i as int) == i);
            let ghost tok = TokV::Ident(s@.subrange(start as int, i as int));
            out.push(Token::Ident(name));
            assert(toks_view(out@) =~= before.push(tok));
            proof {
                if let Ok(t) = lex(s@, i as int) {
                    assert(before + (seq![tok] + t) =~= before.push(tok) + t);
                }
            }
        } else if '0' <= c && c <= '9' {
            let mut digits: Vec<char> = Vec::new();
            let start = i;
            proof {
                lemma_digits_end(s@, start as int);
            }
            while i < n && '0' <= s[i] && s[i] <= '9'
                invariant
                    n == s.len(),
                    start <= i <= n,
                    start < n,
                    digits@ == s@.subrange(start as int, i as int),
                    digits_end(s@, start as int) == digits_end(s@, i as int),
                    i == start ==> is_digit(s@[i as int]),
                decreases n - i,
            {
                digits.push(s[i]);
                i = i + 1;
                assert(digits@ =~= s@.subrange(start as int, i as int));
            }
            assert(digits_end(s@, i as int) == i);
            if i < n && (s[i] == '.' || s[i] == 'e' || s[i] == 'E') {
                return Err(SyntaxError::RealLiteral);
            }
            let ghost tok = TokV::Int(s@.subrange(start as int, i as int));
            out.push(Token::Int(digits));
            assert(toks_view(out@) =~= before.push(tok));
            proof {
                if let Ok(t) = lex(s@, i as int) {
                    assert(before + (seq![tok] + t) =~= before.push(tok) + t);
                }
            }
        } else if c == '"' {
            let mut text: Vec<char> = Vec::new();
            let start = i;
            i = i + 1;
            let mut closed = false;
            proof {
                lemma_string_body(s@, start + 1);
            }
            while i < n && !closed
                invariant
                    n == s.len(),
                    start < i <= n,
                    !closed ==> string_body(s@, start + 1) == (match string_body(s@, i as int) {
                        Some((t, e)) => Some((text@ + t, e)),
                        None => None,
                    }),
                    closed ==> string_body(s@, start + 1) == Some((text@, i as int)),
                decreases n - i,
            {
                let d = s[i];
                let ghost t0 = text@;
                if d == '"' {
                    closed = true;
                    assert(t0 + Seq::<char>::empty() =~= t0);
                } else if d == '\\' && i + 1 < n {
                    let e = s[i + 1];
                    let x = if e == 'n' {
                        '\n'
                    } else if e == 't' {
                        '\t'
                    } else {
                        e
                    };
                    text.push(x);
                    i = i + 1;
                    proof {
                        if let Some((t, f)) = string_body(s@, i + 1) {
                            assert(t0 + (seq![x] + t) =~= text@ + t);
                        }
                    }
                } else {
                    text.push(d);
                    proof {
                        if let Some((t, f)) = string_body(s@, i + 1) {
                            assert(t0 + (seq![d] + t) =~= text@ + t);
                        }
                    }
                }
                i = i + 1;
            }
            if !closed {
                return Err(SyntaxError::UnterminatedString);
            }
            let ghost tok = TokV::Str(text@);
            out.push(Token::Str(text));
            assert(toks_view(out@) =~= before.push(tok));
            proof {
                if let Ok(t) = lex(s@, i as int) {
                    assert(before + (seq![tok] + t) =~= before.push(tok) + t);
                }
            }
        } else {
            match punct_at(s, i) {
                Some((t, w)) => {
                    let ghost tok = tok_view(t);
                    out.push(t);
                    assert(toks_view(out@) =~= before.push(tok));
                    proof {
                        if let Ok(ts) = lex(s@, i + w) {
                            assert(before + (seq![tok] + ts) =~= before.push(tok) + ts);
                        }
                    }
                    i = i + w;
                },
                None => {
                    return Err(SyntaxError::UnexpectedChar(i));
                },
            }
        }
    }
    assert(toks_view(out@) + Seq::<TokV>::empty() =~= toks_view(out@));
    Ok(out)
}


pub open spec fn cmp_op_v(t: TokV) -> Option<BinOp> {
    match t {
        TokV::EqEq => Some(BinOp::Eq),
        TokV::NotEq => Some(BinOp::Ne),
        TokV::Lt => Some(BinOp::Lt),
        TokV::Le => Some(BinOp::Le),
        TokV::Gt => Some(BinOp::Gt),
        TokV::Ge => Some(BinOp::Ge),
        _ => None,
    }
}

pub open spec fn add_op_v(t: TokV) -> Option<BinOp> {
    match t {
        TokV::Plus => Some(BinOp::Add),
        TokV::Minus => Some(BinOp::Sub),
        _ => None,
    }
}

pub open spec fn mul_op_v(t: TokV) -> Option<BinOp> {
    match t {
        TokV::Star => Some(BinOp::Mul),
        TokV::Slash => Some(BinOp::Div),
        TokV::Percent => Some(BinOp::Mod),
        _ => None,
    }
}

/// The one-argument built-in function of this name.
pub open spec fn func_named(n: Seq<char>) -> Option<Func> {
    if n == "boolean"@ {
        Some(Func::Boolean)
    } else if n == "ceiling"@ {
        Some(Func::Ceiling)
    } else if n == "floor"@ {
        Some(Func::Floor)
    } else if n == "integer"@ {
        Some(Func::Integer)
    } else if n == "real"@ {
        Some(Func::Real)
    } else if n == "round"@ {
        Some(Func::Round)
    } else if n == "string"@ {
        Some(Func::Str)
    } else {
        None
    }
}

/// The binary operator a token is at precedence `level`: 0 comparison, 1 additive,
/// 2 multiplicative.
pub open spec fn level_op(level: nat, t: TokV) -> Option<BinOp> {
    if level == 0 {
        cmp_op_v(t)
    } else if level == 1 {
        add_op_v(t)
    } else {
        mul_op_v(t)
    }
}

/// An expression of precedence `level` (0 comparison, 1 additive, 2 multiplicative,
/// 3 unary, 4 primary) from token `pos`, with the index after it.
pub open spec fn sp_level(t: Seq<TokV>, pos: int, level: nat) -> Result<(ExprV, int), SyntaxError>
    decreases t.len() - pos, 5 - level,
{
    if pos < 0 || pos >= t.len() {
        Err(SyntaxError::UnexpectedEnd)
    } else if level <= 2 {
        match sp_level(t, pos, level + 1) {
            Ok((e, p)) => if p <= pos || p > t.len() {
                Err(SyntaxError::UnexpectedEnd)
            } else {
                sp_rest(t, e, p, level)
            },
            Err(x) => Err(x),
        }
    } else if level == 3 {
        match t[pos] {
            TokV::Minus => match sp_level(t, pos + 1, 3) {
                Ok((e, p)) => Ok((ExprV::Unary(UnOp::Negate, Box::new(e)), p)),
                Err(x) => Err(x),
            },
            TokV::Bang => match sp_level(t, pos + 1, 3) {
                Ok((e, p)) => Ok((ExprV::Unary(UnOp::Not, Box::new(e)), p)),
                Err(x) => Err(x),
            },
            _ => sp_level(t, pos, 4),
        }
    } else if level == 4 {
        sp_primary(t, pos)
    } else {
        Err(SyntaxError::UnexpectedEnd)
    }
}

/// The operators of `level` and their right operands after `left`, from token `p` on.
pub open spec fn sp_rest(t: Seq<TokV>, left: ExprV, p: int, level: nat) -> Result<(ExprV, int), SyntaxError>
    decreases t.len() - p, 5 - level,
{
    if p < 0 || p >= t.len() || level > 2 {
        Ok((left, p))
    } else {
        match level_op(level, t[p]) {
            None => Ok((left, p)),
            Some(op) => match sp_level(t, p + 1, level + 1) {
                Ok((r, q)) => if q <= p || q > t.len() {
                    Err(SyntaxError::UnexpectedEnd)
                } else {
                    sp_rest(t, ExprV::Binary(Box::new(left), op, Box::new(r)), q, level)
                },
                Err(x) => Err(x),
            },
        }
    }
}

pub open spec fn sp_expect(t: Seq<TokV>, p: int, close: bool) -> Result<int, SyntaxError> {
    if p < 0 || p >= t.len() {
        Err(SyntaxError::UnexpectedEnd)
    } else if (close && t[p] is RParen) || (!close && t[p] is Comma) {
        Ok(p + 1)
    } else {
        Err(SyntaxError::UnexpectedToken(p as usize))
    }
}

/// A function call, an identifier, a literal or a bracketed expression at `pos`.
pub open spec fn sp_primary(t: Seq<TokV>, pos: int) -> Result<(ExprV, int), SyntaxError>
    decreases t.len() - pos, 0int,
{
    if pos < 0 || pos >= t.len() {
        Err(SyntaxError::UnexpectedEnd)
    } else {
        match t[pos] {
            TokV::Ident(n) => {
                let open = pos + 1 < t.len() && t[pos + 1] is LParen;
                if open && n == "concat"@ {
                    match sp_level(t, pos + 2, 0) {
                        Ok((a, p)) => match sp_expect(t, p, false) {
                            Ok(p2) => if p2 <= pos || p2 > t.len() {
                                Err(SyntaxError::UnexpectedEnd)
                            } else {
                                match sp_level(t, p2, 0) {
                                    Ok((b, q)) => match sp_expect(t, q, true) {
                                        Ok(q2) => Ok((ExprV::Concat(Box::new(a), Box::new(b)), q2)),
                                        Err(x) => Err(x),
                                    },
                                    Err(x) => Err(x),
                                }
                            },
                            Err(x) => Err(x),
                        },
                        Err(x) => Err(x),
                    }
                } else if open && func_named(n) is Some {
                    match sp_level(t, pos + 2, 0) {
                        Ok((a, p)) => match sp_expect(t, p, true) {
                            Ok(q) => Ok((ExprV::Call(func_named(n)->Some_0, Box::new(a)), q)),
                            Err(x) => Err(x),
                        },
                        Err(x) => Err(x),
                    }
                } else if n == "true"@ {
                    Ok((ExprV::Literal(Val::Boolean(true)), pos + 1))
                } else if n == "false"@ {
                    Ok((ExprV::Literal(Val::Boolean(false)), pos + 1))
                } else {
                    Ok((ExprV::Ident(n), pos + 1))
                }
            },
            TokV::Int(d) => match parse_int_spec(d) {
                Some(v) => Ok((ExprV::Literal(Val::Integer(v)), pos + 1)),
                None => Err(SyntaxError::IntegerRange),
            },
            TokV::Str(x) => Ok((ExprV::Literal(Val::Str(x)), pos + 1)),
            TokV::LParen => match sp_level(t, pos + 1, 0) {
                Ok((e, p)) => match sp_expect(t, p, true) {
                    Ok(q) => Ok((e, q)),
                    Err(x) => Err(x),
                },
                Err(x) => Err(x),
            },
            _ => Err(SyntaxError::UnexpectedToken(pos as usize)),
        }
    }
}

/// An output expression: its tokens, all of them one comparison-level expression.
pub open spec fn parse_spec(s: Seq<char>) -> Result<ExprV, SyntaxError> {
    match lex(s, 0) {
        Err(e) => Err(e),
        Ok(t) => match sp_level(t, 0, 0) {
            Err(e) => Err(e),
            Ok((e, p)) => if p < t.len() {
                Err(SyntaxError::UnexpectedToken(p as usize))
            } else {
                Ok(e)
            },
        },
    }
}

pub open spec fn presult(r: Result<(Expr, usize), SyntaxError>) -> Result<(ExprV, int), SyntaxError> {
    match r {
        Ok((e, p)) => Ok((expr_view(e), p as int)),
        Err(x) => Err(x),
    }
}

pub open spec fn advanced(r: Result<(Expr, usize), SyntaxError>, pos: usize, len: usize) -> bool {
    r matches Ok((e, p)) ==> pos < p <= len
}

fn is_word(n: &Vec<char>, w: &str) -> (r: bool)
    ensures
        r == (n@ == w@),
{
    chars_equal(n, &crate::csv::text_chars(w))
}

fn level_op_at(level: u8, t: &Token) -> (r: Option<BinOp>)
    requires
        level <= 2,
    ensures
        r == level_op(level as nat, tok_view(*t)),
{
    if level == 0 {
        match t {
            Token::EqEq => Some(BinOp::Eq),
            Token::NotEq => Some(BinOp::Ne),
            Token::Lt => Some(BinOp::Lt),
            Token::Le => Some(BinOp::Le),
            Token::Gt => Some(BinOp::Gt),
            Token::Ge => Some(BinOp::Ge),
            _ => None,
        }
    } else if level == 1 {
        match t {
            Token::Plus => Some(BinOp::Add),
            Token::Minus => Some(BinOp::Sub),
            _ => None,
        }
    } else {
        match t {
            Token::Star => Some(BinOp::Mul),
            Token::Slash => Some(BinOp::Div),
            Token::Percent => Some(BinOp::Mod),
            _ => None,
        }
    }
}

/// An expression of a binary precedence level: operands of the next level folded to the left.
fn binary_level(toks: &Vec<Token>, pos: usize, level: u8) -> (r: Result<(Expr, usize), SyntaxError>)
    requires
        level <= 2,
    ensures
        presult(r) == sp_level(toks_view(toks@), pos as int, level as nat),
        advanced(r, pos, toks.len()),
    decreases toks.len() - pos, 5 - level,
{
    let ghost t = toks_view(toks@);
    if pos >= toks.len() {
        return Err(SyntaxError::UnexpectedEnd);
    }
    let first = if level < 2 {
        binary_level(toks, pos, level + 1)
    } else {
        unary(toks, pos)
    };
    let (mut e, mut p) = match first {
        Ok(x) => x,
        Err(err) => return Err(err),
    };
    while p < toks.len()
        invariant
            level <= 2,
            t == toks_view(toks@),
            pos < p <= toks.len(),
            sp_level(t, pos as int, level as nat) == sp_rest(t, expr_view(e), p as int, level as nat),
        ensures
            pos < p <= toks.len(),
            sp_level(t, pos as int, level as nat) == Ok::<(ExprV, int), SyntaxError>((expr_view(e), p as int)),
        decreases toks.len() - p,
    {
        assert(t[p as int] == tok_view(toks@[p as int]));
        let op = match level_op_at(level, &toks[p]) {
            Some(op) => op,
            None => break,
        };
        let next = if level < 2 {
            binary_level(toks, p + 1, level + 1)
        } else {
            unary(toks, p + 1)
        };
        let (right, q) = match next {
            Ok(x) => x,
            Err(err) => return Err(err),
        };
        e = Expr::Binary { left: Box::new(e), op, right: Box::new(right) };
        p = q;
    }
    Ok((e, p))
}

/// unary := ('-' | '!') unary | primary
fn unary(toks: &Vec<Token>, pos: usize) -> (r: Result<(Expr, usize), SyntaxError>)
    ensures
        presult(r) == sp_level(toks_view(toks@), pos as int, 3),
        advanced(r, pos, toks.len()),
    decreases toks.len() - pos, 2int,
{
    let ghost t = toks_view(toks@);
    if pos >= toks.len() {
        return Err(SyntaxError::UnexpectedEnd);
    }
    assert(t[pos as int] == tok_view(toks@[pos as int]));
    let op = match &toks[pos] {
        Token::Minus => UnOp::Negate,
        Token::Bang => UnOp::Not,
        _ => {
            assert(sp_level(t, pos as int, 4) == sp_primary(t, pos as int));
            return primary(toks, pos);
        },
    };
    match unary(toks, pos + 1) {
        Ok((e, p)) => Ok((Expr::Unary { unop: op, right: Box::new(e) }, p)),
        Err(err) => Err(err),
    }
}

/// The built-in function of one argument with this name.
fn function_of(n: &Vec<char>) -> (r: Option<Func>)
    ensures
        r == func_named(n@),
{
    if is_word(n, "boolean") {
        Some(Func::Boolean)
    } else if is_word(n, "ceiling") {
        Some(Func::Ceiling)
    } else if is_word(n, "floor") {
        Some(Func::Floor)
    } else if is_word(n, "integer") {
        Some(Func::Integer)
    } else if is_word(n, "real") {
        Some(Func::Real)
    } else if is_word(n, "round") {
        Some(Func::Round)
    } else if is_word(n, "string") {
        Some(Func::Str)
    } else {
        None
    }
}

fn expect(toks: &Vec<Token>, pos: usize, close: bool) -> (r: Result<usize, SyntaxError>)
    ensures
        match sp_expect(toks_view(toks@), pos as int, close) {
            Ok(p) => r matches Ok(q) && q == p,
            Err(x) => r == Err::<usize, SyntaxError>(x),
        },
{
    if pos >= toks.len() {
        return Err(SyntaxError::UnexpectedEnd);
    }
    assert(toks_view(toks@)[pos as int] == tok_view(toks@[pos as int]));
    let ok = match &toks[pos] {
        Token::RParen => close,
        Token::Comma => !close,
        _ => false,
    };
    if ok {
        Ok(pos + 1)
    } else {
        Err(SyntaxError::UnexpectedToken(pos))
    }
}

/// primary := call | identifier | literal | '(' comparison ')'
fn primary(toks: &Vec<Token>, pos: usize) -> (r: Result<(Expr, usize), SyntaxError>)
    requires
        pos < toks.len(),
    ensures
        presult(r) == sp_primary(toks_view(toks@), pos as int),
        advanced(r, pos, toks.len()),
    decreases toks.len() - pos, 1int,
{
    let ghost t = toks_view(toks@);
    assert(t[pos as int] == tok_view(toks@[pos as int]));
    match &toks[pos] {
        Token::Ident(n) => {
            let open = pos + 1 < toks.len() && (match &toks[pos + 1] {
                Token::LParen => true,
                _ => false,
            });
            proof {
                if pos + 1 < toks.len() {
                    assert(t[pos + 1] == tok_view(toks@[pos + 1]));
                }
            }
            if open && is_word(n, "concat") {
                let (a, p) = match binary_level(toks, pos + 2, 0) {
                    Ok(x) => x,
                    Err(err) => return Err(err),
                };
                let p = match expect(toks, p, false) {
                    Ok(p) => p,
                    Err(err) => return Err(err),
                };
                let (b, p) = match binary_level(toks, p, 0) {
                    Ok(x) => x,
                    Err(err) => return Err(err),
                };
                let p = match expect(toks, p, true) {
                    Ok(p) => p,
                    Err(err) => return Err(err),
                };
                return Ok((Expr::Concat { left: Box::new(a), right: Box::new(b) }, p));
            }
            if open {
                if let Some(func) = function_of(n) {
                    let (a, p) = match binary_level(toks, pos + 2, 0) {
                        Ok(x) => x,
                        Err(err) => return Err(err),
                    };
                    let p = match expect(toks, p, true) {
                        Ok(p) => p,
                        Err(err) => return Err(err),
                    };
                    return Ok((Expr::Call { func, arg: Box::new(a) }, p));
                }
            }
            if is_word(n, "true") {
                Ok((Expr::Literal(Value::Boolean(true)), pos + 1))
            } else if is_word(n, "false") {
                Ok((Expr::Literal(Value::Boolean(false)), pos + 1))
            } else {
                Ok((Expr::Ident(copy_chars(n)), pos + 1))
            }
        },
        Token::Int(d) => match parse_int(d) {
            Some(v) => Ok((Expr::Literal(Value::Integer(v)), pos + 1)),
            None => Err(SyntaxError::IntegerRange),
        },
        Token::Str(x) => Ok((Expr::Literal(Value::Str(copy_chars(x))), pos + 1)),
        Token::LParen => {
            let (e, p) = match binary_level(toks, pos + 1, 0) {
                Ok(x) => x,
                Err(err) => return Err(err),
            };
            let p = match expect(toks, p, true) {
                Ok(p) => p,
                Err(err) => return Err(err),
            };
            Ok((e, p))
        },
        _ => Err(SyntaxError::UnexpectedToken(pos)),
    }
}

/// Parses an output expression.
pub fn parse_output(text: &Vec<char>) -> (r: Result<Expr, SyntaxError>)
    ensures
        match parse_spec(text@) {
            Ok(e) => r matches Ok(x) && expr_view(x) == e,
            Err(err) => r == Err::<Expr, SyntaxError>(err),
        },
{
    let toks = match tokenize(text) {
        Ok(t) => t,
        Err(e) => return Err(e),
    };
    let (e, p) = match binary_level(&toks, 0, 0) {
        Ok(x) => x,
        Err(err) => return Err(err),
    };
    if p < toks.len() {
        return Err(SyntaxError::UnexpectedToken(p));
    }
    Ok(e)
}

} // verus!
