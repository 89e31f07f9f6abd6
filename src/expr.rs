use vstd::prelude::*;
use crate::value::{ColumnType, Val, Value, type_of, val_lt, chars_equal, copy_chars};
use crate::text::{int_text, bool_text, parse_int_spec, parse_int, int_to_chars, bool_to_chars};

verus! {

#[derive(Debug, Clone, Copy, PartialEq, Eq, Structural)]
pub enum BinOp {
    Add,
    Sub,
    Mul,
    Div,
    Mod,
    Eq,
    Ne,
    Lt,
    Le,
    Gt,
    Ge,
}

#[derive(Debug, Clone, Copy, PartialEq, Eq, Structural)]
pub enum UnOp {
    Negate,
    Not,
}

/// The one-argument built-in functions.
#[derive(Debug, Clone, Copy, PartialEq, Eq, Structural)]
pub enum Func {
    Boolean,
    Ceiling,
    Floor,
    Integer,
    Real,
    Round,
    Str,
}

/// An output expression.
#[derive(Debug)]
pub enum Expr {
    Binary { left: Box<Expr>, op: BinOp, right: Box<Expr> },
    Call { func: Func, arg: Box<Expr> },
    Concat { left: Box<Expr>, right: Box<Expr> },
    Ident(Vec<char>),
    Literal(Value),
    Unary { unop: UnOp, right: Box<Expr> },
}

/// Why evaluating an expression failed at run time.
#[derive(Debug, Clone, Copy, PartialEq, Eq, Structural)]
pub enum EvalError {
    /// An integer operation left the 64-bit range.
    Overflow,
    DivideByZero,
    /// `integer(x)` on a string that is no integer.
    BadConversion,
    /// An identifier whose value is null on this row.
    NullOperand,
    /// Operands of the wrong type; never raised by a well-typed expression.
    TypeMismatch,
}

/// A name in scope while evaluating, with its value on the current row.
pub struct Binding {
    pub name: Vec<char>,
    pub value: Option<Value>,
}

/// A name in scope while type checking, with its declared type.
#[derive(Debug)]
pub struct Declared {
    pub name: Vec<char>,
    pub column_type: ColumnType,
}

pub open spec fn binding_view(b: Binding) -> (Seq<char>, Option<Val>) {
    (b.name@, match b.value {
        Some(v) => Some(v@),
        None => None,
    })
}

pub open spec fn env_view(env: Seq<Binding>) -> Seq<(Seq<char>, Option<Val>)> {
    env.map_values(|b: Binding| binding_view(b))
}

pub open spec fn tenv_view(tenv: Seq<Declared>) -> Seq<(Seq<char>, ColumnType)> {
    tenv.map_values(|d: Declared| (d.name@, d.column_type))
}

/// The first binding of `name` in `env`.
pub open spec fn lookup<T>(env: Seq<(Seq<char>, T)>, name: Seq<char>) -> Option<T>
    decreases env.len(),
{
    if env.len() == 0 {
        None
    } else if env[0].0 == name {
        Some(env[0].1)
    } else {
        lookup(env.drop_first(), name)
    }
}

pub open spec fn is_arith(op: BinOp) -> bool {
    op == BinOp::Add || op == BinOp::Sub || op == BinOp::Mul || op == BinOp::Div || op
        == BinOp::Mod
}

/// The type of `e` under the declared names, if it is well typed.
pub open spec fn type_of_expr(e: Expr, tenv: Seq<(Seq<char>, ColumnType)>) -> Option<ColumnType>
    decreases e,
{
    match e {
        Expr::Literal(v) => Some(type_of(v@)),
        Expr::Ident(n) => lookup(tenv, n@),
        Expr::Unary { unop, right } => match type_of_expr(*right, tenv) {
            Some(t) => if (unop == UnOp::Negate && t == ColumnType::Integer) || (unop == UnOp::Not
                && t == ColumnType::Boolean) {
                Some(t)
            } else {
                None
            },
            None => None,
        },
        Expr::Binary { left, op, right } => match (
            type_of_expr(*left, tenv),
            type_of_expr(*right, tenv),
        ) {
            (Some(a), Some(b)) => if a != b {
                None
            } else if is_arith(op) {
                if a == ColumnType::Integer {
                    Some(a)
                } else {
                    None
                }
            } else {
                Some(ColumnType::Boolean)
            },
            _ => None,
        },
        Expr::Concat { left, right } => match (
            type_of_expr(*left, tenv),
            type_of_expr(*right, tenv),
        ) {
            (Some(ColumnType::Str), Some(ColumnType::Str)) => Some(ColumnType::Str),
            _ => None,
        },
        Expr::Call { func, arg } => match type_of_expr(*arg, tenv) {
            Some(_) => match func {
                Func::Boolean => Some(ColumnType::Boolean),
                Func::Integer => Some(ColumnType::Integer),
                Func::Str => Some(ColumnType::Str),
                _ => None,
            },
            None => None,
        },
    }
}

pub open spec fn eval_unary(op: UnOp, v: Val) -> Result<Val, EvalError> {
    match (op, v) {
        (UnOp::Negate, Val::Integer(i)) => if i == i64::MIN {
            Err(EvalError::Overflow)
        } else {
            Ok(Val::Integer((-i) as i64))
        },
        (UnOp::Not, Val::Boolean(b)) => Ok(Val::Boolean(!b)),
        _ => Err(EvalError::TypeMismatch),
    }
}

pub open spec fn in_i64(x: int) -> bool {
    i64::MIN <= x && x <= i64::MAX
}

pub open spec fn eval_arith(op: BinOp, a: i64, b: i64) -> Result<Val, EvalError> {
    match op {
        BinOp::Add => if in_i64(a + b) {
            Ok(Val::Integer((a + b) as i64))
        } else {
            Err(EvalError::Overflow)
        },
        BinOp::Sub => if in_i64(a - b) {
            Ok(Val::Integer((a - b) as i64))
        } else {
            Err(EvalError::Overflow)
        },
        BinOp::Mul => if in_i64(a * b) {
            Ok(Val::Integer((a * b) as i64))
        } else {
            Err(EvalError::Overflow)
        },
        BinOp::Div => if b == 0 {
            Err(EvalError::DivideByZero)
        } else {
            match a.checked_div(b) {
                Some(q) => Ok(Val::Integer(q)),
                None => Err(EvalError::Overflow),
            }
        },
        _ => if b == 0 {
            Err(EvalError::DivideByZero)
        } else {
            match a.checked_rem(b) {
                Some(q) => Ok(Val::Integer(q)),
                None => Err(EvalError::Overflow),
            }
        },
    }
}

pub open spec fn compare(op: BinOp, a: Val, b: Val) -> bool {
    match op {
        BinOp::Eq => a == b,
        BinOp::Ne => a != b,
        BinOp::Lt => val_lt(a, b),
        BinOp::Le => val_lt(a, b) || a == b,
        BinOp::Gt => val_lt(b, a),
        _ => val_lt(b, a) || a == b,
    }
}

pub open spec fn eval_binary(op: BinOp, a: Val, b: Val) -> Result<Val, EvalError> {
    if type_of(a) != type_of(b) {
        Err(EvalError::TypeMismatch)
    } else if is_arith(op) {
        match (a, b) {
            (Val::Integer(x), Val::Integer(y)) => eval_arith(op, x, y),
            _ => Err(EvalError::TypeMismatch),
        }
    } else {
        Ok(Val::Boolean(compare(op, a, b)))
    }
}

pub open spec fn eval_call(func: Func, v: Val) -> Result<Val, EvalError> {
    match func {
        Func::Boolean => Ok(
            Val::Boolean(
                match v {
                    Val::Boolean(b) => b,
                    Val::Integer(i) => i != 0,
                    Val::Str(s) => s.len() > 0,
                },
            ),
        ),
        Func::Integer => match v {
            Val::Boolean(b) => Ok(Val::Integer(if b { 1 } else { 0 })),
            Val::Integer(i) => Ok(Val::Integer(i)),
            Val::Str(s) => match parse_int_spec(s) {
                Some(i) => Ok(Val::Integer(i)),
                None => Err(EvalError::BadConversion),
            },
        },
        Func::Str => Ok(
            Val::Str(
                match v {
                    Val::Boolean(b) => bool_text(b),
                    Val::Integer(i) => int_text(i as int),
                    Val::Str(s) => s,
                },
            ),
        ),
        _ => Err(EvalError::TypeMismatch),
    }
}

/// The value of `e` on the current row, evaluated left to right.
pub open spec fn eval(e: Expr, env: Seq<(Seq<char>, Option<Val>)>) -> Result<Val, EvalError>
    decreases e,
{
    match e {
        Expr::Literal(v) => Ok(v@),
        Expr::Ident(n) => match lookup(env, n@) {
            Some(Some(v)) => Ok(v),
            Some(None) => Err(EvalError::NullOperand),
            None => Err(EvalError::TypeMismatch),
        },
        Expr::Unary { unop, right } => match eval(*right, env) {
            Ok(v) => eval_unary(unop, v),
            Err(err) => Err(err),
        },
        Expr::Binary { left, op, right } => match eval(*left, env) {
            Ok(a) => match eval(*right, env) {
                Ok(b) => eval_binary(op, a, b),
                Err(err) => Err(err),
            },
            Err(err) => Err(err),
        },
        Expr::Concat { left, right } => match eval(*left, env) {
            Ok(Val::Str(a)) => match eval(*right, env) {
                Ok(Val::Str(b)) => Ok(Val::Str(a + b)),
                Ok(_) => Err(EvalError::TypeMismatch),
                Err(err) => Err(err),
            },
            Ok(_) => Err(EvalError::TypeMismatch),
            Err(err) => Err(err),
        },
        Expr::Call { func, arg } => match eval(*arg, env) {
            Ok(v) => eval_call(func, v),
            Err(err) => Err(err),
        },
    }
}

pub open spec fn result_view(r: Result<Value, EvalError>) -> Result<Val, EvalError> {
    match r {
        Ok(v) => Ok(v@),
        Err(e) => Err(e),
    }
}

fn lookup_type(tenv: &Vec<Declared>, name: &Vec<char>) -> (r: Option<ColumnType>)
    ensures
        r == lookup(tenv_view(tenv@), name@),
{
    let mut i: usize = 0;
    assert(tenv_view(tenv@).skip(0) =~= tenv_view(tenv@));
    while i < tenv.len()
        invariant
            i <= tenv.len(),
            lookup(tenv_view(tenv@), name@) == lookup(tenv_view(tenv@).skip(i as int), name@),
        decreases tenv.len() - i,
    {
        let ghost rest = tenv_view(tenv@).skip(i as int);
        assert(rest[0] == (tenv@[i as int].name@, tenv@[i as int].column_type));
        if chars_equal(&tenv[i].name, name) {
            return Some(tenv[i].column_type);
        }
        assert(rest.drop_first() =~= tenv_view(tenv@).skip(i + 1));
        i = i + 1;
    }
    None
}

fn lookup_value(env: &Vec<Binding>, name: &Vec<char>) -> (r: Option<Option<Value>>)
    ensures
        match r {
            Some(Some(v)) => lookup(env_view(env@), name@) == Some(Some(v@)),
            Some(None) => lookup(env_view(env@), name@) == Some(None::<Val>),
            None => lookup(env_view(env@), name@) is None,
        },
{
    let mut i: usize = 0;
    assert(env_view(env@).skip(0) =~= env_view(env@));
    while i < env.len()
        invariant
            i <= env.len(),
            lookup(env_view(env@), name@) == lookup(env_view(env@).skip(i as int), name@),
        decreases env.len() - i,
    {
        let ghost rest = env_view(env@).skip(i as int);
        assert(rest[0] == binding_view(env@[i as int]));
        if chars_equal(&env[i].name, name) {
            return match &env[i].value {
                Some(v) => Some(Some(v.duplicate())),
                None => Some(None),
            };
        }
        assert(rest.drop_first() =~= env_view(env@).skip(i + 1));
        i = i + 1;
    }
    None
}

impl Expr {
    /// Type checks the expression against the declared names.
    pub fn check(&self, tenv: &Vec<Declared>) -> (r: Option<ColumnType>)
        ensures
            r == type_of_expr(*self, tenv_view(tenv@)),
        decreases self,
    {
        match self {
            Expr::Literal(v) => Some(v.column_type()),
            Expr::Ident(n) => lookup_type(tenv, n),
            Expr::Unary { unop, right } => match right.check(tenv) {
                Some(t) => {
                    let ok = match unop {
                        UnOp::Negate => t == ColumnType::Integer,
                        UnOp::Not => t == ColumnType::Boolean,
                    };
                    if ok {
                        Some(t)
                    } else {
                        None
                    }
                },
                None => None,
            },
            Expr::Binary { left, op, right } => {
                let a = left.check(tenv);
                let b = right.check(tenv);
                match (a, b) {
                    (Some(a), Some(b)) => {
                        if a != b {
                            None
                        } else if is_arith_op(*op) {
                            if a == ColumnType::Integer {
                                Some(a)
                            } else {
                                None
                            }
                        } else {
                            Some(ColumnType::Boolean)
                        }
                    },
                    _ => None,
                }
            },
            Expr::Concat { left, right } => {
                let a = left.check(tenv);
                let b = right.check(tenv);
                match (a, b) {
                    (Some(ColumnType::Str), Some(ColumnType::Str)) => Some(ColumnType::Str),
                    _ => None,
                }
            },
            Expr::Call { func, arg } => match arg.check(tenv) {
                Some(_) => match func {
                    Func::Boolean => Some(ColumnType::Boolean),
                    Func::Integer => Some(ColumnType::Integer),
                    Func::Str => Some(ColumnType::Str),
                    _ => None,
                },
                None => None,
            },
        }
    }

    /// Evaluates the expression on the current row.
    pub fn evaluate(&self, env: &Vec<Binding>) -> (r: Result<Value, EvalError>)
        ensures
            result_view(r) == eval(*self, env_view(env@)),
        decreases self,
    {
        match self {
            Expr::Literal(v) => Ok(v.duplicate()),
            Expr::Ident(n) => match lookup_value(env, n) {
                Some(Some(v)) => Ok(v),
                Some(None) => Err(EvalError::NullOperand),
                None => Err(EvalError::TypeMismatch),
            },
            Expr::Unary { unop, right } => match right.evaluate(env) {
                Ok(v) => apply_unary(*unop, &v),
                Err(err) => Err(err),
            },
            Expr::Binary { left, op, right } => match left.evaluate(env) {
                Ok(a) => match right.evaluate(env) {
                    Ok(b) => apply_binary(*op, &a, &b),
                    Err(err) => Err(err),
                },
                Err(err) => Err(err),
            },
            Expr::Concat { left, right } => match left.evaluate(env) {
                Ok(Value::Str(a)) => match right.evaluate(env) {
                    Ok(Value::Str(b)) => {
                        let mut s = a;
                        let mut t = b;
                        s.append(&mut t);
                        Ok(Value::Str(s))
                    },
                    Ok(_) => Err(EvalError::TypeMismatch),
                    Err(err) => Err(err),
                },
                Ok(_) => Err(EvalError::TypeMismatch),
                Err(err) => Err(err),
            },
            Expr::Call { func, arg } => match arg.evaluate(env) {
                Ok(v) => apply_call(*func, &v),
                Err(err) => Err(err),
            },
        }
    }
}

fn is_arith_op(op: BinOp) -> (r: bool)
    ensures
        r == is_arith(op),
{
    match op {
        BinOp::Add | BinOp::Sub | BinOp::Mul | BinOp::Div | BinOp::Mod => true,
        _ => false,
    }
}

fn apply_unary(op: UnOp, v: &Value) -> (r: Result<Value, EvalError>)
    ensures
        result_view(r) == eval_unary(op, v@),
{
    match (op, v) {
        (UnOp::Negate, Value::Integer(i)) => if *i == i64::MIN {
            Err(EvalError::Overflow)
        } else {
            Ok(Value::Integer(-*i))
        },
        (UnOp::Not, Value::Boolean(b)) => Ok(Value::Boolean(!*b)),
        _ => Err(EvalError::TypeMismatch),
    }
}

fn apply_arith(op: BinOp, a: i64, b: i64) -> (r: Result<Value, EvalError>)
    requires
        is_arith(op),
    ensures
        result_view(r) == eval_arith(op, a, b),
{
    let res = match op {
        BinOp::Add => a.checked_add(b),
        BinOp::Sub => a.checked_sub(b),
        BinOp::Mul => a.checked_mul(b),
        BinOp::Div => {
            if b == 0 {
                return Err(EvalError::DivideByZero);
            }
            a.checked_div(b)
        },
        _ => {
            if b == 0 {
                return Err(EvalError::DivideByZero);
            }
            a.checked_rem(b)
        },
    };
    match res {
        Some(x) => Ok(Value::Integer(x)),
        None => Err(EvalError::Overflow),
    }
}

fn apply_binary(op: BinOp, a: &Value, b: &Value) -> (r: Result<Value, EvalError>)
    ensures
        result_view(r) == eval_binary(op, a@, b@),
{
    if a.column_type() != b.column_type() {
        return Err(EvalError::TypeMismatch);
    }
    if is_arith_op(op) {
        match (a, b) {
            (Value::Integer(x), Value::Integer(y)) => apply_arith(op, *x, *y),
            _ => Err(EvalError::TypeMismatch),
        }
    } else {
        let r = match op {
            BinOp::Eq => a.equals(b),
            BinOp::Ne => !a.equals(b),
            BinOp::Lt => a.less_than(b),
            BinOp::Le => a.less_than(b) || a.equals(b),
            BinOp::Gt => b.less_than(a),
            _ => b.less_than(a) || a.equals(b),
        };
        Ok(Value::Boolean(r))
    }
}

fn apply_call(func: Func, v: &Value) -> (r: Result<Value, EvalError>)
    ensures
        result_view(r) == eval_call(func, v@),
{
    match func {
        Func::Boolean => {
            let b = match v {
                Value::Boolean(b) => *b,
                Value::Integer(i) => *i != 0,
                Value::Str(s) => s.len() > 0,
            };
            Ok(Value::Boolean(b))
        },
        Func::Integer => match v {
            Value::Boolean(b) => Ok(Value::Integer(if *b { 1 } else { 0 })),
            Value::Integer(i) => Ok(Value::Integer(*i)),
            Value::Str(s) => match parse_int(s) {
                Some(i) => Ok(Value::Integer(i)),
                None => Err(EvalError::BadConversion),
            },
        },
        Func::Str => {
            let s = match v {
                Value::Boolean(b) => bool_to_chars(*b),
                Value::Integer(i) => int_to_chars(*i),
                Value::Str(s) => copy_chars(s),
            };
            Ok(Value::Str(s))
        },
        _ => Err(EvalError::TypeMismatch),
    }
}

} // verus!
