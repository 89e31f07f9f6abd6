use vstd::prelude::*;

verus! {

/// The scalar types a column may be declared with.
#[derive(Debug, Clone, Copy, PartialEq, Eq, Structural)]
pub enum ColumnType {
    Boolean,
    Integer,
    Str,
}

impl ColumnType {
    /// Integer is the one numeric type of this library.
    pub open spec fn numeric(self) -> bool {
        self == ColumnType::Integer
    }

    pub fn is_numeric(&self) -> (r: bool)
        ensures
            r == self.numeric(),
    {
        match self {
            ColumnType::Integer => true,
            _ => false,
        }
    }
}

/// A cell value: a tagged union over the column types.
#[derive(Debug)]
pub enum Value {
    Boolean(bool),
    Integer(i64),
    Str(Vec<char>),
}

/// The mathematical model of a `Value`.
pub enum Val {
    Boolean(bool),
    Integer(i64),
    Str(Seq<char>),
}

impl View for Value {
    type V = Val;

    open spec fn view(&self) -> Val {
        match self {
            Value::Boolean(b) => Val::Boolean(*b),
            Value::Integer(i) => Val::Integer(*i),
            Value::Str(s) => Val::Str(s@),
        }
    }
}

pub open spec fn type_of(v: Val) -> ColumnType {
    match v {
        Val::Boolean(_) => ColumnType::Boolean,
        Val::Integer(_) => ColumnType::Integer,
        Val::Str(_) => ColumnType::Str,
    }
}

pub open spec fn views(vs: Seq<Value>) -> Seq<Val> {
    vs.map_values(|v: Value| v@)
}

/// Lexicographic order on character sequences, by code point.
pub open spec fn seq_lt(a: Seq<char>, b: Seq<char>) -> bool
    decreases a.len(),
{
    if b.len() == 0 {
        false
    } else if a.len() == 0 {
        true
    } else if a[0] != b[0] {
        a[0] < b[0]
    } else {
        seq_lt(a.drop_first(), b.drop_first())
    }
}

/// Strict order on two values of the same type.
pub open spec fn val_lt(a: Val, b: Val) -> bool {
    match (a, b) {
        (Val::Boolean(x), Val::Boolean(y)) => !x && y,
        (Val::Integer(x), Val::Integer(y)) => x < y,
        (Val::Str(x), Val::Str(y)) => seq_lt(x, y),
        _ => false,
    }
}

/// Integer division truncating toward zero, for a positive divisor.
pub open spec fn trunc_div(x: int, d: int) -> int {
    if x >= 0 {
        x / d
    } else {
        -((-x) / d)
    }
}

/// The truncated mean of two integers.
pub open spec fn mean_of_two(a: i64, b: i64) -> i64 {
    trunc_div(a + b, 2) as i64
}

pub fn chars_equal(a: &Vec<char>, b: &Vec<char>) -> (r: bool)
    ensures
        r == (a@ == b@),
{
    if a.len() != b.len() {
        return false;
    }
    let mut i: usize = 0;
    while i < a.len()
        invariant
            a.len() == b.len(),
            i <= a.len(),
            forall|j: int| 0 <= j < i ==> a@[j] == b@[j],
        decreases a.len() - i,
    {
        if a[i] != b[i] {
            return false;
        }
        i = i + 1;
    }
    assert(a@ =~= b@);
    true
}

pub fn chars_less(a: &Vec<char>, b: &Vec<char>) -> (r: bool)
    ensures
        r == seq_lt(a@, b@),
{
    let mut i: usize = 0;
    assert(a@.skip(0) =~= a@);
    assert(b@.skip(0) =~= b@);
    while i < a.len() && i < b.len()
        invariant
            i <= a.len(),
            i <= b.len(),
            seq_lt(a@, b@) == seq_lt(a@.skip(i as int), b@.skip(i as int)),
        decreases a.len() - i,
    {
        if a[i] != b[i] {
            assert(a@.skip(i as int)[0] == a@[i as int]);
            assert(b@.skip(i as int)[0] == b@[i as int]);
            return a[i] < b[i];
        }
        assert(a@.skip(i as int).drop_first() =~= a@.skip(i + 1));
        assert(b@.skip(i as int).drop_first() =~= b@.skip(i + 1));
        i = i + 1;
    }
    i < b.len()
}

pub fn copy_chars(a: &Vec<char>) -> (r: Vec<char>)
    ensures
        r@ == a@,
{
    let mut r: Vec<char> = Vec::new();
    let mut i: usize = 0;
    while i < a.len()
        invariant
            i <= a.len(),
            r@ == a@.subrange(0, i as int),
        decreases a.len() - i,
    {
        r.push(a[i]);
        i = i + 1;
        assert(r@ =~= a@.subrange(0, i as int));
    }
    assert(a@.subrange(0, a.len() as int) =~= a@);
    r
}

impl Value {
    pub fn column_type(&self) -> (r: ColumnType)
        ensures
            r == type_of(self@),
    {
        match self {
            Value::Boolean(_) => ColumnType::Boolean,
            Value::Integer(_) => ColumnType::Integer,
            Value::Str(_) => ColumnType::Str,
        }
    }

    /// A copy with the same model.
    pub fn duplicate(&self) -> (r: Value)
        ensures
            r@ == self@,
    {
        match self {
            Value::Boolean(b) => Value::Boolean(*b),
            Value::Integer(i) => Value::Integer(*i),
            Value::Str(s) => Value::Str(copy_chars(s)),
        }
    }

    /// Structural equality within a tag; values of different tags differ.
    pub fn equals(&self, other: &Value) -> (r: bool)
        ensures
            r == (self@ == other@),
    {
        match (self, other) {
            (Value::Boolean(a), Value::Boolean(b)) => *a == *b,
            (Value::Integer(a), Value::Integer(b)) => *a == *b,
            (Value::Str(a), Value::Str(b)) => chars_equal(a, b),
            _ => false,
        }
    }

    /// `self < other` for two values of one type.
    pub fn less_than(&self, other: &Value) -> (r: bool)
        ensures
            r == val_lt(self@, other@),
    {
        match (self, other) {
            (Value::Boolean(a), Value::Boolean(b)) => !*a && *b,
            (Value::Integer(a), Value::Integer(b)) => *a < *b,
            (Value::Str(a), Value::Str(b)) => chars_less(a, b),
            _ => false,
        }
    }
}

/// Whether `v` occurs in `list`.
pub fn contains_value(list: &Vec<Value>, v: &Value) -> (r: bool)
    ensures
        r == views(list@).contains(v@),
{
    let mut i: usize = 0;
    while i < list.len()
        invariant
            i <= list.len(),
            forall|j: int| 0 <= j < i ==> list@[j]@ != v@,
        decreases list.len() - i,
    {
        if list[i].equals(v) {
            assert(views(list@)[i as int] == v@);
            return true;
        }
        i = i + 1;
    }
    assert(!views(list@).contains(v@)) by {
        if views(list@).contains(v@) {
            let k = choose|k: int| 0 <= k < views(list@).len() && views(list@)[k] == v@;
            assert(list@[k]@ == v@);
        }
    }
    false
}

/// The truncated mean of two integers; it always fits.
pub fn mean_two(a: i64, b: i64) -> (r: i64)
    ensures
        r == mean_of_two(a, b),
{
    let s: i128 = a as i128 + b as i128;
    let m: i128 = if s >= 0 {
        s / 2
    } else {
        -((-s) / 2)
    };
    m as i64
}

} // verus!
