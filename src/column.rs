use vstd::prelude::*;
use crate::value::{ColumnType, Val, Value, views, val_lt, contains_value, mean_two, mean_of_two};
use crate::expr::{Expr, Binding, EvalError, eval, env_view};

verus! {

/// What a column does with an invalid (or null) value.
#[derive(Debug)]
pub enum Policy {
    /// Fail the whole run.
    Abort,
    /// Hold output back until this many consecutive valid values arrive.
    Average(usize),
    /// Drop the whole row.
    Delete,
    /// Repeat the last output, or this value if there is none.
    Previous(Value),
    /// Emit this value.
    Sentinel(Value),
}

/// How a run of rows is folded into one value when a process aggregates.
#[derive(Debug, Clone, Copy, PartialEq, Eq, Structural)]
pub enum Aggregate {
    First,
    Last,
    Average,
}

/// One declared column of a process.
#[derive(Debug)]
pub struct Column {
    pub title: Vec<char>,
    pub input_type: ColumnType,
    pub output_type: ColumnType,
    pub null_surrogates: Option<Vec<Value>>,
    pub valid_values: Option<Vec<Value>>,
    pub invalid_values: Option<Vec<Value>>,
    pub min: Option<Value>,
    pub max: Option<Value>,
    pub on_invalid: Policy,
    pub on_null: Policy,
    pub output: Expr,
    pub ignore: bool,
    pub aggregate: Aggregate,
}

#[derive(Debug, Clone, Copy, PartialEq, Eq, Structural)]
pub enum LastAction {
    AppendValid,
    IncrementInvalid,
}

/// The state of a column automaton.
#[derive(Debug)]
pub enum Mode {
    Valid,
    Invalid { missing: usize, streak: Vec<Value>, last_action: LastAction },
}

/// The model of `Mode`.
pub enum ModeView {
    Valid,
    Invalid { missing: nat, streak: Seq<Val>, last_action: LastAction },
}

/// A column automaton: its committed output and its state.
#[derive(Debug)]
pub struct Automaton {
    pub output: Vec<Value>,
    pub mode: Mode,
}

pub struct AutoView {
    pub output: Seq<Val>,
    pub mode: ModeView,
}

impl View for Automaton {
    type V = AutoView;

    open spec fn view(&self) -> AutoView {
        AutoView {
            output: views(self.output@),
            mode: match self.mode {
                Mode::Valid => ModeView::Valid,
                Mode::Invalid { missing, streak, last_action } => ModeView::Invalid {
                    missing: missing as nat,
                    streak: views(streak@),
                    last_action,
                },
            },
        }
    }
}

/// The model of a `ColumnError`.
pub enum ColErrV {
    Invalid(Val),
    UnexpectedNull,
    NoValidValues,
    Evaluation(EvalError),
    UnequalLength,
}

/// What an event asks of the row driver.
pub enum Outcome {
    Proceed,
    Delete,
    Fail(ColErrV),
}

/// Why a column stopped the run.
#[derive(Debug)]
pub enum ColumnError {
    /// An invalid value under the `abort` policy.
    Invalid(Value),
    /// A null under the `abort` policy.
    UnexpectedNull,
    /// The run ended inside an average streak with nothing to fill it from.
    NoValidValues,
    /// The output expression failed.
    Evaluation(EvalError),
    /// At aggregation, this column's output and the key column's differ in length.
    UnequalLength,
}

/// The answer of an automaton to one event.
#[derive(Debug)]
pub enum Signal {
    Proceed,
    Delete,
    Fail(ColumnError),
}

pub open spec fn outcome_of(s: Signal) -> Outcome {
    match s {
        Signal::Proceed => Outcome::Proceed,
        Signal::Delete => Outcome::Delete,
        Signal::Fail(e) => Outcome::Fail(col_err_view(e)),
    }
}

pub open spec fn opt_ref_view(o: Option<&Value>) -> Option<Val> {
    match o {
        Some(v) => Some(v@),
        None => None,
    }
}

pub open spec fn col_err_view(e: ColumnError) -> ColErrV {
    match e {
        ColumnError::Invalid(v) => ColErrV::Invalid(v@),
        ColumnError::UnexpectedNull => ColErrV::UnexpectedNull,
        ColumnError::NoValidValues => ColErrV::NoValidValues,
        ColumnError::Evaluation(x) => ColErrV::Evaluation(x),
        ColumnError::UnequalLength => ColErrV::UnequalLength,
    }
}

pub open spec fn opt_view(o: Option<Value>) -> Option<Val> {
    match o {
        Some(v) => Some(v@),
        None => None,
    }
}

/// The policy that a null follows: `average` on null goes through the invalid policy.
pub open spec fn null_policy(c: Column) -> Policy {
    match c.on_null {
        Policy::Average(_) => c.on_invalid,
        _ => c.on_null,
    }
}

/// The streak length of an averaging column.
pub open spec fn streak_goal(c: Column) -> nat {
    match c.on_invalid {
        Policy::Average(k) => k as nat,
        _ => 1,
    }
}

/// The value that back-fills the positions missed before a streak:
/// the mean of the last committed output (or the streak's first value) and the streak's first value.
pub open spec fn backfill_value(output: Seq<Val>, first: Val) -> Val {
    let before = if output.len() > 0 { output.last() } else { first };
    match (before, first) {
        (Val::Integer(a), Val::Integer(b)) => Val::Integer(mean_of_two(a, b)),
        _ => first,
    }
}

/// The state after a policy is applied to the `offending` value (`None` for a null), and
/// what it asks of the driver.
pub open spec fn apply_policy(p: Policy, s: AutoView, offending: Option<Val>) -> (AutoView, Outcome) {
    match p {
        Policy::Abort => (
            s,
            Outcome::Fail(
                match offending {
                    Some(v) => ColErrV::Invalid(v),
                    None => ColErrV::UnexpectedNull,
                },
            ),
        ),
        Policy::Delete => (s, Outcome::Delete),
        Policy::Sentinel(v) => (AutoView { output: s.output.push(v@), mode: s.mode }, Outcome::Proceed),
        Policy::Previous(v) => (
            AutoView {
                output: s.output.push(if s.output.len() > 0 { s.output.last() } else { v@ }),
                mode: s.mode,
            },
            Outcome::Proceed,
        ),
        Policy::Average(_) => (
            AutoView {
                output: s.output,
                mode: match s.mode {
                    ModeView::Valid => ModeView::Invalid {
                        missing: 1,
                        streak: Seq::empty(),
                        last_action: LastAction::IncrementInvalid,
                    },
                    ModeView::Invalid { missing, streak, last_action } => ModeView::Invalid {
                        missing: missing + 1 + streak.len(),
                        streak: Seq::empty(),
                        last_action: LastAction::IncrementInvalid,
                    },
                },
            },
            Outcome::Proceed,
        ),
    }
}

/// The state after a valid output value `v` is accepted.
pub open spec fn accept(k: nat, s: AutoView, v: Val) -> AutoView {
    match s.mode {
        ModeView::Valid => AutoView { output: s.output.push(v), mode: ModeView::Valid },
        ModeView::Invalid { missing, streak, last_action } => {
            let st = streak.push(v);
            if st.len() >= k {
                AutoView {
                    output: s.output + Seq::new(missing, |i: int| backfill_value(s.output, st[0]))
                        + st,
                    mode: ModeView::Valid,
                }
            } else {
                AutoView {
                    output: s.output,
                    mode: ModeView::Invalid { missing, streak: st, last_action: LastAction::AppendValid },
                }
            }
        },
    }
}

/// Whether `v` passes the column's bounds and value lists.
pub open spec fn passes(c: Column, v: Val) -> bool {
    &&& !(c.max matches Some(m) && val_lt(m@, v))
    &&& !(c.min matches Some(m) && val_lt(v, m@))
    &&& !(c.invalid_values matches Some(l) && views(l@).contains(v))
    &&& !(c.valid_values matches Some(l) && !views(l@).contains(v))
}

/// The effect of a non-null raw value `v` on the automaton, with the row's names in `env`.
pub open spec fn push_step(c: Column, s: AutoView, v: Val, env: Seq<(Seq<char>, Option<Val>)>) -> (
    AutoView,
    Outcome,
) {
    if !passes(c, v) {
        apply_policy(c.on_invalid, s, Some(v))
    } else {
        match eval(c.output, env) {
            Ok(o) => (accept(streak_goal(c), s, o), Outcome::Proceed),
            Err(e) => (s, Outcome::Fail(ColErrV::Evaluation(e))),
        }
    }
}

pub open spec fn null_step(c: Column, s: AutoView) -> (AutoView, Outcome) {
    apply_policy(null_policy(c), s, None)
}

/// Retracts the effect of the last event.
pub open spec fn undo_step(s: AutoView) -> AutoView {
    match s.mode {
        ModeView::Valid => AutoView {
            output: if s.output.len() > 0 { s.output.drop_last() } else { s.output },
            mode: ModeView::Valid,
        },
        ModeView::Invalid { missing, streak, last_action } => if last_action
            == LastAction::AppendValid {
            AutoView {
                output: s.output,
                mode: ModeView::Invalid {
                    missing,
                    streak: if streak.len() > 0 { streak.drop_last() } else { streak },
                    last_action,
                },
            }
        } else if missing <= 1 {
            AutoView { output: s.output, mode: ModeView::Valid }
        } else {
            AutoView {
                output: s.output,
                mode: ModeView::Invalid { missing: (missing - 1) as nat, streak, last_action },
            }
        },
    }
}

/// The state after the last row, or `None` if a pending streak has nothing to fill from.
pub open spec fn finish_step(s: AutoView) -> Option<AutoView> {
    match s.mode {
        ModeView::Valid => Some(s),
        ModeView::Invalid { missing, streak, .. } => if s.output.len() == 0 {
            None
        } else {
            Some(
                AutoView {
                    output: s.output + Seq::new(
                        missing + streak.len(),
                        |i: int| s.output.last(),
                    ),
                    mode: ModeView::Valid,
                },
            )
        },
    }
}

/// Positions the automaton has accounted for: committed ones and pending ones.
pub open spec fn positions(s: AutoView) -> nat {
    match s.mode {
        ModeView::Valid => s.output.len(),
        ModeView::Invalid { missing, streak, .. } => s.output.len() + missing + streak.len(),
    }
}

pub open spec fn policy_wf(p: Policy) -> bool {
    p matches Policy::Average(k) ==> k >= 1
}

/// The invariants of a column that the loader establishes and the automaton relies on.
pub open spec fn column_wf(c: Column) -> bool {
    &&& policy_wf(c.on_invalid)
    &&& policy_wf(c.on_null)
    &&& (c.on_null matches Policy::Average(_) ==> c.on_invalid matches Policy::Average(_))
    &&& (c.on_invalid matches Policy::Average(_) ==> !(c.on_null is Sentinel || c.on_null is Previous))
}

/// The invariant of an automaton of column `c`.
pub open spec fn auto_wf(c: Column, s: AutoView) -> bool {
    s.mode matches ModeView::Invalid { missing, streak, .. } ==> {
        &&& c.on_invalid matches Policy::Average(_)
        &&& missing >= 1
        &&& streak.len() < streak_goal(c)
    }
}

pub open spec fn initial() -> AutoView {
    AutoView { output: Seq::empty(), mode: ModeView::Valid }
}

pub open spec fn mean_int(s: Seq<Val>) -> int {
    trunc_div_int(sum_ints(s), s.len() as int)
}

pub open spec fn trunc_div_int(x: int, d: int) -> int {
    crate::value::trunc_div(x, d)
}

pub open spec fn int_of(v: Val) -> int {
    match v {
        Val::Integer(i) => i as int,
        _ => 0,
    }
}

/// The sum of the integers of `s` (entries of other types count as zero).
pub open spec fn sum_ints(s: Seq<Val>) -> int
    decreases s.len(),
{
    if s.len() == 0 {
        0
    } else {
        sum_ints(s.drop_last()) + int_of(s.last())
    }
}

/// The aggregate of `output[lo..=hi]`.
pub open spec fn aggregate_spec(a: Aggregate, output: Seq<Val>, lo: int, hi: int) -> Val {
    match a {
        Aggregate::First => output[lo],
        Aggregate::Last => output[hi],
        Aggregate::Average => Val::Integer(mean_int(output.subrange(lo, hi + 1)) as i64),
    }
}

pub proof fn lemma_views_push(s: Seq<Value>, x: Value)
    ensures
        views(s.push(x)) == views(s).push(x@),
{
    assert(views(s.push(x)) =~= views(s).push(x@));
}

proof fn lemma_views_drop_last(s: Seq<Value>)
    requires
        s.len() > 0,
    ensures
        views(s.drop_last()) == views(s).drop_last(),
{
    assert(views(s.drop_last()) =~= views(s).drop_last());
}

proof fn lemma_repeat_push(base: Seq<Val>, j: nat, x: Val)
    ensures
        (base + Seq::new(j, |i: int| x)).push(x) == base + Seq::new(j + 1, |i: int| x),
{
    assert((base + Seq::new(j, |i: int| x)).push(x) =~= base + Seq::new(j + 1, |i: int| x));
}

fn new_value_vec() -> (r: Vec<Value>)
    ensures
        r@.len() == 0,
{
    Vec::new()
}

impl Automaton {
    pub fn new() -> (r: Automaton)
        ensures
            r@ == initial(),
    {
        let r = Automaton { output: new_value_vec(), mode: Mode::Valid };
        assert(r@.output =~= Seq::<Val>::empty());
        r
    }

    fn apply(&mut self, p: &Policy, offending: Option<&Value>) -> (r: Signal)
        requires
            policy_wf(*p),
            positions(old(self)@) < usize::MAX,
        ensures
            final(self)@ == apply_policy(*p, old(self)@, opt_ref_view(offending)).0,
            outcome_of(r) == apply_policy(*p, old(self)@, opt_ref_view(offending)).1,
            r matches Signal::Fail(e) ==> (match offending {
                Some(v) => e matches ColumnError::Invalid(x) && x@ == v@,
                None => e matches ColumnError::UnexpectedNull,
            }),
    {
        match p {
            Policy::Abort => match offending {
                Some(v) => Signal::Fail(ColumnError::Invalid(v.duplicate())),
                None => Signal::Fail(ColumnError::UnexpectedNull),
            },
            Policy::Delete => Signal::Delete,
            Policy::Sentinel(v) => {
                self.output.push(v.duplicate());
                proof {
                    assert(views(self.output@) =~= views(old(self).output@).push(v@));
                }
                Signal::Proceed
            },
            Policy::Previous(v) => {
                let n = self.output.len();
                let x = if n > 0 {
                    self.output[n - 1].duplicate()
                } else {
                    v.duplicate()
                };
                self.output.push(x);
                proof {
                    assert(views(self.output@) =~= views(old(self).output@).push(x@));
                }
                Signal::Proceed
            },
            Policy::Average(_) => {
                let mut m = Mode::Valid;
                std::mem::swap(&mut self.mode, &mut m);
                let fresh = new_value_vec();
                assert(views(fresh@) =~= Seq::<Val>::empty());
                match m {
                    Mode::Valid => {
                        self.mode = Mode::Invalid {
                            missing: 1,
                            streak: fresh,
                            last_action: LastAction::IncrementInvalid,
                        };
                    },
                    Mode::Invalid { missing, streak, .. } => {
                        assert(views(streak@).len() == streak@.len());
                        self.mode = Mode::Invalid {
                            missing: missing + 1 + streak.len(),
                            streak: fresh,
                            last_action: LastAction::IncrementInvalid,
                        };
                    },
                }
                Signal::Proceed
            },
        }
    }

    /// Accepts a valid output value: appends it, or extends the pending streak
    /// and commits it once it is `k` long.
    fn accept_value(&mut self, k: usize, v: Value)
        requires
            k >= 1,
            old(self)@.mode matches ModeView::Invalid { streak, .. } ==> streak.len() < k,
            positions(old(self)@) < usize::MAX,
        ensures
            final(self)@ == accept(k as nat, old(self)@, v@),
            positions(final(self)@) == positions(old(self)@) + 1,
    {
        let mut m = Mode::Valid;
        std::mem::swap(&mut self.mode, &mut m);
        match m {
            Mode::Valid => {
                self.output.push(v);
                assert(views(self.output@) =~= views(old(self).output@).push(v@));
            },
            Mode::Invalid { missing, streak, last_action } => {
                let mut streak = streak;
                let ghost old_streak = views(streak@);
                streak.push(v);
                assert(views(streak@) =~= old_streak.push(v@));
                if streak.len() >= k {
                    let fill = backfill(&self.output, &streak[0]);
                    let ghost base = views(self.output@);
                    let mut j: usize = 0;
                    while j < missing
                        invariant
                            j <= missing,
                            self.mode matches Mode::Valid,
                            base == views(old(self).output@),
                            views(self.output@) == base + Seq::new(j as nat, |i: int| fill@),
                        decreases missing - j,
                    {
                        let ghost prev = self.output@;
                        self.output.push(fill.duplicate());
                        proof {
                            lemma_views_push(prev, self.output@.last());
                            lemma_repeat_push(base, j as nat, fill@);
                        }
                        j = j + 1;
                    }
                    let ghost mid = views(self.output@);
                    let mut t: usize = 0;
                    while t < streak.len()
                        invariant
                            t <= streak.len(),
                            self.mode matches Mode::Valid,
                            views(self.output@) == mid + views(streak@).subrange(0, t as int),
                        decreases streak.len() - t,
                    {
                        let ghost prev = self.output@;
                        self.output.push(streak[t].duplicate());
                        proof {
                            lemma_views_push(prev, self.output@.last());
                            assert(views(streak@)[t as int] == streak@[t as int]@);
                            assert((mid + views(streak@).subrange(0, t as int)).push(
                                streak@[t as int]@,
                            ) =~= mid + views(streak@).subrange(0, t + 1));
                        }
                        t = t + 1;
                    }
                    assert(views(streak@).subrange(0, streak.len() as int) =~= views(streak@));
                    assert(Seq::new(missing as nat, |i: int| fill@) =~= Seq::new(
                        missing as nat,
                        |i: int| backfill_value(base, views(streak@)[0]),
                    ));

                } else {
                    self.mode = Mode::Invalid {
                        missing,
                        streak,
                        last_action: LastAction::AppendValid,
                    };
                }
            },
        }
    }

    /// Feeds a non-null raw value; `env` binds `value` and the sibling names for this row.
    pub fn push(&mut self, c: &Column, v: &Value, env: &Vec<Binding>) -> (r: Signal)
        requires
            column_wf(*c),
            auto_wf(*c, old(self)@),
            positions(old(self)@) < usize::MAX,
        ensures
            final(self)@ == push_step(*c, old(self)@, v@, env_view(env@)).0,
            outcome_of(r) == push_step(*c, old(self)@, v@, env_view(env@)).1,
            auto_wf(*c, final(self)@),
            r matches Signal::Fail(e) ==> (e matches ColumnError::Invalid(x) ==> x@ == v@),
            r matches Signal::Fail(e) ==> !(e is UnequalLength),
            !passes(*c, v@) && c.on_invalid is Abort ==> (r matches Signal::Fail(ColumnError::Invalid(x)) && x@ == v@),
    {
        if !passes_checks(c, v) {
            return self.apply(&c.on_invalid, Some(v));
        }
        match c.output.evaluate(env) {
            Ok(o) => {
                let k: usize = match c.on_invalid {
                    Policy::Average(k) => k,
                    _ => 1,
                };
                self.accept_value(k, o);
                Signal::Proceed
            },
            Err(e) => Signal::Fail(ColumnError::Evaluation(e)),
        }
    }

    /// Feeds a null: an empty field or a null surrogate.
    pub fn null(&mut self, c: &Column) -> (r: Signal)
        requires
            column_wf(*c),
            auto_wf(*c, old(self)@),
            positions(old(self)@) < usize::MAX,
        ensures
            final(self)@ == null_step(*c, old(self)@).0,
            outcome_of(r) == null_step(*c, old(self)@).1,
            auto_wf(*c, final(self)@),
            r matches Signal::Fail(e) ==> e matches ColumnError::UnexpectedNull,
    {
        match c.on_null {
            Policy::Average(_) => self.apply(&c.on_invalid, None),
            _ => self.apply(&c.on_null, None),
        }
    }

    /// Retracts the effect of the last event of this row.
    pub fn undo(&mut self)
        ensures
            final(self)@ == undo_step(old(self)@),
    {
        let mut m = Mode::Valid;
        std::mem::swap(&mut self.mode, &mut m);
        match m {
            Mode::Valid => {
                if self.output.len() > 0 {
                    let _ = self.output.pop();
                    proof {
                        lemma_views_drop_last(old(self).output@);
                    }
                }
            },
            Mode::Invalid { missing, streak, last_action } => {
                let mut streak = streak;
                if last_action == LastAction::AppendValid {
                    if streak.len() > 0 {
                        let _ = streak.pop();
                    }
                    assert(views(streak@) =~= (if views(old(self).mode->streak@).len() > 0 {
                        views(old(self).mode->streak@).drop_last()
                    } else {
                        views(old(self).mode->streak@)
                    }));
                    self.mode = Mode::Invalid { missing, streak, last_action };
                } else if missing > 1 {
                    self.mode = Mode::Invalid { missing: missing - 1, streak, last_action };
                }
            },
        }
    }

    /// Ends the run: a pending streak is filled with the last committed output.
    pub fn finish(&mut self) -> (r: Signal)
        ensures
            finish_step(old(self)@) matches Some(s) ==> r matches Signal::Proceed && final(self)@ == s,
            finish_step(old(self)@) is None ==> r matches Signal::Fail(ColumnError::NoValidValues),
            r matches Signal::Fail(e) ==> !(e is UnequalLength),
    {
        let mut m = Mode::Valid;
        std::mem::swap(&mut self.mode, &mut m);
        match m {
            Mode::Valid => Signal::Proceed,
            Mode::Invalid { missing, streak, last_action } => {
                let n = self.output.len();
                if n == 0 {
                    self.mode = Mode::Invalid { missing, streak, last_action };
                    return Signal::Fail(ColumnError::NoValidValues);
                }
                let fill = self.output[n - 1].duplicate();
                let ghost base = views(self.output@);
                let total: u128 = missing as u128 + streak.len() as u128;
                let mut j: u128 = 0;
                while j < total
                    invariant
                        j <= total,
                        self.mode matches Mode::Valid,
                        total == missing + streak@.len(),
                        fill@ == base.last(),
                        base.len() > 0,
                        views(self.output@) == base + Seq::new(j as nat, |i: int| fill@),
                    decreases total - j,
                {
                    let ghost prev = self.output@;
                    self.output.push(fill.duplicate());
                    proof {
                        lemma_views_push(prev, self.output@.last());
                        lemma_repeat_push(base, j as nat, fill@);
                    }
                    j = j + 1;
                }
                assert(Seq::new(total as nat, |i: int| fill@) =~= Seq::new(
                    (missing + views(streak@).len()) as nat,
                    |i: int| base.last(),
                ));
                Signal::Proceed
            },
        }
    }

    /// The aggregate of `output[lo..=hi]`.
    pub fn aggregate(&self, a: Aggregate, lo: usize, hi: usize) -> (r: Value)
        requires
            lo <= hi < self.output.len(),
        ensures
            r@ == aggregate_spec(a, self@.output, lo as int, hi as int),
    {
        match a {
            Aggregate::First => self.output[lo].duplicate(),
            Aggregate::Last => self.output[hi].duplicate(),
            Aggregate::Average => {
                let ghost s = views(self.output@);
                let mut sum: i128 = 0;
                let mut i: usize = lo;
                while i <= hi
                    invariant
                        lo <= i <= hi + 1,
                        hi < self.output.len(),
                        s == views(self.output@),
                        sum == sum_ints(s.subrange(lo as int, i as int)),
                        -(i - lo) * 0x8000_0000_0000_0000 <= sum <= (i - lo) * 0x7fff_ffff_ffff_ffff,
                    decreases hi + 1 - i,
                {
                    let x: i64 = match &self.output[i] {
                        Value::Integer(x) => *x,
                        _ => 0,
                    };
                    let ghost sub = s.subrange(lo as int, i + 1);
                    assert(sub.drop_last() =~= s.subrange(lo as int, i as int));
                    assert(int_of(sub.last()) == x);
                    assert(sum + x <= (i + 1 - lo) * 0x7fff_ffff_ffff_ffff) by (nonlinear_arith)
                        requires sum <= (i - lo) * 0x7fff_ffff_ffff_ffff, x <= 0x7fff_ffff_ffff_ffff;
                    assert(sum + x >= -(i + 1 - lo) * 0x8000_0000_0000_0000) by (nonlinear_arith)
                        requires sum >= -(i - lo) * 0x8000_0000_0000_0000, x >= -0x8000_0000_0000_0000;
                    assert((i + 1 - lo) * 0x8000_0000_0000_0000 < 0x8000_0000_0000_0000_0000_0000_0000_0000) by (nonlinear_arith)
                        requires i + 1 - lo <= 0xffff_ffff_ffff_ffff;
                    sum = sum + x as i128;
                    i = i + 1;
                }
                let n: i128 = (hi - lo + 1) as i128;
                let q: i128 = if sum >= 0 {
                    sum / n
                } else {
                    -((-sum) / n)
                };
                assert(-0x8000_0000_0000_0000 <= q <= 0x7fff_ffff_ffff_ffff) by (nonlinear_arith)
                    requires
                        n >= 1,
                        -n * 0x8000_0000_0000_0000 <= sum <= n * 0x7fff_ffff_ffff_ffff,
                        sum >= 0 ==> q == (sum as int) / (n as int),
                        sum < 0 ==> q == -((-(sum as int)) / (n as int)),
                ;
                Value::Integer(q as i64)
            },
        }
    }
}

fn backfill(output: &Vec<Value>, first: &Value) -> (r: Value)
    ensures
        r@ == backfill_value(views(output@), first@),
{
    let n = output.len();
    let before = if n > 0 { &output[n - 1] } else { first };
    match (before, first) {
        (Value::Integer(a), Value::Integer(b)) => Value::Integer(mean_two(*a, *b)),
        _ => first.duplicate(),
    }
}

fn passes_checks(c: &Column, v: &Value) -> (r: bool)
    ensures
        r == passes(*c, v@),
{
    if let Some(m) = &c.max {
        if m.less_than(v) {
            return false;
        }
    }
    if let Some(m) = &c.min {
        if v.less_than(m) {
            return false;
        }
    }
    if let Some(l) = &c.invalid_values {
        if contains_value(l, v) {
            return false;
        }
    }
    if let Some(l) = &c.valid_values {
        if !contains_value(l, v) {
            return false;
        }
    }
    true
}

} // verus!
