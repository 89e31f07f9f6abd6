use vstd::prelude::*;
use crate::value::{Val, views, mean_of_two, trunc_div};
use crate::expr::Expr;
use crate::column::{
    Column, AutoView, ModeView, LastAction, Outcome, accept, backfill_value, passes,
    auto_wf, column_wf, positions, undo_step, finish_step, initial,
};
use crate::process::{
    RowResult, RunResult, row_from, run_rows, finish_from, run_process_spec, dispatch, undo_before,
    columns_wf, initial_states, value_name, row_env, sibling_names, kept,
};
use crate::aggregate::{runs_of, compress_column, lemma_keys_alternate};
use crate::pipeline::{Program, text_spec};
use crate::text::{
    nat_text, int_text, digit_char, digit_value, digits_value, all_digits, is_digit, parse_int_spec,
    bool_text, parse_cell_spec,
};
use crate::value::type_of;
use crate::csv::{
    split_on, lemma_split_nonempty, strip_cr, lines_of, sections_of, header_of, titles_of, cells_of,
    first_bad_field, field_cell, line_error,
};
use crate::pipeline::{OnTitle, section_spec, chain_from, first_bad_line, lemma_first_bad_none};

verus! {

proof fn lemma_mean_of_same(a: i64)
    ensures
        mean_of_two(a, a) == a,
{
    assert(trunc_div(a + a, 2) == a);
}

/// When an averaging automaton completes its streak of `k` valid values, exactly
/// `missing` back-filled values and then the `k` streak values are appended, and it
/// returns to the valid state: the output grows by `missing + k`.
pub proof fn lemma_commit_appends(k: nat, s: AutoView, v: Val)
    requires
        s.mode matches ModeView::Invalid { streak, .. } && streak.len() + 1 == k,
    ensures
        ({
            let missing = s.mode->missing;
            let st = s.mode->streak.push(v);
            let r = accept(k, s, v);
            &&& r.mode is Valid
            &&& r.output.len() == s.output.len() + missing + k
            &&& r.output.subrange(0, s.output.len() as int) == s.output
            &&& r.output.subrange((s.output.len() + missing) as int, r.output.len() as int) == st
        }),
{
    let missing = s.mode->missing;
    let st = s.mode->streak.push(v);
    let r = accept(k, s, v);
    assert(r.output.subrange(0, s.output.len() as int) =~= s.output);
    assert(r.output.subrange((s.output.len() + missing) as int, r.output.len() as int) =~= st);
}

/// The back-filled values of a commit are the truncated mean of the last output before
/// the streak and the streak's first value; with no prior output, the streak's first value.
pub proof fn lemma_commit_mean(k: nat, s: AutoView, v: Val)
    requires
        s.mode matches ModeView::Invalid { streak, .. } && streak.len() + 1 == k,
        s.output.len() > 0 ==> s.output.last() is Integer,
        s.mode->streak.push(v)[0] is Integer,
    ensures
        ({
            let missing = s.mode->missing;
            let first = s.mode->streak.push(v)[0]->Integer_0;
            let r = accept(k, s, v);
            forall|i: int|
                s.output.len() <= i < s.output.len() + missing ==> #[trigger] r.output[i] == Val::Integer(
                    if s.output.len() > 0 {
                        mean_of_two(s.output.last()->Integer_0, first)
                    } else {
                        first
                    },
                )
        }),
{
    let first = s.mode->streak.push(v)[0]->Integer_0;
    lemma_mean_of_same(first);
    let r = accept(k, s, v);
    assert forall|i: int|
        s.output.len() <= i < s.output.len() + s.mode->missing implies #[trigger] r.output[i]
        == backfill_value(s.output, s.mode->streak.push(v)[0]) by {}
}

/// Under aggregation, the key column of the result has no two equal neighbours.
pub proof fn lemma_aggregated_keys_differ(key: Seq<Val>, c: crate::column::Column, s: AutoView)
    ensures
        ({
            let out = compress_column(c, s, true, key, runs_of(key, key.len()));
            forall|r: int| 0 <= r < out.len() - 1 ==> #[trigger] out[r] != out[r + 1]
        }),
{
    lemma_keys_alternate(key);
    let runs = runs_of(key, key.len());
    let out = compress_column(c, s, true, key, runs);
    assert forall|r: int| 0 <= r < out.len() - 1 implies #[trigger] out[r] != out[r + 1] by {
        assert(out[r] == key[runs[r].0]);
        assert(out[r + 1] == key[runs[r + 1].0]);
    }
}

/// The result of a run depends on the program and the text alone.
pub proof fn lemma_deterministic(p: Program, a: Seq<char>, b: Seq<char>)
    requires
        a == b,
    ensures
        text_spec(p, a) == text_spec(p, b),
{
}


/// A pending streak is empty right after an invalid value.
pub open spec fn clean(s: AutoView) -> bool {
    match s.mode {
        ModeView::Invalid { streak, last_action, .. } => last_action == LastAction::IncrementInvalid
            ==> streak.len() == 0,
        ModeView::Valid => true,
    }
}

/// The last event left something that `undo` removes.
pub open spec fn undo_ready(s: AutoView) -> bool {
    match s.mode {
        ModeView::Valid => s.output.len() > 0,
        ModeView::Invalid { missing, streak, last_action } => if last_action == LastAction::AppendValid {
            streak.len() > 0
        } else {
            missing >= 1
        },
    }
}

/// The automaton invariant together with `clean`.
pub open spec fn good(c: Column, s: AutoView) -> bool {
    auto_wf(c, s) && clean(s)
}

proof fn lemma_event(cols: Seq<Column>, raw: bool, cells: Seq<Seq<Option<Val>>>, i: int, x: int, s: AutoView)
    requires
        0 <= x < cols.len(),
        column_wf(cols[x]),
        good(cols[x], s),
    ensures
        ({
            let step = dispatch(cols, raw, cells, i, x, s);
            &&& good(cols[x], step.0)
            &&& step.1 is Proceed ==> positions(step.0) == positions(s) + 1 && undo_ready(step.0)
        }),
{
    let c = cols[x];

}

proof fn lemma_undo_one(c: Column, s: AutoView)
    requires
        good(c, s),
        undo_ready(s),
    ensures
        good(c, undo_step(s)),
        positions(undo_step(s)) + 1 == positions(s),
{
}

/// The automata of non-ignored columns, with their position counts.
pub open spec fn counted(cols: Seq<Column>, states: Seq<AutoView>, m: int) -> bool {
    &&& states.len() == cols.len()
    &&& forall|x: int| 0 <= x < cols.len() && !(#[trigger] cols[x]).ignore ==> good(cols[x], states[x])
        && positions(states[x]) == m
}

proof fn lemma_row(cols: Seq<Column>, raw: bool, cells: Seq<Seq<Option<Val>>>, i: int, states: Seq<AutoView>, j: int, m: int)
    requires
        columns_wf(cols),
        0 <= j <= cols.len(),
        states.len() == cols.len(),
        forall|x: int| 0 <= x < cols.len() && !(#[trigger] cols[x]).ignore ==> good(cols[x], states[x]),
        forall|x: int| 0 <= x < j && !(#[trigger] cols[x]).ignore ==> positions(states[x]) == m + 1 && undo_ready(states[x]),
        forall|x: int| j <= x < cols.len() && !(#[trigger] cols[x]).ignore ==> positions(states[x]) == m,
    ensures
        match row_from(cols, raw, cells, i, states, j) {
            RowResult::Committed(s) => counted(cols, s, m + 1),
            RowResult::Deleted(s) => counted(cols, s, m),
            RowResult::Failed(_, _) => true,
        },
    decreases cols.len() - j,
{
    if j < cols.len() {
        if cols[j].ignore {
            lemma_row(cols, raw, cells, i, states, j + 1, m);
        } else {
            let step = dispatch(cols, raw, cells, i, j, states[j]);
            lemma_event(cols, raw, cells, i, j, states[j]);
            match step.1 {
                Outcome::Proceed => {
                    let ns = states.update(j, step.0);
                    assert forall|x: int| 0 <= x < j + 1 && !(#[trigger] cols[x]).ignore implies positions(ns[x]) == m + 1
                        && undo_ready(ns[x]) by {
                        if x < j {
                            assert(ns[x] == states[x]);
                        }
                    }
                    lemma_row(cols, raw, cells, i, ns, j + 1, m);
                },
                Outcome::Delete => {
                    let s = undo_before(cols, states, j);
                    assert forall|x: int| 0 <= x < cols.len() && !(#[trigger] cols[x]).ignore implies good(cols[x], s[x])
                        && positions(s[x]) == m by {
                        if x < j {
                            lemma_undo_one(cols[x], states[x]);
                        }
                    }
                },
                Outcome::Fail(_) => {},
            }
        }
    } else {
        assert(counted(cols, states, m + 1));
    }
}

/// After `n` rows, if the run goes on, the automata share one count of positions.
pub open spec fn rows_counted(cols: Seq<Column>, raw: bool, cells: Seq<Seq<Option<Val>>>, n: nat) -> bool {
    match run_rows(cols, raw, cells, n) {
        RunResult::Done(st) => exists|m: int| counted(cols, st, m),
        _ => true,
    }
}

/// The rows so far leave every non-ignored automaton with one count of positions.
proof fn lemma_rows(cols: Seq<Column>, raw: bool, cells: Seq<Seq<Option<Val>>>, n: nat)
    requires
        columns_wf(cols),
    ensures
        rows_counted(cols, raw, cells, n),
    decreases n,
{
    if n == 0 {
        assert(counted(cols, initial_states(cols.len()), 0));
        assert(run_rows(cols, raw, cells, n) == RunResult::Done(initial_states(cols.len())));
        let st = run_rows(cols, raw, cells, n)->Done_0;
        assert(counted(cols, st, 0));
        assert(exists|mm: int| counted(cols, st, mm));
    } else {
        lemma_rows(cols, raw, cells, (n - 1) as nat);
        if let RunResult::Done(st) = run_rows(cols, raw, cells, (n - 1) as nat) {
            let m = choose|m: int| counted(cols, st, m);
            lemma_row(cols, raw, cells, n - 1, st, 0, m);
            match row_from(cols, raw, cells, n - 1, st, 0) {
                RowResult::Committed(s) => {
                    assert(run_rows(cols, raw, cells, n) == RunResult::Done(s));
                    let t = run_rows(cols, raw, cells, n)->Done_0;
                    assert(counted(cols, t, m + 1));
                    assert(exists|mm: int| counted(cols, t, mm));
                },
                RowResult::Deleted(s) => {
                    assert(run_rows(cols, raw, cells, n) == RunResult::Done(s));
                    let t = run_rows(cols, raw, cells, n)->Done_0;
                    assert(counted(cols, t, m));
                    assert(exists|mm: int| counted(cols, t, mm));
                },
                RowResult::Failed(_, _) => {
                    assert(run_rows(cols, raw, cells, n) is Stopped);
                },
            }
        } else {
            assert(run_rows(cols, raw, cells, n) is Stopped);
        }
    }
}

proof fn lemma_finish(cols: Seq<Column>, states: Seq<AutoView>, j: int, line: int, m: int)
    requires
        0 <= j <= cols.len(),
        states.len() == cols.len(),
        forall|x: int| 0 <= x < j && !(#[trigger] cols[x]).ignore ==> states[x].output.len() == m,
        forall|x: int| j <= x < cols.len() && !(#[trigger] cols[x]).ignore ==> positions(states[x]) == m,
    ensures
        finish_from(cols, states, j, line) matches RunResult::Done(f) ==> forall|x: int|
            0 <= x < cols.len() && !(#[trigger] cols[x]).ignore ==> f[x].output.len() == m,
    decreases cols.len() - j,
{
    if j < cols.len() {
        if cols[j].ignore {
            lemma_finish(cols, states, j + 1, line, m);
        } else if let Some(s) = finish_step(states[j]) {
            let ns = states.update(j, s);
            assert forall|x: int| 0 <= x < j + 1 && !(#[trigger] cols[x]).ignore implies ns[x].output.len() == m by {
                if x < j {
                    assert(ns[x] == states[x]);
                }
            }
            lemma_finish(cols, ns, j + 1, line, m);
        }
    }
}

/// Every non-ignored column of a process that ran to the end has an output of the same
/// length.
pub proof fn lemma_equal_lengths(cols: Seq<Column>, raw: bool, cells: Seq<Seq<Option<Val>>>, n: nat)
    requires
        columns_wf(cols),
    ensures
        run_process_spec(cols, raw, cells, n) matches RunResult::Done(st) ==> forall|x: int, y: int|
            0 <= x < cols.len() && 0 <= y < cols.len() && !(#[trigger] cols[x]).ignore && !(
            #[trigger] cols[y]).ignore ==> st[x].output.len() == st[y].output.len(),
{
    lemma_rows(cols, raw, cells, n);
    if let RunResult::Done(st) = run_rows(cols, raw, cells, n) {
        assert(rows_counted(cols, raw, cells, n));
        let m = choose|m: int| counted(cols, st, m);
        lemma_finish(cols, st, 0, n as int, m);
    }
}

/// A deleted row adds no position to any automaton of the process: each keeps the count
/// of committed positions it had before the row.
pub proof fn lemma_deleted_row(cols: Seq<Column>, raw: bool, cells: Seq<Seq<Option<Val>>>, i: int, states: Seq<AutoView>, m: int)
    requires
        columns_wf(cols),
        counted(cols, states, m),
    ensures
        row_from(cols, raw, cells, i, states, 0) matches RowResult::Deleted(s) ==> counted(cols, s, m),
{
    lemma_row(cols, raw, cells, i, states, 0, m);
}


/// Every column passes its raw value through unchanged and has output.
pub open spec fn identity_columns(cols: Seq<Column>) -> bool {
    forall|c: int|
        0 <= c < cols.len() ==> {
            &&& !(#[trigger] cols[c]).ignore
            &&& cols[c].output matches Expr::Ident(n) && n@ == value_name()
        }
}

/// On the first `n` rows every cell is present, passes its column's checks and is no
/// null surrogate: no policy is triggered.
pub open spec fn quiet(cols: Seq<Column>, cells: Seq<Seq<Option<Val>>>, n: nat) -> bool {
    &&& cells.len() == cols.len()
    &&& forall|c: int| 0 <= c < cols.len() ==> (#[trigger] cells[c]).len() >= n
    &&& forall|c: int, r: int|
        0 <= c < cols.len() && 0 <= r < n ==> ((#[trigger] cells[c][r]) matches Some(v) && passes(cols[c], v)
            && !(cols[c].null_surrogates matches Some(l) && views(l@).contains(v)))
}

/// The automata after `i` quiet rows: each holds its column's first `i` values.
pub open spec fn passed_through(cells: Seq<Seq<Option<Val>>>, i: nat) -> Seq<AutoView> {
    Seq::new(
        cells.len(),
        |c: int| AutoView { output: Seq::new(i, |r: int| cells[c][r]->Some_0), mode: ModeView::Valid },
    )
}

proof fn lemma_quiet_row(cols: Seq<Column>, raw: bool, cells: Seq<Seq<Option<Val>>>, n: nat, i: int, states: Seq<AutoView>, j: int)
    requires
        identity_columns(cols),
        quiet(cols, cells, n),
        0 <= i < n,
        0 <= j <= cols.len(),
        states.len() == cols.len(),
        forall|x: int| 0 <= x < j ==> #[trigger] states[x] == passed_through(cells, (i + 1) as nat)[x],
        forall|x: int| j <= x < cols.len() ==> #[trigger] states[x] == passed_through(cells, i as nat)[x],
    ensures
        row_from(cols, raw, cells, i, states, j) == RowResult::Committed(passed_through(cells, (i + 1) as nat)),
    decreases cols.len() - j,
{
    if j < cols.len() {
        let v = cells[j][i]->Some_0;
        assert(cells[j][i] matches Some(w) && passes(cols[j], w));
        let env = row_env(sibling_names(cols), cells, i, j, v);
        assert(env[0] == (value_name(), Some(v)));
        assert(cols[j].output matches Expr::Ident(nm) && nm@ == value_name());
        let next = passed_through(cells, (i + 1) as nat)[j];
        assert(next.output =~= states[j].output.push(v));
        let ns = states.update(j, next);
        assert forall|x: int| 0 <= x < j + 1 implies #[trigger] ns[x] == passed_through(cells, (i + 1) as nat)[x] by {}
        lemma_quiet_row(cols, raw, cells, n, i, ns, j + 1);
    } else {
        assert(states =~= passed_through(cells, (i + 1) as nat));
    }
}

proof fn lemma_quiet_rows(cols: Seq<Column>, raw: bool, cells: Seq<Seq<Option<Val>>>, n: nat, i: nat)
    requires
        identity_columns(cols),
        quiet(cols, cells, n),
        i <= n,
    ensures
        run_rows(cols, raw, cells, i) == RunResult::Done(passed_through(cells, i)),
    decreases i,
{
    if i == 0 {
        assert forall|c: int| 0 <= c < cols.len() implies passed_through(cells, 0)[c] == initial() by {
            assert(passed_through(cells, 0)[c].output =~= initial().output);
        }
        assert(initial_states(cols.len()) =~= passed_through(cells, 0));
    } else {
        lemma_quiet_rows(cols, raw, cells, n, (i - 1) as nat);
        lemma_quiet_row(cols, raw, cells, n, i - 1, passed_through(cells, (i - 1) as nat), 0);
    }
}

proof fn lemma_finish_valid(cols: Seq<Column>, states: Seq<AutoView>, j: int, line: int)
    requires
        0 <= j <= cols.len(),
        states.len() == cols.len(),
        forall|x: int| 0 <= x < cols.len() ==> (#[trigger] states[x]).mode is Valid,
    ensures
        finish_from(cols, states, j, line) == RunResult::Done(states),
    decreases cols.len() - j,
{
    if j < cols.len() {
        if !cols[j].ignore {
            assert(states.update(j, states[j]) =~= states);
        }
        lemma_finish_valid(cols, states, j + 1, line);
    }
}

/// A process whose columns pass values through, run on rows that trigger no policy,
/// outputs its input values; run again on those outputs, it outputs them once more.
pub proof fn lemma_reprocessing(cols: Seq<Column>, raw: bool, cells: Seq<Seq<Option<Val>>>, n: nat)
    requires
        identity_columns(cols),
        quiet(cols, cells, n),
    ensures
        run_process_spec(cols, raw, cells, n) == RunResult::Done(passed_through(cells, n)),
        ({
            let again = crate::pipeline::lift(kept(cols, passed_through(cells, n), cols.len() as int));
            run_process_spec(cols, raw, again, n) == RunResult::Done(passed_through(cells, n))
        }),
{
    lemma_quiet_rows(cols, raw, cells, n, n);
    lemma_finish_valid(cols, passed_through(cells, n), 0, n as int);
    let st = passed_through(cells, n);
    let o = kept(cols, st, cols.len() as int);
    lemma_kept_all(cols, st, cols.len() as int);
    let again = crate::pipeline::lift(o);
    assert(again.len() == cols.len());
    assert forall|c: int| 0 <= c < cols.len() implies #[trigger] again[c] =~= cells[c].subrange(0, n as int) by {}
    assert(quiet(cols, again, n));
    lemma_quiet_rows(cols, raw, again, n, n);
    assert(passed_through(again, n) =~= st) by {
        assert forall|c: int| 0 <= c < cols.len() implies passed_through(again, n)[c].output =~= st[c].output by {}
    }
    lemma_finish_valid(cols, st, 0, n as int);
}

proof fn lemma_kept_all(cols: Seq<Column>, st: Seq<AutoView>, j: int)
    requires
        identity_columns(cols),
        0 <= j <= cols.len(),
    ensures
        kept(cols, st, j) =~= Seq::new(j as nat, |c: int| st[c].output),
    decreases j,
{
    if j > 0 {
        lemma_kept_all(cols, st, j - 1);
        assert(!cols[j - 1].ignore);
    }
}


/// Aggregation never meets outputs of unequal length: a process that runs to the end
/// has outputs.
pub proof fn lemma_aggregation_aligned(p: crate::process::Process, raw: bool, cells: Seq<Seq<Option<Val>>>, n: nat)
    requires
        crate::process::process_wf(p),
    ensures
        run_process_spec(p.columns@, raw, cells, n) matches RunResult::Done(st)
            ==> crate::process::process_outputs(p, st) is Some,
{
    lemma_equal_lengths(p.columns@, raw, cells, n);
}

/// The names of `env` are those of `tenv`, in order, each bound to null or to a value
/// of its declared type.
pub open spec fn env_typed(env: Seq<(Seq<char>, Option<Val>)>, tenv: Seq<(Seq<char>, crate::value::ColumnType)>) -> bool {
    &&& env.len() == tenv.len()
    &&& forall|i: int| 0 <= i < env.len() ==> (#[trigger] env[i]).0 == tenv[i].0 && (env[i].1 matches Some(v)
        ==> crate::value::type_of(v) == tenv[i].1)
}

proof fn lemma_lookup_typed(env: Seq<(Seq<char>, Option<Val>)>, tenv: Seq<(Seq<char>, crate::value::ColumnType)>, n: Seq<char>)
    requires
        env_typed(env, tenv),
    ensures
        crate::expr::lookup(tenv, n) matches Some(t) ==> (crate::expr::lookup(env, n) matches Some(o) && (o matches Some(v)
            ==> crate::value::type_of(v) == t)),
    decreases env.len(),
{
    if env.len() > 0 {
        assert(env[0].0 == tenv[0].0);
        assert(env_typed(env.drop_first(), tenv.drop_first())) by {
            assert forall|i: int| 0 <= i < env.drop_first().len() implies (#[trigger] env.drop_first()[i]).0
                == tenv.drop_first()[i].0 && (env.drop_first()[i].1 matches Some(v) ==> crate::value::type_of(v)
                == tenv.drop_first()[i].1) by {
                assert(env.drop_first()[i] == env[i + 1]);
                assert(tenv.drop_first()[i] == tenv[i + 1]);
            }
        }
        lemma_lookup_typed(env.drop_first(), tenv.drop_first(), n);
    }
}

/// A well-typed expression evaluates to a value of its type, or fails at run time for a
/// reason other than a type mismatch (overflow, division by zero, a bad conversion, a
/// null operand).
pub proof fn lemma_well_typed(e: Expr, env: Seq<(Seq<char>, Option<Val>)>, tenv: Seq<(Seq<char>, crate::value::ColumnType)>)
    requires
        env_typed(env, tenv),
        crate::expr::type_of_expr(e, tenv) is Some,
    ensures
        match crate::expr::eval(e, env) {
            Ok(v) => crate::value::type_of(v) == crate::expr::type_of_expr(e, tenv)->Some_0,
            Err(err) => err != crate::expr::EvalError::TypeMismatch,
        },
    decreases e,
{
    match e {
        Expr::Literal(_) => {},
        Expr::Ident(n) => {
            lemma_lookup_typed(env, tenv, n@);
        },
        Expr::Unary { unop, right } => {
            lemma_well_typed(*right, env, tenv);
        },
        Expr::Binary { left, op, right } => {
            lemma_well_typed(*left, env, tenv);
            lemma_well_typed(*right, env, tenv);
        },
        Expr::Concat { left, right } => {
            lemma_well_typed(*left, env, tenv);
            lemma_well_typed(*right, env, tenv);
        },
        Expr::Call { func, arg } => {
            lemma_well_typed(*arg, env, tenv);
        },
    }
}


proof fn lemma_digit_char(d: int)
    requires
        0 <= d < 10,
    ensures
        is_digit(digit_char(d)),
        digit_value(digit_char(d)) == d,
{
    assert(0 <= d + 48 < 0xD800);
}

proof fn lemma_nat_text(n: nat)
    ensures
        nat_text(n).len() > 0,
        all_digits(nat_text(n)),
        digits_value(nat_text(n)) == n,
    decreases n,
{
    if n < 10 {
        lemma_digit_char(n as int);
        let t = seq![digit_char(n as int)];
        assert(t.drop_last() =~= Seq::<char>::empty());
        assert(digits_value(Seq::<char>::empty()) == 0);
        assert(digits_value(t) == digits_value(t.drop_last()) * 10 + digit_value(t.last()));
        assert(nat_text(n) == t);
    } else {
        lemma_nat_text(n / 10);
        lemma_digit_char((n % 10) as int);
        let t = nat_text(n);
        assert(t.drop_last() =~= nat_text(n / 10));
        assert(t.last() == digit_char((n % 10) as int));
        assert((n / 10) * 10 + n % 10 == n) by (nonlinear_arith);
        assert(digits_value(t) == digits_value(nat_text(n / 10)) * 10 + digit_value(t.last()));
        assert forall|i: int| 0 <= i < t.len() implies is_digit(#[trigger] t[i]) by {
            if i < t.len() - 1 {
                assert(t[i] == nat_text(n / 10)[i]);
            }
        }
    }
}

/// The decimal text of an integer reads back as that integer.
pub proof fn lemma_int_round_trip(i: i64)
    ensures
        parse_int_spec(int_text(i as int)) == Some(i),
{
    if i < 0 {
        lemma_nat_text((-i) as nat);
        let s = int_text(i as int);
        assert(s.drop_first() =~= nat_text((-i) as nat));
    } else {
        lemma_nat_text(i as nat);
        let s = nat_text(i as nat);
        assert(is_digit(s[0]));
    }
}

/// What a cell renders as in a reconstructed CSV: integers in decimal, Booleans as
/// `true`/`false`, strings as they are.
pub open spec fn render(v: Val) -> Seq<char> {
    match v {
        Val::Boolean(b) => bool_text(b),
        Val::Integer(i) => int_text(i as int),
        Val::Str(s) => s,
    }
}

/// A rendered cell reads back, under its own type, as the value it came from; a string
/// must be non-empty (an empty field is null).
pub proof fn lemma_cell_round_trip(v: Val)
    requires
        v matches Val::Str(s) ==> s.len() > 0,
    ensures
        render(v).len() > 0,
        parse_cell_spec(type_of(v), render(v)) == Some(v),
{
    match v {
        Val::Boolean(b) => {
            assert(crate::text::true_text().len() != crate::text::false_text().len());
        },
        Val::Integer(i) => {
            lemma_int_round_trip(i);
            if i < 0 {
            } else {
                lemma_nat_text(i as nat);
            }
        },
        Val::Str(_) => {},
    }
}


/// `fs` joined with `sep` between neighbours.
pub open spec fn join(fs: Seq<Seq<char>>, sep: char) -> Seq<char>
    decreases fs.len(),
{
    if fs.len() == 0 {
        Seq::empty()
    } else if fs.len() == 1 {
        fs[0]
    } else {
        join(fs.drop_last(), sep) + seq![sep] + fs.last()
    }
}

/// `s` holds no `c`.
pub open spec fn free_of(s: Seq<char>, c: char) -> bool {
    forall|i: int| 0 <= i < s.len() ==> s[i] != c
}

proof fn lemma_split_append(x: Seq<char>, y: Seq<char>, sep: char)
    requires
        free_of(y, sep),
    ensures
        split_on(x + y, sep) == split_on(x, sep).update(
            split_on(x, sep).len() - 1,
            split_on(x, sep).last() + y,
        ),
    decreases y.len(),
{
    lemma_split_nonempty(x, sep);
    let r = split_on(x, sep);
    if y.len() == 0 {
        assert(x + y =~= x);
        assert(r.last() + y =~= r.last());
        assert(r.update(r.len() - 1, r.last() + y) =~= r);
    } else {
        let y0 = y.drop_last();
        assert(free_of(y0, sep)) by {
            assert forall|i: int| 0 <= i < y0.len() implies y0[i] != sep by {
                assert(y0[i] == y[i]);
            }
        }
        lemma_split_append(x, y0, sep);
        lemma_split_nonempty(x + y0, sep);
        assert((x + y).drop_last() =~= x + y0);
        assert((x + y).last() == y.last());
        assert((r.last() + y0).push(y.last()) =~= r.last() + y);
        assert(split_on(x + y, sep) =~= r.update(r.len() - 1, r.last() + y));
    }
}

/// Joined fields that hold no separator split back into the fields.
pub proof fn lemma_split_join(fs: Seq<Seq<char>>, sep: char)
    requires
        fs.len() >= 1,
        forall|i: int| 0 <= i < fs.len() ==> free_of(#[trigger] fs[i], sep),
    ensures
        split_on(join(fs, sep), sep) == fs,
    decreases fs.len(),
{
    if fs.len() == 1 {
        lemma_split_append(Seq::empty(), fs[0], sep);
        assert(Seq::<char>::empty() + fs[0] =~= fs[0]);
        assert(split_on(Seq::<char>::empty(), sep) == seq![Seq::<char>::empty()]);
        assert(seq![Seq::<char>::empty()].update(0, Seq::<char>::empty() + fs[0]) =~= fs);
    } else {
        let init = fs.drop_last();
        assert forall|i: int| 0 <= i < init.len() implies free_of(#[trigger] init[i], sep) by {
            assert(init[i] == fs[i]);
        }
        lemma_split_join(init, sep);
        let a = join(init, sep) + seq![sep];
        assert(a.drop_last() =~= join(init, sep));
        assert(split_on(a, sep) == init.push(Seq::<char>::empty()));
        assert(free_of(fs.last(), sep));
        lemma_split_append(a, fs.last(), sep);
        assert(Seq::<char>::empty() + fs.last() =~= fs.last());
        assert(init.push(Seq::<char>::empty()).update(init.len() as int, Seq::<char>::empty() + fs.last()) =~= fs);
    }
}

/// Lines that hold no newline and end in no carriage return, each followed by a newline,
/// read back as those lines.
pub proof fn lemma_lines_round_trip(ls: Seq<Seq<char>>)
    requires
        ls.len() >= 1,
        forall|i: int| 0 <= i < ls.len() ==> free_of(#[trigger] ls[i], '\n') && strip_cr(ls[i]) == ls[i],
    ensures
        lines_of(join(ls, '\n') + seq!['\n']) == ls,
{
    lemma_split_join(ls, '\n');
    let a = join(ls, '\n') + seq!['\n'];
    assert(a.drop_last() =~= join(ls, '\n'));
    let pieces = split_on(a, '\n');
    assert(pieces == ls.push(Seq::<char>::empty()));
    let stripped = pieces.map_values(|l: Seq<char>| strip_cr(l));
    assert(stripped =~= pieces);
    assert(stripped.drop_last() =~= ls);
}

/// A header line followed by data lines none of which equals it is one section.
pub proof fn lemma_one_section(h: Seq<char>, rows: Seq<Seq<char>>)
    requires
        forall|i: int| 0 <= i < rows.len() ==> #[trigger] rows[i] != h,
    ensures
        sections_of(seq![h] + rows, h) == seq![Seq::<Seq<char>>::empty(), rows],
    decreases rows.len(),
{
    let lines = seq![h] + rows;
    if rows.len() == 0 {
        assert(lines =~= seq![h]);
        assert(lines.drop_last() =~= Seq::<Seq<char>>::empty());
        assert(sections_of(Seq::<Seq<char>>::empty(), h) == seq![Seq::<Seq<char>>::empty()]);
        assert(lines.last() == h);
        assert(rows =~= Seq::<Seq<char>>::empty());
        assert(sections_of(lines, h) =~= seq![Seq::<Seq<char>>::empty(), rows]);
    } else {
        let r0 = rows.drop_last();
        assert forall|i: int| 0 <= i < r0.len() implies #[trigger] r0[i] != h by {
            assert(r0[i] == rows[i]);
        }
        lemma_one_section(h, r0);
        assert(lines.drop_last() =~= seq![h] + r0);
        assert(lines.last() == rows.last());
        assert(rows.last() != h);
        assert(r0.push(rows.last()) =~= rows);
        assert(sections_of(lines, h) =~= seq![Seq::<Seq<char>>::empty(), rows]);
    }
}


proof fn lemma_header_join(t: Seq<Seq<char>>)
    ensures
        header_of(t) == join(t, ','),
    decreases t.len(),
{
    if t.len() > 1 {
        lemma_header_join(t.drop_last());
    }
}

proof fn lemma_join_free(fs: Seq<Seq<char>>, sep: char, c: char)
    requires
        sep != c,
        forall|i: int| 0 <= i < fs.len() ==> free_of(#[trigger] fs[i], c),
    ensures
        free_of(join(fs, sep), c),
    decreases fs.len(),
{
    if fs.len() > 1 {
        let init = fs.drop_last();
        assert forall|i: int| 0 <= i < init.len() implies free_of(#[trigger] init[i], c) by {
            assert(init[i] == fs[i]);
        }
        lemma_join_free(init, sep, c);
        let j = join(fs, sep);
        let a = join(init, sep);
        assert(free_of(fs.last(), c));
        assert forall|i: int| 0 <= i < j.len() implies j[i] != c by {
            if i < a.len() {
                assert(j[i] == a[i]);
            } else if i > a.len() {
                assert(j[i] == fs.last()[i - a.len() - 1]);
            }
        }
    } else if fs.len() == 1 {
        assert(free_of(fs[0], c));
    }
}

/// The fields of row `r` of outputs `o`, rendered.
pub open spec fn row_fields(o: Seq<Seq<Val>>, r: int) -> Seq<Seq<char>> {
    Seq::new(o.len(), |c: int| render(o[c][r]))
}

/// The CSV text of outputs `o` (one sequence per column, `n` rows) under `titles`.
pub open spec fn csv_of(titles: Seq<Seq<char>>, o: Seq<Seq<Val>>, n: nat) -> Seq<char> {
    let rows = Seq::new(n, |r: int| join(row_fields(o, r), ','));
    join(seq![join(titles, ',')] + rows, '\n') + seq!['\n']
}

/// A text that can stand as a CSV field or header: no comma, no newline, no trailing
/// carriage return, not empty.
pub open spec fn plain(t: Seq<char>) -> bool {
    &&& t.len() > 0
    &&& free_of(t, ',')
    &&& free_of(t, '\n')
    &&& !(t.last() == '\r')
}

/// Outputs that a CSV can carry back to the same single process: `n` rows, each value of
/// its column's input type, plain when rendered, passing the column's checks and no null
/// surrogate; no data line equal to the header.
pub open spec fn printable(cols: Seq<Column>, o: Seq<Seq<Val>>, n: nat) -> bool {
    &&& cols.len() >= 1
    &&& o.len() == cols.len()
    &&& forall|c: int| 0 <= c < cols.len() ==> (#[trigger] o[c]).len() == n && plain(cols[c].title@)
    &&& forall|c: int, r: int|
        0 <= c < cols.len() && 0 <= r < n ==> {
            let v = #[trigger] o[c][r];
            &&& type_of(v) == cols[c].input_type
            &&& plain(render(v))
            &&& passes(cols[c], v)
            &&& !(cols[c].null_surrogates matches Some(l) && views(l@).contains(v))
        }
    &&& forall|r: int| 0 <= r < n ==> join(#[trigger] row_fields(o, r), ',') != join(titles_of(cols), ',')
}

proof fn lemma_plain_join(fs: Seq<Seq<char>>)
    requires
        fs.len() >= 1,
        forall|i: int| 0 <= i < fs.len() ==> plain(#[trigger] fs[i]),
    ensures
        free_of(join(fs, ','), '\n'),
        strip_cr(join(fs, ',')) == join(fs, ','),
        forall|i: int| 0 <= i < fs.len() ==> free_of(#[trigger] fs[i], ','),
{
    assert forall|i: int| 0 <= i < fs.len() implies free_of(#[trigger] fs[i], '\n') by {
        assert(plain(fs[i]));
    }
    lemma_join_free(fs, ',', '\n');
    let j = join(fs, ',');
    assert(plain(fs.last()));
    if fs.len() == 1 {
    } else {
        assert(j.last() == fs.last().last());
    }
}

proof fn lemma_fields_ok(cols: Seq<Column>, o: Seq<Seq<Val>>, n: nat, r: int, c: int)
    requires
        printable(cols, o, n),
        0 <= r < n,
        0 <= c <= cols.len(),
    ensures
        first_bad_field(cols, row_fields(o, r), c) is None,
    decreases cols.len() - c,
{
    if c < cols.len() {
        let v = o[c][r];
        assert(plain(render(v)));
        lemma_cell_round_trip(v);
        assert(row_fields(o, r)[c] == render(v));
        assert(field_cell(cols[c].input_type, render(v)) == Some(Some(v)));
        lemma_fields_ok(cols, o, n, r, c + 1);
    }
}

/// A program of one process that passes values through, without aggregation, run on the
/// CSV text of outputs it can carry back, yields those outputs (one section).
pub proof fn lemma_csv_reprocessing(p: Program, o: Seq<Seq<Val>>, n: nat)
    requires
        p.processes@.len() == 1,
        p.processes@[0].aggregate_column is None,
        identity_columns(p.processes@[0].columns@),
        printable(p.processes@[0].columns@, o, n),
    ensures
        text_spec(p, csv_of(titles_of(p.processes@[0].columns@), o, n)) == Ok::<Seq<Seq<Seq<Seq<Val>>>>, crate::pipeline::Stop>(
            seq![seq![o]],
        ),
{
    let procs = p.processes@;
    let cols = procs[0].columns@;
    let titles = titles_of(cols);
    let hdr = join(titles, ',');
    let rows = Seq::new(n, |r: int| join(row_fields(o, r), ','));
    let text = csv_of(titles, o, n);
    lemma_header_join(titles);
    assert forall|i: int| 0 <= i < titles.len() implies plain(#[trigger] titles[i]) by {
        assert(o[i].len() == n);
        assert(titles[i] == cols[i].title@);
    }
    lemma_plain_join(titles);
    assert forall|r: int| 0 <= r < n implies free_of(#[trigger] rows[r], '\n') && strip_cr(rows[r]) == rows[r]
        && split_on(rows[r], ',') == row_fields(o, r) by {
        let fs = row_fields(o, r);
        assert forall|i: int| 0 <= i < fs.len() implies plain(#[trigger] fs[i]) by {
            assert(plain(render(o[i][r])));
        }
        lemma_plain_join(fs);
        lemma_split_join(fs, ',');
    }
    let ls = seq![hdr] + rows;
    assert forall|i: int| 0 <= i < ls.len() implies free_of(#[trigger] ls[i], '\n') && strip_cr(ls[i]) == ls[i] by {
        if i > 0 {
            assert(ls[i] == rows[i - 1]);
        }
    }
    lemma_lines_round_trip(ls);
    assert(lines_of(text) == ls);
    assert forall|r: int| 0 <= r < rows.len() implies #[trigger] rows[r] != hdr by {}
    lemma_one_section(hdr, rows);
    let files = sections_of(lines_of(text), header_of(titles));
    assert(files == seq![Seq::<Seq<char>>::empty(), rows]);
    assert forall|r: int| 0 <= r < rows.len() implies line_error(cols, #[trigger] rows[r]) is None by {
        lemma_fields_ok(cols, o, n, r, 0);
    }
    lemma_first_bad_none(cols, rows, 0);
    let cells = cells_of(cols, rows);
    assert forall|c: int, r: int| 0 <= c < cols.len() && 0 <= r < n implies #[trigger] cells[c][r] == Some(o[c][r]) by {
        lemma_fields_ok(cols, o, n, r, c);
        assert(split_on(rows[r], ',') == row_fields(o, r));
        lemma_cell_round_trip(o[c][r]);
    }
    assert(quiet(cols, cells, n));
    lemma_reprocessing(cols, true, cells, n);
    let st = passed_through(cells, n);
    lemma_kept_all(cols, st, cols.len() as int);
    assert(kept(cols, st, cols.len() as int) =~= o) by {
        assert forall|c: int| 0 <= c < cols.len() implies #[trigger] st[c].output =~= o[c] by {}
    }
    assert(chain_from(procs, 0, cells, n, Seq::empty()) == chain_from(
        procs,
        1,
        crate::pipeline::lift(o),
        crate::pipeline::rows_of(o),
        seq![o],
    ));
    assert(section_spec(procs, rows) == Ok::<Seq<Seq<Seq<Val>>>, crate::pipeline::Stop>(seq![o]));
    match p.on_title {
        OnTitle::Once => {
            assert(files.len() == 2);
            assert(files[1] == rows);
        },
        OnTitle::Combine => {
            assert(files[1] == rows);
            assert(crate::pipeline::joined(files, 1) == Seq::<Seq<char>>::empty());
            assert(Seq::<Seq<char>>::empty() + rows =~= rows);
            assert(crate::pipeline::joined(files, 2) == rows);
        },
        OnTitle::Split => {
            assert(files[1] == rows);
            assert(crate::pipeline::each_section(procs, files, 1) == Ok::<Seq<Seq<Seq<Seq<Val>>>>, crate::pipeline::Stop>(Seq::empty()));
            assert(Seq::<Seq<Seq<Seq<Val>>>>::empty().push(seq![o]) =~= seq![seq![o]]);
        },
    }
}


proof fn lemma_kept_from(cols: Seq<Column>, st: Seq<AutoView>, j: int)
    requires
        0 <= j <= cols.len(),
    ensures
        forall|i: int|
            0 <= i < kept(cols, st, j).len() ==> exists|x: int|
                0 <= x < j && !cols[x].ignore && #[trigger] kept(cols, st, j)[i] == st[x].output,
    decreases j,
{
    if j > 0 {
        lemma_kept_from(cols, st, j - 1);
        let prev = kept(cols, st, j - 1);
        if !cols[j - 1].ignore {
            let cur = kept(cols, st, j);
            assert forall|i: int| 0 <= i < cur.len() implies exists|x: int|
                0 <= x < j && !cols[x].ignore && #[trigger] cur[i] == st[x].output by {
                if i < prev.len() {
                    assert(cur[i] == prev[i]);
                    let x = choose|x: int| 0 <= x < j - 1 && !cols[x].ignore && prev[i] == st[x].output;
                    assert(0 <= x < j && !cols[x].ignore && cur[i] == st[x].output);
                } else {
                    assert(cur[i] == st[j - 1].output);
                }
            }
        }
    }
}

proof fn lemma_compressed_len(cols: Seq<Column>, st: Seq<AutoView>, a: int, j: int)
    requires
        0 <= j <= cols.len(),
    ensures
        forall|i: int|
            0 <= i < crate::aggregate::compressed(cols, st, a, j).len() ==> (#[trigger] crate::aggregate::compressed(
                cols,
                st,
                a,
                j,
            )[i]).len() == runs_of(st[a].output, st[a].output.len()).len(),
    decreases j,
{
    if j > 0 {
        lemma_compressed_len(cols, st, a, j - 1);
        let prev = crate::aggregate::compressed(cols, st, a, j - 1);
        let cur = crate::aggregate::compressed(cols, st, a, j);
        if !cols[j - 1].ignore {
            assert forall|i: int| 0 <= i < cur.len() implies (#[trigger] cur[i]).len() == runs_of(
                st[a].output,
                st[a].output.len(),
            ).len() by {
                if i < prev.len() {
                    assert(cur[i] == prev[i]);
                }
            }
        }
    }
}

/// All outputs of a process that runs to the end have one length, with or without
/// aggregation.
pub proof fn lemma_outputs_equal_length(p: crate::process::Process, raw: bool, cells: Seq<Seq<Option<Val>>>, n: nat)
    requires
        crate::process::process_wf(p),
    ensures
        run_process_spec(p.columns@, raw, cells, n) matches RunResult::Done(st) ==> (crate::process::process_outputs(p, st) matches Some(o)
            && forall|i: int, j: int| 0 <= i < o.len() && 0 <= j < o.len() ==> (#[trigger] o[i]).len() == (#[trigger] o[j]).len()),
{
    lemma_equal_lengths(p.columns@, raw, cells, n);
    lemma_aggregation_aligned(p, raw, cells, n);
    if let RunResult::Done(st) = run_process_spec(p.columns@, raw, cells, n) {
        let cols = p.columns@;
        match p.aggregate_column {
            None => {
                let o = kept(cols, st, cols.len() as int);
                lemma_kept_from(cols, st, cols.len() as int);
                assert forall|i: int, j: int| 0 <= i < o.len() && 0 <= j < o.len() implies (#[trigger] o[i]).len() == (
                #[trigger] o[j]).len() by {
                    let x = choose|x: int| 0 <= x < cols.len() && !cols[x].ignore && o[i] == st[x].output;
                    let y = choose|y: int| 0 <= y < cols.len() && !cols[y].ignore && o[j] == st[y].output;
                }
            },
            Some(a) => {
                lemma_compressed_len(cols, st, a as int, cols.len() as int);
            },
        }
    }
}


/// No column of the process averages.
pub open spec fn no_averaging(cols: Seq<Column>) -> bool {
    forall|c: int|
        0 <= c < cols.len() ==> !((#[trigger] cols[c]).on_invalid is Average) && !(cols[c].on_null is Average)
}

proof fn lemma_event_undone(cols: Seq<Column>, raw: bool, cells: Seq<Seq<Option<Val>>>, i: int, x: int, s: AutoView)
    requires
        0 <= x < cols.len(),
        no_averaging(cols),
        s.mode is Valid,
    ensures
        dispatch(cols, raw, cells, i, x, s).1 is Proceed ==> undo_step(dispatch(cols, raw, cells, i, x, s).0) == s
            && dispatch(cols, raw, cells, i, x, s).0.mode is Valid,
{
    assert(!(cols[x].on_invalid is Average) && !(cols[x].on_null is Average));
    let step = dispatch(cols, raw, cells, i, x, s);
    if step.1 is Proceed {
        assert(step.0.output.drop_last() =~= s.output);
    }
}

proof fn lemma_row_untouched(
    cols: Seq<Column>,
    raw: bool,
    cells: Seq<Seq<Option<Val>>>,
    i: int,
    orig: Seq<AutoView>,
    states: Seq<AutoView>,
    j: int,
)
    requires
        no_averaging(cols),
        0 <= j <= cols.len(),
        orig.len() == cols.len(),
        states.len() == cols.len(),
        forall|x: int| 0 <= x < cols.len() ==> (#[trigger] states[x]).mode is Valid,
        forall|x: int| 0 <= x < j && !(#[trigger] cols[x]).ignore ==> undo_step(states[x]) == orig[x],
        forall|x: int| 0 <= x < j && (#[trigger] cols[x]).ignore ==> states[x] == orig[x],
        forall|x: int| j <= x < cols.len() ==> #[trigger] states[x] == orig[x],
    ensures
        row_from(cols, raw, cells, i, states, j) matches RowResult::Deleted(s) ==> s == orig,
    decreases cols.len() - j,
{
    if j < cols.len() {
        if cols[j].ignore {
            lemma_row_untouched(cols, raw, cells, i, orig, states, j + 1);
        } else {
            let step = dispatch(cols, raw, cells, i, j, states[j]);
            lemma_event_undone(cols, raw, cells, i, j, states[j]);
            match step.1 {
                Outcome::Proceed => {
                    let ns = states.update(j, step.0);
                    lemma_row_untouched(cols, raw, cells, i, orig, ns, j + 1);
                },
                Outcome::Delete => {
                    assert(undo_before(cols, states, j) =~= orig);
                },
                Outcome::Fail(_) => {},
            }
        }
    }
}

/// In a process where no column averages, a deleted row leaves no trace: every automaton
/// is exactly as it was before the row.
pub proof fn lemma_deleted_row_no_trace(
    cols: Seq<Column>,
    raw: bool,
    cells: Seq<Seq<Option<Val>>>,
    i: int,
    states: Seq<AutoView>,
)
    requires
        no_averaging(cols),
        states.len() == cols.len(),
        forall|x: int| 0 <= x < cols.len() ==> (#[trigger] states[x]).mode is Valid,
    ensures
        row_from(cols, raw, cells, i, states, 0) matches RowResult::Deleted(s) ==> s == states,
{
    lemma_row_untouched(cols, raw, cells, i, states, states, 0);
}

proof fn lemma_compressed_keeps(cols: Seq<Column>, st: Seq<AutoView>, a: int, j: int)
    requires
        0 <= a < j <= cols.len(),
        !cols[a].ignore,
    ensures
        ({
            let idx = crate::aggregate::compressed(cols, st, a, a).len() as int;
            &&& idx < crate::aggregate::compressed(cols, st, a, j).len()
            &&& crate::aggregate::compressed(cols, st, a, j)[idx] == compress_column(
                cols[a],
                st[a],
                true,
                st[a].output,
                runs_of(st[a].output, st[a].output.len()),
            )
        }),
    decreases j,
{
    if j > a + 1 {
        lemma_compressed_keeps(cols, st, a, j - 1);
    }
}

/// The number of non-ignored columns before column `j`: the position of column `j`'s
/// vector among a process's outputs.
pub open spec fn output_index(cols: Seq<Column>, j: int) -> int
    decreases j,
{
    if j <= 0 {
        0
    } else if cols[j - 1].ignore {
        output_index(cols, j - 1)
    } else {
        output_index(cols, j - 1) + 1
    }
}

proof fn lemma_output_index(cols: Seq<Column>, st: Seq<AutoView>, a: int, j: int)
    requires
        0 <= j <= cols.len(),
    ensures
        crate::aggregate::compressed(cols, st, a, j).len() == output_index(cols, j),
    decreases j,
{
    if j > 0 {
        lemma_output_index(cols, st, a, j - 1);
    }
}

/// In the outputs of a process compressed by key column `a`, the vector at the key
/// column's position (the number of non-ignored columns before it) is the key column's
/// run values, and it has no two equal neighbours.
pub proof fn lemma_process_keys_differ(p: crate::process::Process, st: Seq<AutoView>)
    requires
        crate::process::process_wf(p),
        p.aggregate_column is Some,
        crate::process::process_outputs(p, st) is Some,
    ensures
        ({
            let o = crate::process::process_outputs(p, st)->Some_0;
            let a = p.aggregate_column->Some_0 as int;
            let k = output_index(p.columns@, a);
            &&& 0 <= k < o.len()
            &&& o[k] == compress_column(
                p.columns@[a],
                st[a],
                true,
                st[a].output,
                runs_of(st[a].output, st[a].output.len()),
            )
            &&& forall|r: int| 0 <= r < o[k].len() - 1 ==> #[trigger] o[k][r] != o[k][r + 1]
        }),
{
    let cols = p.columns@;
    let a = p.aggregate_column->Some_0 as int;
    let o = crate::process::process_outputs(p, st)->Some_0;
    lemma_compressed_keeps(cols, st, a, cols.len() as int);
    lemma_output_index(cols, st, a, a);
    let idx = crate::aggregate::compressed(cols, st, a, a).len() as int;
    lemma_aggregated_keys_differ(st[a].output, cols[a], st[a]);
    assert(o[idx] == compress_column(cols[a], st[a], true, st[a].output, runs_of(st[a].output, st[a].output.len())));
}

/// Every value of `s` has type `t`.
pub open spec fn typed_seq(s: Seq<Val>, t: crate::value::ColumnType) -> bool {
    forall|i: int| 0 <= i < s.len() ==> type_of(#[trigger] s[i]) == t
}

/// The output and pending streak of an automaton hold values of its column's output type.
pub open spec fn auto_typed(c: Column, s: AutoView) -> bool {
    &&& typed_seq(s.output, c.output_type)
    &&& (s.mode matches ModeView::Invalid { streak, .. } ==> typed_seq(streak, c.output_type))
}

pub open spec fn policy_typed(p: crate::column::Policy, t: crate::value::ColumnType) -> bool {
    match p {
        crate::column::Policy::Previous(v) => type_of(v@) == t,
        crate::column::Policy::Sentinel(v) => type_of(v@) == t,
        _ => true,
    }
}

/// Sentinels have the output type, and every output expression has it among its siblings.
pub open spec fn process_typed(cols: Seq<Column>) -> bool {
    forall|j: int|
        0 <= j < cols.len() ==> {
            &&& policy_typed((#[trigger] cols[j]).on_invalid, cols[j].output_type)
            &&& policy_typed(cols[j].on_null, cols[j].output_type)
            &&& (!cols[j].ignore ==> crate::expr::type_of_expr(
                cols[j].output,
                crate::config::type_env_spec(cols, j),
            ) == Some(cols[j].output_type))
        }
}

/// Every present cell of the first `n` rows has its column's input type.
pub open spec fn cells_typed(cols: Seq<Column>, cells: Seq<Seq<Option<Val>>>, n: nat) -> bool {
    &&& cells.len() == cols.len()
    &&& forall|c: int| 0 <= c < cols.len() ==> (#[trigger] cells[c]).len() >= n
    &&& forall|c: int, i: int|
        0 <= c < cols.len() && 0 <= i < n ==> ((#[trigger] cells[c][i]) matches Some(v) ==> type_of(v)
            == cols[c].input_type)
}

proof fn lemma_env_typed(cols: Seq<Column>, cells: Seq<Seq<Option<Val>>>, n: nat, i: int, c: int, v: Val)
    requires
        cells_typed(cols, cells, n),
        0 <= i < n,
        0 <= c < cols.len(),
        type_of(v) == cols[c].input_type,
    ensures
        env_typed(row_env(sibling_names(cols), cells, i, c, v), crate::config::type_env_spec(cols, c)),
{
    let names = sibling_names(cols);
    let all = Seq::new(names.len(), |j: int| (names[j], cells[j][i]));
    let tall = Seq::new(cols.len(), |k: int| (crate::process::sibling_name(cols[k].title@), cols[k].input_type));
    let env = row_env(names, cells, i, c, v);
    let tenv = crate::config::type_env_spec(cols, c);
    assert(env.len() == tenv.len());
    assert forall|e: int| 0 <= e < env.len() implies (#[trigger] env[e]).0 == tenv[e].0 && (env[e].1 matches Some(w)
        ==> type_of(w) == tenv[e].1) by {
        if e == 0 {
        } else if e <= c {
            assert(env[e] == all[e - 1]);
            assert(tenv[e] == tall[e - 1]);
            assert(cells[e - 1][i] matches Some(w) ==> type_of(w) == cols[e - 1].input_type);
        } else {
            assert(env[e] == all[e]);
            assert(tenv[e] == tall[e]);
            assert(cells[e][i] matches Some(w) ==> type_of(w) == cols[e].input_type);
        }
    }
}

proof fn lemma_typed_event(cols: Seq<Column>, raw: bool, cells: Seq<Seq<Option<Val>>>, n: nat, i: int, x: int, s: AutoView)
    requires
        0 <= x < cols.len(),
        !cols[x].ignore,
        column_wf(cols[x]),
        process_typed(cols),
        cells_typed(cols, cells, n),
        0 <= i < n,
        auto_typed(cols[x], s),
    ensures
        auto_typed(cols[x], dispatch(cols, raw, cells, i, x, s).0),
{
    let c = cols[x];
    let t = c.output_type;
    assert(policy_typed(c.on_invalid, t) && policy_typed(c.on_null, t));
    let step = dispatch(cols, raw, cells, i, x, s);
    if let Some(v) = cells[x][i] {
        assert(type_of(v) == c.input_type);
        lemma_env_typed(cols, cells, n, i, x, v);
        let env = row_env(sibling_names(cols), cells, i, x, v);
        lemma_well_typed(c.output, env, crate::config::type_env_spec(cols, x));
    }
    let r = step.0;
    match s.mode {
        ModeView::Valid => {},
        ModeView::Invalid { missing, streak, .. } => {},
    }
    assert forall|k: int| 0 <= k < r.output.len() implies type_of(#[trigger] r.output[k]) == t by {
        if k < s.output.len() {
            assert(r.output[k] == s.output[k]) by {
                if let ModeView::Invalid { missing, streak, .. } = s.mode {
                }
            }
        }
    }
}


proof fn lemma_typed_undo(c: Column, s: AutoView)
    requires
        auto_typed(c, s),
    ensures
        auto_typed(c, undo_step(s)),
{
    let r = undo_step(s);
    assert forall|k: int| 0 <= k < r.output.len() implies type_of(#[trigger] r.output[k]) == c.output_type by {
        assert(r.output[k] == s.output[k]);
    }
    if let ModeView::Invalid { streak, .. } = r.mode {
        let old_streak = s.mode->streak;
        assert forall|k: int| 0 <= k < streak.len() implies type_of(#[trigger] streak[k]) == c.output_type by {
            assert(streak[k] == old_streak[k]);
        }
    }
}

proof fn lemma_typed_finish(c: Column, s: AutoView)
    requires
        auto_typed(c, s),
    ensures
        finish_step(s) matches Some(f) ==> auto_typed(c, f),
{
    if let Some(f) = finish_step(s) {
        assert forall|k: int| 0 <= k < f.output.len() implies type_of(#[trigger] f.output[k]) == c.output_type by {
            if k >= s.output.len() {
                assert(f.output[k] == s.output.last());
            }
        }
    }
}

/// The non-ignored automata hold values of their output types.
pub open spec fn all_typed(cols: Seq<Column>, states: Seq<AutoView>) -> bool {
    &&& states.len() == cols.len()
    &&& forall|x: int| 0 <= x < cols.len() && !(#[trigger] cols[x]).ignore ==> auto_typed(cols[x], states[x])
}

proof fn lemma_typed_row(cols: Seq<Column>, raw: bool, cells: Seq<Seq<Option<Val>>>, n: nat, i: int, states: Seq<AutoView>, j: int)
    requires
        columns_wf(cols),
        process_typed(cols),
        cells_typed(cols, cells, n),
        0 <= i < n,
        0 <= j <= cols.len(),
        all_typed(cols, states),
    ensures
        match row_from(cols, raw, cells, i, states, j) {
            RowResult::Committed(s) => all_typed(cols, s),
            RowResult::Deleted(s) => all_typed(cols, s),
            RowResult::Failed(_, _) => true,
        },
    decreases cols.len() - j,
{
    if j < cols.len() {
        if cols[j].ignore {
            lemma_typed_row(cols, raw, cells, n, i, states, j + 1);
        } else {
            let step = dispatch(cols, raw, cells, i, j, states[j]);
            lemma_typed_event(cols, raw, cells, n, i, j, states[j]);
            match step.1 {
                Outcome::Proceed => {
                    let ns = states.update(j, step.0);
                    assert(all_typed(cols, ns));
                    lemma_typed_row(cols, raw, cells, n, i, ns, j + 1);
                },
                Outcome::Delete => {
                    let s = undo_before(cols, states, j);
                    assert forall|x: int| 0 <= x < cols.len() && !(#[trigger] cols[x]).ignore implies auto_typed(cols[x], s[x]) by {
                        if x < j {
                            lemma_typed_undo(cols[x], states[x]);
                        }
                    }
                },
                Outcome::Fail(_) => {},
            }
        }
    }
}

proof fn lemma_typed_rows(cols: Seq<Column>, raw: bool, cells: Seq<Seq<Option<Val>>>, n: nat, m: nat)
    requires
        columns_wf(cols),
        process_typed(cols),
        cells_typed(cols, cells, n),
        m <= n,
    ensures
        run_rows(cols, raw, cells, m) matches RunResult::Done(st) ==> all_typed(cols, st),
    decreases m,
{
    if m == 0 {
        let st = initial_states(cols.len());
        assert forall|x: int| 0 <= x < cols.len() && !(#[trigger] cols[x]).ignore implies auto_typed(cols[x], st[x]) by {}
    } else {
        lemma_typed_rows(cols, raw, cells, n, (m - 1) as nat);
        if let RunResult::Done(st) = run_rows(cols, raw, cells, (m - 1) as nat) {
            lemma_typed_row(cols, raw, cells, n, m - 1, st, 0);
        }
    }
}

proof fn lemma_typed_finish_from(cols: Seq<Column>, states: Seq<AutoView>, j: int, line: int)
    requires
        0 <= j <= cols.len(),
        all_typed(cols, states),
    ensures
        finish_from(cols, states, j, line) matches RunResult::Done(f) ==> all_typed(cols, f),
    decreases cols.len() - j,
{
    if j < cols.len() {
        if cols[j].ignore {
            lemma_typed_finish_from(cols, states, j + 1, line);
        } else {
            lemma_typed_finish(cols[j], states[j]);
            if let Some(f) = finish_step(states[j]) {
                lemma_typed_finish_from(cols, states.update(j, f), j + 1, line);
            }
        }
    }
}

/// Every output of every non-ignored column of a process that runs to the end, on cells
/// of the declared input types, has the column's output type; and so does every value an
/// averaging column holds back. In particular an averaging column (its output type is
/// integer) only ever averages integers.
pub proof fn lemma_outputs_typed(cols: Seq<Column>, raw: bool, cells: Seq<Seq<Option<Val>>>, n: nat)
    requires
        columns_wf(cols),
        process_typed(cols),
        cells_typed(cols, cells, n),
    ensures
        run_rows(cols, raw, cells, n) matches RunResult::Done(st) ==> all_typed(cols, st),
        run_process_spec(cols, raw, cells, n) matches RunResult::Done(st) ==> all_typed(cols, st),
{
    lemma_typed_rows(cols, raw, cells, n, n);
    if let RunResult::Done(st) = run_rows(cols, raw, cells, n) {
        lemma_typed_finish_from(cols, st, 0, n as int);
    }
}

/// The mean of a commit in an integer-typed automaton: its back-filled values are the
/// truncated mean of the last output and the streak's first value, or that first value
/// when nothing was output before.
pub proof fn lemma_commit_mean_typed(c: Column, k: nat, s: AutoView, v: Val)
    requires
        c.output_type == crate::value::ColumnType::Integer,
        auto_typed(c, s),
        type_of(v) == c.output_type,
        s.mode matches ModeView::Invalid { streak, .. } && streak.len() + 1 == k,
    ensures
        ({
            let missing = s.mode->missing;
            let first = s.mode->streak.push(v)[0]->Integer_0;
            let r = accept(k, s, v);
            forall|i: int|
                s.output.len() <= i < s.output.len() + missing ==> #[trigger] r.output[i] == Val::Integer(
                    if s.output.len() > 0 {
                        mean_of_two(s.output.last()->Integer_0, first)
                    } else {
                        first
                    },
                )
        }),
{
    let st = s.mode->streak.push(v);
    if s.output.len() > 0 {
        assert(type_of(s.output[s.output.len() - 1]) == c.output_type);
    }
    if s.mode->streak.len() > 0 {
        assert(type_of(s.mode->streak[0]) == c.output_type);
    }
    assert(type_of(st[0]) == c.output_type);
    lemma_commit_mean(k, s, v);
}


proof fn lemma_fields_parse(cols: Seq<Column>, fields: Seq<Seq<char>>, c: int)
    requires
        0 <= c <= cols.len(),
        first_bad_field(cols, fields, c) is None,
    ensures
        forall|x: int| c <= x < cols.len() ==> (#[trigger] field_cell(cols[x].input_type, fields[x])) is Some,
    decreases cols.len() - c,
{
    if c < cols.len() {
        lemma_fields_parse(cols, fields, c + 1);
    }
}

proof fn lemma_parse_cell_typed(t: crate::value::ColumnType, f: Seq<char>)
    ensures
        field_cell(t, f) matches Some(Some(v)) ==> type_of(v) == t,
{
}

proof fn lemma_lines_good(cols: Seq<Column>, rows: Seq<Seq<char>>, i: int)
    requires
        0 <= i <= rows.len(),
        first_bad_line(cols, rows, i) is None,
    ensures
        forall|x: int| i <= x < rows.len() ==> line_error(cols, #[trigger] rows[x]) is None,
    decreases rows.len() - i,
{
    if i < rows.len() {
        lemma_lines_good(cols, rows, i + 1);
    }
}

/// Data lines without a malformed line give cells of the columns' input types.
pub proof fn lemma_csv_cells_typed(cols: Seq<Column>, rows: Seq<Seq<char>>)
    requires
        first_bad_line(cols, rows, 0) is None,
    ensures
        cells_typed(cols, cells_of(cols, rows), rows.len()),
{
    lemma_lines_good(cols, rows, 0);
    let cells = cells_of(cols, rows);
    assert forall|c: int, i: int| 0 <= c < cols.len() && 0 <= i < rows.len() implies ((#[trigger] cells[c][i]) matches Some(v)
        ==> type_of(v) == cols[c].input_type) by {
        assert(line_error(cols, rows[i]) is None);
        let fields = split_on(rows[i], ',');
        lemma_fields_parse(cols, fields, 0);
        assert(field_cell(cols[c].input_type, fields[c]) is Some);
        lemma_parse_cell_typed(cols[c].input_type, fields[c]);
    }
}


/// Two automaton states that hold the same output and the same pending positions
/// (they may differ in which action came last, which only `undo` right after an event reads).
pub open spec fn same_trace(a: AutoView, b: AutoView) -> bool {
    &&& a.output == b.output
    &&& match (a.mode, b.mode) {
        (ModeView::Valid, ModeView::Valid) => true,
        (ModeView::Invalid { missing: m1, streak: s1, .. }, ModeView::Invalid { missing: m2, streak: s2, .. }) => m1
            == m2 && s1 == s2,
        _ => false,
    }
}

/// An event that an averaging automaton cannot take back: it commits a streak, or it
/// discards a pending streak.
pub open spec fn loses_trace(s: AutoView, t: AutoView) -> bool {
    s.mode is Invalid && (t.mode is Valid || (s.mode->streak.len() > 0 && t.mode->streak.len() == 0))
}

proof fn lemma_event_trace(cols: Seq<Column>, raw: bool, cells: Seq<Seq<Option<Val>>>, i: int, x: int, s: AutoView)
    requires
        0 <= x < cols.len(),
        column_wf(cols[x]),
        good(cols[x], s),
        !loses_trace(s, dispatch(cols, raw, cells, i, x, s).0),
    ensures
        dispatch(cols, raw, cells, i, x, s).1 is Proceed ==> same_trace(undo_step(dispatch(cols, raw, cells, i, x, s).0), s),
{
    let step = dispatch(cols, raw, cells, i, x, s);
    if step.1 is Proceed {
        match s.mode {
            ModeView::Valid => {
                if step.0.mode is Valid {
                    assert(step.0.output.len() == s.output.len() + 1);
                    assert(step.0.output.drop_last() =~= s.output);
                }
            },
            ModeView::Invalid { missing, streak, .. } => {
                if streak.len() == 0 {
                    assert(streak =~= Seq::<Val>::empty());
                }
                if let ModeView::Invalid { streak: st2, .. } = step.0.mode {
                    if st2.len() > 0 {
                        assert(st2.drop_last() =~= streak);
                    }
                }
            },
        }
    }
}

proof fn lemma_row_trace(
    cols: Seq<Column>,
    raw: bool,
    cells: Seq<Seq<Option<Val>>>,
    i: int,
    orig: Seq<AutoView>,
    states: Seq<AutoView>,
    j: int,
)
    requires
        columns_wf(cols),
        0 <= j <= cols.len(),
        orig.len() == cols.len(),
        states.len() == cols.len(),
        forall|x: int| 0 <= x < cols.len() && !(#[trigger] cols[x]).ignore ==> good(cols[x], orig[x]),
        forall|x: int|
            0 <= x < cols.len() && !(#[trigger] cols[x]).ignore ==> !loses_trace(
                orig[x],
                dispatch(cols, raw, cells, i, x, orig[x]).0,
            ),
        forall|x: int| 0 <= x < j && !(#[trigger] cols[x]).ignore ==> same_trace(undo_step(states[x]), orig[x]),
        forall|x: int| 0 <= x < j && (#[trigger] cols[x]).ignore ==> states[x] == orig[x],
        forall|x: int| j <= x < cols.len() ==> #[trigger] states[x] == orig[x],
    ensures
        row_from(cols, raw, cells, i, states, j) matches RowResult::Deleted(s) ==> forall|x: int|
            0 <= x < cols.len() ==> same_trace(#[trigger] s[x], orig[x]),
    decreases cols.len() - j,
{
    if j < cols.len() {
        if cols[j].ignore {
            lemma_row_trace(cols, raw, cells, i, orig, states, j + 1);
        } else {
            let step = dispatch(cols, raw, cells, i, j, states[j]);
            lemma_event_trace(cols, raw, cells, i, j, states[j]);
            match step.1 {
                Outcome::Proceed => {
                    let ns = states.update(j, step.0);
                    lemma_row_trace(cols, raw, cells, i, orig, ns, j + 1);
                },
                Outcome::Delete => {
                    let s = undo_before(cols, states, j);
                    assert forall|x: int| 0 <= x < cols.len() implies same_trace(#[trigger] s[x], orig[x]) by {
                        if x < j && !cols[x].ignore {
                        } else {
                            assert(s[x] == orig[x]);
                            assert(orig[x].output =~= orig[x].output);
                        }
                    }
                },
                Outcome::Fail(_) => {},
            }
        }
    }
}

/// A deleted row leaves no trace in any automaton of the process (the same output, the
/// same pending positions), unless on that row some averaging automaton commits or
/// discards a streak: the undo of §4.C cannot take those back.
pub proof fn lemma_deleted_row_trace(
    cols: Seq<Column>,
    raw: bool,
    cells: Seq<Seq<Option<Val>>>,
    i: int,
    states: Seq<AutoView>,
)
    requires
        columns_wf(cols),
        states.len() == cols.len(),
        forall|x: int| 0 <= x < cols.len() && !(#[trigger] cols[x]).ignore ==> good(cols[x], states[x]),
        forall|x: int|
            0 <= x < cols.len() && !(#[trigger] cols[x]).ignore ==> !loses_trace(
                states[x],
                dispatch(cols, raw, cells, i, x, states[x]).0,
            ),
    ensures
        row_from(cols, raw, cells, i, states, 0) matches RowResult::Deleted(s) ==> forall|x: int|
            0 <= x < cols.len() ==> same_trace(#[trigger] s[x], states[x]),
{
    lemma_row_trace(cols, raw, cells, i, states, states, 0);
}

} // verus!
