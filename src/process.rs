use vstd::prelude::*;
use crate::value::{Val, Value, views, contains_value, copy_chars};
use crate::expr::{Binding, env_view};
use crate::aggregate::{compress, compressed, aligned};
use crate::column::{
    ColErrV, col_err_view,
    Column, Automaton, AutoView, ModeView, ColumnError, Signal, Outcome, outcome_of,
    opt_view, column_wf, auto_wf, positions, push_step, null_step, undo_step, finish_step, initial,
    null_policy, apply_policy, Policy,
};

verus! {

/// An ordered group of columns driven row by row, optionally aggregated by one column.
#[derive(Debug)]
pub struct Process {
    pub name: Vec<char>,
    pub columns: Vec<Column>,
    /// The index of the key column of aggregation.
    pub aggregate_column: Option<usize>,
}

/// Where and why a process stopped.
#[derive(Debug)]
pub struct ProcessError {
    /// 1-based row number.
    pub line: usize,
    /// Index of the column that failed.
    pub column: usize,
    pub error: ColumnError,
}

pub open spec fn value_name() -> Seq<char> {
    seq!['v', 'a', 'l', 'u', 'e']
}

/// The name under which a sibling's raw value is visible: `value_<title>`.
pub open spec fn sibling_name(title: Seq<char>) -> Seq<char> {
    seq!['v', 'a', 'l', 'u', 'e', '_'] + title
}

pub open spec fn sibling_names(cols: Seq<Column>) -> Seq<Seq<char>> {
    Seq::new(cols.len(), |j: int| sibling_name(cols[j].title@))
}

pub open spec fn column_cells_view(col: Vec<Option<Value>>) -> Seq<Option<Val>> {
    col@.map_values(|o: Option<Value>| opt_view(o))
}

pub open spec fn cells_view(cells: Seq<Vec<Option<Value>>>) -> Seq<Seq<Option<Val>>> {
    cells.map_values(|col: Vec<Option<Value>>| column_cells_view(col))
}

pub open spec fn autos_view(a: Seq<Automaton>) -> Seq<AutoView> {
    a.map_values(|x: Automaton| x@)
}

/// The names in scope for column `c` on row `i`: `value`, then every other column's raw cell.
pub open spec fn row_env(names: Seq<Seq<char>>, cells: Seq<Seq<Option<Val>>>, i: int, c: int, v: Val) -> Seq<
    (Seq<char>, Option<Val>),
> {
    let all = Seq::new(names.len(), |j: int| (names[j], cells[j][i]));
    seq![(value_name(), Some(v))] + all.subrange(0, c) + all.subrange(c + 1, names.len() as int)
}

/// One cell fed to one automaton: empty fields are nulls, and so are null surrogates in
/// `raw` input (the input of the first process; later ones read outputs, always present).
pub open spec fn dispatch(
    cols: Seq<Column>, raw: bool,
    cells: Seq<Seq<Option<Val>>>,
    i: int,
    c: int,
    s: AutoView,
) -> (AutoView, Outcome) {
    let col = cols[c];
    match cells[c][i] {
        None => null_step(col, s),
        Some(v) => if raw && (col.null_surrogates matches Some(l) && views(l@).contains(v)) {
            null_step(col, s)
        } else {
            push_step(col, s, v, row_env(sibling_names(cols), cells, i, c, v))
        },
    }
}

pub enum RowResult {
    Committed(Seq<AutoView>),
    Deleted(Seq<AutoView>),
    /// The failing column and why it failed.
    Failed(int, ColErrV),
}

/// The states after undoing every automaton before column `j`.
pub open spec fn undo_before(cols: Seq<Column>, states: Seq<AutoView>, j: int) -> Seq<AutoView> {
    Seq::new(
        states.len(),
        |x: int| if x < j && !cols[x].ignore { undo_step(states[x]) } else { states[x] },
    )
}

/// Row `i` from column `j` on: each non-ignored column in declared order; a delete
/// undoes the columns already fed, a failure stops.
pub open spec fn row_from(
    cols: Seq<Column>, raw: bool,
    cells: Seq<Seq<Option<Val>>>,
    i: int,
    states: Seq<AutoView>,
    j: int,
) -> RowResult
    decreases cols.len() - j,
{
    if j >= cols.len() || j < 0 {
        RowResult::Committed(states)
    } else if cols[j].ignore {
        row_from(cols, raw, cells, i, states, j + 1)
    } else {
        let step = dispatch(cols, raw, cells, i, j, states[j]);
        match step.1 {
            Outcome::Proceed => row_from(cols, raw, cells, i, states.update(j, step.0), j + 1),
            Outcome::Delete => RowResult::Deleted(undo_before(cols, states, j)),
            Outcome::Fail(e) => RowResult::Failed(j, e),
        }
    }
}

pub enum RunResult {
    Done(Seq<AutoView>),
    /// The failing column, the 1-based line, and why the column failed.
    Stopped(int, int, ColErrV),
}

pub open spec fn initial_states(n: nat) -> Seq<AutoView> {
    Seq::new(n, |x: int| initial())
}

/// The automata after the first `n` rows.
pub open spec fn run_rows(cols: Seq<Column>, raw: bool, cells: Seq<Seq<Option<Val>>>, n: nat) -> RunResult
    decreases n,
{
    if n == 0 {
        RunResult::Done(initial_states(cols.len()))
    } else {
        match run_rows(cols, raw, cells, (n - 1) as nat) {
            RunResult::Done(st) => match row_from(cols, raw, cells, n - 1, st, 0) {
                RowResult::Committed(s) => RunResult::Done(s),
                RowResult::Deleted(s) => RunResult::Done(s),
                RowResult::Failed(c, e) => RunResult::Stopped(c, n as int, e),
            },
            stopped => stopped,
        }
    }
}

/// `finish` on every non-ignored automaton from column `j` on, in declared order.
pub open spec fn finish_from(cols: Seq<Column>, states: Seq<AutoView>, j: int, line: int) -> RunResult
    decreases cols.len() - j,
{
    if j >= cols.len() || j < 0 {
        RunResult::Done(states)
    } else if cols[j].ignore {
        finish_from(cols, states, j + 1, line)
    } else {
        match finish_step(states[j]) {
            Some(s) => finish_from(cols, states.update(j, s), j + 1, line),
            None => RunResult::Stopped(j, line, ColErrV::NoValidValues),
        }
    }
}

/// The automata of a process after all `n` rows and `finish`.
pub open spec fn run_process_spec(cols: Seq<Column>, raw: bool, cells: Seq<Seq<Option<Val>>>, n: nat) -> RunResult {
    match run_rows(cols, raw, cells, n) {
        RunResult::Done(st) => finish_from(cols, st, 0, n as int),
        stopped => stopped,
    }
}

/// The outputs of the non-ignored columns before column `j`, in declared order.
pub open spec fn kept(cols: Seq<Column>, states: Seq<AutoView>, j: int) -> Seq<Seq<Val>>
    decreases j,
{
    if j <= 0 {
        Seq::empty()
    } else if cols[j - 1].ignore {
        kept(cols, states, j - 1)
    } else {
        kept(cols, states, j - 1).push(states[j - 1].output)
    }
}

pub open spec fn outputs_view(o: Seq<Vec<Value>>) -> Seq<Seq<Val>> {
    o.map_values(|v: Vec<Value>| views(v@))
}

pub open spec fn cells_shape(cells: Seq<Vec<Option<Value>>>, ncols: nat, nrows: nat) -> bool {
    &&& cells.len() == ncols
    &&& forall|c: int| 0 <= c < ncols ==> (#[trigger] cells[c])@.len() == nrows
}

pub open spec fn columns_wf(cols: Seq<Column>) -> bool {
    forall|c: int| 0 <= c < cols.len() ==> column_wf(#[trigger] cols[c])
}

proof fn lemma_apply_positions(p: Policy, s: AutoView)
    ensures
        forall|o: Option<Val>| positions(#[trigger] apply_policy(p, s, o).0) <= positions(s) + 1,
{
}

proof fn lemma_dispatch(cols: Seq<Column>, raw: bool, cells: Seq<Seq<Option<Val>>>, i: int, c: int, s: AutoView)
    requires
        0 <= c < cols.len(),
        column_wf(cols[c]),
        auto_wf(cols[c], s),
        0 <= i < cells[c].len(),
        cells.len() == cols.len(),
    ensures
        positions(dispatch(cols, raw, cells, i, c, s).0) <= positions(s) + 1,
{
    let col = cols[c];
    lemma_apply_positions(col.on_invalid, s);
    lemma_apply_positions(null_policy(col), s);
    match s.mode {
        ModeView::Valid => {},
        ModeView::Invalid { missing, streak, .. } => {},
    }
}

proof fn lemma_undo(c: Column, s: AutoView)
    requires
        auto_wf(c, s),
    ensures
        auto_wf(c, undo_step(s)),
        positions(undo_step(s)) <= positions(s),
{
}

fn new_bindings() -> (r: Vec<Binding>)
    ensures
        r@.len() == 0,
{
    Vec::new()
}

fn dup_opt(o: &Option<Value>) -> (r: Option<Value>)
    ensures
        opt_view(r) == opt_view(*o),
{
    match o {
        Some(v) => Some(v.duplicate()),
        None => None,
    }
}

/// The `value_<title>` names of the columns.
fn make_sibling_names(cols: &Vec<Column>) -> (r: Vec<Vec<char>>)
    ensures
        r@.len() == cols@.len(),
        forall|j: int| 0 <= j < cols@.len() ==> (#[trigger] r@[j])@ == sibling_name(cols@[j].title@),
{
    let mut r: Vec<Vec<char>> = Vec::new();
    let mut j: usize = 0;
    while j < cols.len()
        invariant
            j <= cols.len(),
            r@.len() == j,
            forall|x: int| 0 <= x < j ==> (#[trigger] r@[x])@ == sibling_name(cols@[x].title@),
        decreases cols.len() - j,
    {
        let mut n = vec!['v', 'a', 'l', 'u', 'e', '_'];
        let mut t = copy_chars(&cols[j].title);
        n.append(&mut t);
        assert(n@ =~= sibling_name(cols@[j as int].title@));
        r.push(n);
        j = j + 1;
    }
    r
}

fn make_row_env(
    names: &Vec<Vec<char>>,
    cells: &Vec<Vec<Option<Value>>>,
    i: usize,
    c: usize,
    v: &Value,
) -> (r: Vec<Binding>)
    requires
        c < names.len(),
        cells.len() == names.len(),
        forall|j: int| 0 <= j < cells.len() ==> i < (#[trigger] cells@[j])@.len(),
    ensures
        env_view(r@) == row_env(
            names@.map_values(|n: Vec<char>| n@),
            cells_view(cells@),
            i as int,
            c as int,
            v@,
        ),
{
    let ghost nv = names@.map_values(|n: Vec<char>| n@);
    let ghost cv = cells_view(cells@);
    let ghost all = Seq::new(nv.len(), |j: int| (nv[j], cv[j][i as int]));
    let mut r = new_bindings();
    let value = vec!['v', 'a', 'l', 'u', 'e'];
    assert(value@ =~= value_name());
    r.push(Binding { name: value, value: Some(v.duplicate()) });
    let ghost head = seq![(value_name(), Some(v@))];
    assert(env_view(r@) =~= head + all.subrange(0, 0));
    let mut j: usize = 0;
    while j < names.len()
        invariant
            j <= names.len(),
            c < names.len(),
            cells.len() == names.len(),
            forall|x: int| 0 <= x < cells.len() ==> i < (#[trigger] cells@[x])@.len(),
            nv == names@.map_values(|n: Vec<char>| n@),
            cv == cells_view(cells@),
            all == Seq::new(nv.len(), |x: int| (nv[x], cv[x][i as int])),
            j <= c ==> env_view(r@) == head + all.subrange(0, j as int),
            j > c ==> env_view(r@) == head + all.subrange(0, c as int) + all.subrange(
                c + 1,
                j as int,
            ),
        decreases names.len() - j,
    {
        if j != c {
            let ghost prev = r@;
            let b = Binding { name: copy_chars(&names[j]), value: dup_opt(&cells[j][i]) };
            assert(cv[j as int][i as int] == opt_view(cells@[j as int]@[i as int]));
            r.push(b);
            assert(env_view(r@) =~= env_view(prev).push(all[j as int]));
            if j < c {
                assert(head + all.subrange(0, j + 1) =~= (head + all.subrange(0, j as int)).push(
                    all[j as int],
                ));
            } else {
                assert(head + all.subrange(0, c as int) + all.subrange(c + 1, j + 1) =~= (head
                    + all.subrange(0, c as int) + all.subrange(c + 1, j as int)).push(
                    all[j as int],
                ));
            }
        } else {
            assert(all.subrange(c + 1, c + 1) =~= Seq::<(Seq<char>, Option<Val>)>::empty());
            assert(head + all.subrange(0, c as int) + all.subrange(c + 1, c + 1) =~= head
                + all.subrange(0, c as int));
        }
        j = j + 1;
    }
    if c + 1 == names.len() {
        assert(all.subrange(c + 1, names.len() as int) =~= all.subrange(c + 1, c + 1));
    }
    r
}


pub fn copy_values(v: &Vec<Value>) -> (r: Vec<Value>)
    ensures
        views(r@) == views(v@),
{
    let mut r: Vec<Value> = Vec::new();
    let mut j: usize = 0;
    while j < v.len()
        invariant
            j <= v.len(),
            views(r@) == views(v@).subrange(0, j as int),
        decreases v.len() - j,
    {
        let x = v[j].duplicate();
        let ghost prev = r@;
        r.push(x);
        proof {
            crate::column::lemma_views_push(prev, x);
        }
        assert(views(r@) =~= views(v@).subrange(0, j + 1));
        j = j + 1;
    }
    assert(views(v@).subrange(0, v.len() as int) =~= views(v@));
    r
}

/// Feeds the cell of column `c` on row `i` to its automaton.
fn feed_cell(
    cols: &Vec<Column>,
    raw: bool,
    names: &Vec<Vec<char>>,
    cells: &Vec<Vec<Option<Value>>>,
    i: usize,
    c: usize,
    a: &mut Automaton,
) -> (r: Signal)
    requires
        c < cols.len(),
        names@.map_values(|n: Vec<char>| n@) == sibling_names(cols@),
        cells.len() == cols.len(),
        forall|j: int| 0 <= j < cells.len() ==> i < (#[trigger] cells@[j])@.len(),
        column_wf(cols@[c as int]),
        auto_wf(cols@[c as int], old(a)@),
        positions(old(a)@) < usize::MAX,
    ensures
        final(a)@ == dispatch(cols@, raw, cells_view(cells@), i as int, c as int, old(a)@).0,
        outcome_of(r) == dispatch(cols@, raw, cells_view(cells@), i as int, c as int, old(a)@).1,
        auto_wf(cols@[c as int], final(a)@),
        r matches Signal::Fail(e) ==> !(e is UnequalLength),
{
    let col = &cols[c];
    assert(names.len() == cols.len()) by {
        assert(names@.map_values(|n: Vec<char>| n@).len() == names@.len());
    }
    assert(cells_view(cells@)[c as int][i as int] == opt_view(cells@[c as int]@[i as int]));
    match &cells[c][i] {
        None => a.null(col),
        Some(v) => {
            let is_null = raw && match &col.null_surrogates {
                Some(l) => contains_value(l, v),
                None => false,
            };
            if is_null {
                a.null(col)
            } else {
                let env = make_row_env(names, cells, i, c, v);
                a.push(col, v, &env)
            }
        },
    }
}

pub open spec fn autos_wf(cols: Seq<Column>, autos: Seq<Automaton>, bound: int) -> bool {
    &&& autos.len() == cols.len()
    &&& forall|c: int| 0 <= c < cols.len() ==> auto_wf(cols[c], (#[trigger] autos[c])@)
    &&& forall|c: int| 0 <= c < cols.len() ==> positions((#[trigger] autos[c])@) <= bound
}

/// Runs row `i` through the automata.
fn run_row(
    cols: &Vec<Column>,
    raw: bool,
    names: &Vec<Vec<char>>,
    cells: &Vec<Vec<Option<Value>>>,
    i: usize,
    autos: &mut Vec<Automaton>,
) -> (r: Result<(), (usize, ColumnError)>)
    requires
        names@.map_values(|n: Vec<char>| n@) == sibling_names(cols@),
        cells.len() == cols.len(),
        forall|j: int| 0 <= j < cells.len() ==> i < (#[trigger] cells@[j])@.len(),
        columns_wf(cols@),
        autos_wf(cols@, old(autos)@, i as int),
        i < usize::MAX,
    ensures
        match row_from(cols@, raw, cells_view(cells@), i as int, autos_view(old(autos)@), 0) {
            RowResult::Committed(s) => r is Ok && autos_view(final(autos)@) == s,
            RowResult::Deleted(s) => r is Ok && autos_view(final(autos)@) == s,
            RowResult::Failed(c, ev) => r matches Err((x, e)) && x == c && col_err_view(e) == ev,
        },
        r is Ok ==> autos_wf(cols@, final(autos)@, i + 1),
        r matches Err((_, e)) ==> !(e is UnequalLength),
{
    let ghost cv = cells_view(cells@);
    let ghost start = autos_view(autos@);
    let n = cols.len();
    let mut j: usize = 0;
    while j < n
        invariant
            n == cols.len(),
            j <= n,
            names@.map_values(|n: Vec<char>| n@) == sibling_names(cols@),
            cells.len() == cols.len(),
            forall|x: int| 0 <= x < cells.len() ==> i < (#[trigger] cells@[x])@.len(),
            columns_wf(cols@),
            i < usize::MAX,
            cv == cells_view(cells@),
            start == autos_view(old(autos)@),
            autos.len() == cols.len(),
            forall|c: int| 0 <= c < cols.len() ==> auto_wf(cols@[c], (#[trigger] autos@[c])@),
            forall|c: int| 0 <= c < j ==> positions((#[trigger] autos@[c])@) <= i + 1,
            forall|c: int| j <= c < cols.len() ==> positions((#[trigger] autos@[c])@) <= i,
            row_from(cols@, raw, cv, i as int, start, 0) == row_from(
                cols@, raw,
                cv,
                i as int,
                autos_view(autos@),
                j as int,
            ),
        decreases n - j,
    {
        if !cols[j].ignore {
            let ghost before = autos@;
            assert(autos_view(autos@)[j as int] == autos@[j as int]@);
            assert(positions(autos@[j as int]@) <= i);
            let ghost step = dispatch(cols@, raw, cv, i as int, j as int, autos_view(before)[j as int]);
            let sig = feed_cell(cols, raw, names, cells, i, j, &mut autos[j]);
            assert(row_from(cols@, raw, cv, i as int, autos_view(before), j as int) == match step.1 {
                Outcome::Proceed => row_from(
                    cols@, raw,
                    cv,
                    i as int,
                    autos_view(before).update(j as int, step.0),
                    j + 1,
                ),
                Outcome::Delete => RowResult::Deleted(undo_before(cols@, autos_view(before), j as int)),
                Outcome::Fail(ev) => RowResult::Failed(j as int, ev),
            });
            match sig {
                Signal::Proceed => {
                    assert(autos_view(autos@) =~= autos_view(before).update(
                        j as int,
                        autos@[j as int]@,
                    ));
                    proof {
                        lemma_dispatch(cols@, raw, cv, i as int, j as int, before[j as int]@);
                    }
                },
                Signal::Delete => {
                    assert(autos_view(autos@) =~= autos_view(before));
                    let ghost cur = autos_view(autos@);
                    let mut x: usize = j;
                    while x > 0
                        invariant
                            x <= j,
                            j < n,
                            n == cols.len(),
                            autos.len() == cols.len(),
                            cur.len() == cols.len(),
                            autos_view(autos@) == Seq::new(
                                cur.len(),
                                |y: int| if x <= y < j && !cols@[y].ignore {
                                    undo_step(cur[y])
                                } else {
                                    cur[y]
                                },
                            ),
                            forall|c: int| 0 <= c < cols.len() ==> auto_wf(cols@[c], (#[trigger] autos@[c])@),
                            forall|c: int| 0 <= c < j ==> positions((#[trigger] autos@[c])@) <= i + 1,
                            forall|c: int| j <= c < cols.len() ==> positions((#[trigger] autos@[c])@) <= i,
                        decreases x,
                    {
                        let ghost view0 = autos_view(autos@);
                        x = x - 1;
                        if !cols[x].ignore {
                            let ghost prev = autos@;
                            autos[x].undo();
                            proof {
                                lemma_undo(cols@[x as int], prev[x as int]@);
                                assert(autos_view(prev)[x as int] == prev[x as int]@);
                                assert(view0[x as int] == cur[x as int]);
                                assert forall|y: int| 0 <= y < cur.len() implies autos_view(autos@)[y] == (if x <= y < j && !cols@[y].ignore {
                                        undo_step(cur[y])
                                    } else {
                                        cur[y]
                                    }) by {
                                    if y != x {
                                        assert(autos@[y] == prev[y]);
                                        assert(autos_view(autos@)[y] == autos@[y]@);
                                        assert(view0[y] == prev[y]@);
                                    } else {
                                        assert(autos_view(autos@)[y] == autos@[y]@);
                                    }
                                }
                            }
                            assert(autos_view(autos@) =~= Seq::new(
                                cur.len(),
                                |y: int| if x <= y < j && !cols@[y].ignore {
                                    undo_step(cur[y])
                                } else {
                                    cur[y]
                                },
                            ));
                        } else {
                            assert(autos_view(autos@) == view0);
                            assert forall|y: int| 0 <= y < cur.len() implies view0[y] == (if x <= y < j && !cols@[y].ignore {
                                    undo_step(cur[y])
                                } else {
                                    cur[y]
                                }) by {
                                if y == x {
                                } else {
                                }
                            }
                            assert(autos_view(autos@) =~= Seq::new(
                                cur.len(),
                                |y: int| if x <= y < j && !cols@[y].ignore {
                                    undo_step(cur[y])
                                } else {
                                    cur[y]
                                },
                            ));
                        }
                    }
                    assert(autos_view(autos@) =~= undo_before(cols@, cur, j as int));
                    assert forall|c: int| 0 <= c < cols.len() implies positions(
                        (#[trigger] autos@[c])@,
                    ) <= i + 1 by {}
                    return Ok(());
                },
                Signal::Fail(e) => {
                    return Err((j, e));
                },
            }
        }
        j = j + 1;
    }
    Ok(())
}


proof fn lemma_stopped_stays(cols: Seq<Column>, raw: bool, cells: Seq<Seq<Option<Val>>>, a: nat, b: nat)
    requires
        a <= b,
        run_rows(cols, raw, cells, a) is Stopped,
    ensures
        run_rows(cols, raw, cells, b) == run_rows(cols, raw, cells, a),
    decreases b - a,
{
    if a < b {
        lemma_stopped_stays(cols, raw, cells, a, (b - 1) as nat);
    }
}

/// Feeds all rows to fresh automata, then finishes them; on success returns the automata.
fn drive(p: &Process, raw: bool, cells: &Vec<Vec<Option<Value>>>, nrows: usize) -> (r: Result<Vec<Automaton>, ProcessError>)
    requires
        cells_shape(cells@, p.columns@.len(), nrows as nat),
        columns_wf(p.columns@),
    ensures
        match run_process_spec(p.columns@, raw, cells_view(cells@), nrows as nat) {
            RunResult::Done(st) => r matches Ok(a) && autos_view(a@) == st,
            RunResult::Stopped(c, line, ev) => r matches Err(e) && e.column == c && e.line == line
                && col_err_view(e.error) == ev,
        },
        r matches Ok(a) ==> a@.len() == p.columns@.len(),
        r matches Err(e) ==> !(e.error is UnequalLength),
{
    let cols = &p.columns;
    let ghost cv = cells_view(cells@);
    let n = cols.len();
    let names = make_sibling_names(cols);
    assert(names@.map_values(|n: Vec<char>| n@) =~= sibling_names(cols@));
    let mut autos: Vec<Automaton> = Vec::new();
    let mut j: usize = 0;
    while j < n
        invariant
            n == cols.len(),
            j <= n,
            autos@.len() == j,
            forall|c: int| 0 <= c < j ==> (#[trigger] autos@[c])@ == initial(),
        decreases n - j,
    {
        autos.push(Automaton::new());
        j = j + 1;
    }
    assert(autos_view(autos@) =~= initial_states(n as nat));
    let mut i: usize = 0;
    while i < nrows
        invariant
            n == cols.len(),
            cols@ == p.columns@,
            i <= nrows,
            cells_shape(cells@, n as nat, nrows as nat),
            columns_wf(cols@),
            names@.map_values(|n: Vec<char>| n@) == sibling_names(cols@),
            cv == cells_view(cells@),
            autos_wf(cols@, autos@, i as int),
            run_rows(cols@, raw, cv, i as nat) == RunResult::Done(autos_view(autos@)),
        decreases nrows - i,
    {
        let ghost before = autos_view(autos@);
        match run_row(cols, raw, &names, cells, i, &mut autos) {
            Ok(()) => {},
            Err((c, e)) => {
                assert(row_from(cols@, raw, cv, i as int, before, 0) == RowResult::Failed(c as int, col_err_view(e)));
                assert(run_rows(cols@, raw, cv, (i + 1) as nat) == RunResult::Stopped(c as int, i + 1, col_err_view(e)));
                proof {
                    lemma_stopped_stays(cols@, raw, cv, (i + 1) as nat, nrows as nat);
                }
                return Err(ProcessError { line: i + 1, column: c, error: e });
            },
        }
        i = i + 1;
    }
    let ghost done = autos_view(autos@);
    let mut j: usize = 0;
    while j < n
        invariant
            n == cols.len(),
            cols@ == p.columns@,
            j <= n,
            autos@.len() == n,
            run_rows(cols@, raw, cv, nrows as nat) == RunResult::Done(done),
            cv == cells_view(cells@),
            finish_from(cols@, done, 0, nrows as int) == finish_from(
                cols@,
                autos_view(autos@),
                j as int,
                nrows as int,
            ),
        decreases n - j,
    {
        if !cols[j].ignore {
            let ghost prev = autos@;
            assert(autos_view(prev)[j as int] == prev[j as int]@);
            match autos[j].finish() {
                Signal::Fail(e) => {
                    assert(finish_step(autos_view(prev)[j as int]) is None);
                    assert(finish_from(cols@, autos_view(prev), j as int, nrows as int) == RunResult::Stopped(j as int, nrows as int, ColErrV::NoValidValues));
                    assert(run_process_spec(cols@, raw, cv, nrows as nat) == finish_from(cols@, done, 0, nrows as int));
                    return Err(ProcessError { line: nrows, column: j, error: e });
                },
                _ => {
                    assert(autos_view(autos@) =~= autos_view(prev).update(j as int, autos@[j as int]@));
                },
            }
        }
        j = j + 1;
    }
    Ok(autos)
}

/// The outputs of the non-ignored columns, in declared order.
fn kept_outputs(cols: &Vec<Column>, autos: &Vec<Automaton>) -> (r: Vec<Vec<Value>>)
    requires
        autos.len() == cols.len(),
    ensures
        outputs_view(r@) == kept(cols@, autos_view(autos@), cols.len() as int),
{
    let mut r: Vec<Vec<Value>> = Vec::new();
    let mut j: usize = 0;
    while j < cols.len()
        invariant
            autos.len() == cols.len(),
            j <= cols.len(),
            outputs_view(r@) == kept(cols@, autos_view(autos@), j as int),
        decreases cols.len() - j,
    {
        if !cols[j].ignore {
            let o = copy_values(&autos[j].output);
            let ghost prev = r@;
            r.push(o);
            assert(autos_view(autos@)[j as int] == autos@[j as int]@);
            assert(outputs_view(r@) =~= outputs_view(prev).push(views(o@)));
        }
        j = j + 1;
    }
    r
}


/// The invariants a loaded process satisfies.
pub open spec fn process_wf(p: Process) -> bool {
    &&& columns_wf(p.columns@)
    &&& p.aggregate_column matches Some(a) ==> a < p.columns@.len() && !p.columns@[a as int].ignore
}

/// The outputs of a process whose automata ended in `states`: the non-ignored outputs,
/// compressed by the key column if there is one; `None` if aggregation meets outputs
/// of unequal length.
pub open spec fn process_outputs(p: Process, states: Seq<AutoView>) -> Option<Seq<Seq<Val>>> {
    match p.aggregate_column {
        None => Some(kept(p.columns@, states, p.columns@.len() as int)),
        Some(a) => if aligned(p.columns@, states, a as int) {
            Some(compressed(p.columns@, states, a as int, p.columns@.len() as int))
        } else {
            None
        },
    }
}

/// The outputs of a process, compressed by its key column only when `aggregated`.
pub open spec fn outputs_of(p: Process, states: Seq<AutoView>, aggregated: bool) -> Option<Seq<Seq<Val>>> {
    if aggregated {
        process_outputs(p, states)
    } else {
        Some(kept(p.columns@, states, p.columns@.len() as int))
    }
}

impl Process {
    /// Runs the process on `nrows` rows given column by column (`cells[c][i]` is column
    /// `c` on row `i`, `None` for an empty field). Null surrogates apply when the input
    /// is `raw`; the outputs are compressed by the key column when `aggregated`.
    pub fn run(&self, cells: &Vec<Vec<Option<Value>>>, nrows: usize, raw: bool, aggregated: bool) -> (r: Result<Vec<Vec<Value>>, ProcessError>)
        requires
            process_wf(*self),
            cells_shape(cells@, self.columns@.len(), nrows as nat),
        ensures
            match run_process_spec(self.columns@, raw, cells_view(cells@), nrows as nat) {
                RunResult::Done(st) => match outputs_of(*self, st, aggregated) {
                    Some(o) => r matches Ok(x) && outputs_view(x@) == o,
                    None => r matches Err(e) && e.error is UnequalLength && e.line == nrows,
                },
                RunResult::Stopped(c, line, ev) => r matches Err(e) && e.column == c && e.line == line
                    && !(e.error is UnequalLength) && col_err_view(e.error) == ev,
            },
    {
        let autos = match drive(self, raw, cells, nrows) {
            Ok(a) => a,
            Err(e) => return Err(e),
        };
        if !aggregated {
            return Ok(kept_outputs(&self.columns, &autos));
        }
        match self.aggregate_column {
            None => Ok(kept_outputs(&self.columns, &autos)),
            Some(a) => match compress(&self.columns, &autos, a) {
                Ok(o) => Ok(o),
                Err(j) => Err(ProcessError { line: nrows, column: j, error: ColumnError::UnequalLength }),
            },
        }
    }
}

} // verus!
