use vstd::prelude::*;
use crate::value::Val;
use crate::expr::{Expr, eval};
use crate::parse::expr_view;
use crate::column::{
    Column, AutoView, Policy, opt_view, apply_policy, passes, streak_goal,
    null_policy,
};
use crate::process::{
    Process, RunResult, dispatch, row_from, run_rows, finish_from, run_process_spec,
    undo_before, kept, outputs_of, sibling_names,
};
use crate::aggregate::{compressed, aligned};
use crate::csv::{first_bad_field, line_error, cells_of, titles_of, split_on};
use crate::pipeline::{Program, chain_from, section_spec, each_section, text_spec, first_bad_line};
use crate::config::{
    Doc, opt_list_view, policy_view, program_of_doc, process_of_doc, column_of_doc, doc_columns,
    doc_title, process_doc_ok,
};

verus! {

/// Two columns that behave alike: every field the run reads has the same model.
pub open spec fn col_equiv(a: Column, b: Column) -> bool {
    &&& a.title@ == b.title@
    &&& a.input_type == b.input_type
    &&& a.output_type == b.output_type
    &&& a.ignore == b.ignore
    &&& a.aggregate == b.aggregate
    &&& opt_list_view(a.null_surrogates) == opt_list_view(b.null_surrogates)
    &&& opt_list_view(a.valid_values) == opt_list_view(b.valid_values)
    &&& opt_list_view(a.invalid_values) == opt_list_view(b.invalid_values)
    &&& opt_view(a.min) == opt_view(b.min)
    &&& opt_view(a.max) == opt_view(b.max)
    &&& policy_view(a.on_invalid) == policy_view(b.on_invalid)
    &&& policy_view(a.on_null) == policy_view(b.on_null)
    &&& expr_view(a.output) == expr_view(b.output)
}

pub open spec fn cols_equiv(a: Seq<Column>, b: Seq<Column>) -> bool {
    a.len() == b.len() && forall|i: int| 0 <= i < a.len() ==> col_equiv(#[trigger] a[i], b[i])
}

pub open spec fn procs_equiv(a: Seq<Process>, b: Seq<Process>) -> bool {
    &&& a.len() == b.len()
    &&& forall|k: int|
        0 <= k < a.len() ==> cols_equiv((#[trigger] a[k]).columns@, b[k].columns@) && a[k].aggregate_column
            == b[k].aggregate_column
}

proof fn lemma_eval_cong(e1: Expr, e2: Expr, env: Seq<(Seq<char>, Option<Val>)>)
    requires
        expr_view(e1) == expr_view(e2),
    ensures
        eval(e1, env) == eval(e2, env),
    decreases e1,
{
    match (e1, e2) {
        (Expr::Unary { right: r1, .. }, Expr::Unary { right: r2, .. }) => {
            lemma_eval_cong(*r1, *r2, env);
        },
        (Expr::Binary { left: l1, right: r1, .. }, Expr::Binary { left: l2, right: r2, .. }) => {
            lemma_eval_cong(*l1, *l2, env);
            lemma_eval_cong(*r1, *r2, env);
        },
        (Expr::Concat { left: l1, right: r1 }, Expr::Concat { left: l2, right: r2 }) => {
            lemma_eval_cong(*l1, *l2, env);
            lemma_eval_cong(*r1, *r2, env);
        },
        (Expr::Call { arg: a1, .. }, Expr::Call { arg: a2, .. }) => {
            lemma_eval_cong(*a1, *a2, env);
        },
        _ => {},
    }
}

proof fn lemma_policy_cong(p1: Policy, p2: Policy, s: AutoView)
    requires
        policy_view(p1) == policy_view(p2),
    ensures
        forall|o: Option<Val>| #[trigger] apply_policy(p1, s, o) == apply_policy(p2, s, o),
{
}

proof fn lemma_dispatch_cong(c1: Seq<Column>, c2: Seq<Column>, raw: bool, cells: Seq<Seq<Option<Val>>>, i: int, x: int, s: AutoView)
    requires
        cols_equiv(c1, c2),
        0 <= x < c1.len(),
    ensures
        dispatch(c1, raw, cells, i, x, s) == dispatch(c2, raw, cells, i, x, s),
{
    let a = c1[x];
    let b = c2[x];
    assert(col_equiv(a, b));
    assert(sibling_names(c1) =~= sibling_names(c2)) by {
        assert forall|j: int| 0 <= j < c1.len() implies sibling_names(c1)[j] == sibling_names(c2)[j] by {
            assert(col_equiv(c1[j], c2[j]));
        }
    }
    lemma_policy_cong(a.on_invalid, b.on_invalid, s);
    lemma_policy_cong(null_policy(a), null_policy(b), s);
    if let Some(v) = cells[x][i] {
        let env = crate::process::row_env(sibling_names(c1), cells, i, x, v);
        lemma_eval_cong(a.output, b.output, env);
        assert(passes(a, v) == passes(b, v));
        assert(streak_goal(a) == streak_goal(b));
    }
}

proof fn lemma_row_cong(c1: Seq<Column>, c2: Seq<Column>, raw: bool, cells: Seq<Seq<Option<Val>>>, i: int, st: Seq<AutoView>, j: int)
    requires
        cols_equiv(c1, c2),
    ensures
        row_from(c1, raw, cells, i, st, j) == row_from(c2, raw, cells, i, st, j),
    decreases c1.len() - j,
{
    if 0 <= j < c1.len() {
        assert(col_equiv(c1[j], c2[j]));
        lemma_dispatch_cong(c1, c2, raw, cells, i, j, st[j]);
        let step = dispatch(c1, raw, cells, i, j, st[j]);
        lemma_row_cong(c1, c2, raw, cells, i, st, j + 1);
        lemma_row_cong(c1, c2, raw, cells, i, st.update(j, step.0), j + 1);
        assert(undo_before(c1, st, j) =~= undo_before(c2, st, j)) by {
            assert forall|y: int| 0 <= y < st.len() implies undo_before(c1, st, j)[y] == undo_before(c2, st, j)[y] by {
                if y < j && y < c1.len() {
                    assert(col_equiv(c1[y], c2[y]));
                }
            }
        }
    }
}

proof fn lemma_rows_cong(c1: Seq<Column>, c2: Seq<Column>, raw: bool, cells: Seq<Seq<Option<Val>>>, n: nat)
    requires
        cols_equiv(c1, c2),
    ensures
        run_rows(c1, raw, cells, n) == run_rows(c2, raw, cells, n),
    decreases n,
{
    if n > 0 {
        lemma_rows_cong(c1, c2, raw, cells, (n - 1) as nat);
        if let RunResult::Done(st) = run_rows(c1, raw, cells, (n - 1) as nat) {
            lemma_row_cong(c1, c2, raw, cells, n - 1, st, 0);
        }
    }
}

proof fn lemma_finish_cong(c1: Seq<Column>, c2: Seq<Column>, st: Seq<AutoView>, j: int, line: int)
    requires
        cols_equiv(c1, c2),
    ensures
        finish_from(c1, st, j, line) == finish_from(c2, st, j, line),
    decreases c1.len() - j,
{
    if 0 <= j < c1.len() {
        assert(col_equiv(c1[j], c2[j]));
        lemma_finish_cong(c1, c2, st, j + 1, line);
        if let Some(s) = crate::column::finish_step(st[j]) {
            lemma_finish_cong(c1, c2, st.update(j, s), j + 1, line);
        }
    }
}

proof fn lemma_kept_cong(c1: Seq<Column>, c2: Seq<Column>, st: Seq<AutoView>, a: int, j: int)
    requires
        cols_equiv(c1, c2),
        j <= c1.len(),
    ensures
        kept(c1, st, j) == kept(c2, st, j),
        compressed(c1, st, a, j) == compressed(c2, st, a, j),
    decreases j,
{
    if j > 0 {
        assert(col_equiv(c1[j - 1], c2[j - 1]));
        lemma_kept_cong(c1, c2, st, a, j - 1);
    }
}

proof fn lemma_process_cong(p1: Process, p2: Process, raw: bool, cells: Seq<Seq<Option<Val>>>, n: nat, agg: bool)
    requires
        cols_equiv(p1.columns@, p2.columns@),
        p1.aggregate_column == p2.aggregate_column,
    ensures
        run_process_spec(p1.columns@, raw, cells, n) == run_process_spec(p2.columns@, raw, cells, n),
        run_process_spec(p1.columns@, raw, cells, n) matches RunResult::Done(st) ==> outputs_of(p1, st, agg)
            == outputs_of(p2, st, agg),
{
    let c1 = p1.columns@;
    let c2 = p2.columns@;
    lemma_rows_cong(c1, c2, raw, cells, n);
    if let RunResult::Done(st) = run_rows(c1, raw, cells, n) {
        lemma_finish_cong(c1, c2, st, 0, n as int);
    }
    if let RunResult::Done(st) = run_process_spec(c1, raw, cells, n) {
        let a = match p1.aggregate_column {
            Some(a) => a as int,
            None => 0,
        };
        lemma_kept_cong(c1, c2, st, a, c1.len() as int);
        assert(aligned(c1, st, a) == aligned(c2, st, a)) by {
            assert forall|j: int| 0 <= j < c1.len() implies c1[j].ignore == c2[j].ignore by {
                assert(col_equiv(c1[j], c2[j]));
            }
        }
    }
}

proof fn lemma_chain_cong(q1: Seq<Process>, q2: Seq<Process>, k: int, cells: Seq<Seq<Option<Val>>>, n: nat, acc: Seq<Seq<Seq<Val>>>)
    requires
        procs_equiv(q1, q2),
    ensures
        chain_from(q1, k, cells, n, acc) == chain_from(q2, k, cells, n, acc),
    decreases q1.len() - k,
{
    if 0 <= k < q1.len() {
        assert(cols_equiv(q1[k].columns@, q2[k].columns@));
        lemma_process_cong(q1[k], q2[k], k == 0, cells, n, k + 1 == q1.len());
        if k + 1 < q1.len() {
            assert(cols_equiv(q1[k + 1].columns@, q2[k + 1].columns@));
        }
        if let RunResult::Done(st) = run_process_spec(q1[k].columns@, k == 0, cells, n) {
            if let Some(o) = outputs_of(q1[k], st, k + 1 == q1.len()) {
                lemma_chain_cong(q1, q2, k + 1, crate::pipeline::lift(o), crate::pipeline::rows_of(o), acc.push(o));
            }
        }
    }
}

proof fn lemma_fields_cong(c1: Seq<Column>, c2: Seq<Column>, fields: Seq<Seq<char>>, c: int)
    requires
        cols_equiv(c1, c2),
    ensures
        first_bad_field(c1, fields, c) == first_bad_field(c2, fields, c),
    decreases c1.len() - c,
{
    if 0 <= c < c1.len() {
        assert(col_equiv(c1[c], c2[c]));
        lemma_fields_cong(c1, c2, fields, c + 1);
    }
}

proof fn lemma_lines_cong(c1: Seq<Column>, c2: Seq<Column>, rows: Seq<Seq<char>>, i: int)
    requires
        cols_equiv(c1, c2),
    ensures
        first_bad_line(c1, rows, i) == first_bad_line(c2, rows, i),
    decreases rows.len() - i,
{
    if 0 <= i < rows.len() {
        lemma_fields_cong(c1, c2, split_on(rows[i], ','), 0);
        assert(line_error(c1, rows[i]) == line_error(c2, rows[i]));
        lemma_lines_cong(c1, c2, rows, i + 1);
    }
}

proof fn lemma_section_cong(q1: Seq<Process>, q2: Seq<Process>, rows: Seq<Seq<char>>)
    requires
        procs_equiv(q1, q2),
        q1.len() >= 1,
    ensures
        section_spec(q1, rows) == section_spec(q2, rows),
{
    let c1 = q1[0].columns@;
    let c2 = q2[0].columns@;
    assert(cols_equiv(c1, c2));
    lemma_lines_cong(c1, c2, rows, 0);
    assert(cells_of(c1, rows) =~= cells_of(c2, rows)) by {
        assert forall|c: int| 0 <= c < c1.len() implies cells_of(c1, rows)[c] =~= cells_of(c2, rows)[c] by {
            assert(col_equiv(c1[c], c2[c]));
        }
    }
    lemma_chain_cong(q1, q2, 0, cells_of(c1, rows), rows.len(), Seq::empty());
}

proof fn lemma_each_cong(q1: Seq<Process>, q2: Seq<Process>, files: Seq<Seq<Seq<char>>>, m: int)
    requires
        procs_equiv(q1, q2),
        q1.len() >= 1,
    ensures
        each_section(q1, files, m) == each_section(q2, files, m),
    decreases m,
{
    if m > 1 {
        lemma_each_cong(q1, q2, files, m - 1);
        lemma_section_cong(q1, q2, files[m - 1]);
    }
}

/// Programs whose processes behave alike, with the same `on-title`, give the same result
/// on every text.
pub proof fn lemma_text_cong(p1: Program, p2: Program, text: Seq<char>)
    requires
        procs_equiv(p1.processes@, p2.processes@),
        p1.processes@.len() >= 1,
        p1.on_title == p2.on_title,
    ensures
        text_spec(p1, text) == text_spec(p2, text),
{
    let q1 = p1.processes@;
    let q2 = p2.processes@;
    assert(cols_equiv(q1[0].columns@, q2[0].columns@));
    assert(titles_of(q1[0].columns@) =~= titles_of(q2[0].columns@)) by {
        assert forall|j: int| 0 <= j < q1[0].columns@.len() implies titles_of(q1[0].columns@)[j] == titles_of(
            q2[0].columns@,
        )[j] by {
            assert(col_equiv(q1[0].columns@[j], q2[0].columns@[j]));
        }
    }
    let files = crate::csv::sections_of(
        crate::csv::lines_of(text),
        crate::csv::header_of(titles_of(q1[0].columns@)),
    );
    if files.len() >= 2 {
        lemma_section_cong(q1, q2, files[1]);
        lemma_section_cong(q1, q2, crate::pipeline::joined(files, files.len() as int));
        lemma_each_cong(q1, q2, files, files.len() as int);
    }
}

/// Two programs loaded from one document behave alike.
pub proof fn lemma_loaded_equiv(p1: Program, p2: Program, d: Doc)
    requires
        program_of_doc(p1, d),
        program_of_doc(p2, d),
    ensures
        procs_equiv(p1.processes@, p2.processes@),
        p1.on_title == p2.on_title,
{
    let ps = crate::config::doc_processes(d);
    assert forall|k: int| 0 <= k < p1.processes@.len() implies cols_equiv(
        (#[trigger] p1.processes@[k]).columns@,
        p2.processes@[k].columns@,
    ) && p1.processes@[k].aggregate_column == p2.processes@[k].aggregate_column by {
        let a = p1.processes@[k];
        let b = p2.processes@[k];
        let pd = ps[k];
        assert(process_of_doc(a, pd));
        assert(process_of_doc(b, pd));
        let items = doc_columns(pd);
        assert forall|i: int| 0 <= i < a.columns@.len() implies col_equiv(#[trigger] a.columns@[i], b.columns@[i]) by {
            assert(column_of_doc(a.columns@[i], items[i]));
            assert(column_of_doc(b.columns@[i], items[i]));
        }
        if let Some(x) = a.aggregate_column {
            let y = b.aggregate_column->Some_0;
            assert(process_doc_ok(pd));
            assert(column_of_doc(a.columns@[x as int], items[x as int]));
            assert(column_of_doc(b.columns@[y as int], items[y as int]));
            assert(doc_title(items[x as int]) == doc_title(items[y as int]));
            if x < y {
                assert(doc_title(items[x as int]) != doc_title(items[y as int]));
            } else if y < x {
                assert(doc_title(items[y as int]) != doc_title(items[x as int]));
            }
        }
    }
}

/// The result of `sanitise` depends on the configuration and the text alone: any two
/// programs loaded from one document give the same result on one text.
pub proof fn lemma_sanitise_deterministic(p1: Program, p2: Program, d: Doc, text: Seq<char>)
    requires
        program_of_doc(p1, d),
        program_of_doc(p2, d),
        crate::pipeline::program_wf(p1),
    ensures
        text_spec(p1, text) == text_spec(p2, text),
{
    lemma_loaded_equiv(p1, p2, d);
    lemma_text_cong(p1, p2, text);
}

} // verus!
