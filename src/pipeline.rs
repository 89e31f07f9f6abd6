use vstd::prelude::*;
use crate::value::{Val, Value, views};
use crate::process::{
    Process, ProcessError, RunResult, process_wf, outputs_of, run_process_spec, cells_view,
    cells_shape, outputs_view, column_cells_view,
};
use crate::csv::{
    LineError, line_error, cells_of, chars_views, lines_of, sections_of, header_of, titles_of,
    parse_rows, split_lines, split_sections, header_line, text_chars, lemma_sections_nonempty,
};

verus! {

/// How repeated header lines split the input.
#[derive(Debug, Clone, Copy, PartialEq, Eq, Structural)]
pub enum OnTitle {
    /// Exactly one header line.
    Once,
    /// Sections after each header are joined into one input.
    Combine,
    /// Each section is processed on its own.
    Split,
}

/// A loaded configuration: processes run in sequence, each fed the outputs of the one before.
#[derive(Debug)]
pub struct Program {
    pub processes: Vec<Process>,
    pub on_title: OnTitle,
}

/// Why a run failed.
#[derive(Debug)]
pub enum Failure {
    /// Process `process` stopped.
    Process { process: usize, error: ProcessError },
    /// The outputs of process `process` do not fit the columns of the next one.
    Misaligned { process: usize },
    /// A data line is malformed.
    /// `field` is the text of the field that does not parse (empty for a length error).
    Line { line: usize, issue: LineError, field: Vec<char> },
    /// The input holds no header line.
    NoHeader,
    /// A second header line under `once`.
    ExtraHeader { line: usize },
}

impl Failure {
    /// The 1-based line the failure is reported at.
    pub fn line(&self) -> (r: usize)
        ensures
            r == failure_line(*self),
    {
        match self {
            Failure::Process { error, .. } => error.line,
            Failure::Misaligned { .. } => 1,
            Failure::Line { line, .. } => *line,
            Failure::NoHeader => 1,
            Failure::ExtraHeader { line } => *line,
        }
    }
}

pub open spec fn failure_line(f: Failure) -> usize {
    match f {
        Failure::Process { error, .. } => error.line,
        Failure::Misaligned { .. } => 1,
        Failure::Line { line, .. } => line,
        Failure::NoHeader => 1,
        Failure::ExtraHeader { line } => line,
    }
}

/// The model of a failure.
pub enum Stop {
    /// Process, column and line of a process that stopped, and why the column failed.
    Process(int, int, int, crate::column::ColErrV),
    /// Process and line where aggregation met outputs of unequal length.
    Unequal(int, int),
    Misaligned(int),
    /// The line, what is wrong with it, and the text of the field that does not parse.
    Line(int, LineError, Seq<char>),
    NoHeader,
    ExtraHeader(int),
}

pub open spec fn stop_of(f: Failure) -> Stop {
    match f {
        Failure::Process { process, error } => if error.error is UnequalLength {
            Stop::Unequal(process as int, error.line as int)
        } else {
            Stop::Process(
                process as int,
                error.column as int,
                error.line as int,
                crate::column::col_err_view(error.error),
            )
        },
        Failure::Misaligned { process } => Stop::Misaligned(process as int),
        Failure::Line { line, issue, field } => Stop::Line(line as int, issue, field@),
        Failure::NoHeader => Stop::NoHeader,
        Failure::ExtraHeader { line } => Stop::ExtraHeader(line as int),
    }
}

pub open spec fn rows_of(o: Seq<Seq<Val>>) -> nat {
    if o.len() > 0 {
        o[0].len()
    } else {
        0
    }
}

/// Whether outputs `o` can be the input of process `next`: one column each, all of one length.
pub open spec fn feeds(o: Seq<Seq<Val>>, next: Process) -> bool {
    &&& o.len() == next.columns@.len()
    &&& forall|c: int| 0 <= c < o.len() ==> (#[trigger] o[c]).len() == rows_of(o)
}

/// Outputs turned into always-present inputs.
pub open spec fn lift(o: Seq<Seq<Val>>) -> Seq<Seq<Option<Val>>> {
    o.map_values(|col: Seq<Val>| col.map_values(|v: Val| Some(v)))
}

/// The processes from `k` on, process `k` fed `n` rows of `cells`; `acc` holds the
/// outputs of the processes before. Only the first process reads raw input (with null
/// surrogates); only the last one is compressed by its key column.
pub open spec fn chain_from(
    procs: Seq<Process>,
    k: int,
    cells: Seq<Seq<Option<Val>>>,
    n: nat,
    acc: Seq<Seq<Seq<Val>>>,
) -> Result<Seq<Seq<Seq<Val>>>, Stop>
    decreases procs.len() - k,
{
    if k >= procs.len() || k < 0 {
        Ok(acc)
    } else {
        match run_process_spec(procs[k].columns@, k == 0, cells, n) {
            RunResult::Stopped(c, line, e) => Err(Stop::Process(k, c, line, e)),
            RunResult::Done(st) => match outputs_of(procs[k], st, k + 1 == procs.len()) {
                None => Err(Stop::Unequal(k, n as int)),
                Some(o) => if k + 1 < procs.len() && !feeds(o, procs[k + 1]) {
                    Err(Stop::Misaligned(k))
                } else {
                    chain_from(procs, k + 1, lift(o), rows_of(o), acc.push(o))
                },
            },
        }
    }
}

pub open spec fn program_wf(p: Program) -> bool {
    &&& p.processes@.len() >= 1
    &&& forall|k: int| 0 <= k < p.processes@.len() ==> process_wf(#[trigger] p.processes@[k])
}

pub open spec fn nested_view(r: Seq<Vec<Vec<Value>>>) -> Seq<Seq<Seq<Val>>> {
    r.map_values(|o: Vec<Vec<Value>>| outputs_view(o@))
}

/// Turns outputs into always-present inputs.
fn lift_outputs(o: &Vec<Vec<Value>>) -> (r: Vec<Vec<Option<Value>>>)
    ensures
        cells_view(r@) == lift(outputs_view(o@)),
        r@.len() == o@.len(),
        forall|c: int| 0 <= c < o@.len() ==> (#[trigger] r@[c])@.len() == o@[c]@.len(),
{
    let ghost ov = outputs_view(o@);
    let mut r: Vec<Vec<Option<Value>>> = Vec::new();
    let mut c: usize = 0;
    while c < o.len()
        invariant
            c <= o.len(),
            ov == outputs_view(o@),
            r@.len() == c,
            forall|x: int| 0 <= x < c ==> (#[trigger] r@[x])@.len() == o@[x]@.len(),
            forall|x: int| 0 <= x < c ==> column_cells_view(#[trigger] r@[x]) == lift(ov)[x],
        decreases o.len() - c,
    {
        let col = &o[c];
        let mut lifted: Vec<Option<Value>> = Vec::new();
        let mut i: usize = 0;
        assert(ov[c as int] == views(col@));
        while i < col.len()
            invariant
                i <= col.len(),
                lifted@.len() == i,
                forall|y: int| 0 <= y < i ==> crate::column::opt_view(#[trigger] lifted@[y]) == Some(col@[y]@),
            decreases col.len() - i,
        {
            lifted.push(Some(col[i].duplicate()));
            i = i + 1;
        }
        assert(column_cells_view(lifted) =~= lift(ov)[c as int]);
        r.push(lifted);
        c = c + 1;
    }
    assert(cells_view(r@) =~= lift(ov));
    r
}

impl Program {
    /// Runs the processes in sequence on `nrows` rows of input cells, column by column.
    pub fn run_chain(&self, cells: &Vec<Vec<Option<Value>>>, nrows: usize) -> (r: Result<Vec<Vec<Vec<Value>>>, Failure>)
        requires
            program_wf(*self),
            cells_shape(cells@, self.processes@[0].columns@.len(), nrows as nat),
        ensures
            match chain_from(self.processes@, 0, cells_view(cells@), nrows as nat, Seq::empty()) {
                Ok(o) => r matches Ok(x) && nested_view(x@) == o,
                Err(s) => r matches Err(f) && stop_of(f) == s,
            },
    {
        let procs = &self.processes;
        let mut acc: Vec<Vec<Vec<Value>>> = Vec::new();
        let mut input: Vec<Vec<Option<Value>>> = Vec::new();
        let mut n: usize = nrows;
        let mut first = true;
        let mut k: usize = 0;
        assert(nested_view(acc@) =~= Seq::<Seq<Seq<Val>>>::empty());
        while k < procs.len()
            invariant
                procs@ == self.processes@,
                program_wf(*self),
                k <= procs.len(),
                first == (k == 0),
                first ==> n == nrows,
                k < procs.len() ==> cells_shape(
                    (if first { cells@ } else { input@ }),
                    procs@[k as int].columns@.len(),
                    n as nat,
                ),
                chain_from(procs@, 0, cells_view(cells@), nrows as nat, Seq::empty()) == chain_from(
                    procs@,
                    k as int,
                    cells_view(if first { cells@ } else { input@ }),
                    n as nat,
                    nested_view(acc@),
                ),
            decreases procs.len() - k,
        {
            let p = &procs[k];
            assert(process_wf(procs@[k as int]));
            let ghost cur = cells_view(if first { cells@ } else { input@ });
            let ghost rr = run_process_spec(procs@[k as int].columns@, k == 0, cur, n as nat);
            let ghost n_before = n as nat;
            let res = if first {
                p.run(cells, n, true, k + 1 == procs.len())
            } else {
                p.run(&input, n, false, k + 1 == procs.len())
            };
            let o = match res {
                Ok(o) => o,
                Err(e) => {
                    return Err(Failure::Process { process: k, error: e });
                },
            };
            let ghost ov = outputs_view(o@);
            assert(rr is Done);
            assert(outputs_of(procs@[k as int], rr->Done_0, k + 1 == procs.len()) == Some(ov));
            let ghost next_cells = if k + 1 < procs.len() { lift(ov) } else { cur };
            if k + 1 < procs.len() {
                let next = &procs[k + 1];
                let rows: usize = if o.len() > 0 { o[0].len() } else { 0 };
                assert(rows == rows_of(ov)) by {
                    if o.len() > 0 {
                        assert(ov[0] == views(o@[0]@));
                    }
                }
                let mut ok = o.len() == next.columns.len();
                let mut c: usize = 0;
                while c < o.len()
                    invariant
                        c <= o.len(),
                        ov == outputs_view(o@),
                        ok == (o.len() == next.columns@.len() && forall|x: int| 0 <= x < c ==> (#[trigger] ov[x]).len() == rows),
                    decreases o.len() - c,
                {
                    assert(ov[c as int] == views(o@[c as int]@));
                    if o[c].len() != rows {
                        ok = false;
                    }
                    c = c + 1;
                }
                if !ok {
                    return Err(Failure::Misaligned { process: k });
                }
                input = lift_outputs(&o);
                n = rows;
                proof {
                    assert forall|x: int| 0 <= x < input@.len() implies (#[trigger] input@[x])@.len() == n by {
                        assert(ov[x] == views(o@[x]@));
                    }
                }
            }
            let ghost prev = acc@;
            acc.push(o);
            assert(nested_view(acc@) =~= nested_view(prev).push(ov));
            assert(chain_from(procs@, k as int, cur, n_before, nested_view(prev)) == chain_from(
                procs@, k + 1, lift(ov), rows_of(ov), nested_view(acc@)));
            first = false;
            k = k + 1;
        }
        Ok(acc)
    }
}


/// The first malformed line from row `i` on, as a 1-based line number and its error.
pub open spec fn first_bad_line(cols: Seq<crate::column::Column>, rows: Seq<Seq<char>>, i: int) -> Option<(int, LineError)>
    decreases rows.len() - i,
{
    if i >= rows.len() || i < 0 {
        None
    } else {
        match line_error(cols, rows[i]) {
            Some(e) => Some((i + 1, e)),
            None => first_bad_line(cols, rows, i + 1),
        }
    }
}

pub proof fn lemma_first_bad_none(cols: Seq<crate::column::Column>, rows: Seq<Seq<char>>, i: int)
    requires
        0 <= i <= rows.len(),
        forall|x: int| i <= x < rows.len() ==> line_error(cols, #[trigger] rows[x]) is None,
    ensures
        first_bad_line(cols, rows, i) is None,
    decreases rows.len() - i,
{
    if i < rows.len() {
        lemma_first_bad_none(cols, rows, i + 1);
    }
}

proof fn lemma_first_bad_some(cols: Seq<crate::column::Column>, rows: Seq<Seq<char>>, i: int, m: int, e: LineError)
    requires
        0 <= i <= m < rows.len(),
        forall|x: int| i <= x < m ==> line_error(cols, #[trigger] rows[x]) is None,
        line_error(cols, rows[m]) == Some(e),
    ensures
        first_bad_line(cols, rows, i) == Some((m + 1, e)),
    decreases m - i,
{
    if i < m {
        lemma_first_bad_some(cols, rows, i + 1, m, e);
    }
}

/// The text of the field a line error names (empty for a length error).
pub open spec fn field_text(rows: Seq<Seq<char>>, line: int, e: LineError) -> Seq<char> {
    match e {
        LineError::Field(c) => {
            let fields = crate::csv::split_on(rows[line - 1], ',');
            if c < fields.len() {
                fields[c as int]
            } else {
                Seq::empty()
            }
        },
        LineError::Length(_) => Seq::empty(),
    }
}

/// One section of data lines through the whole chain.
pub open spec fn section_spec(procs: Seq<Process>, rows: Seq<Seq<char>>) -> Result<Seq<Seq<Seq<Val>>>, Stop> {
    let cols = procs[0].columns@;
    match first_bad_line(cols, rows, 0) {
        Some((line, e)) => Err(Stop::Line(line, e, field_text(rows, line, e))),
        None => chain_from(procs, 0, cells_of(cols, rows), rows.len(), Seq::empty()),
    }
}

/// The sections from index 1 on, joined.
pub open spec fn joined(files: Seq<Seq<Seq<char>>>, m: int) -> Seq<Seq<char>>
    decreases m,
{
    if m <= 1 {
        Seq::empty()
    } else {
        joined(files, m - 1) + files[m - 1]
    }
}

/// Each section from index 1 up to `m` on its own; the first failure wins.
pub open spec fn each_section(procs: Seq<Process>, files: Seq<Seq<Seq<char>>>, m: int) -> Result<
    Seq<Seq<Seq<Seq<Val>>>>,
    Stop,
>
    decreases m,
{
    if m <= 1 {
        Ok(Seq::empty())
    } else {
        match each_section(procs, files, m - 1) {
            Ok(acc) => match section_spec(procs, files[m - 1]) {
                Ok(o) => Ok(acc.push(o)),
                Err(e) => Err(e),
            },
            Err(e) => Err(e),
        }
    }
}

/// A single section's result as the result of a whole text.
pub open spec fn one(r: Result<Seq<Seq<Seq<Val>>>, Stop>) -> Result<Seq<Seq<Seq<Seq<Val>>>>, Stop> {
    match r {
        Ok(o) => Ok(seq![o]),
        Err(e) => Err(e),
    }
}

/// The result of a whole CSV text: one entry per section processed.
pub open spec fn text_spec(p: Program, text: Seq<char>) -> Result<Seq<Seq<Seq<Seq<Val>>>>, Stop> {
    let procs = p.processes@;
    let files = sections_of(lines_of(text), header_of(titles_of(procs[0].columns@)));
    if files.len() < 2 {
        Err(Stop::NoHeader)
    } else {
        match p.on_title {
            OnTitle::Once => if files.len() > 2 {
                Err(Stop::ExtraHeader(files[1].len() + 1int))
            } else {
                one(section_spec(procs, files[1]))
            },
            OnTitle::Combine => one(section_spec(procs, joined(files, files.len() as int))),
            OnTitle::Split => each_section(procs, files, files.len() as int),
        }
    }
}

pub open spec fn all_view(r: Seq<Vec<Vec<Vec<Value>>>>) -> Seq<Seq<Seq<Seq<Val>>>> {
    r.map_values(|x: Vec<Vec<Vec<Value>>>| nested_view(x@))
}

impl Program {
    /// Runs one section of data lines through the whole chain.
    pub fn run_section(&self, rows: &Vec<Vec<char>>) -> (r: Result<Vec<Vec<Vec<Value>>>, Failure>)
        requires
            program_wf(*self),
        ensures
            match section_spec(self.processes@, chars_views(rows@)) {
                Ok(o) => r matches Ok(x) && nested_view(x@) == o,
                Err(s) => r matches Err(f) && stop_of(f) == s,
            },
    {
        let cols = &self.processes[0].columns;
        let ghost rv = chars_views(rows@);
        match parse_rows(cols, rows) {
            Ok(cells) => {
                proof {
                    assert forall|x: int| 0 <= x < rv.len() implies line_error(cols@, #[trigger] rv[x]) is None by {
                        assert(rv[x] == rows@[x]@);
                    }
                    lemma_first_bad_none(cols@, rv, 0);
                }
                self.run_chain(&cells, rows.len())
            },
            Err((line, e)) => {
                proof {
                    assert forall|x: int| 0 <= x < line - 1 implies line_error(cols@, #[trigger] rv[x]) is None by {
                        assert(rv[x] == rows@[x]@);
                    }
                    assert(rv[line - 1] == rows@[line - 1]@);
                    lemma_first_bad_some(cols@, rv, 0, line - 1, e);
                }
                let field = match e {
                    LineError::Field(c) => {
                        let fields = crate::csv::split_chars(&rows[line - 1], ',');
                        if c < fields.len() {
                            crate::value::copy_chars(&fields[c])
                        } else {
                            Vec::new()
                        }
                    },
                    LineError::Length(_) => Vec::new(),
                };
                Err(Failure::Line { line, issue: e, field })
            },
        }
    }

    /// Runs a whole CSV text: its header is the first process's titles joined by commas.
    pub fn run_text(&self, text: &str) -> (r: Result<Vec<Vec<Vec<Vec<Value>>>>, Failure>)
        requires
            program_wf(*self),
        ensures
            match text_spec(*self, text@) {
                Ok(o) => r matches Ok(x) && all_view(x@) == o,
                Err(s) => r matches Err(f) && stop_of(f) == s,
            },
    {
        let chars = text_chars(text);
        let lines = split_lines(&chars);
        let header = header_line(&self.processes[0].columns);
        let files = split_sections(&lines, &header);
        let ghost fv = files@.map_values(|x: Vec<Vec<char>>| chars_views(x@));
        proof {
            lemma_sections_nonempty(chars_views(lines@), header@);
            crate::csv::lemma_sections_bound(chars_views(lines@), header@);
        }
        if files.len() < 2 {
            return Err(Failure::NoHeader);
        }
        assert(fv[1] == chars_views(files@[1]@));
        let nlines = lines.len();
        assert(fv[1].len() + 1 <= nlines);
        match self.on_title {
            OnTitle::Once => {
                if files.len() > 2 {
                    assert(files@[1]@.len() == fv[1].len());
                    return Err(Failure::ExtraHeader { line: files[1].len() + 1 });
                }
                match self.run_section(&files[1]) {
                    Ok(o) => {
                        let mut all: Vec<Vec<Vec<Vec<Value>>>> = Vec::new();
                        all.push(o);
                        assert(all_view(all@) =~= seq![nested_view(all@[0]@)]);
                        Ok(all)
                    },
                    Err(f) => Err(f),
                }
            },
            OnTitle::Combine => {
                let mut rows: Vec<Vec<char>> = Vec::new();
                let mut m: usize = 1;
                assert(chars_views(rows@) =~= joined(fv, 1));
                while m < files.len()
                    invariant
                        1 <= m <= files.len(),
                        fv == files@.map_values(|x: Vec<Vec<char>>| chars_views(x@)),
                        chars_views(rows@) == joined(fv, m as int),
                    decreases files.len() - m,
                {
                    let sec = &files[m];
                    assert(fv[m as int] == chars_views(sec@));
                    let mut t: usize = 0;
                    let ghost base = chars_views(rows@);
                    while t < sec.len()
                        invariant
                            t <= sec.len(),
                            chars_views(rows@) == base + chars_views(sec@).subrange(0, t as int),
                        decreases sec.len() - t,
                    {
                        let ghost prev = rows@;
                        rows.push(crate::value::copy_chars(&sec[t]));
                        assert(chars_views(rows@) =~= chars_views(prev).push(sec@[t as int]@));
                        assert(chars_views(rows@) =~= base + chars_views(sec@).subrange(0, t + 1));
                        t = t + 1;
                    }
                    assert(chars_views(sec@).subrange(0, sec.len() as int) =~= chars_views(sec@));
                    m = m + 1;
                }
                match self.run_section(&rows) {
                    Ok(o) => {
                        let mut all: Vec<Vec<Vec<Vec<Value>>>> = Vec::new();
                        all.push(o);
                        assert(all_view(all@) =~= seq![nested_view(all@[0]@)]);
                        Ok(all)
                    },
                    Err(f) => Err(f),
                }
            },
            OnTitle::Split => {
                let mut all: Vec<Vec<Vec<Vec<Value>>>> = Vec::new();
                let mut m: usize = 1;
                assert(all_view(all@) =~= Seq::<Seq<Seq<Seq<Val>>>>::empty());
                while m < files.len()
                    invariant
                        1 <= m <= files.len(),
                        program_wf(*self),
                        self.on_title == OnTitle::Split,
                        fv == files@.map_values(|x: Vec<Vec<char>>| chars_views(x@)),
                        fv == sections_of(lines_of(text@), header_of(titles_of(self.processes@[0].columns@))),
                        each_section(self.processes@, fv, m as int) == Ok::<Seq<Seq<Seq<Seq<Val>>>>, Stop>(all_view(all@)),
                    decreases files.len() - m,
                {
                    assert(fv[m as int] == chars_views(files@[m as int]@));
                    match self.run_section(&files[m]) {
                        Ok(o) => {
                            let ghost prev = all@;
                            all.push(o);
                            assert(all_view(all@) =~= all_view(prev).push(nested_view(o@)));
                        },
                        Err(f) => {
                            assert(section_spec(self.processes@, fv[m as int]) == Err::<Seq<Seq<Seq<Val>>>, Stop>(stop_of(f)));
                            assert(each_section(self.processes@, fv, m + 1) == Err::<Seq<Seq<Seq<Seq<Val>>>>, Stop>(stop_of(f)));
                            proof {
                                lemma_each_stopped(self.processes@, fv, m + 1, files.len() as int);
                            }
                            return Err(f);
                        },
                    }
                    m = m + 1;
                }
                Ok(all)
            },
        }
    }
}

proof fn lemma_each_stopped(procs: Seq<Process>, files: Seq<Seq<Seq<char>>>, a: int, b: int)
    requires
        1 <= a <= b,
        each_section(procs, files, a) is Err,
    ensures
        each_section(procs, files, b) == each_section(procs, files, a),
    decreases b - a,
{
    if a < b {
        lemma_each_stopped(procs, files, a, b - 1);
    }
}

} // verus!
