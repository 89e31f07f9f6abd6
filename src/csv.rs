use vstd::prelude::*;
use crate::value::{Val, Value, ColumnType, chars_equal, copy_chars};
use crate::text::{parse_cell_spec, parse_cell};
use crate::column::{Column, opt_view};
use crate::process::{cells_view, cells_shape};

verus! {

/// `s` cut at every `sep`, as `str::split` does (so an empty `s` gives one empty piece).
pub open spec fn split_on(s: Seq<char>, sep: char) -> Seq<Seq<char>>
    decreases s.len(),
{
    if s.len() == 0 {
        seq![Seq::empty()]
    } else {
        let r = split_on(s.drop_last(), sep);
        if s.last() == sep {
            r.push(Seq::empty())
        } else {
            r.update(r.len() - 1, r.last().push(s.last()))
        }
    }
}

pub proof fn lemma_split_nonempty(s: Seq<char>, sep: char)
    ensures
        split_on(s, sep).len() >= 1,
    decreases s.len(),
{
    if s.len() > 0 {
        lemma_split_nonempty(s.drop_last(), sep);
    }
}

pub open spec fn strip_cr(l: Seq<char>) -> Seq<char> {
    if l.len() > 0 && l.last() == '\r' {
        l.drop_last()
    } else {
        l
    }
}

/// The lines of a text: cut at `\n`, a trailing `\r` stripped, a final empty line dropped.
pub open spec fn lines_of(text: Seq<char>) -> Seq<Seq<char>> {
    let ls = split_on(text, '\n').map_values(|l: Seq<char>| strip_cr(l));
    if ls.len() > 0 && ls.last().len() == 0 {
        ls.drop_last()
    } else {
        ls
    }
}

/// `lines` cut at every line equal to `header`.
pub open spec fn sections_of(lines: Seq<Seq<char>>, header: Seq<char>) -> Seq<Seq<Seq<char>>>
    decreases lines.len(),
{
    if lines.len() == 0 {
        seq![Seq::empty()]
    } else {
        let r = sections_of(lines.drop_last(), header);
        if lines.last() == header {
            r.push(Seq::empty())
        } else {
            r.update(r.len() - 1, r.last().push(lines.last()))
        }
    }
}

pub proof fn lemma_sections_nonempty(lines: Seq<Seq<char>>, header: Seq<char>)
    ensures
        sections_of(lines, header).len() >= 1,
    decreases lines.len(),
{
    if lines.len() > 0 {
        lemma_sections_nonempty(lines.drop_last(), header);
    }
}

pub proof fn lemma_sections_bound(lines: Seq<Seq<char>>, header: Seq<char>)
    ensures
        forall|k: int|
            0 <= k < sections_of(lines, header).len() ==> (#[trigger] sections_of(lines, header)[k]).len()
                + sections_of(lines, header).len() - 1 <= lines.len(),
    decreases lines.len(),
{
    lemma_sections_nonempty(lines, header);
    if lines.len() > 0 {
        let r = sections_of(lines.drop_last(), header);
        lemma_sections_bound(lines.drop_last(), header);
        lemma_sections_nonempty(lines.drop_last(), header);
        assert(r[0].len() + r.len() - 1 <= lines.len() - 1);
    }
}

/// The comma-joined titles.
pub open spec fn header_of(titles: Seq<Seq<char>>) -> Seq<char>
    decreases titles.len(),
{
    if titles.len() == 0 {
        Seq::empty()
    } else if titles.len() == 1 {
        titles[0]
    } else {
        header_of(titles.drop_last()) + seq![','] + titles.last()
    }
}

pub open spec fn titles_of(cols: Seq<Column>) -> Seq<Seq<char>> {
    Seq::new(cols.len(), |j: int| cols[j].title@)
}

/// A field read as a cell of type `t`: empty is null; `None` if it does not parse.
pub open spec fn field_cell(t: ColumnType, f: Seq<char>) -> Option<Option<Val>> {
    if f.len() == 0 {
        Some(None)
    } else {
        match parse_cell_spec(t, f) {
            Some(v) => Some(Some(v)),
            None => None,
        }
    }
}

/// What is wrong with a data line.
#[derive(Debug, Clone, Copy, PartialEq, Eq, Structural)]
pub enum LineError {
    /// The line has this many fields, not one per column.
    Length(usize),
    /// The field of this column does not parse as the column's type.
    Field(usize),
}

pub open spec fn first_bad_field(cols: Seq<Column>, fields: Seq<Seq<char>>, c: int) -> Option<int>
    decreases cols.len() - c,
{
    if c >= cols.len() || c < 0 {
        None
    } else if field_cell(cols[c].input_type, fields[c]) is None {
        Some(c)
    } else {
        first_bad_field(cols, fields, c + 1)
    }
}

/// The error of a data line, if it has one.
pub open spec fn line_error(cols: Seq<Column>, line: Seq<char>) -> Option<LineError> {
    let fields = split_on(line, ',');
    if fields.len() != cols.len() {
        Some(LineError::Length(fields.len() as usize))
    } else {
        match first_bad_field(cols, fields, 0) {
            Some(c) => Some(LineError::Field(c as usize)),
            None => None,
        }
    }
}

/// The cells of good data lines, column by column.
pub open spec fn cells_of(cols: Seq<Column>, rows: Seq<Seq<char>>) -> Seq<Seq<Option<Val>>> {
    Seq::new(
        cols.len(),
        |c: int| Seq::new(rows.len(), |i: int| field_cell(cols[c].input_type, split_on(rows[i], ',')[c])->0),
    )
}

/// Splits `s` at every `sep`.
pub fn split_chars(s: &Vec<char>, sep: char) -> (r: Vec<Vec<char>>)
    ensures
        r@.map_values(|x: Vec<char>| x@) == split_on(s@, sep),
{
    let mut r: Vec<Vec<char>> = Vec::new();
    let mut cur: Vec<char> = Vec::new();
    let mut i: usize = 0;
    assert(s@.subrange(0, 0) =~= Seq::<char>::empty());
    assert(split_on(Seq::<char>::empty(), sep) =~= r@.map_values(|x: Vec<char>| x@).push(cur@));
    while i < s.len()
        invariant
            i <= s.len(),
            split_on(s@.subrange(0, i as int), sep) == r@.map_values(|x: Vec<char>| x@).push(cur@),
        decreases s.len() - i,
    {
        let ghost pre = s@.subrange(0, i as int);
        let ghost nxt = s@.subrange(0, i + 1);
        assert(nxt.drop_last() =~= pre);
        assert(nxt.last() == s@[i as int]);
        let ghost rv = r@.map_values(|x: Vec<char>| x@);
        if s[i] == sep {
            let mut fresh: Vec<char> = Vec::new();
            std::mem::swap(&mut cur, &mut fresh);
            r.push(fresh);
            assert(r@.map_values(|x: Vec<char>| x@) =~= rv.push(fresh@));
            assert(cur@ =~= Seq::<char>::empty());
        } else {
            let ghost old_cur = cur@;
            cur.push(s[i]);
            assert(rv.push(old_cur).update(rv.len() as int, old_cur.push(s@[i as int])) =~= rv.push(cur@));
        }
        i = i + 1;
    }
    assert(s@.subrange(0, s.len() as int) =~= s@);
    let ghost rv = r@.map_values(|x: Vec<char>| x@);
    r.push(cur);
    assert(r@.map_values(|x: Vec<char>| x@) =~= rv.push(cur@));
    r
}


pub open spec fn chars_views(v: Seq<Vec<char>>) -> Seq<Seq<char>> {
    v.map_values(|x: Vec<char>| x@)
}

/// The characters of a string.
pub fn text_chars(s: &str) -> (r: Vec<char>)
    ensures
        r@ == s@,
{
    let mut r: Vec<char> = Vec::new();
    for c in it: s.chars()
        invariant
            it.seq() == s@,
            r@ == it.seq().subrange(0, it.index() as int),
    {
        r.push(c);
        assert(r@ =~= it.seq().subrange(0, it.index() + 1));
    }
    assert(r@ =~= s@);
    r
}

/// The lines of a text.
pub fn split_lines(text: &Vec<char>) -> (r: Vec<Vec<char>>)
    ensures
        chars_views(r@) == lines_of(text@),
{
    let pieces = split_chars(text, '\n');
    let ghost pv = chars_views(pieces@);
    let mut r: Vec<Vec<char>> = Vec::new();
    let mut i: usize = 0;
    while i < pieces.len()
        invariant
            i <= pieces.len(),
            pv == chars_views(pieces@),
            pv == split_on(text@, '\n'),
            chars_views(r@) == pv.map_values(|l: Seq<char>| strip_cr(l)).subrange(0, i as int),
        decreases pieces.len() - i,
    {
        let p = &pieces[i];
        let n = p.len();
        let mut l = copy_chars(p);
        if n > 0 && p[n - 1] == '\r' {
            let _ = l.pop();
        }
        assert(pv[i as int] == p@);
        assert(l@ =~= strip_cr(p@));
        let ghost prev = r@;
        r.push(l);
        assert(chars_views(r@) =~= chars_views(prev).push(l@));
        assert(chars_views(r@) =~= pv.map_values(|l: Seq<char>| strip_cr(l)).subrange(0, i + 1));
        i = i + 1;
    }
    let ghost all = pv.map_values(|l: Seq<char>| strip_cr(l));
    assert(all.subrange(0, pieces.len() as int) =~= all);
    let k = r.len();
    if k > 0 && r[k - 1].len() == 0 {
        let ghost prev = r@;
        let _ = r.pop();
        assert(chars_views(r@) =~= chars_views(prev).drop_last());
    }
    r
}

/// The lines cut into sections at every header line.
pub fn split_sections(lines: &Vec<Vec<char>>, header: &Vec<char>) -> (r: Vec<Vec<Vec<char>>>)
    ensures
        r@.map_values(|x: Vec<Vec<char>>| chars_views(x@)) == sections_of(chars_views(lines@), header@),
{
    let ghost lv = chars_views(lines@);
    let mut r: Vec<Vec<Vec<char>>> = Vec::new();
    let mut cur: Vec<Vec<char>> = Vec::new();
    let mut i: usize = 0;
    assert(lv.subrange(0, 0) =~= Seq::<Seq<char>>::empty());
    assert(chars_views(cur@) =~= Seq::<Seq<char>>::empty());
    assert(r@.map_values(|x: Vec<Vec<char>>| chars_views(x@)) =~= Seq::<Seq<Seq<char>>>::empty());
    assert(sections_of(Seq::<Seq<char>>::empty(), header@) =~= r@.map_values(
        |x: Vec<Vec<char>>| chars_views(x@),
    ).push(chars_views(cur@)));
    while i < lines.len()
        invariant
            i <= lines.len(),
            lv == chars_views(lines@),
            sections_of(lv.subrange(0, i as int), header@) == r@.map_values(
                |x: Vec<Vec<char>>| chars_views(x@),
            ).push(chars_views(cur@)),
        decreases lines.len() - i,
    {
        let ghost pre = lv.subrange(0, i as int);
        let ghost nxt = lv.subrange(0, i + 1);
        assert(nxt.drop_last() =~= pre);
        assert(nxt.last() == lines@[i as int]@);
        let ghost rv = r@.map_values(|x: Vec<Vec<char>>| chars_views(x@));
        if chars_equal(&lines[i], header) {
            let mut fresh: Vec<Vec<char>> = Vec::new();
            std::mem::swap(&mut cur, &mut fresh);
            r.push(fresh);
            assert(r@.map_values(|x: Vec<Vec<char>>| chars_views(x@)) =~= rv.push(chars_views(fresh@)));
            assert(chars_views(cur@) =~= Seq::<Seq<char>>::empty());
        } else {
            let ghost old_cur = chars_views(cur@);
            cur.push(copy_chars(&lines[i]));
            assert(chars_views(cur@) =~= old_cur.push(lines@[i as int]@));
            assert(rv.push(old_cur).update(rv.len() as int, old_cur.push(lines@[i as int]@)) =~= rv.push(
                chars_views(cur@),
            ));
        }
        i = i + 1;
    }
    assert(lv.subrange(0, lines.len() as int) =~= lv);
    let ghost rv = r@.map_values(|x: Vec<Vec<char>>| chars_views(x@));
    r.push(cur);
    assert(r@.map_values(|x: Vec<Vec<char>>| chars_views(x@)) =~= rv.push(chars_views(cur@)));
    r
}

/// The header line: the titles joined by commas.
pub fn header_line(cols: &Vec<Column>) -> (r: Vec<char>)
    ensures
        r@ == header_of(titles_of(cols@)),
{
    let ghost t = titles_of(cols@);
    let mut r: Vec<char> = Vec::new();
    let mut j: usize = 0;
    assert(t.subrange(0, 0) =~= Seq::<Seq<char>>::empty());
    while j < cols.len()
        invariant
            j <= cols.len(),
            t == titles_of(cols@),
            r@ == header_of(t.subrange(0, j as int)),
        decreases cols.len() - j,
    {
        let ghost nxt = t.subrange(0, j + 1);
        assert(nxt.drop_last() =~= t.subrange(0, j as int));
        assert(nxt.last() == cols@[j as int].title@);
        if j > 0 {
            r.push(',');
        }
        let mut title = copy_chars(&cols[j].title);
        r.append(&mut title);
        if j == 0 {
            assert(r@ =~= header_of(nxt));
        } else {
            assert(r@ =~= header_of(nxt));
        }
        j = j + 1;
    }
    assert(t.subrange(0, cols.len() as int) =~= t);
    r
}


pub open spec fn cells_upto(cols: Seq<Column>, rows: Seq<Seq<char>>, n: int) -> Seq<Seq<Option<Val>>> {
    Seq::new(
        cols.len(),
        |c: int| Seq::new(n as nat, |i: int| field_cell(cols[c].input_type, split_on(rows[i], ',')[c])->0),
    )
}

/// Reads the fields of one line, or says what is wrong with it.
fn parse_line(cols: &Vec<Column>, line: &Vec<char>) -> (r: Result<Vec<Option<Value>>, LineError>)
    ensures
        match r {
            Ok(cells) => line_error(cols@, line@) is None && cells@.len() == cols@.len() && forall|c: int|
                0 <= c < cols@.len() ==> Some(opt_view(#[trigger] cells@[c])) == field_cell(
                    cols@[c].input_type,
                    split_on(line@, ',')[c],
                ),
            Err(e) => line_error(cols@, line@) == Some(e),
        },
{
    let fields = split_chars(line, ',');
    let ghost fv = chars_views(fields@);
    if fields.len() != cols.len() {
        return Err(LineError::Length(fields.len()));
    }
    let mut out: Vec<Option<Value>> = Vec::new();
    let mut c: usize = 0;
    while c < cols.len()
        invariant
            c <= cols.len(),
            fields.len() == cols.len(),
            fv == chars_views(fields@),
            fv == split_on(line@, ','),
            first_bad_field(cols@, fv, 0) == first_bad_field(cols@, fv, c as int),
            out@.len() == c,
            forall|x: int| 0 <= x < c ==> Some(opt_view(#[trigger] out@[x])) == field_cell(cols@[x].input_type, fv[x]),
        decreases cols.len() - c,
    {
        let f = &fields[c];
        assert(fv[c as int] == f@);
        let cell = if f.len() == 0 {
            None
        } else {
            match parse_cell(cols[c].input_type, f) {
                Some(v) => Some(v),
                None => {
                    return Err(LineError::Field(c));
                },
            }
        };
        out.push(cell);
        c = c + 1;
    }
    Ok(out)
}

/// Reads data lines into cells, column by column; on the first bad line, its 1-based
/// number and what is wrong.
pub fn parse_rows(cols: &Vec<Column>, rows: &Vec<Vec<char>>) -> (r: Result<Vec<Vec<Option<Value>>>, (usize, LineError)>)
    ensures
        match r {
            Ok(cells) => cells_shape(cells@, cols@.len(), rows@.len()) && cells_view(cells@) == cells_of(
                cols@,
                chars_views(rows@),
            ) && forall|i: int| 0 <= i < rows@.len() ==> line_error(cols@, #[trigger] rows@[i]@) is None,
            Err((line, e)) => 1 <= line <= rows@.len() && line_error(cols@, rows@[line - 1]@) == Some(e)
                && forall|i: int| 0 <= i < line - 1 ==> line_error(cols@, #[trigger] rows@[i]@) is None,
        },
{
    let ghost rv = chars_views(rows@);
    let n = cols.len();
    let mut cells: Vec<Vec<Option<Value>>> = Vec::new();
    let mut c: usize = 0;
    while c < n
        invariant
            n == cols.len(),
            c <= n,
            cells@.len() == c,
            forall|x: int| 0 <= x < c ==> (#[trigger] cells@[x])@.len() == 0,
        decreases n - c,
    {
        cells.push(Vec::new());
        c = c + 1;
    }
    assert(cells_view(cells@) =~= cells_upto(cols@, rv, 0)) by {
        assert forall|x: int| 0 <= x < n implies cells_view(cells@)[x] =~= cells_upto(cols@, rv, 0)[x] by {
            assert(cells_view(cells@)[x] == crate::process::column_cells_view(cells@[x]));
        }
    }
    let mut i: usize = 0;
    while i < rows.len()
        invariant
            n == cols.len(),
            i <= rows.len(),
            rv == chars_views(rows@),
            cells_shape(cells@, n as nat, i as nat),
            cells_view(cells@) == cells_upto(cols@, rv, i as int),
            forall|x: int| 0 <= x < i ==> line_error(cols@, #[trigger] rows@[x]@) is None,
        decreases rows.len() - i,
    {
        assert(rv[i as int] == rows@[i as int]@);
        let line = match parse_line(cols, &rows[i]) {
            Ok(l) => l,
            Err(e) => {
                return Err((i + 1, e));
            },
        };
        let ghost before = cells@;
        let ghost line0 = line@;
        let mut line = line;
        let mut c: usize = n;
        while c > 0
            invariant
                n == cols.len(),
                c <= n,
                i < rows.len(),
                line0.len() == n,
                line@ == line0.subrange(0, c as int),
                cells@.len() == n,
                before.len() == n,
                forall|x: int| c <= x < n ==> (#[trigger] cells@[x])@ == before[x]@.push(line0[x]),
                forall|x: int| 0 <= x < c ==> (#[trigger] cells@[x]) == before[x],
            decreases c,
        {
            let last = line.pop();
            c = c - 1;
            match last {
                Some(v) => {
                    assert(v == line0[c as int]);
                    cells[c].push(v);
                },
                None => {},
            }
            assert(line@ =~= line0.subrange(0, c as int));
        }
        assert(cells_view(cells@) =~= cells_upto(cols@, rv, i + 1)) by {
            assert forall|x: int| 0 <= x < n implies cells_view(cells@)[x] =~= cells_upto(cols@, rv, i + 1)[x] by {
                assert(cells_view(cells@)[x] == crate::process::column_cells_view(cells@[x]));
                assert(cells_view(before)[x] == crate::process::column_cells_view(before[x]));
                assert(cells_view(before)[x] == cells_upto(cols@, rv, i as int)[x]);
                assert forall|y: int| 0 <= y < i implies cells_view(cells@)[x][y] == cells_upto(cols@, rv, i + 1)[x][y] by {
                    assert(cells@[x]@[y] == before[x]@[y]);
                    assert(cells_view(before)[x][y] == cells_upto(cols@, rv, i as int)[x][y]);
                }
                assert(cells@[x]@[i as int] == line0[x]);
            }
        }
        i = i + 1;
    }
    assert(cells_upto(cols@, rv, rows.len() as int) =~= cells_of(cols@, rv));
    Ok(cells)
}

} // verus!
