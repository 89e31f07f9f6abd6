use vstd::prelude::*;
use crate::value::{Val, Value, views};
use crate::column::{Column, Automaton, AutoView, aggregate_spec};
use crate::process::{autos_view, outputs_view};

verus! {

/// The maximal runs of equal consecutive values of `key[0..n]`, as inclusive index pairs.
pub open spec fn runs_of(key: Seq<Val>, n: nat) -> Seq<(int, int)>
    decreases n,
{
    if n == 0 {
        Seq::empty()
    } else if n == 1 {
        seq![(0, 0)]
    } else {
        let r = runs_of(key, (n - 1) as nat);
        if key[n - 1] == key[n - 2] {
            r.update(r.len() - 1, (r.last().0, n - 1))
        } else {
            r.push((n - 1, n - 1))
        }
    }
}

/// What the runs of a key of length `n` satisfy: they tile `0..n` in order, each is
/// constant, and neighbours differ.
pub open spec fn runs_tile(key: Seq<Val>, n: nat, runs: Seq<(int, int)>) -> bool {
    &&& (n == 0 <==> runs.len() == 0)
    &&& n > 0 ==> runs[0].0 == 0 && runs.last().1 == n - 1
    &&& forall|r: int| 0 <= r < runs.len() ==> 0 <= (#[trigger] runs[r]).0 <= runs[r].1 < n
    &&& forall|r: int| 0 <= r < runs.len() - 1 ==> (#[trigger] runs[r + 1]).0 == runs[r].1 + 1
    &&& forall|r: int| 0 <= r < runs.len() - 1 ==> key[(#[trigger] runs[r + 1]).0] != key[runs[r].1]
    &&& forall|r: int, x: int| 0 <= r < runs.len() && (#[trigger] runs[r]).0 <= x <= runs[r].1 ==> #[trigger] key[x] == key[runs[r].0]
}

pub proof fn lemma_runs(key: Seq<Val>, n: nat)
    requires
        n <= key.len(),
    ensures
        runs_tile(key, n, runs_of(key, n)),
    decreases n,
{
    if n > 1 {
        lemma_runs(key, (n - 1) as nat);
        let r = runs_of(key, (n - 1) as nat);
        let s = runs_of(key, n);
        if key[n - 1] == key[n - 2] {
            assert forall|q: int, x: int| 0 <= q < s.len() && (#[trigger] s[q]).0 <= x <= s[q].1 implies #[trigger] key[x] == key[s[q].0] by {
                if q == s.len() - 1 && x == n - 1 {
                    assert(key[x] == key[n - 2]);
                    assert(r[q].0 <= n - 2 <= r[q].1);
                } else {
                    assert(r[q].0 <= x <= r[q].1);
                }
            }
            assert forall|q: int| 0 <= q < s.len() - 1 implies key[(#[trigger] s[q + 1]).0] != key[s[q].1] by {
                assert(s[q + 1].0 == r[q + 1].0);
                assert(s[q].1 == r[q].1);
            }
            assert forall|q: int| 0 <= q < s.len() - 1 implies (#[trigger] s[q + 1]).0 == s[q].1 + 1 by {
                assert(s[q + 1].0 == r[q + 1].0);
            }
        } else {
            assert forall|q: int, x: int| 0 <= q < s.len() && (#[trigger] s[q]).0 <= x <= s[q].1 implies #[trigger] key[x] == key[s[q].0] by {
                if q < r.len() {
                    assert(r[q] == s[q]);
                }
            }
            assert forall|q: int| 0 <= q < s.len() - 1 implies key[(#[trigger] s[q + 1]).0] != key[s[q].1] by {
                if q + 1 < r.len() {
                    assert(s[q + 1] == r[q + 1]);
                } else {
                    assert(s[q].1 == n - 2);
                }
            }
            assert forall|q: int| 0 <= q < s.len() - 1 implies (#[trigger] s[q + 1]).0 == s[q].1 + 1 by {
                if q + 1 < r.len() {
                    assert(s[q + 1] == r[q + 1]);
                }
            }
        }
    }
}

/// Under aggregation, the key column of the result never holds two equal neighbours.
pub proof fn lemma_keys_alternate(key: Seq<Val>)
    ensures
        forall|r: int|
            0 <= r < runs_of(key, key.len()).len() - 1 ==> key[(#[trigger] runs_of(key, key.len())[r]).0]
                != key[runs_of(key, key.len())[r + 1].0],
{
    lemma_runs(key, key.len());
    let s = runs_of(key, key.len());
    assert forall|r: int| 0 <= r < s.len() - 1 implies key[(#[trigger] s[r]).0] != key[s[r + 1].0] by {
        assert(key[s[r].1] == key[s[r].0]);
        assert(key[s[r + 1].0] != key[s[r].1]);
    }
}

pub open spec fn runs_view(r: Seq<(usize, usize)>) -> Seq<(int, int)> {
    r.map_values(|p: (usize, usize)| (p.0 as int, p.1 as int))
}

/// The runs of the key column.
pub fn find_runs(key: &Vec<Value>) -> (r: Vec<(usize, usize)>)
    ensures
        runs_view(r@) == runs_of(views(key@), key.len() as nat),
{
    let ghost k = views(key@);
    let mut emitted: Vec<(usize, usize)> = Vec::new();
    let n = key.len();
    if n == 0 {
        assert(runs_view(emitted@) =~= Seq::<(int, int)>::empty());
        return emitted;
    }
    let mut lo: usize = 0;
    let mut i: usize = 1;
    assert(runs_view(emitted@).push((0, 0)) =~= runs_of(k, 1));
    while i < n
        invariant
            1 <= i <= n,
            n == key.len(),
            k == views(key@),
            lo < i,
            runs_view(emitted@).push((lo as int, i - 1)) == runs_of(k, i as nat),
        decreases n - i,
    {
        assert(k[i as int] == key@[i as int]@);
        assert(k[i - 1] == key@[i - 1]@);
        if !key[i].equals(&key[i - 1]) {
            let ghost prev = emitted@;
            emitted.push((lo, i - 1));
            assert(runs_view(emitted@) =~= runs_view(prev).push((lo as int, i - 1)));
            lo = i;
            assert(runs_view(emitted@).push((lo as int, i as int)) =~= runs_of(k, (i + 1) as nat));
        } else {
            assert(runs_view(emitted@).push((lo as int, i as int)) =~= runs_of(k, (i + 1) as nat));
        }
        i = i + 1;
    }
    let ghost prev = emitted@;
    emitted.push((lo, n - 1));
    assert(runs_view(emitted@) =~= runs_view(prev).push((lo as int, n - 1)));
    emitted
}


/// Column `c`'s output compressed over the runs: the key column keeps each run's value,
/// the others fold the run by their aggregate.
pub open spec fn compress_column(c: Column, s: AutoView, is_key: bool, key: Seq<Val>, runs: Seq<(int, int)>) -> Seq<Val> {
    Seq::new(
        runs.len(),
        |r: int| if is_key {
            key[runs[r].0]
        } else {
            aggregate_spec(c.aggregate, s.output, runs[r].0, runs[r].1)
        },
    )
}

/// The compressed outputs of the non-ignored columns before column `j`.
pub open spec fn compressed(cols: Seq<Column>, states: Seq<AutoView>, a: int, j: int) -> Seq<Seq<Val>>
    decreases j,
{
    if j <= 0 {
        Seq::empty()
    } else if cols[j - 1].ignore {
        compressed(cols, states, a, j - 1)
    } else {
        compressed(cols, states, a, j - 1).push(
            compress_column(
                cols[j - 1],
                states[j - 1],
                j - 1 == a,
                states[a].output,
                runs_of(states[a].output, states[a].output.len()),
            ),
        )
    }
}

/// Every non-ignored output has the key column's length.
pub open spec fn aligned(cols: Seq<Column>, states: Seq<AutoView>, a: int) -> bool {
    forall|j: int|
        0 <= j < cols.len() && !(#[trigger] cols[j]).ignore ==> states[j].output.len()
            == states[a].output.len()
}

/// Run-length compression of the automata's outputs by the key column `a`;
/// `Err(j)` names a column whose length differs from the key's.
pub fn compress(cols: &Vec<Column>, autos: &Vec<Automaton>, a: usize) -> (r: Result<Vec<Vec<Value>>, usize>)
    requires
        autos.len() == cols.len(),
        a < cols.len(),
    ensures
        aligned(cols@, autos_view(autos@), a as int) ==> (r matches Ok(o) && outputs_view(o@)
            == compressed(cols@, autos_view(autos@), a as int, cols.len() as int)),
        !aligned(cols@, autos_view(autos@), a as int) ==> r is Err,
{
    let ghost st = autos_view(autos@);
    let n = cols.len();
    let klen = autos[a].output.len();
    assert(st[a as int] == autos@[a as int]@);
    let mut j: usize = 0;
    while j < n
        invariant
            n == cols.len(),
            autos.len() == n,
            a < n,
            st == autos_view(autos@),
            klen == st[a as int].output.len(),
            j <= n,
            forall|x: int| 0 <= x < j && !(#[trigger] cols@[x]).ignore ==> st[x].output.len() == klen,
        decreases n - j,
    {
        assert(st[j as int] == autos@[j as int]@);
        if !cols[j].ignore && autos[j].output.len() != klen {
            return Err(j);
        }
        j = j + 1;
    }
    let runs = find_runs(&autos[a].output);
    let ghost key = st[a as int].output;
    proof {
        lemma_runs(key, key.len());
    }
    let ghost rv = runs_view(runs@);
    let mut r: Vec<Vec<Value>> = Vec::new();
    let mut j: usize = 0;
    while j < n
        invariant
            n == cols.len(),
            autos.len() == n,
            a < n,
            st == autos_view(autos@),
            key == st[a as int].output,
            rv == runs_view(runs@),
            rv == runs_of(key, key.len()),
            runs_tile(key, key.len(), rv),
            aligned(cols@, st, a as int),
            j <= n,
            outputs_view(r@) == compressed(cols@, st, a as int, j as int),
        decreases n - j,
    {
        if !cols[j].ignore {
            let mut col: Vec<Value> = Vec::new();
            let mut q: usize = 0;
            assert(st[j as int] == autos@[j as int]@);
            while q < runs.len()
                invariant
                    n == cols.len(),
                    autos.len() == n,
                    a < n,
                    j < n,
                    !cols@[j as int].ignore,
                    st == autos_view(autos@),
                    st[j as int] == autos@[j as int]@,
                    key == st[a as int].output,
                    rv == runs_view(runs@),
                    runs_tile(key, key.len(), rv),
                    aligned(cols@, st, a as int),
                    q <= runs.len(),
                    views(col@) == compress_column(
                        cols@[j as int],
                        st[j as int],
                        j == a,
                        key,
                        rv,
                    ).subrange(0, q as int),
                decreases runs.len() - q,
            {
                let (lo, hi) = runs[q];
                assert(rv[q as int] == (lo as int, hi as int));
                assert(0 <= rv[q as int].0 <= rv[q as int].1 < key.len());
                let v = if j == a {
                    autos[a].output[lo].duplicate()
                } else {
                    autos[j].aggregate(cols[j].aggregate, lo, hi)
                };
                let ghost prev = col@;
                col.push(v);
                proof {
                    crate::column::lemma_views_push(prev, v);
                }
                assert(views(col@) =~= compress_column(cols@[j as int], st[j as int], j == a, key, rv).subrange(0, q + 1));
                q = q + 1;
            }
            let ghost prev = r@;
            r.push(col);
            assert(compress_column(cols@[j as int], st[j as int], j == a, key, rv).subrange(0, runs.len() as int)
                =~= compress_column(cols@[j as int], st[j as int], j == a, key, rv));
            assert(outputs_view(r@) =~= outputs_view(prev).push(views(col@)));
        }
        j = j + 1;
    }
    Ok(r)
}

} // verus!
