//! Operations on lists of column-keyed state entries: lookup, removal,
//! keeping the first entry per column, and sorting by column id.

use vstd::prelude::*;
use crate::seqs::{dedup_by, insert_pos, keep_first_by, lemma_insert_pos, lex_lt, sort_by_key};
use crate::table_state::{column_key_fn, ColumnKeyed};
use crate::text::str_lt;

verus! {

/// The column ids of a list of entry models.
pub open spec fn keys_of<T: ColumnKeyed>(s: Seq<T::V>) -> Seq<Seq<char>> {
    s.map_values(column_key_fn::<T>())
}

/// The entries of `s` whose column is not `k`, in order.
pub open spec fn drop_key<T: ColumnKeyed>(s: Seq<T::V>, k: Seq<char>) -> Seq<T::V>
    decreases s.len(),
{
    if s.len() == 0 {
        s
    } else if T::key_of(s[0]) == k {
        drop_key::<T>(s.skip(1), k)
    } else {
        seq![s[0]] + drop_key::<T>(s.skip(1), k)
    }
}

/// A clone of `x` with the same model.
pub fn clone_same<T: ColumnKeyed>(x: &T) -> (r: T)
    ensures
        r.deep_view() == x.deep_view(),
{
    let r = x.clone();
    proof {
        T::lemma_clone_same(*x, r);
    }
    r
}

/// Whether an entry of `v` belongs to column `col`.
pub fn has_key<T: ColumnKeyed>(v: &Vec<T>, col: &String) -> (b: bool)
    ensures
        b == keys_of::<T>(v.deep_view()).contains(col@),
{
    let mut j: usize = 0;
    while j < v.len()
        invariant
            j <= v.len(),
            forall|i: int| 0 <= i < j ==> keys_of::<T>(v.deep_view())[i] != col@,
        decreases v.len() - j,
    {
        if *v[j].column_key() == *col {
            assert(keys_of::<T>(v.deep_view())[j as int] == col@);
            return true;
        }
        j = j + 1;
    }
    false
}

/// The first entry of each column of `values`, in order.
pub fn dedupe_keyed<T: ColumnKeyed>(values: &Vec<T>) -> (r: Vec<T>)
    ensures
        r.deep_view() == dedup_by(values.deep_view(), column_key_fn::<T>()),
{
    let mut out: Vec<T> = Vec::new();
    let mut i: usize = 0;
    let ghost key = column_key_fn::<T>();
    assert(values.deep_view().skip(0) =~= values.deep_view());
    assert(out.deep_view() =~= Seq::<T::V>::empty());
    while i < values.len()
        invariant
            i <= values.len(),
            key == column_key_fn::<T>(),
            keep_first_by(out.deep_view(), values.deep_view().skip(i as int), key) == dedup_by(
                values.deep_view(),
                key,
            ),
        decreases values.len() - i,
    {
        let x = clone_same(&values[i]);
        let ghost rest = values.deep_view().skip(i as int);
        assert(rest[0] == x.deep_view());
        assert(rest.skip(1) =~= values.deep_view().skip(i + 1));
        if !has_key(&out, x.column_key()) {
            let ghost before = out.deep_view();
            out.push(x);
            assert(out.deep_view() =~= before.push(x.deep_view()));
        }
        i = i + 1;
    }
    out
}

/// The entries of `values` whose column is not `col`, in order.
pub fn without_key<T: ColumnKeyed>(values: &Vec<T>, col: &String) -> (r: Vec<T>)
    ensures
        r.deep_view() == drop_key::<T>(values.deep_view(), col@),
{
    let mut out: Vec<T> = Vec::new();
    let mut i: usize = 0;
    assert(values.deep_view().skip(0) =~= values.deep_view());
    assert(out.deep_view() + drop_key::<T>(values.deep_view(), col@) =~= drop_key::<T>(
        values.deep_view(),
        col@,
    ));
    while i < values.len()
        invariant
            i <= values.len(),
            out.deep_view() + drop_key::<T>(values.deep_view().skip(i as int), col@) == drop_key::<
                T,
            >(values.deep_view(), col@),
        decreases values.len() - i,
    {
        let ghost rest = values.deep_view().skip(i as int);
        assert(rest.skip(1) =~= values.deep_view().skip(i + 1));
        assert(rest[0] == values[i as int].deep_view());
        if *values[i].column_key() != *col {
            let x = clone_same(&values[i]);
            let ghost before = out.deep_view();
            out.push(x);
            assert(out.deep_view() =~= before.push(x.deep_view()));
            assert(before + (seq![x.deep_view()] + drop_key::<T>(rest.skip(1), col@)) =~= out.deep_view()
                + drop_key::<T>(rest.skip(1), col@));
        }
        i = i + 1;
    }
    assert(values.deep_view().skip(i as int) =~= Seq::<T::V>::empty());
    assert(out.deep_view() + Seq::<T::V>::empty() =~= out.deep_view());
    out
}

/// `values` stably sorted by column id in lexicographic order.
pub fn sort_keyed<T: ColumnKeyed>(values: &Vec<T>) -> (r: Vec<T>)
    ensures
        r.deep_view() == sort_by_key(values.deep_view(), column_key_fn::<T>()),
{
    let ghost key = column_key_fn::<T>();
    let mut out: Vec<T> = Vec::new();
    let mut i: usize = 0;
    assert(values.deep_view().take(0) =~= Seq::<T::V>::empty());
    assert(out.deep_view() =~= Seq::<T::V>::empty());
    while i < values.len()
        invariant
            i <= values.len(),
            key == column_key_fn::<T>(),
            out.deep_view() == sort_by_key(values.deep_view().take(i as int), key),
        decreases values.len() - i,
    {
        let x = clone_same(&values[i]);
        let ghost sorted = out.deep_view();
        let mut j: usize = 0;
        while j < out.len() && !str_lt(x.column_key().as_str(), out[j].column_key().as_str())
            invariant
                j <= out.len(),
                key == column_key_fn::<T>(),
                out.deep_view() == sorted,
                forall|k: int| 0 <= k < j ==> !lex_lt(key(x.deep_view()), key(#[trigger] sorted[k])),
            decreases out.len() - j,
        {
            assert(sorted[j as int] == out@[j as int].deep_view());
            assert(key(sorted[j as int]) == T::key_of(out@[j as int].deep_view()));
            assert(key(x.deep_view()) == T::key_of(x.deep_view()));
            j = j + 1;
        }
        proof {
            lemma_insert_pos(sorted, x.deep_view(), key);
            let p = insert_pos(sorted, x.deep_view(), key);
            assert(key(x.deep_view()) == T::key_of(x.deep_view()));
            if (j as int) < p {
                assert(sorted[j as int] == out@[j as int].deep_view());
                assert(key(sorted[j as int]) == T::key_of(out@[j as int].deep_view()));
                assert(lex_lt(key(x.deep_view()), key(sorted[j as int])));
            }
            if p < j {
                assert(!lex_lt(key(x.deep_view()), key(sorted[p])));
            }
            assert(values.deep_view().take(i + 1).drop_last() =~= values.deep_view().take(i as int));
            assert(values.deep_view().take(i + 1).last() == x.deep_view());
        }
        out.insert(j, x);
        assert(out.deep_view() =~= sorted.insert(j as int, x.deep_view()));
        i = i + 1;
    }
    assert(values.deep_view().take(values.len() as int) =~= values.deep_view());
    out
}


/// The first entry of `s` whose column is `k`.
pub open spec fn first_with_key<T: ColumnKeyed>(s: Seq<T::V>, k: Seq<char>) -> Option<T::V>
    decreases s.len(),
{
    if s.len() == 0 {
        None
    } else if T::key_of(s[0]) == k {
        Some(s[0])
    } else {
        first_with_key::<T>(s.skip(1), k)
    }
}

/// The index of the first entry of `v` belonging to column `col`.
pub fn find_key<T: ColumnKeyed>(v: &Vec<T>, col: &String) -> (r: Option<usize>)
    ensures
        match r {
            Some(i) => i < v.len() && first_with_key::<T>(v.deep_view(), col@) == Some(
                v@[i as int].deep_view(),
            ),
            None => first_with_key::<T>(v.deep_view(), col@) is None,
        },
{
    let mut j: usize = 0;
    let ghost s = v.deep_view();
    assert(s.skip(0) =~= s);
    while j < v.len()
        invariant
            j <= v.len(),
            s == v.deep_view(),
            first_with_key::<T>(s.skip(j as int), col@) == first_with_key::<T>(s, col@),
        decreases v.len() - j,
    {
        assert(s.skip(j as int)[0] == v@[j as int].deep_view());
        assert(s.skip(j as int).skip(1) =~= s.skip(j + 1));
        if *v[j].column_key() == *col {
            return Some(j);
        }
        j = j + 1;
    }
    None
}

} // verus!
