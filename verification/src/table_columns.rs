//! Column layout of the data table: unique columns, hidden columns, the preferred
//! order and the pinned sides.

use vstd::prelude::*;
use crate::keyed::dedupe_keyed;
use crate::seqs::dedup_by;
use crate::table_actions::{canonical_pinning, canonicalize_pinning};
use crate::table_lookup::{column_visible_spec, is_column_visible};
use crate::table_rows::{ColumnView, DataTableColumnInfo};
use crate::table_state::{column_key_fn, ColumnKeyed, DataTableState};

verus! {

impl ColumnKeyed for DataTableColumnInfo {
    open spec fn key_of(v: ColumnView) -> Seq<char> {
        v.id
    }

    fn column_key(&self) -> (k: &String) {
        &self.id
    }

    proof fn lemma_clone_same(a: Self, b: Self) {
    }
}

/// The first column of each id, in order.
pub fn canonicalize_operation_columns(columns: &Vec<DataTableColumnInfo>) -> (r: Vec<DataTableColumnInfo>)
    ensures
        r.deep_view() == dedup_by(columns.deep_view(), column_key_fn::<DataTableColumnInfo>()),
{
    dedupe_keyed(columns)
}

/// Index of the first entry of `s` whose id is `k`.
pub open spec fn index_with_key(s: Seq<ColumnView>, k: Seq<char>) -> Option<int>
    decreases s.len(),
{
    if s.len() == 0 {
        None
    } else if s[0].id == k {
        Some(0)
    } else {
        match index_with_key(s.skip(1), k) {
            Some(i) => Some(i + 1),
            None => None,
        }
    }
}

/// Moves, for each id of `ids` in order, the first column of `rest` with that id to
/// the end of `picked`; returns the picked and the remaining columns.
pub open spec fn pick_columns(picked: Seq<ColumnView>, rest: Seq<ColumnView>, ids: Seq<Seq<char>>) -> (
    Seq<ColumnView>,
    Seq<ColumnView>,
)
    decreases ids.len(),
{
    if ids.len() == 0 {
        (picked, rest)
    } else {
        match index_with_key(rest, ids[0]) {
            Some(i) => pick_columns(picked.push(rest[i]), rest.remove(i), ids.skip(1)),
            None => pick_columns(picked, rest, ids.skip(1)),
        }
    }
}

/// The displayed columns: the first column of each id that is not hidden (a
/// column is hidden when its last visibility override says so), placed first in
/// the preferred order and then in their given order; columns pinned left come
/// first in pin order, columns pinned right come last in pin order.
pub open spec fn canonical_columns_spec(columns: Seq<ColumnView>, s: crate::table_state::StateView) -> Seq<ColumnView> {
    let unique = dedup_by(columns, column_key_fn::<DataTableColumnInfo>());
    let visible = unique.filter(|c: ColumnView| column_visible_spec(s.column_visibility, c.id));
    let (ordered_head, ordered_rest) = pick_columns(Seq::empty(), visible, s.column_order);
    let ordered = ordered_head + ordered_rest;
    let pins = canonical_pinning(s.column_pinning);
    let (left, rest1) = pick_columns(Seq::empty(), ordered, pins.0);
    let (right, rest2) = pick_columns(Seq::empty(), rest1, pins.1);
    left + rest2 + right
}

fn index_of_id(v: &Vec<DataTableColumnInfo>, id: &String) -> (r: Option<usize>)
    ensures
        match r {
            Some(i) => i < v.len() && index_with_key(v.deep_view(), id@) == Some(i as int),
            None => index_with_key(v.deep_view(), id@) is None,
        },
{
    let ghost s = v.deep_view();
    let mut j: usize = 0;
    assert(s.skip(0) =~= s);
    while j < v.len()
        invariant
            j <= v.len(),
            s == v.deep_view(),
            index_with_key(s, id@) == match index_with_key(s.skip(j as int), id@) {
                Some(i) => Some(i + j),
                None => None::<int>,
            },
        decreases v.len() - j,
    {
        assert(s.skip(j as int)[0] == v@[j as int].deep_view());
        assert(s.skip(j as int).skip(1) =~= s.skip(j + 1));
        if v[j].id == *id {
            return Some(j);
        }
        j = j + 1;
    }
    assert(s.skip(j as int) =~= Seq::<ColumnView>::empty());
    None
}

/// Moves the columns named by `ids` out of `rest`, in order, into a new list.
fn pick(rest: &mut Vec<DataTableColumnInfo>, ids: &Vec<String>) -> (picked: Vec<DataTableColumnInfo>)
    ensures
        (picked.deep_view(), final(rest).deep_view()) == pick_columns(Seq::empty(), old(rest).deep_view(), ids.deep_view()),
{
    let mut picked: Vec<DataTableColumnInfo> = Vec::new();
    let ghost target = pick_columns(Seq::empty(), rest.deep_view(), ids.deep_view());
    let ghost is = ids.deep_view();
    let mut k: usize = 0;
    assert(is.skip(0) =~= is);
    assert(picked.deep_view() =~= Seq::<ColumnView>::empty());
    while k < ids.len()
        invariant
            k <= ids.len(),
            is == ids.deep_view(),
            pick_columns(picked.deep_view(), rest.deep_view(), is.skip(k as int)) == target,
        decreases ids.len() - k,
    {
        assert(is.skip(k as int)[0] == ids@[k as int]@);
        assert(is.skip(k as int).skip(1) =~= is.skip(k + 1));
        match index_of_id(rest, &ids[k]) {
            Some(i) => {
                let ghost r0 = rest.deep_view();
                let ghost p0 = picked.deep_view();
                let col = rest.remove(i);
                assert(rest.deep_view() =~= r0.remove(i as int));
                assert(col.deep_view() == r0[i as int]);
                picked.push(col);
                assert(picked.deep_view() =~= p0.push(r0[i as int]));
            },
            None => {},
        }
        k = k + 1;
    }
    assert(is.skip(k as int) =~= Seq::<Seq<char>>::empty());
    picked
}

fn append_columns(a: &mut Vec<DataTableColumnInfo>, b: Vec<DataTableColumnInfo>)
    ensures
        final(a).deep_view() == old(a).deep_view() + b.deep_view(),
{
    let mut b = b;
    let ghost a0 = a.deep_view();
    let ghost b0 = b.deep_view();
    a.append(&mut b);
    assert(a.deep_view() =~= a0 + b0);
}

/// Lays out the displayed columns for a state.
pub fn canonicalize_columns(columns: &Vec<DataTableColumnInfo>, state: &DataTableState) -> (r: Vec<
    DataTableColumnInfo,
>)
    ensures
        r.deep_view() == canonical_columns_spec(columns.deep_view(), state.deep_view()),
{
    let unique = canonicalize_operation_columns(columns);
    let ghost u = unique.deep_view();
    let ghost vis = state.column_visibility.deep_view();
    let ghost pred = |c: ColumnView| column_visible_spec(vis, c.id);
    let mut remaining: Vec<DataTableColumnInfo> = Vec::new();
    let mut i: usize = 0;
    assert(u.take(0) =~= Seq::<ColumnView>::empty());
    assert(remaining.deep_view() =~= Seq::<ColumnView>::empty());
    while i < unique.len()
        invariant
            i <= unique.len(),
            u == unique.deep_view(),
            vis == state.column_visibility.deep_view(),
            pred == (|c: ColumnView| column_visible_spec(vis, c.id)),
            remaining.deep_view() == u.take(i as int).filter(pred),
        decreases unique.len() - i,
    {
        assert(u.take(i + 1).drop_last() =~= u.take(i as int));
        assert(u.take(i + 1).last() == unique@[i as int].deep_view());
        reveal_with_fuel(Seq::filter, 1);
        if is_column_visible(&unique[i].id, state) {
            let ghost before = remaining.deep_view();
            let c = unique[i].clone();
            remaining.push(c);
            assert(remaining.deep_view() =~= before.push(u[i as int]));
        }
        i = i + 1;
    }
    assert(u.take(i as int) =~= u);
    let mut ordered = pick(&mut remaining, &state.column_order);
    append_columns(&mut ordered, remaining);
    let pinning = canonicalize_pinning(&state.column_pinning);
    let mut left = pick(&mut ordered, &pinning.left);
    let right = pick(&mut ordered, &pinning.right);
    append_columns(&mut left, ordered);
    append_columns(&mut left, right);
    left
}

} // verus!
