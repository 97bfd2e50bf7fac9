//! Sequence specifications shared by the table modules: keeping the first entry
//! of each key, and sorting by a text key in lexicographic order.

use vstd::prelude::*;

verus! {

/// `a` precedes `b` in lexicographic code-point order (the order of `str`).
pub open spec fn lex_lt(a: Seq<char>, b: Seq<char>) -> bool
    decreases a.len(),
{
    if a.len() == 0 {
        b.len() > 0
    } else if b.len() == 0 {
        false
    } else if a[0] != b[0] {
        a[0] < b[0]
    } else {
        lex_lt(a.skip(1), b.skip(1))
    }
}

/// `acc` extended, in order, by each entry of `rest` whose key it does not yet hold.
pub open spec fn keep_first_by<A, K>(acc: Seq<A>, rest: Seq<A>, key: spec_fn(A) -> K) -> Seq<A>
    decreases rest.len(),
{
    if rest.len() == 0 {
        acc
    } else {
        let next = if acc.map_values(key).contains(key(rest[0])) {
            acc
        } else {
            acc.push(rest[0])
        };
        keep_first_by(next, rest.skip(1), key)
    }
}

/// The first entry of each key of `s`, in order.
pub open spec fn dedup_by<A, K>(s: Seq<A>, key: spec_fn(A) -> K) -> Seq<A> {
    keep_first_by(Seq::empty(), s, key)
}

/// The identity key.
pub open spec fn same<A>() -> spec_fn(A) -> A {
    |a: A| a
}

/// The distinct entries of `s`, each at its first occurrence.
pub open spec fn dedup<A>(s: Seq<A>) -> Seq<A> {
    dedup_by(s, same::<A>())
}

/// Whether the keys of `s` are pairwise distinct.
pub open spec fn keys_distinct<A, K>(s: Seq<A>, key: spec_fn(A) -> K) -> bool {
    s.map_values(key).no_duplicates()
}

/// `x` inserted into `sorted` after every entry whose key does not exceed its key.
pub open spec fn insert_by_key<A>(sorted: Seq<A>, x: A, key: spec_fn(A) -> Seq<char>) -> Seq<A>
    decreases sorted.len(),
{
    if sorted.len() == 0 {
        seq![x]
    } else if lex_lt(key(x), key(sorted[0])) {
        seq![x] + sorted
    } else {
        seq![sorted[0]] + insert_by_key(sorted.skip(1), x, key)
    }
}

/// `s` stably sorted by key in lexicographic order.
pub open spec fn sort_by_key<A>(s: Seq<A>, key: spec_fn(A) -> Seq<char>) -> Seq<A>
    decreases s.len(),
{
    if s.len() == 0 {
        s
    } else {
        insert_by_key(sort_by_key(s.drop_last(), key), s.last(), key)
    }
}

/// Position at which `insert_by_key` places `x`: the first entry whose key
/// exceeds the key of `x`, or the end.
pub open spec fn insert_pos<A>(sorted: Seq<A>, x: A, key: spec_fn(A) -> Seq<char>) -> int
    decreases sorted.len(),
{
    if sorted.len() == 0 {
        0
    } else if lex_lt(key(x), key(sorted[0])) {
        0
    } else {
        1 + insert_pos(sorted.skip(1), x, key)
    }
}

pub proof fn lemma_insert_pos<A>(sorted: Seq<A>, x: A, key: spec_fn(A) -> Seq<char>)
    ensures
        0 <= insert_pos(sorted, x, key) <= sorted.len(),
        insert_by_key(sorted, x, key) == sorted.insert(insert_pos(sorted, x, key), x),
        forall|i: int|
            0 <= i < insert_pos(sorted, x, key) ==> !lex_lt(key(x), key(#[trigger] sorted[i])),
        insert_pos(sorted, x, key) < sorted.len() ==> lex_lt(
            key(x),
            key(sorted[insert_pos(sorted, x, key)]),
        ),
    decreases sorted.len(),
{
    if sorted.len() > 0 && !lex_lt(key(x), key(sorted[0])) {
        lemma_insert_pos(sorted.skip(1), x, key);
        let p = insert_pos(sorted.skip(1), x, key);
        assert(seq![sorted[0]] + sorted.skip(1).insert(p, x) =~= sorted.insert(p + 1, x));
        assert forall|i: int| 0 <= i < p + 1 implies !lex_lt(key(x), key(#[trigger] sorted[i])) by {
            if i > 0 {
                assert(sorted[i] == sorted.skip(1)[i - 1]);
            }
        }
    } else if sorted.len() > 0 {
        assert(seq![x] + sorted =~= sorted.insert(0, x));
    } else {
        assert(seq![x] =~= sorted.insert(0, x));
    }
}

pub proof fn lemma_keep_first_prefix<A, K>(acc: Seq<A>, rest: Seq<A>, key: spec_fn(A) -> K)
    ensures
        acc.len() <= keep_first_by(acc, rest, key).len(),
        keep_first_by(acc, rest, key).subrange(0, acc.len() as int) == acc,
    decreases rest.len(),
{
    if rest.len() > 0 {
        let next = if acc.map_values(key).contains(key(rest[0])) {
            acc
        } else {
            acc.push(rest[0])
        };
        lemma_keep_first_prefix(next, rest.skip(1), key);
        assert(keep_first_by(acc, rest, key).subrange(0, acc.len() as int) =~= keep_first_by(
            acc,
            rest,
            key,
        ).subrange(0, next.len() as int).subrange(0, acc.len() as int));
    }
}

pub proof fn lemma_keep_first_distinct<A, K>(acc: Seq<A>, rest: Seq<A>, key: spec_fn(A) -> K)
    requires
        keys_distinct(acc, key),
    ensures
        keys_distinct(keep_first_by(acc, rest, key), key),
    decreases rest.len(),
{
    if rest.len() > 0 {
        if !acc.map_values(key).contains(key(rest[0])) {
            let next = acc.push(rest[0]);
            assert(next.map_values(key) =~= acc.map_values(key).push(key(rest[0])));
            lemma_keep_first_distinct(next, rest.skip(1), key);
        } else {
            lemma_keep_first_distinct(acc, rest.skip(1), key);
        }
    }
}

/// Keys of `keep_first_by` are exactly the keys of `acc` and of `rest`.
pub proof fn lemma_keep_first_keys<A, K>(acc: Seq<A>, rest: Seq<A>, key: spec_fn(A) -> K)
    ensures
        forall|k: K|
            keep_first_by(acc, rest, key).map_values(key).contains(k) <==> (acc.map_values(
                key,
            ).contains(k) || rest.map_values(key).contains(k)),
    decreases rest.len(),
{
    if rest.len() > 0 {
        let next = if acc.map_values(key).contains(key(rest[0])) {
            acc
        } else {
            acc.push(rest[0])
        };
        lemma_keep_first_keys(next, rest.skip(1), key);
        assert forall|k: K|
            keep_first_by(acc, rest, key).map_values(key).contains(k) <==> (acc.map_values(
                key,
            ).contains(k) || rest.map_values(key).contains(k)) by {
            if acc.map_values(key).contains(k) {
                let i = choose|i: int| 0 <= i < acc.len() && acc.map_values(key)[i] == k;
                assert(next.map_values(key)[i] == k);
            }
            if rest.map_values(key).contains(k) {
                let i = choose|i: int| 0 <= i < rest.len() && rest.map_values(key)[i] == k;
                if i == 0 {
                    if !acc.map_values(key).contains(key(rest[0])) {
                        assert(next.map_values(key)[acc.len() as int] == k);
                    }
                } else {
                    assert(rest.skip(1).map_values(key)[i - 1] == k);
                }
            }
            if next.map_values(key).contains(k) {
                let i = choose|i: int| 0 <= i < next.len() && next.map_values(key)[i] == k;
                if i < acc.len() {
                    assert(acc.map_values(key)[i] == k);
                } else {
                    assert(rest.map_values(key)[0] == k);
                }
            }
            if rest.skip(1).map_values(key).contains(k) {
                let i = choose|i: int|
                    0 <= i < rest.skip(1).len() && rest.skip(1).map_values(key)[i] == k;
                assert(rest.map_values(key)[i + 1] == k);
            }
        }
    }
}


/// `x` inserted into `sorted` before the first entry it compares below
/// (`before(x, e) < 0`), after all others.
pub open spec fn insert_by_order<A>(sorted: Seq<A>, x: A, order: spec_fn(A, A) -> int) -> Seq<A>
    decreases sorted.len(),
{
    if sorted.len() == 0 {
        seq![x]
    } else if order(x, sorted[0]) < 0 {
        seq![x] + sorted
    } else {
        seq![sorted[0]] + insert_by_order(sorted.skip(1), x, order)
    }
}

/// `s` sorted by insertion under `order`: each entry, in turn, is inserted before
/// the first already-sorted entry it compares below. For a total order this is the
/// stable sort of `s`.
pub open spec fn sort_by_order<A>(s: Seq<A>, order: spec_fn(A, A) -> int) -> Seq<A>
    decreases s.len(),
{
    if s.len() == 0 {
        s
    } else {
        insert_by_order(sort_by_order(s.drop_last(), order), s.last(), order)
    }
}

/// Position at which `insert_by_order` places `x`.
pub open spec fn order_pos<A>(sorted: Seq<A>, x: A, order: spec_fn(A, A) -> int) -> int
    decreases sorted.len(),
{
    if sorted.len() == 0 {
        0
    } else if order(x, sorted[0]) < 0 {
        0
    } else {
        1 + order_pos(sorted.skip(1), x, order)
    }
}

pub proof fn lemma_order_pos<A>(sorted: Seq<A>, x: A, order: spec_fn(A, A) -> int)
    ensures
        0 <= order_pos(sorted, x, order) <= sorted.len(),
        insert_by_order(sorted, x, order) == sorted.insert(order_pos(sorted, x, order), x),
        forall|i: int| 0 <= i < order_pos(sorted, x, order) ==> order(x, #[trigger] sorted[i]) >= 0,
        order_pos(sorted, x, order) < sorted.len() ==> order(x, sorted[order_pos(sorted, x, order)]) < 0,
    decreases sorted.len(),
{
    if sorted.len() > 0 && order(x, sorted[0]) >= 0 {
        lemma_order_pos(sorted.skip(1), x, order);
        let p = order_pos(sorted.skip(1), x, order);
        assert(seq![sorted[0]] + sorted.skip(1).insert(p, x) =~= sorted.insert(p + 1, x));
        assert forall|i: int| 0 <= i < p + 1 implies order(x, #[trigger] sorted[i]) >= 0 by {
            if i > 0 {
                assert(sorted[i] == sorted.skip(1)[i - 1]);
            }
        }
    } else if sorted.len() > 0 {
        assert(seq![x] + sorted =~= sorted.insert(0, x));
    } else {
        assert(seq![x] =~= sorted.insert(0, x));
    }
}


/// Law: sorting by insertion rearranges the entries without adding or losing any.
pub proof fn law_sort_by_order_permutes<A>(s: Seq<A>, order: spec_fn(A, A) -> int)
    ensures
        sort_by_order(s, order).to_multiset() == s.to_multiset(),
    decreases s.len(),
{
    broadcast use vstd::seq_lib::to_multiset_build, vstd::seq_lib::to_multiset_insert;

    if s.len() > 0 {
        law_sort_by_order_permutes(s.drop_last(), order);
        let sorted = sort_by_order(s.drop_last(), order);
        lemma_order_pos(sorted, s.last(), order);
        assert(s.drop_last().push(s.last()) =~= s);
    }
}

/// Whether `order` is a total preorder: antisymmetric in sign and transitive.
pub open spec fn total_preorder<A>(order: spec_fn(A, A) -> int) -> bool {
    &&& forall|a: A, b: A| #[trigger] order(a, b) < 0 <==> order(b, a) > 0
    &&& forall|a: A, b: A, c: A|
        #[trigger] order(a, b) <= 0 && #[trigger] order(b, c) <= 0 ==> order(a, c) <= 0
}

/// Whether `s` is ordered under `order`.
pub open spec fn ordered_by<A>(s: Seq<A>, order: spec_fn(A, A) -> int) -> bool {
    forall|i: int, j: int| 0 <= i < j < s.len() ==> order(#[trigger] s[i], #[trigger] s[j]) <= 0
}

/// Law: under a total preorder, sorting by insertion yields an ordered sequence.
pub proof fn law_sort_by_order_sorted<A>(s: Seq<A>, order: spec_fn(A, A) -> int)
    requires
        total_preorder(order),
    ensures
        ordered_by(sort_by_order(s, order), order),
    decreases s.len(),
{
    if s.len() > 0 {
        law_sort_by_order_sorted(s.drop_last(), order);
        let sorted = sort_by_order(s.drop_last(), order);
        let x = s.last();
        lemma_order_pos(sorted, x, order);
        let p = order_pos(sorted, x, order);
        let r = sorted.insert(p, x);
        assert forall|i: int, j: int| 0 <= i < j < r.len() implies order(#[trigger] r[i], #[trigger] r[j]) <= 0 by {
            if j < p {
                assert(r[i] == sorted[i] && r[j] == sorted[j]);
            } else if j == p {
                assert(r[i] == sorted[i] && r[j] == x);
                assert(order(x, sorted[i]) >= 0);
                if order(sorted[i], x) > 0 {
                    assert(order(x, sorted[i]) < 0);
                }
            } else if i < p {
                assert(r[i] == sorted[i] && r[j] == sorted[j - 1]);
            } else if i == p {
                assert(r[i] == x && r[j] == sorted[j - 1]);
                assert(order(x, sorted[p]) < 0);
                if j - 1 > p {
                    assert(order(sorted[p], sorted[j - 1]) <= 0);
                }
            } else {
                assert(r[i] == sorted[i - 1] && r[j] == sorted[j - 1]);
            }
        }
    }
}

/// No text precedes itself.
pub proof fn lemma_lex_irreflexive(a: Seq<char>)
    ensures
        !lex_lt(a, a),
    decreases a.len(),
{
    if a.len() > 0 {
        lemma_lex_irreflexive(a.skip(1));
    }
}

/// Lexicographic order is transitive.
pub proof fn lemma_lex_transitive(a: Seq<char>, b: Seq<char>, c: Seq<char>)
    requires
        lex_lt(a, b),
        lex_lt(b, c),
    ensures
        lex_lt(a, c),
    decreases a.len(),
{
    if a.len() > 0 && b.len() > 0 && c.len() > 0 && a[0] == b[0] && b[0] == c[0] {
        lemma_lex_transitive(a.skip(1), b.skip(1), c.skip(1));
    }
}

/// Of two different texts, one precedes the other.
pub proof fn lemma_lex_total(a: Seq<char>, b: Seq<char>)
    requires
        a != b,
    ensures
        lex_lt(a, b) || lex_lt(b, a),
    decreases a.len(),
{
    if a.len() > 0 && b.len() > 0 && a[0] == b[0] {
        if a.skip(1) == b.skip(1) {
            assert(a =~= seq![a[0]] + a.skip(1));
            assert(b =~= seq![b[0]] + b.skip(1));
        }
        lemma_lex_total(a.skip(1), b.skip(1));
    } else if a.len() == 0 && b.len() == 0 {
        assert(a =~= b);
    }
}

/// Keys strictly increase along `s`.
pub open spec fn strictly_sorted_by_key<A>(s: Seq<A>, key: spec_fn(A) -> Seq<char>) -> bool {
    forall|i: int, j: int| 0 <= i < j < s.len() ==> lex_lt(key(#[trigger] s[i]), key(#[trigger] s[j]))
}

/// Keeping the first entry of each key changes nothing when the keys are
/// already distinct.
pub proof fn lemma_keep_first_all<A, K>(acc: Seq<A>, rest: Seq<A>, key: spec_fn(A) -> K)
    requires
        keys_distinct(acc + rest, key),
    ensures
        keep_first_by(acc, rest, key) == acc + rest,
    decreases rest.len(),
{
    if rest.len() == 0 {
        assert(acc + rest =~= acc);
    } else {
        let all = (acc + rest).map_values(key);
        if acc.map_values(key).contains(key(rest[0])) {
            let k = choose|k: int| 0 <= k < acc.len() && acc.map_values(key)[k] == key(rest[0]);
            assert(all[k] == all[acc.len() as int]);
        }
        assert(acc.push(rest[0]) + rest.skip(1) =~= acc + rest);
        lemma_keep_first_all(acc.push(rest[0]), rest.skip(1), key);
    }
}

/// With distinct keys, sorting by key gives keys in strictly increasing order
/// and keeps exactly the entries it was given.
pub proof fn lemma_sort_by_key_strict<A>(s: Seq<A>, key: spec_fn(A) -> Seq<char>)
    requires
        keys_distinct(s, key),
    ensures
        strictly_sorted_by_key(sort_by_key(s, key), key),
        forall|y: A| sort_by_key(s, key).contains(y) <==> s.contains(y),
    decreases s.len(),
{
    if s.len() > 0 {
        let rest = s.drop_last();
        let x = s.last();
        assert(rest.map_values(key) =~= s.map_values(key).drop_last());
        lemma_sort_by_key_strict(rest, key);
        let sorted = sort_by_key(rest, key);
        lemma_insert_pos(sorted, x, key);
        let p = insert_pos(sorted, x, key);
        let r = sorted.insert(p, x);
        assert forall|y: A| sorted.contains(y) implies key(y) != key(x) by {
            assert(rest.contains(y));
            let k = choose|k: int| 0 <= k < rest.len() && rest[k] == y;
            assert(s[k] == rest[k]);
            assert(s.map_values(key)[k] == key(y));
            assert(s.map_values(key)[s.len() - 1] == key(x));
            assert(k != s.len() - 1);
        }
        assert forall|i: int| 0 <= i < p implies lex_lt(key(#[trigger] sorted[i]), key(x)) by {
            assert(sorted.contains(sorted[i]));
            lemma_lex_total(key(sorted[i]), key(x));
        }
        assert forall|i: int, j: int| 0 <= i < j < r.len() implies lex_lt(
            key(#[trigger] r[i]),
            key(#[trigger] r[j]),
        ) by {
            if j < p {
                assert(r[i] == sorted[i] && r[j] == sorted[j]);
            } else if j == p {
                assert(r[i] == sorted[i] && r[j] == x);
            } else if i < p {
                assert(r[i] == sorted[i] && r[j] == sorted[j - 1]);
            } else if i == p {
                assert(r[i] == x && r[j] == sorted[j - 1]);
                if j - 1 > p {
                    lemma_lex_transitive(key(x), key(sorted[p]), key(sorted[j - 1]));
                }
            } else {
                assert(r[i] == sorted[i - 1] && r[j] == sorted[j - 1]);
            }
        }
        assert forall|y: A| r.contains(y) <==> s.contains(y) by {
            if r.contains(y) {
                let k = choose|k: int| 0 <= k < r.len() && r[k] == y;
                if k != p {
                    if k < p {
                        assert(sorted[k] == y);
                    } else {
                        assert(sorted[k - 1] == y);
                    }
                    assert(sorted.contains(y));
                    assert(rest.contains(y));
                    let q = choose|q: int| 0 <= q < rest.len() && rest[q] == y;
                    assert(s[q] == y);
                } else {
                    assert(s[s.len() - 1] == y);
                }
            }
            if s.contains(y) {
                let k = choose|k: int| 0 <= k < s.len() && s[k] == y;
                if k < s.len() - 1 {
                    assert(rest[k] == y);
                    assert(rest.contains(y));
                    assert(sorted.contains(y));
                    let m = choose|m: int| 0 <= m < sorted.len() && sorted[m] == y;
                    if m < p {
                        assert(r[m] == y);
                    } else {
                        assert(r[m + 1] == y);
                    }
                } else {
                    assert(r[p] == y);
                }
            }
        }
    }
}

/// Two sequences whose keys strictly increase and which hold the same entries
/// are equal.
pub proof fn lemma_strictly_sorted_unique<A>(a: Seq<A>, b: Seq<A>, key: spec_fn(A) -> Seq<char>)
    requires
        strictly_sorted_by_key(a, key),
        strictly_sorted_by_key(b, key),
        forall|y: A| a.contains(y) <==> b.contains(y),
    ensures
        a == b,
    decreases a.len(),
{
    if a.len() == 0 {
        if b.len() > 0 {
            assert(b.contains(b[0]));
        }
        assert(a =~= b);
    } else if b.len() == 0 {
        assert(a.contains(a[0]));
    } else {
        assert(a.contains(a[0]));
        assert(b.contains(b[0]));
        let k = choose|k: int| 0 <= k < b.len() && b[k] == a[0];
        let m = choose|m: int| 0 <= m < a.len() && a[m] == b[0];
        if k > 0 && m > 0 {
            lemma_lex_transitive(key(b[0]), key(a[0]), key(b[0]));
            lemma_lex_irreflexive(key(b[0]));
        } else if k > 0 {
            lemma_lex_irreflexive(key(a[0]));
        } else if m > 0 {
            lemma_lex_irreflexive(key(b[0]));
        }
        assert(a[0] == b[0]);
        let a1 = a.skip(1);
        let b1 = b.skip(1);
        assert forall|y: A| a1.contains(y) <==> b1.contains(y) by {
            if a1.contains(y) {
                let i = choose|i: int| 0 <= i < a1.len() && a1[i] == y;
                assert(a[i + 1] == y);
                assert(a.contains(y));
                let j = choose|j: int| 0 <= j < b.len() && b[j] == y;
                if j == 0 {
                    lemma_lex_irreflexive(key(a[0]));
                }
                assert(b1[j - 1] == y);
            }
            if b1.contains(y) {
                let i = choose|i: int| 0 <= i < b1.len() && b1[i] == y;
                assert(b[i + 1] == y);
                assert(b.contains(y));
                let j = choose|j: int| 0 <= j < a.len() && a[j] == y;
                if j == 0 {
                    lemma_lex_irreflexive(key(b[0]));
                }
                assert(a1[j - 1] == y);
            }
        }
        assert forall|i: int, j: int| 0 <= i < j < a1.len() implies lex_lt(key(#[trigger] a1[i]), key(#[trigger] a1[j])) by {
            assert(a1[i] == a[i + 1] && a1[j] == a[j + 1]);
        }
        assert forall|i: int, j: int| 0 <= i < j < b1.len() implies lex_lt(key(#[trigger] b1[i]), key(#[trigger] b1[j])) by {
            assert(b1[i] == b[i + 1] && b1[j] == b[j + 1]);
        }
        lemma_strictly_sorted_unique(a1, b1, key);
        assert(a =~= seq![a[0]] + a1);
        assert(b =~= seq![b[0]] + b1);
    }
}

/// Keeping the first entry of each key and then sorting by key gives the same
/// result for any two orders of the same entries with distinct keys.
pub proof fn lemma_dedup_sort_order_free<A>(s: Seq<A>, t: Seq<A>, key: spec_fn(A) -> Seq<char>)
    requires
        keys_distinct(s, key),
        keys_distinct(t, key),
        forall|y: A| s.contains(y) <==> t.contains(y),
    ensures
        sort_by_key(dedup_by(s, key), key) == sort_by_key(dedup_by(t, key), key),
{
    assert(Seq::<A>::empty() + s =~= s);
    assert(Seq::<A>::empty() + t =~= t);
    lemma_keep_first_all(Seq::<A>::empty(), s, key);
    lemma_keep_first_all(Seq::<A>::empty(), t, key);
    lemma_sort_by_key_strict(s, key);
    lemma_sort_by_key_strict(t, key);
    assert forall|y: A| sort_by_key(s, key).contains(y) <==> sort_by_key(t, key).contains(y) by {
        assert(sort_by_key(s, key).contains(y) <==> s.contains(y));
        assert(sort_by_key(t, key).contains(y) <==> t.contains(y));
    }
    lemma_strictly_sorted_unique(sort_by_key(s, key), sort_by_key(t, key), key);
}

/// Whether `order` is a total preorder among the entries of `s`: antisymmetric
/// in sign and transitive.
pub open spec fn preorder_on<A>(order: spec_fn(A, A) -> int, s: Seq<A>) -> bool {
    &&& forall|a: A, b: A|
        #![trigger s.contains(a), s.contains(b)]
        s.contains(a) && s.contains(b) ==> (order(a, b) < 0 <==> order(b, a) > 0)
    &&& forall|a: A, b: A, c: A|
        #![trigger s.contains(a), s.contains(b), s.contains(c)]
        s.contains(a) && s.contains(b) && s.contains(c) && order(a, b) <= 0 && order(b, c) <= 0
            ==> order(a, c) <= 0
}

/// Sorting by insertion keeps exactly the entries it is given.
pub proof fn lemma_sort_by_order_contains<A>(s: Seq<A>, order: spec_fn(A, A) -> int, y: A)
    ensures
        sort_by_order(s, order).contains(y) <==> s.contains(y),
{
    broadcast use vstd::seq_lib::to_multiset_contains;
    law_sort_by_order_permutes(s, order);
    assert(sort_by_order(s, order).to_multiset().count(y) == s.to_multiset().count(y));
}

/// Law: where `order` is a total preorder among the entries of `s`, sorting by
/// insertion yields an ordered sequence.
pub proof fn law_sort_by_order_sorted_on<A>(s: Seq<A>, order: spec_fn(A, A) -> int)
    requires
        preorder_on(order, s),
    ensures
        ordered_by(sort_by_order(s, order), order),
    decreases s.len(),
{
    if s.len() > 0 {
        let rest = s.drop_last();
        let x = s.last();
        assert forall|y: A| rest.contains(y) implies s.contains(y) by {
            let k = choose|k: int| 0 <= k < rest.len() && rest[k] == y;
            assert(s[k] == y);
        }
        assert(s.contains(x)) by {
            assert(s[s.len() - 1] == x);
        }
        assert(preorder_on(order, rest)) by {
            assert forall|a: A, b: A| rest.contains(a) && rest.contains(b) implies (order(a, b) < 0
                <==> order(b, a) > 0) by {
                assert(s.contains(a) && s.contains(b));
            }
            assert forall|a: A, b: A, c: A|
                rest.contains(a) && rest.contains(b) && rest.contains(c) && order(a, b) <= 0 && order(b, c)
                    <= 0 implies order(a, c) <= 0 by {
                assert(s.contains(a) && s.contains(b) && s.contains(c));
            }
        }
        law_sort_by_order_sorted_on(rest, order);
        let sorted = sort_by_order(rest, order);
        lemma_order_pos(sorted, x, order);
        let p = order_pos(sorted, x, order);
        let r = sorted.insert(p, x);
        assert forall|k: int| 0 <= k < sorted.len() implies s.contains(#[trigger] sorted[k]) by {
            assert(sorted.contains(sorted[k]));
            lemma_sort_by_order_contains(rest, order, sorted[k]);
        }
        assert forall|i: int, j: int| 0 <= i < j < r.len() implies order(#[trigger] r[i], #[trigger] r[j]) <= 0 by {
            if j < p {
                assert(r[i] == sorted[i] && r[j] == sorted[j]);
            } else if j == p {
                assert(r[i] == sorted[i] && r[j] == x);
                assert(order(x, sorted[i]) >= 0);
                assert(s.contains(sorted[i]));
                if order(sorted[i], x) > 0 {
                    assert(order(x, sorted[i]) < 0);
                }
            } else if i < p {
                assert(r[i] == sorted[i] && r[j] == sorted[j - 1]);
            } else if i == p {
                assert(r[i] == x && r[j] == sorted[j - 1]);
                assert(order(x, sorted[p]) < 0);
                assert(s.contains(sorted[p]));
                assert(s.contains(sorted[j - 1]));
                if j - 1 > p {
                    assert(order(sorted[p], sorted[j - 1]) <= 0);
                }
            } else {
                assert(r[i] == sorted[i - 1] && r[j] == sorted[j - 1]);
            }
        }
    }
}

} // verus!
