use vstd::prelude::*;
use vstd::multiset::Multiset;

verus! {

// Listings and reports hand out their rows in a defined order: newest
// transactions first, largest spending first. Each ordering is expressed
// through a two-part integer key; `key_before(a, b)` says that a row with
// key `a` comes strictly before one with key `b` (descending on the first
// part, then descending on the second). Sorting is specified by insertion,
// which pins the result of the executable sorts exactly, ties included.

/// Strict "comes first": a larger first key part, or an equal first part
/// and a larger second part.
pub open spec fn key_before(a: (i128, i128), b: (i128, i128)) -> bool {
    a.0 > b.0 || (a.0 == b.0 && a.1 > b.1)
}

/// Inserts `x` in front of the first element it comes strictly before; an
/// element with an equal key therefore keeps its place and `x` follows it.
pub open spec fn insert_desc<A>(s: Seq<A>, x: A, key: spec_fn(A) -> (i128, i128)) -> Seq<A>
    decreases s.len(),
{
    if s.len() == 0 {
        seq![x]
    } else if key_before(key(x), key(s[0])) {
        seq![x] + s
    } else {
        seq![s[0]] + insert_desc(s.drop_first(), x, key)
    }
}

/// Insertion sort, descending by key: the unique stable descending order.
pub open spec fn sort_desc<A>(s: Seq<A>, key: spec_fn(A) -> (i128, i128)) -> Seq<A>
    decreases s.len(),
{
    if s.len() == 0 {
        Seq::<A>::empty()
    } else {
        insert_desc(sort_desc(s.drop_last(), key), s.last(), key)
    }
}

/// No element comes strictly before an earlier one.
pub open spec fn sorted_desc<A>(s: Seq<A>, key: spec_fn(A) -> (i128, i128)) -> bool {
    forall|i: int, j: int|
        #![trigger s[i], s[j]]
        0 <= i < j < s.len() ==> !key_before(key(s[j]), key(s[i]))
}

pub proof fn lemma_insert_desc_len<A>(s: Seq<A>, x: A, key: spec_fn(A) -> (i128, i128))
    ensures
        insert_desc(s, x, key).len() == s.len() + 1,
    decreases s.len(),
{
    if s.len() == 0 {
    } else if key_before(key(x), key(s[0])) {
    } else {
        lemma_insert_desc_len(s.drop_first(), x, key);
    }
}

/// Every element of the insertion result is the new element or one of the
/// old ones.
pub proof fn lemma_insert_desc_elems<A>(s: Seq<A>, x: A, key: spec_fn(A) -> (i128, i128))
    ensures
        forall|n: int|
            0 <= n < insert_desc(s, x, key).len() ==> #[trigger] insert_desc(s, x, key)[n] == x
                || s.contains(insert_desc(s, x, key)[n]),
    decreases s.len(),
{
    let r = insert_desc(s, x, key);
    if s.len() == 0 {
    } else if key_before(key(x), key(s[0])) {
        assert forall|n: int| 0 <= n < r.len() implies #[trigger] r[n] == x || s.contains(r[n]) by {
            if n > 0 {
                assert(r[n] == s[n - 1]);
            }
        }
    } else {
        lemma_insert_desc_elems(s.drop_first(), x, key);
        assert forall|n: int| 0 <= n < r.len() implies #[trigger] r[n] == x || s.contains(r[n]) by {
            if n == 0 {
                assert(r[0] == s[0]);
                assert(s.contains(s[0]));
            } else {
                let rr = insert_desc(s.drop_first(), x, key);
                assert(r[n] == rr[n - 1]);
                if rr[n - 1] != x {
                    let m = choose|m: int|
                        0 <= m < s.drop_first().len() && s.drop_first()[m] == rr[n - 1];
                    assert(s[m + 1] == rr[n - 1]);
                }
            }
        }
    }
}

/// Inserting into a descending sequence keeps it descending.
pub proof fn lemma_insert_desc_sorted<A>(s: Seq<A>, x: A, key: spec_fn(A) -> (i128, i128))
    requires
        sorted_desc(s, key),
    ensures
        sorted_desc(insert_desc(s, x, key), key),
    decreases s.len(),
{
    let r = insert_desc(s, x, key);
    if s.len() == 0 {
    } else if key_before(key(x), key(s[0])) {
        assert forall|i: int, j: int|
            #![trigger r[i], r[j]]
            0 <= i < j < r.len() implies !key_before(key(r[j]), key(r[i])) by {
            if i == 0 {
                assert(r[j] == s[j - 1]);
                if j > 1 {
                    assert(!key_before(key(s[j - 1]), key(s[0])));
                }
            } else {
                assert(r[i] == s[i - 1]);
                assert(r[j] == s[j - 1]);
            }
        }
    } else {
        let df = s.drop_first();
        assert(sorted_desc(df, key)) by {
            assert(forall|k: int| 0 <= k < df.len() ==> df[k] == s[k + 1]);
        }
        lemma_insert_desc_sorted(df, x, key);
        lemma_insert_desc_elems(df, x, key);
        let rr = insert_desc(df, x, key);
        assert forall|i: int, j: int|
            #![trigger r[i], r[j]]
            0 <= i < j < r.len() implies !key_before(key(r[j]), key(r[i])) by {
            if i == 0 {
                assert(r[0] == s[0]);
                assert(r[j] == rr[j - 1]);
                if rr[j - 1] == x {
                    assert(!key_before(key(x), key(s[0])));
                } else {
                    let m = choose|m: int| 0 <= m < df.len() && df[m] == rr[j - 1];
                    assert(df[m] == s[m + 1]);
                    assert(!key_before(key(s[m + 1]), key(s[0])));
                }
            } else {
                assert(r[i] == rr[i - 1]);
                assert(r[j] == rr[j - 1]);
            }
        }
    }
}

/// The sorted sequence is descending.
pub proof fn lemma_sort_desc_sorted<A>(s: Seq<A>, key: spec_fn(A) -> (i128, i128))
    ensures
        sorted_desc(sort_desc(s, key), key),
        sort_desc(s, key).len() == s.len(),
    decreases s.len(),
{
    if s.len() == 0 {
    } else {
        lemma_sort_desc_sorted(s.drop_last(), key);
        lemma_insert_desc_sorted(sort_desc(s.drop_last(), key), s.last(), key);
        lemma_insert_desc_len(sort_desc(s.drop_last(), key), s.last(), key);
    }
}

/// Insertion adds exactly the new element to the contents.
pub proof fn lemma_insert_desc_multiset<A>(s: Seq<A>, x: A, key: spec_fn(A) -> (i128, i128))
    ensures
        insert_desc(s, x, key).to_multiset() == s.push(x).to_multiset(),
    decreases s.len(),
{
    broadcast use vstd::seq_lib::group_to_multiset_ensures;

    if s.len() == 0 {
        assert(insert_desc(s, x, key) =~= s.push(x));
    } else if key_before(key(x), key(s[0])) {
        let r = seq![x] + s;
        assert(r =~= seq![x].add(s));
        vstd::seq_lib::lemma_multiset_commutative(seq![x], s);
        assert(seq![x].to_multiset() =~= Seq::<A>::empty().push(x).to_multiset());
        assert(Seq::<A>::empty().push(x).to_multiset() =~= Multiset::<A>::empty().insert(x));
        assert(s.push(x).to_multiset() =~= s.to_multiset().insert(x));
        assert(r.to_multiset() =~= s.to_multiset().insert(x));
    } else {
        let df = s.drop_first();
        lemma_insert_desc_multiset(df, x, key);
        let rr = insert_desc(df, x, key);
        let r = seq![s[0]] + rr;
        vstd::seq_lib::lemma_multiset_commutative(seq![s[0]], rr);
        assert(seq![s[0]].to_multiset() =~= Multiset::<A>::empty().insert(s[0]));
        assert(df.push(x).to_multiset() =~= df.to_multiset().insert(x));
        assert(s =~= seq![s[0]] + df);
        vstd::seq_lib::lemma_multiset_commutative(seq![s[0]], df);
        assert(s.push(x).to_multiset() =~= s.to_multiset().insert(x));
        assert(r.to_multiset() =~= s.to_multiset().insert(x));
    }
}

/// Sorting keeps exactly the same contents.
pub proof fn lemma_sort_desc_multiset<A>(s: Seq<A>, key: spec_fn(A) -> (i128, i128))
    ensures
        sort_desc(s, key).to_multiset() == s.to_multiset(),
    decreases s.len(),
{
    broadcast use vstd::seq_lib::group_to_multiset_ensures;

    if s.len() == 0 {
        assert(sort_desc(s, key) =~= s);
    } else {
        lemma_sort_desc_multiset(s.drop_last(), key);
        lemma_insert_desc_multiset(sort_desc(s.drop_last(), key), s.last(), key);
        assert(s =~= s.drop_last().push(s.last()));
    }
}

// Name orderings have no integer key, so the account and category listings
// sort by a strict "comes first" relation instead. The same insertion shape
// is used; the sortedness lemma asks only that the relation is a strict
// order (irreflexive and transitive).

/// The relation is a strict order: nothing comes before itself, and
/// "comes before" chains compose.
pub open spec fn strict_order<A>(before: spec_fn(A, A) -> bool) -> bool {
    &&& forall|a: A| !#[trigger] before(a, a)
    &&& forall|a: A, b: A, c: A|
        #![trigger before(a, b), before(b, c)]
        before(a, b) && before(b, c) ==> before(a, c)
}

/// Inserts `x` in front of the first element it comes strictly before; an
/// element it ties with therefore keeps its place and `x` follows it.
pub open spec fn insert_ord<A>(s: Seq<A>, x: A, before: spec_fn(A, A) -> bool) -> Seq<A>
    decreases s.len(),
{
    if s.len() == 0 {
        seq![x]
    } else if before(x, s[0]) {
        seq![x] + s
    } else {
        seq![s[0]] + insert_ord(s.drop_first(), x, before)
    }
}

/// Insertion sort by the relation: the unique stable order with no element
/// strictly before an earlier one.
pub open spec fn sort_ord<A>(s: Seq<A>, before: spec_fn(A, A) -> bool) -> Seq<A>
    decreases s.len(),
{
    if s.len() == 0 {
        Seq::<A>::empty()
    } else {
        insert_ord(sort_ord(s.drop_last(), before), s.last(), before)
    }
}

/// No element comes strictly before an earlier one.
pub open spec fn sorted_ord<A>(s: Seq<A>, before: spec_fn(A, A) -> bool) -> bool {
    forall|i: int, j: int|
        #![trigger s[i], s[j]]
        0 <= i < j < s.len() ==> !before(s[j], s[i])
}

pub proof fn lemma_insert_ord_len<A>(s: Seq<A>, x: A, before: spec_fn(A, A) -> bool)
    ensures
        insert_ord(s, x, before).len() == s.len() + 1,
    decreases s.len(),
{
    if s.len() == 0 {
    } else if before(x, s[0]) {
    } else {
        lemma_insert_ord_len(s.drop_first(), x, before);
    }
}

/// Every element of the insertion result is the new element or one of the
/// old ones.
pub proof fn lemma_insert_ord_elems<A>(s: Seq<A>, x: A, before: spec_fn(A, A) -> bool)
    ensures
        forall|n: int|
            0 <= n < insert_ord(s, x, before).len() ==> #[trigger] insert_ord(s, x, before)[n] == x
                || s.contains(insert_ord(s, x, before)[n]),
    decreases s.len(),
{
    let r = insert_ord(s, x, before);
    if s.len() == 0 {
    } else if before(x, s[0]) {
        assert forall|n: int| 0 <= n < r.len() implies #[trigger] r[n] == x || s.contains(r[n]) by {
            if n > 0 {
                assert(r[n] == s[n - 1]);
            }
        }
    } else {
        lemma_insert_ord_elems(s.drop_first(), x, before);
        assert forall|n: int| 0 <= n < r.len() implies #[trigger] r[n] == x || s.contains(r[n]) by {
            if n == 0 {
                assert(r[0] == s[0]);
                assert(s.contains(s[0]));
            } else {
                let rr = insert_ord(s.drop_first(), x, before);
                assert(r[n] == rr[n - 1]);
                if rr[n - 1] != x {
                    let m = choose|m: int|
                        0 <= m < s.drop_first().len() && s.drop_first()[m] == rr[n - 1];
                    assert(s[m + 1] == rr[n - 1]);
                }
            }
        }
    }
}

/// Inserting into a sorted sequence keeps it sorted.
pub proof fn lemma_insert_ord_sorted<A>(s: Seq<A>, x: A, before: spec_fn(A, A) -> bool)
    requires
        sorted_ord(s, before),
        strict_order(before),
    ensures
        sorted_ord(insert_ord(s, x, before), before),
    decreases s.len(),
{
    let r = insert_ord(s, x, before);
    if s.len() == 0 {
    } else if before(x, s[0]) {
        assert forall|i: int, j: int|
            #![trigger r[i], r[j]]
            0 <= i < j < r.len() implies !before(r[j], r[i]) by {
            if i == 0 {
                assert(r[j] == s[j - 1]);
                if j > 1 {
                    assert(!before(s[j - 1], s[0]));
                }
                // an element before x would, by transitivity, be before s[0]
                if before(s[j - 1], x) {
                    assert(before(s[j - 1], s[0]));
                }
            } else {
                assert(r[i] == s[i - 1]);
                assert(r[j] == s[j - 1]);
            }
        }
    } else {
        let df = s.drop_first();
        assert(sorted_ord(df, before)) by {
            assert(forall|k: int| 0 <= k < df.len() ==> df[k] == s[k + 1]);
        }
        lemma_insert_ord_sorted(df, x, before);
        lemma_insert_ord_elems(df, x, before);
        let rr = insert_ord(df, x, before);
        assert forall|i: int, j: int|
            #![trigger r[i], r[j]]
            0 <= i < j < r.len() implies !before(r[j], r[i]) by {
            if i == 0 {
                assert(r[0] == s[0]);
                assert(r[j] == rr[j - 1]);
                if rr[j - 1] == x {
                    assert(!before(x, s[0]));
                } else {
                    let m = choose|m: int| 0 <= m < df.len() && df[m] == rr[j - 1];
                    assert(df[m] == s[m + 1]);
                    assert(!before(s[m + 1], s[0]));
                }
            } else {
                assert(r[i] == rr[i - 1]);
                assert(r[j] == rr[j - 1]);
            }
        }
    }
}

/// The sorted sequence is sorted and keeps its length.
pub proof fn lemma_sort_ord_sorted<A>(s: Seq<A>, before: spec_fn(A, A) -> bool)
    requires
        strict_order(before),
    ensures
        sorted_ord(sort_ord(s, before), before),
        sort_ord(s, before).len() == s.len(),
    decreases s.len(),
{
    if s.len() == 0 {
    } else {
        lemma_sort_ord_sorted(s.drop_last(), before);
        lemma_insert_ord_sorted(sort_ord(s.drop_last(), before), s.last(), before);
        lemma_insert_ord_len(sort_ord(s.drop_last(), before), s.last(), before);
    }
}

/// Where the executable scan stops is where the specification inserts.
pub proof fn lemma_insert_ord_at<A>(s: Seq<A>, x: A, before: spec_fn(A, A) -> bool, j: int)
    requires
        0 <= j <= s.len(),
        forall|m: int| 0 <= m < j ==> !before(x, #[trigger] s[m]),
        j < s.len() ==> before(x, s[j]),
    ensures
        insert_ord(s, x, before) == s.take(j) + seq![x] + s.skip(j),
    decreases j,
{
    if j == 0 {
        if s.len() == 0 {
            assert(insert_ord(s, x, before) =~= s.take(0) + seq![x] + s.skip(0));
        } else {
            assert(before(x, s[0]));
            assert(insert_ord(s, x, before) =~= s.take(0) + seq![x] + s.skip(0));
        }
    } else {
        assert(s.len() > 0);
        assert(!before(x, s[0]));
        let df = s.drop_first();
        assert(forall|m: int| 0 <= m < j - 1 ==> #[trigger] df[m] == s[m + 1]);
        assert(j - 1 < df.len() ==> before(x, df[j - 1]));
        lemma_insert_ord_at(df, x, before, j - 1);
        assert(insert_ord(s, x, before) == seq![s[0]] + (df.take(j - 1) + seq![x] + df.skip(j - 1)));
        assert(seq![s[0]] + (df.take(j - 1) + seq![x] + df.skip(j - 1)) =~= s.take(j) + seq![x]
            + s.skip(j));
    }
}

/// Sorting a duplicate-free sequence gives a duplicate-free sequence.
pub proof fn lemma_sort_desc_no_dup<A>(s: Seq<A>, key: spec_fn(A) -> (i128, i128))
    requires
        s.no_duplicates(),
    ensures
        sort_desc(s, key).no_duplicates(),
{
    broadcast use vstd::seq_lib::group_to_multiset_ensures;

    lemma_sort_desc_multiset(s, key);
    s.lemma_multiset_has_no_duplicates();
    sort_desc(s, key).lemma_multiset_has_no_duplicates_conv();
}

/// Where the executable scan stops is where the specification inserts.
pub proof fn lemma_insert_desc_at<A>(s: Seq<A>, x: A, key: spec_fn(A) -> (i128, i128), j: int)
    requires
        0 <= j <= s.len(),
        forall|m: int| 0 <= m < j ==> !key_before(key(x), key(#[trigger] s[m])),
        j < s.len() ==> key_before(key(x), key(s[j])),
    ensures
        insert_desc(s, x, key) == s.take(j) + seq![x] + s.skip(j),
    decreases j,
{
    if j == 0 {
        if s.len() == 0 {
            assert(insert_desc(s, x, key) =~= s.take(0) + seq![x] + s.skip(0));
        } else {
            assert(key_before(key(x), key(s[0])));
            assert(insert_desc(s, x, key) =~= s.take(0) + seq![x] + s.skip(0));
        }
    } else {
        assert(s.len() > 0);
        assert(!key_before(key(x), key(s[0])));
        let df = s.drop_first();
        assert(forall|m: int| 0 <= m < j - 1 ==> #[trigger] df[m] == s[m + 1]);
        assert(j - 1 < df.len() ==> key_before(key(x), key(df[j - 1])));
        lemma_insert_desc_at(df, x, key, j - 1);
        assert(insert_desc(s, x, key) == seq![s[0]] + (df.take(j - 1) + seq![x] + df.skip(j - 1)));
        assert(seq![s[0]] + (df.take(j - 1) + seq![x] + df.skip(j - 1)) =~= s.take(j) + seq![x]
            + s.skip(j));
    }
}

} // verus!
