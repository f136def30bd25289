//! Rows that are arranged by an order: which rows there are, and in which
//! order they stand.
use vstd::prelude::*;

verus! {

/// The rows are those that are shown, each once, in the order that is given.
pub open spec fn arranged(
    rows: Seq<int>,
    shown: spec_fn(int) -> bool,
    before: spec_fn(int, int) -> bool,
) -> bool {
    &&& forall|i: int| 0 <= i < rows.len() ==> shown(#[trigger] rows[i])
    &&& forall|k: int| #[trigger] shown(k) ==> rows.contains(k)
    &&& forall|i: int, j: int|
        0 <= i < j < rows.len() ==> before(#[trigger] rows[i], #[trigger] rows[j])
}

/// Of two rows one stands before the other, and the order is transitive.
pub open spec fn strict(before: spec_fn(int, int) -> bool) -> bool {
    &&& forall|a: int, b: int| #![trigger before(a, b)] a != b ==> before(a, b) != before(b, a)
    &&& forall|a: int| #![trigger before(a, a)] !before(a, a)
    &&& forall|a: int, b: int, c: int|
        #![trigger before(a, b), before(b, c)]
        before(a, b) && before(b, c) ==> before(a, c)
}

/// There is only one way to arrange rows by an order.
pub proof fn arrangement_is_unique(
    a: Seq<int>,
    b: Seq<int>,
    shown: spec_fn(int) -> bool,
    before: spec_fn(int, int) -> bool,
)
    requires
        strict(before),
        arranged(a, shown, before),
        arranged(b, shown, before),
    ensures
        a == b,
    decreases a.len(),
{
    if a.len() == 0 {
        if b.len() > 0 {
            assert(shown(b[0]));
            assert(a.contains(b[0]));
        }
        assert(a =~= b);
    } else {
        assert(shown(a[0]));
        assert(b.contains(a[0]));
        assert(b.len() > 0);
        assert(shown(b[0]));
        assert(a.contains(b[0]));
        let i = choose|i: int| 0 <= i < a.len() && a[i] == b[0];
        let j = choose|j: int| 0 <= j < b.len() && b[j] == a[0];
        if a[0] != b[0] {
            assert(before(a[0], a[i]));
            assert(before(b[0], b[j]));
            assert(false);
        }
        let first = a[0];
        let rest = |k: int| shown(k) && k != first;
        lemma_tail(a, shown, before);
        lemma_tail(b, shown, before);
        let rest_b = |k: int| shown(k) && k != b[0];
        assert(rest =~= rest_b);
        arrangement_is_unique(a.drop_first(), b.drop_first(), rest, before);
        assert(a =~= seq![first] + a.drop_first());
        assert(b =~= seq![first] + b.drop_first());
    }
}

proof fn lemma_tail(a: Seq<int>, shown: spec_fn(int) -> bool, before: spec_fn(int, int) -> bool)
    requires
        strict(before),
        arranged(a, shown, before),
        a.len() > 0,
    ensures
        arranged(a.drop_first(), |k: int| shown(k) && k != a[0], before),
{
    let t = a.drop_first();
    let rest = |k: int| shown(k) && k != a[0];
    assert forall|i: int| 0 <= i < t.len() implies rest(#[trigger] t[i]) by {
        assert(t[i] == a[i + 1]);
        assert(shown(a[i + 1]));
        assert(before(a[0], a[i + 1]));
    }
    assert forall|k: int| #[trigger] rest(k) implies t.contains(k) by {
        assert(shown(k));
        let i = choose|i: int| 0 <= i < a.len() && a[i] == k;
        assert(t[i - 1] == k);
    }
    assert forall|i: int, j: int| 0 <= i < j < t.len() implies before(
        #[trigger] t[i],
        #[trigger] t[j],
    ) by {
        assert(t[i] == a[i + 1] && t[j] == a[j + 1]);
    }
}

/// One more row at its place.
pub proof fn lemma_inserted(
    rows: Seq<int>,
    x: int,
    slot: int,
    shown: spec_fn(int) -> bool,
    more: spec_fn(int) -> bool,
    before: spec_fn(int, int) -> bool,
)
    requires
        arranged(rows, shown, before),
        0 <= slot <= rows.len(),
        forall|i: int| 0 <= i < slot ==> before(#[trigger] rows[i], x),
        forall|i: int| slot <= i < rows.len() ==> before(x, #[trigger] rows[i]),
        forall|k: int| #[trigger] more(k) == (shown(k) || k == x),
    ensures
        arranged(rows.insert(slot, x), more, before),
{
    let r = rows.insert(slot, x);
    assert forall|i: int| 0 <= i < r.len() implies more(#[trigger] r[i]) by {
        if i < slot {
            assert(r[i] == rows[i]);
            assert(shown(rows[i]));
        } else if i > slot {
            assert(r[i] == rows[i - 1]);
            assert(shown(rows[i - 1]));
        }
    }
    assert forall|k: int| #[trigger] more(k) implies r.contains(k) by {
        if k == x {
            assert(r[slot] == x);
        } else {
            assert(shown(k));
            let i = choose|i: int| 0 <= i < rows.len() && rows[i] == k;
            if i < slot {
                assert(r[i] == k);
            } else {
                assert(r[i + 1] == k);
            }
        }
    }
    assert forall|i: int, j: int| 0 <= i < j < r.len() implies before(
        #[trigger] r[i],
        #[trigger] r[j],
    ) by {
        let a = if i < slot {
            i
        } else {
            i - 1
        };
        let b = if j < slot {
            j
        } else {
            j - 1
        };
        if i == slot {
            assert(r[j] == rows[b]);
        } else if j == slot {
            assert(r[i] == rows[a]);
        } else {
            assert(r[i] == rows[a] && r[j] == rows[b]);
        }
    }
}

/// The numbers of rows as mathematical ones.
pub open spec fn indices(rows: Seq<usize>) -> Seq<int> {
    Seq::new(rows.len(), |i: int| rows[i] as int)
}

pub proof fn lemma_indices_insert(rows: Seq<usize>, slot: int, x: usize)
    requires
        0 <= slot <= rows.len(),
    ensures
        indices(rows.insert(slot, x)) == indices(rows).insert(slot, x as int),
{
    assert(indices(rows.insert(slot, x)) =~= indices(rows).insert(slot, x as int));
}

/// Where one more row stands among rows that are in order.
proof fn place_for(rows: Seq<int>, before: spec_fn(int, int) -> bool, x: int) -> (p: int)
    requires
        strict(before),
        forall|i: int, j: int|
            0 <= i < j < rows.len() ==> before(#[trigger] rows[i], #[trigger] rows[j]),
        !rows.contains(x),
    ensures
        0 <= p <= rows.len(),
        forall|i: int| 0 <= i < p ==> before(#[trigger] rows[i], x),
        forall|i: int| p <= i < rows.len() ==> before(x, #[trigger] rows[i]),
    decreases rows.len(),
{
    if rows.len() == 0 {
        0
    } else {
        let n = rows.len() - 1;
        let head = rows.drop_last();
        assert forall|i: int, j: int| 0 <= i < j < head.len() implies before(
            #[trigger] head[i],
            #[trigger] head[j],
        ) by {
            assert(head[i] == rows[i] && head[j] == rows[j]);
        }
        assert(!head.contains(x)) by {
            if head.contains(x) {
                let i = choose|i: int| 0 <= i < head.len() && head[i] == x;
                assert(rows[i] == x);
            }
        }
        assert(rows[n] != x);
        let p = place_for(head, before, x);
        if before(rows[n], x) {
            assert forall|i: int| 0 <= i < rows.len() implies before(#[trigger] rows[i], x) by {
                if i < n {
                    assert(before(rows[i], rows[n]));
                }
            }
            n + 1
        } else {
            assert(before(x, rows[n]));
            assert forall|i: int| 0 <= i < p implies before(#[trigger] rows[i], x) by {
                assert(head[i] == rows[i]);
            }
            assert forall|i: int| p <= i < rows.len() implies before(x, #[trigger] rows[i]) by {
                if i < n {
                    assert(head[i] == rows[i]);
                }
            }
            p
        }
    }
}

/// Rows can be arranged by any strict order.
pub proof fn arrangement_exists(
    shown: spec_fn(int) -> bool,
    before: spec_fn(int, int) -> bool,
    n: int,
) -> (rows: Seq<int>)
    requires
        strict(before),
        forall|k: int| #[trigger] shown(k) ==> 0 <= k < n,
    ensures
        arranged(rows, shown, before),
    decreases n,
{
    if n <= 0 {
        Seq::empty()
    } else {
        let x = n - 1;
        let fewer = |k: int| shown(k) && k != x;
        assert forall|k: int| #[trigger] fewer(k) implies 0 <= k < x by {
            assert(shown(k));
        }
        let rows = arrangement_exists(fewer, before, x);
        assert(!rows.contains(x)) by {
            if rows.contains(x) {
                let i = choose|i: int| 0 <= i < rows.len() && rows[i] == x;
                assert(fewer(rows[i]));
            }
        }
        if !shown(x) {
            assert forall|i: int| 0 <= i < rows.len() implies shown(#[trigger] rows[i]) by {
                assert(fewer(rows[i]));
            }
            assert forall|k: int| #[trigger] shown(k) implies rows.contains(k) by {
                assert(fewer(k));
            }
            rows
        } else {
            let p = place_for(rows, before, x);
            let all = rows.insert(p, x);
            assert forall|i: int| 0 <= i < all.len() implies shown(#[trigger] all[i]) by {
                if i != p {
                    assert(fewer(
                        rows[if i < p {
                            i
                        } else {
                            i - 1
                        }],
                    ));
                }
            }
            assert forall|k: int| #[trigger] shown(k) implies all.contains(k) by {
                if k == x {
                    assert(all[p] == x);
                } else {
                    assert(fewer(k));
                    let i = choose|i: int| 0 <= i < rows.len() && rows[i] == k;
                    assert(all[if i < p {
                        i
                    } else {
                        i + 1
                    }] == k);
                }
            }
            assert forall|i: int, j: int| 0 <= i < j < all.len() implies before(
                #[trigger] all[i],
                #[trigger] all[j],
            ) by {
                let a = if i < p {
                    i
                } else {
                    i - 1
                };
                let b = if j < p {
                    j
                } else {
                    j - 1
                };
                assert(i != p ==> all[i] == rows[a]);
                assert(j != p ==> all[j] == rows[b]);
            }
            all
        }
    }
}

} // verus!
