//! In which order texts and names stand.
use crate::order::{self, Order};
use crate::text;
use vstd::prelude::*;

verus! {

/// A text stands before another where it has the smaller character at the first
/// place at which they differ, or ends there.
pub open spec fn less_text(a: Seq<char>, b: Seq<char>) -> bool {
    exists|i: int| #[trigger] differs_at(a, b, i)
}

/// Two texts agree up to a place, and the first of them ends there or has the smaller
/// character.
pub open spec fn differs_at(a: Seq<char>, b: Seq<char>, i: int) -> bool {
    &&& 0 <= i <= a.len()
    &&& i < b.len()
    &&& forall|k: int| 0 <= k < i ==> #[trigger] a[k] == b[k]
    &&& i == a.len() || (a[i] as int) < (b[i] as int)
}

proof fn lemma_agree(a: Seq<char>, b: Seq<char>, i: int, at: int)
    requires
        0 <= i <= at,
        at <= a.len(),
        at <= b.len(),
        forall|k: int| 0 <= k < at ==> #[trigger] a[k] == b[k],
    ensures
        order::text_order_from(a, b, i) == order::text_order_from(a, b, at),
    decreases at - i,
{
    if i < at {
        lemma_agree(a, b, i + 1, at);
    }
}

proof fn lemma_less(a: Seq<char>, b: Seq<char>)
    requires
        less_text(a, b),
    ensures
        order::text_order(a, b) == Order::Less,
        order::text_order(b, a) == Order::Greater,
{
    let i = choose|i: int| #[trigger] differs_at(a, b, i);
    lemma_agree(a, b, 0, i);
    order::texts_are_ordered(a, b, a);
}

proof fn lemma_found_difference(a: Seq<char>, b: Seq<char>, i: int)
    requires
        0 <= i <= a.len(),
        i <= b.len(),
        forall|k: int| 0 <= k < i ==> #[trigger] a[k] == b[k],
        order::text_order_from(a, b, i) == Order::Less,
    ensures
        less_text(a, b),
    decreases a.len() - i,
{
    if i < a.len() && i < b.len() && a[i] == b[i] {
        lemma_found_difference(a, b, i + 1);
    } else {
        assert(differs_at(a, b, i));
    }
}

/// Texts are ordered by the first place at which they differ.
pub proof fn texts_stand_by_their_first_difference(a: Seq<char>, b: Seq<char>)
    ensures
        order::text_order(a, b) == Order::Less <==> less_text(a, b),
        order::text_order(a, b) == Order::Greater <==> less_text(b, a),
        order::text_order(a, b) == Order::Equal <==> a == b,
{
    order::texts_are_ordered(a, b, a);
    order::texts_are_ordered(b, a, b);
    if less_text(a, b) {
        lemma_less(a, b);
    }
    if less_text(b, a) {
        lemma_less(b, a);
    }
    if order::text_order(a, b) == Order::Less {
        lemma_found_difference(a, b, 0);
    }
    if order::text_order(b, a) == Order::Less {
        lemma_found_difference(b, a, 0);
    }
}

// Names.

/// No digit stands at a place.
pub open spec fn no_digit(s: Seq<char>, i: int) -> bool {
    i < 0 || i >= s.len() || !('0' <= s[i] <= '9')
}

proof fn lemma_run_to(s: Seq<char>, i: int, e: int)
    requires
        0 <= i <= e <= s.len(),
        forall|k: int| i <= k < e ==> '0' <= #[trigger] s[k] <= '9',
        no_digit(s, e),
    ensures
        order::run_end(s, i) == e,
    decreases e - i,
{
    if i < e {
        assert('0' <= s[i] <= '9');
        lemma_run_to(s, i + 1, e);
    }
}

proof fn lemma_run_in_common(x: Seq<char>, y: Seq<char>, k: int, i: int) -> (e: int)
    requires
        0 <= i <= k,
        k <= x.len(),
        k <= y.len(),
        forall|j: int| 0 <= j < k ==> #[trigger] x[j] == y[j],
        no_digit(x, k - 1) || (no_digit(x, k) && no_digit(y, k)),
        i < k || (no_digit(x, k) && no_digit(y, k)),
    ensures
        i <= e <= k,
        order::run_end(x, i) == e,
        order::run_end(y, i) == e,
        e == i ==> no_digit(x, i),
    decreases k - i,
{
    if no_digit(x, i) {
        i
    } else if i < k {
        if i == k - 1 {
            assert(no_digit(x, k) && no_digit(y, k));
        }
        lemma_run_in_common(x, y, k, i + 1)
    } else {
        i
    }
}

proof fn lemma_common_parts(x: Seq<char>, y: Seq<char>, k: int, i: int)
    requires
        0 <= i <= k,
        k <= x.len(),
        k <= y.len(),
        forall|j: int| 0 <= j < k ==> #[trigger] x[j] == y[j],
        no_digit(x, k - 1) || (no_digit(x, k) && no_digit(y, k)),
    ensures
        order::natural_from(x, y, i) == order::natural_from(x, y, k),
    decreases k - i,
{
    if i < k {
        assert(x[i] == y[i]);
        if text::is_digit(x[i]) {
            let e = lemma_run_in_common(x, y, k, i);
            assert(x.subrange(i, e) =~= y.subrange(i, e));
            lemma_common_parts(x, y, k, e);
        } else {
            lemma_common_parts(x, y, k, i + 1);
        }
    }
}

/// Names stand by the numbers in them: behind a common beginning, the smaller number
/// comes first, however many digits it has. (The names are compared in small letters.)
pub proof fn smaller_numbers_come_first(
    a: Seq<char>,
    b: Seq<char>,
    begin: Seq<char>,
    m: Seq<char>,
    n: Seq<char>,
    rest_a: Seq<char>,
    rest_b: Seq<char>,
)
    requires
        text::lowercased(a) == begin + m + rest_a,
        text::lowercased(b) == begin + n + rest_b,
        no_digit(begin, begin.len() - 1),
        m.len() > 0,
        n.len() > 0,
        forall|k: int| 0 <= k < m.len() ==> '0' <= #[trigger] m[k] <= '9',
        forall|k: int| 0 <= k < n.len() ==> '0' <= #[trigger] n[k] <= '9',
        no_digit(rest_a, 0),
        no_digit(rest_b, 0),
        text::digits_value(m) < text::digits_value(n) || (text::digits_value(m)
            == text::digits_value(n) && m.len() < n.len()),
    ensures
        order::natural_order(a, b) == Order::Less,
        order::natural_order(b, a) == Order::Greater,
{
    let x = begin + m + rest_a;
    let y = begin + n + rest_b;
    let k = begin.len() as int;
    assert(no_digit(x, k - 1)) by {
        if k > 0 {
            assert(x[k - 1] == begin[k - 1]);
        }
    }
    assert forall|j: int| 0 <= j < k implies #[trigger] x[j] == y[j] by {}
    lemma_common_parts(x, y, k, 0);
    lemma_number_part(begin, m, rest_a);
    lemma_number_part(begin, n, rest_b);
    order::names_are_ordered(a, b, a);
}

proof fn lemma_number_part(begin: Seq<char>, m: Seq<char>, rest: Seq<char>)
    requires
        m.len() > 0,
        forall|k: int| 0 <= k < m.len() ==> '0' <= #[trigger] m[k] <= '9',
        no_digit(rest, 0),
    ensures
        order::part_at(begin + m + rest, begin.len() as int) == (
            2int,
            text::digits_value(m) as int,
            m.len() as int,
        ),
{
    let x = begin + m + rest;
    let k = begin.len() as int;
    let e = k + m.len();
    assert forall|j: int| k <= j < e implies '0' <= #[trigger] x[j] <= '9' by {
        assert(x[j] == m[j - k]);
    }
    assert(no_digit(x, e)) by {
        if e < x.len() {
            assert(x[e] == rest[0]);
        }
    }
    lemma_run_to(x, k, e);
    assert(x.subrange(k, e) =~= m);
    assert(x[k] == m[0]);
}

/// Names stand by their characters elsewhere: behind a common beginning, the one that
/// ends comes first, and otherwise the one with the smaller character, where no
/// number is compared with another. (The names are compared in small letters.)
pub proof fn smaller_characters_come_first(
    a: Seq<char>,
    b: Seq<char>,
    begin: Seq<char>,
    rest_a: Seq<char>,
    rest_b: Seq<char>,
)
    requires
        text::lowercased(a) == begin + rest_a,
        text::lowercased(b) == begin + rest_b,
        no_digit(rest_a, 0) || no_digit(rest_b, 0),
        no_digit(begin, begin.len() - 1) || (no_digit(rest_a, 0) && no_digit(rest_b, 0)),
        rest_b.len() > 0,
        rest_a.len() == 0 || (rest_a[0] as int) < (rest_b[0] as int),
    ensures
        order::natural_order(a, b) == Order::Less,
        order::natural_order(b, a) == Order::Greater,
{
    let x = begin + rest_a;
    let y = begin + rest_b;
    let k = begin.len() as int;
    assert(no_digit(x, k - 1) == no_digit(begin, k - 1)) by {
        if k > 0 {
            assert(x[k - 1] == begin[k - 1]);
        }
    }
    assert(no_digit(x, k) == no_digit(rest_a, 0)) by {
        if rest_a.len() > 0 {
            assert(x[k] == rest_a[0]);
        }
    }
    assert(y[k] == rest_b[0]);
    assert forall|j: int| 0 <= j < k implies #[trigger] x[j] == y[j] by {}
    lemma_common_parts(x, y, k, 0);
    order::names_are_ordered(a, b, a);
}

/// Names that differ only in the case of their letters stand as their texts do.
pub proof fn names_that_differ_in_case_stand_as_texts(a: Seq<char>, b: Seq<char>)
    requires
        text::lowercased(a) == text::lowercased(b),
    ensures
        order::natural_order(a, b) == Order::Less <==> less_text(a, b),
        order::natural_order(a, b) == Order::Greater <==> less_text(b, a),
{
    let x = text::lowercased(a);
    texts_stand_by_their_first_difference(a, b);
    lemma_common_parts(x, x, x.len() as int, 0);
}

} // verus!
