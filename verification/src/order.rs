//! Orders of texts, and rows that are arranged by an order.
use crate::text::{self, chars_of, is_ascii_digit, to_lowercase};
use vstd::prelude::*;

verus! {

/// How one value stands to another.
#[derive(Clone, Copy, Debug, PartialEq, Eq, Structural)]
pub enum Order {
    Less,
    Equal,
    Greater,
}

pub open spec fn reversed(o: Order) -> Order {
    match o {
        Order::Less => Order::Greater,
        Order::Equal => Order::Equal,
        Order::Greater => Order::Less,
    }
}

impl Order {
    pub fn reverse(self) -> (r: Order)
        ensures
            r == reversed(self),
    {
        match self {
            Order::Less => Order::Greater,
            Order::Equal => Order::Equal,
            Order::Greater => Order::Less,
        }
    }
}

/// The first order that is no equality.
pub open spec fn chained(a: Order, b: Order) -> Order {
    if a == Order::Equal {
        b
    } else {
        a
    }
}

pub open spec fn int_order(a: int, b: int) -> Order {
    if a < b {
        Order::Less
    } else if a > b {
        Order::Greater
    } else {
        Order::Equal
    }
}

/// The order turned round where it is to descend.
pub open spec fn directed(o: Order, descending: bool) -> Order {
    if descending {
        reversed(o)
    } else {
        o
    }
}

pub fn directional_order(o: Order, descending: bool) -> (r: Order)
    ensures
        r == directed(o, descending),
{
    if descending {
        o.reverse()
    } else {
        o
    }
}

// Texts, character by character.

/// The order of two texts from a place on, up to which they agree.
pub open spec fn text_order_from(a: Seq<char>, b: Seq<char>, i: int) -> Order
    decreases a.len() - i,
{
    if i >= a.len() || i >= b.len() {
        int_order(a.len() as int, b.len() as int)
    } else if a[i] != b[i] {
        int_order(a[i] as int, b[i] as int)
    } else {
        text_order_from(a, b, i + 1)
    }
}

pub open spec fn text_order(a: Seq<char>, b: Seq<char>) -> Order {
    text_order_from(a, b, 0)
}

pub fn compare_chars(a: &[char], b: &[char]) -> (r: Order)
    ensures
        r == text_order(a@, b@),
{
    let n: usize = a.len();
    let m: usize = b.len();
    let mut i: usize = 0;
    while i < n && i < m
        invariant
            i <= n,
            i <= m,
            n == a@.len(),
            m == b@.len(),
            text_order(a@, b@) == text_order_from(a@, b@, i as int),
        decreases n - i,
    {
        let x: char = a[i];
        let y: char = b[i];
        if x != y {
            return if x < y {
                Order::Less
            } else {
                Order::Greater
            };
        }
        i += 1;
    }
    if n < m {
        Order::Less
    } else if n > m {
        Order::Greater
    } else {
        Order::Equal
    }
}

pub fn compare_texts(a: &str, b: &str) -> (r: Order)
    ensures
        r == text_order(a@, b@),
{
    let x = chars_of(a);
    let y = chars_of(b);
    compare_chars(x.as_slice(), y.as_slice())
}

proof fn lemma_text_order(a: Seq<char>, b: Seq<char>, c: Seq<char>, i: int)
    requires
        0 <= i,
        i <= a.len(),
        i <= b.len(),
        i <= c.len(),
        forall|k: int| 0 <= k < i ==> a[k] == b[k] && b[k] == c[k],
    ensures
        text_order_from(b, a, i) == reversed(text_order_from(a, b, i)),
        (text_order_from(a, b, i) == Order::Equal) == (a == b),
        text_order_from(a, b, i) != Order::Greater && text_order_from(b, c, i) != Order::Greater
            ==> text_order_from(a, c, i) != Order::Greater,
        text_order_from(a, b, i) == Order::Less && text_order_from(b, c, i) != Order::Greater
            ==> text_order_from(a, c, i) == Order::Less,
        text_order_from(a, b, i) != Order::Greater && text_order_from(b, c, i) == Order::Less
            ==> text_order_from(a, c, i) == Order::Less,
    decreases a.len() - i,
{
    if i < a.len() && i < b.len() && i < c.len() && a[i] == b[i] && b[i] == c[i] {
        lemma_text_order(a, b, c, i + 1);
    } else if i < a.len() && i < b.len() && a[i] == b[i] {
        lemma_text_order(a, b, b, i + 1);
        lemma_text_order(a, b, a, i + 1);
    } else {
        if i >= a.len() && i >= b.len() {
            assert(a =~= b);
        }
        if i < b.len() && i < c.len() && b[i] == c[i] && i < a.len() {
            assert(a[i] != b[i]);
        }
    }
}

/// The order of texts is total: two texts are equal only if they are the same
/// text, and what is less stays less along a chain.
pub proof fn texts_are_ordered(a: Seq<char>, b: Seq<char>, c: Seq<char>)
    ensures
        text_order(b, a) == reversed(text_order(a, b)),
        (text_order(a, b) == Order::Equal) == (a == b),
        text_order(a, b) != Order::Greater && text_order(b, c) != Order::Greater ==> text_order(
            a,
            c,
        ) != Order::Greater,
        text_order(a, b) == Order::Less && text_order(b, c) != Order::Greater ==> text_order(a, c)
            == Order::Less,
        text_order(a, b) != Order::Greater && text_order(b, c) == Order::Less ==> text_order(a, c)
            == Order::Less,
{
    lemma_text_order(a, b, c, 0);
}

// Names, with the numbers in them as numbers.

/// The end of the run of digits at a place.
pub open spec fn run_end(s: Seq<char>, i: int) -> int
    decreases s.len() - i,
{
    if 0 <= i < s.len() && text::is_digit(s[i]) {
        run_end(s, i + 1)
    } else {
        i
    }
}

/// What stands at a place of a name counts as: the end, a character before the
/// digits, a number with its length, or a character behind the digits.
pub open spec fn part_at(s: Seq<char>, i: int) -> (int, int, int) {
    if i >= s.len() {
        (0, 0, 0)
    } else if text::is_digit(s[i]) {
        let e = run_end(s, i);
        (2, text::digits_value(s.subrange(i, e)) as int, e - i)
    } else if (s[i] as int) < ('0' as int) {
        (1, s[i] as int, 0)
    } else {
        (3, s[i] as int, 0)
    }
}

pub open spec fn part_order(a: (int, int, int), b: (int, int, int)) -> Order {
    chained(int_order(a.0, b.0), chained(int_order(a.1, b.1), int_order(a.2, b.2)))
}

/// Where the next part of a name begins.
pub open spec fn next_part(s: Seq<char>, i: int) -> int {
    if 0 <= i < s.len() && text::is_digit(s[i]) {
        run_end(s, i)
    } else {
        i + 1
    }
}

proof fn lemma_run_end(s: Seq<char>, i: int)
    requires
        0 <= i <= s.len(),
    ensures
        i <= run_end(s, i) <= s.len(),
        i < s.len() && text::is_digit(s[i]) ==> i < run_end(s, i),
        forall|k: int| i <= k < run_end(s, i) ==> text::is_digit(#[trigger] s[k]),
        run_end(s, i) < s.len() ==> !text::is_digit(s[run_end(s, i)]),
    decreases s.len() - i,
{
    if i < s.len() && text::is_digit(s[i]) {
        lemma_run_end(s, i + 1);
    }
}

/// The order of two names from a place on, up to which they agree.
pub open spec fn natural_from(a: Seq<char>, b: Seq<char>, i: int) -> Order
    decreases a.len() - i,
{
    let o = part_order(part_at(a, i), part_at(b, i));
    if o != Order::Equal || !(0 <= i < a.len()) || !(i < next_part(a, i) <= a.len()) {
        o
    } else {
        natural_from(a, b, next_part(a, i))
    }
}

/// The order of names in a list: numbers in them count as numbers, and names
/// that differ in their letters' case only stand in the order of their texts.
pub open spec fn natural_order(a: Seq<char>, b: Seq<char>) -> Order {
    chained(natural_from(text::lowercased(a), text::lowercased(b), 0), text_order(a, b))
}

proof fn lemma_natural(a: Seq<char>, b: Seq<char>, c: Seq<char>, i: int)
    requires
        0 <= i,
    ensures
        natural_from(b, a, i) == reversed(natural_from(a, b, i)),
        natural_from(a, a, i) == Order::Equal,
        natural_from(a, b, i) != Order::Greater && natural_from(b, c, i) != Order::Greater
            ==> natural_from(a, c, i) != Order::Greater,
        natural_from(a, b, i) == Order::Less && natural_from(b, c, i) != Order::Greater
            ==> natural_from(a, c, i) == Order::Less,
        natural_from(a, b, i) != Order::Greater && natural_from(b, c, i) == Order::Less
            ==> natural_from(a, c, i) == Order::Less,
    decreases a.len() - i,
{
    let pa = part_at(a, i);
    let pb = part_at(b, i);
    let pc = part_at(c, i);
    if i < a.len() {
        lemma_run_end(a, i);
        if i < b.len() {
            lemma_run_end(b, i);
        }
        if i < c.len() {
            lemma_run_end(c, i);
        }
        let n = next_part(a, i);
        assert(i < n <= a.len());
        lemma_natural(a, b, c, n);
        if part_order(pa, pb) == Order::Equal {
            assert(pa == pb);
            assert(next_part(b, i) == n);
        }
        if part_order(pb, pc) == Order::Equal {
            assert(pb == pc);
            if i < b.len() {
                assert(next_part(c, i) == next_part(b, i));
            }
        }
        if part_order(pa, pc) == Order::Equal {
            assert(pa == pc);
        }
    }
}

/// The order of names in a list is total: what is less stays less along a
/// chain, and only a name and itself are equal.
pub proof fn names_are_ordered(a: Seq<char>, b: Seq<char>, c: Seq<char>)
    ensures
        natural_order(b, a) == reversed(natural_order(a, b)),
        (natural_order(a, b) == Order::Equal) == (a == b),
        natural_order(a, b) != Order::Greater && natural_order(b, c) != Order::Greater
            ==> natural_order(a, c) != Order::Greater,
        natural_order(a, b) == Order::Less && natural_order(b, c) != Order::Greater
            ==> natural_order(a, c) == Order::Less,
        natural_order(a, b) != Order::Greater && natural_order(b, c) == Order::Less
            ==> natural_order(a, c) == Order::Less,
{
    let x = text::lowercased(a);
    let y = text::lowercased(b);
    let z = text::lowercased(c);
    lemma_natural(x, y, z, 0);
    lemma_natural(y, x, y, 0);
    lemma_natural(x, z, x, 0);
    lemma_natural(y, z, y, 0);
    lemma_natural(z, x, y, 0);
    lemma_natural(y, z, x, 0);
    texts_are_ordered(a, b, c);
}

// Comparing runs of digits.

pub open spec fn power_of_ten(n: nat) -> nat
    decreases n,
{
    if n == 0 {
        1
    } else {
        10 * power_of_ten((n - 1) as nat)
    }
}

proof fn lemma_value_bounds(s: Seq<char>)
    requires
        text::all_digits(s),
    ensures
        text::digits_value(s) < power_of_ten(s.len()),
        s.len() > 0 && s[0] != '0' ==> power_of_ten((s.len() - 1) as nat) <= text::digits_value(s),
    decreases s.len(),
{
    if s.len() > 0 {
        let d = s.drop_last();
        assert forall|i: int| 0 <= i < d.len() implies text::is_digit(#[trigger] d[i]) by {
            assert(d[i] == s[i]);
        }
        lemma_value_bounds(d);
        assert(text::is_digit(s[s.len() - 1]));
        if d.len() == 0 {
            assert(text::digits_value(d) == 0);
            assert(power_of_ten(0) == 1);
            assert(power_of_ten(1) == 10 * power_of_ten(0));
        } else {
            assert(d[0] == s[0]);
            assert(power_of_ten((s.len() - 1) as nat) == 10 * power_of_ten(
                (s.len() - 2) as nat,
            ));
        }
    }
}

proof fn lemma_power_grows(a: nat, b: nat)
    requires
        a <= b,
    ensures
        power_of_ten(a) <= power_of_ten(b),
        1 <= power_of_ten(a),
    decreases b,
{
    if a < b {
        lemma_power_grows(a, (b - 1) as nat);
    } else if a > 0 {
        lemma_power_grows((a - 1) as nat, (a - 1) as nat);
    }
}

/// The value of a number whose first digits were read.
proof fn lemma_value_split(s: Seq<char>, i: int)
    requires
        text::all_digits(s),
        0 <= i <= s.len(),
    ensures
        text::digits_value(s) == text::digits_value(s.take(i)) * power_of_ten((s.len() - i) as nat)
            + text::digits_value(s.skip(i)),
    decreases s.len() - i,
{
    if i == s.len() {
        assert(s.take(i) =~= s);
        assert(s.skip(i) =~= Seq::<char>::empty());
        assert((s.len() - i) as nat == 0nat);
        assert(power_of_ten(0) == 1);
        assert(text::digits_value(s) * 1 == text::digits_value(s));
    } else {
        let d = s.drop_last();
        assert forall|k: int| 0 <= k < d.len() implies text::is_digit(#[trigger] d[k]) by {
            assert(d[k] == s[k]);
        }
        lemma_value_split(d, i);
        assert(d.take(i) =~= s.take(i));
        assert(s.skip(i).drop_last() =~= d.skip(i));
        assert(s.skip(i).last() == s.last());
        let p = power_of_ten((d.len() - i) as nat);
        let v = text::digits_value(s.take(i));
        assert(power_of_ten((s.len() - i) as nat) == 10 * p);
        assert(10 * (v * p) == v * (10 * p)) by (nonlinear_arith);
    }
}

/// Two numbers of the same length differ as their first different digits do.
proof fn lemma_first_difference(x: Seq<char>, y: Seq<char>, i: int)
    requires
        text::all_digits(x),
        text::all_digits(y),
        x.len() == y.len(),
        0 <= i < x.len(),
        x.take(i) == y.take(i),
        (x[i] as int) < (y[i] as int),
    ensures
        text::digits_value(x) < text::digits_value(y),
{
    lemma_value_split(x, i + 1);
    lemma_value_split(y, i + 1);
    let n = (x.len() - i - 1) as nat;
    assert(x.take(i + 1).drop_last() =~= x.take(i));
    assert(y.take(i + 1).drop_last() =~= y.take(i));
    let u = text::digits_value(x.take(i + 1));
    let v = text::digits_value(y.take(i + 1));
    assert(text::is_digit(x[i]) && text::is_digit(y[i]));
    assert(u + 1 <= v);
    let p = power_of_ten(n);
    let r = x.skip(i + 1);
    assert forall|k: int| 0 <= k < r.len() implies text::is_digit(#[trigger] r[k]) by {
        assert(r[k] == x[i + 1 + k]);
    }
    lemma_value_bounds(r);
    assert(u * p + p <= v * p) by (nonlinear_arith)
        requires
            u + 1 <= v,
    ;
}

/// A number without the zeros before it.
proof fn lemma_leading_zeros(s: Seq<char>, i: int)
    requires
        text::all_digits(s),
        0 <= i <= s.len(),
        forall|k: int| 0 <= k < i ==> s[k] == '0',
    ensures
        text::digits_value(s) == text::digits_value(s.skip(i)),
    decreases i,
{
    lemma_value_split(s, i);
    lemma_zeros_value(s.take(i));
    assert(0 * power_of_ten((s.len() - i) as nat) == 0);
}

proof fn lemma_zeros_value(s: Seq<char>)
    requires
        forall|k: int| 0 <= k < s.len() ==> s[k] == '0',
    ensures
        text::digits_value(s) == 0,
    decreases s.len(),
{
    if s.len() > 0 {
        lemma_zeros_value(s.drop_last());
    }
}

fn skip_zeros(digits: &[char]) -> (r: usize)
    requires
        text::all_digits(digits@),
    ensures
        r <= digits@.len(),
        forall|k: int| 0 <= k < r ==> digits@[k] == '0',
        r < digits@.len() ==> digits@[r as int] != '0',
{
    let n: usize = digits.len();
    let mut i: usize = 0;
    while i < n && digits[i] == '0'
        invariant
            i <= n,
            n == digits@.len(),
            forall|k: int| 0 <= k < i ==> digits@[k] == '0',
        decreases n - i,
    {
        i += 1;
    }
    i
}

/// Compares two runs of digits as numbers.
fn compare_numbers(a: &[char], b: &[char]) -> (r: Order)
    requires
        text::all_digits(a@),
        text::all_digits(b@),
    ensures
        r == int_order(text::digits_value(a@) as int, text::digits_value(b@) as int),
{
    let i: usize = skip_zeros(a);
    let j: usize = skip_zeros(b);
    let n: usize = a.len();
    let m: usize = b.len();
    let ghost x = a@.skip(i as int);
    let ghost y = b@.skip(j as int);
    proof {
        lemma_leading_zeros(a@, i as int);
        lemma_leading_zeros(b@, j as int);
        assert forall|k: int| 0 <= k < x.len() implies text::is_digit(#[trigger] x[k]) by {
            assert(x[k] == a@[i + k]);
        }
        assert forall|k: int| 0 <= k < y.len() implies text::is_digit(#[trigger] y[k]) by {
            assert(y[k] == b@[j + k]);
        }
        lemma_value_bounds(x);
        lemma_value_bounds(y);
    }
    let p: usize = n - i;
    let q: usize = m - j;
    if p < q {
        proof {
            lemma_power_grows(x.len(), (y.len() - 1) as nat);
        }
        return Order::Less;
    }
    if p > q {
        proof {
            lemma_power_grows(y.len(), (x.len() - 1) as nat);
        }
        return Order::Greater;
    }
    let mut k: usize = 0;
    while k < p
        invariant
            k <= p,
            i + p == n,
            j + p == m,
            n == a@.len(),
            m == b@.len(),
            x == a@.skip(i as int),
            y == b@.skip(j as int),
            text::all_digits(x),
            text::all_digits(y),
            text::digits_value(a@) == text::digits_value(x),
            text::digits_value(b@) == text::digits_value(y),
            x.take(k as int) == y.take(k as int),
        decreases p - k,
    {
        let c: char = a[i + k];
        let d: char = b[j + k];
        assert(x[k as int] == c && y[k as int] == d);
        if c < d {
            proof {
                lemma_first_difference(x, y, k as int);
            }
            return Order::Less;
        }
        if c > d {
            proof {
                lemma_first_difference(y, x, k as int);
            }
            return Order::Greater;
        }
        proof {
            assert(c == d);
            assert(x.take(k + 1) =~= x.take(k as int).push(c));
            assert(y.take(k + 1) =~= y.take(k as int).push(d));
        }
        k += 1;
    }
    proof {
        assert(x.take(p as int) =~= x);
        assert(y.take(p as int) =~= y);
    }
    Order::Equal
}

fn digit_run_end(chars: &[char], index: usize) -> (r: usize)
    requires
        index <= chars@.len(),
    ensures
        r == run_end(chars@, index as int),
        index <= r <= chars@.len(),
{
    let n: usize = chars.len();
    let mut i: usize = index;
    while i < n && is_ascii_digit(chars[i])
        invariant
            index <= i <= n,
            n == chars@.len(),
            run_end(chars@, index as int) == run_end(chars@, i as int),
        decreases n - i,
    {
        i += 1;
    }
    i
}

fn compare_natural(a: &[char], b: &[char]) -> (r: Order)
    ensures
        r == natural_from(a@, b@, 0),
{
    let n: usize = a.len();
    let m: usize = b.len();
    let mut i: usize = 0;
    while i < n && i < m
        invariant
            i <= n,
            i <= m,
            n == a@.len(),
            m == b@.len(),
            natural_from(a@, b@, 0) == natural_from(a@, b@, i as int),
        decreases n - i,
    {
        proof {
            lemma_run_end(a@, i as int);
            lemma_run_end(b@, i as int);
        }
        if is_ascii_digit(a[i]) && is_ascii_digit(b[i]) {
            let x: usize = digit_run_end(a, i);
            let y: usize = digit_run_end(b, i);
            let first = &a[i..x];
            let second = &b[i..y];
            proof {
                assert(first@ == a@.subrange(i as int, x as int));
                assert(second@ == b@.subrange(i as int, y as int));
            }
            match compare_numbers(first, second) {
                Order::Equal => {},
                o => {
                    return o;
                },
            }
            if x < y {
                return Order::Less;
            }
            if x > y {
                return Order::Greater;
            }
            i = x;
        } else {
            let c: char = a[i];
            let d: char = b[i];
            if c != d {
                return if c < d {
                    Order::Less
                } else {
                    Order::Greater
                };
            }
            i += 1;
        }
    }
    if n < m {
        Order::Less
    } else if n > m {
        Order::Greater
    } else {
        Order::Equal
    }
}

pub fn natural_name_order(left: &str, right: &str) -> (r: Order)
    ensures
        r == natural_order(left@, right@),
{
    let a = to_lowercase(left);
    let b = to_lowercase(right);
    let x = chars_of(a.as_str());
    let y = chars_of(b.as_str());
    match compare_natural(x.as_slice(), y.as_slice()) {
        Order::Equal => compare_texts(left, right),
        o => o,
    }
}

// Orders that go together.

/// The order of the first to the third value is what the orders of the first
/// to the second and of the second to the third say.
pub open spec fn consistent(ab: Order, bc: Order, ac: Order) -> bool {
    &&& ab == Order::Equal ==> ac == bc
    &&& bc == Order::Equal ==> ac == ab
    &&& ab == bc ==> ac == ab
}

pub proof fn texts_are_consistent(a: Seq<char>, b: Seq<char>, c: Seq<char>)
    ensures
        consistent(text_order(a, b), text_order(b, c), text_order(a, c)),
        text_order(b, a) == reversed(text_order(a, b)),
        text_order(a, a) == Order::Equal,
{
    texts_are_ordered(a, b, c);
    texts_are_ordered(c, b, a);
    texts_are_ordered(b, c, a);
    texts_are_ordered(a, c, b);
    texts_are_ordered(a, a, a);
}

pub proof fn names_are_consistent(a: Seq<char>, b: Seq<char>, c: Seq<char>)
    ensures
        consistent(natural_order(a, b), natural_order(b, c), natural_order(a, c)),
        natural_order(b, a) == reversed(natural_order(a, b)),
        natural_order(a, a) == Order::Equal,
{
    names_are_ordered(a, b, c);
    names_are_ordered(c, b, a);
    names_are_ordered(b, c, a);
    names_are_ordered(a, c, b);
    names_are_ordered(a, a, a);
}

} // verus!
