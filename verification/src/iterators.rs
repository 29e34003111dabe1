//! Closures and iterator pipelines over integer sequences, searching, and
//! generic helpers.
use vstd::prelude::*;

verus! {

/// Returns its first argument and ignores the second.
pub fn first<T>(a: T, _b: T) -> (r: T)
    ensures
        r == a,
{
    a
}

/// `x * multiplier`, the closure that captures its factor; the product must
/// fit in an `i32`.
pub fn scale(x: i32, multiplier: i32) -> (r: i32)
    requires
        i32::MIN <= x * multiplier <= i32::MAX,
    ensures
        r == x * multiplier,
{
    x * multiplier
}

/// `x * x`; the square must fit in an `i32`.
pub fn square(x: i32) -> (r: i32)
    requires
        x * x <= i32::MAX,
    ensures
        r == x * x,
{
    assert(x * x >= 0) by (nonlinear_arith);
    x * x
}

/// The largest of the values, as the variadic `max` macro reduces them.
pub fn max_of(values: &[i32]) -> (r: i32)
    requires
        values@.len() >= 1,
    ensures
        values@.contains(r),
        forall|i: int| 0 <= i < values@.len() ==> values@[i] <= r,
{
    let n = values.len();
    let mut best = values[n - 1];
    let mut i = n - 1;
    while i > 0
        invariant
            0 <= i < n,
            n == values@.len(),
            exists|k: int| i <= k < n && values@[k] == best,
            forall|j: int| i <= j < n ==> values@[j] <= best,
        decreases i,
    {
        i = i - 1;
        let a = values[i];
        if a > best {
            best = a;
        }
    }
    best
}

/// Each value doubled; every double must fit in an `i32`.
pub fn doubled(v: &[i32]) -> (r: Vec<i32>)
    requires
        forall|i: int| 0 <= i < v@.len() ==> i32::MIN <= 2 * #[trigger] v@[i] <= i32::MAX,
    ensures
        r@ == v@.map_values(|x: i32| (2 * x) as i32),
{
    let mut r: Vec<i32> = Vec::new();
    for i in 0..v.len()
        invariant
            forall|k: int| 0 <= k < v@.len() ==> i32::MIN <= 2 * #[trigger] v@[k] <= i32::MAX,
            r@ == v@.take(i as int).map_values(|x: i32| (2 * x) as i32),
    {
        r.push(v[i] * 2);
        assert(v@.take(i + 1).map_values(|x: i32| (2 * x) as i32) =~= v@.take(i as int).map_values(
            |x: i32| (2 * x) as i32,
        ).push((2 * v@[i as int]) as i32));
    }
    assert(v@.take(v@.len() as int) =~= v@);
    r
}

pub open spec fn is_even(x: i32) -> bool {
    x % 2 == 0
}

pub open spec fn twice(k: int) -> int {
    2 * k
}

/// The values `evens` keeps: the even ones, in order.
pub open spec fn evens_of(v: Seq<i32>) -> Seq<i32> {
    v.filter(|x: i32| is_even(x))
}

/// `evens` keeps exactly the multiples of two, of any size and sign, and
/// keeps them in the order of the input: every multiple of two of the input
/// is in the result, every value of the result is a multiple of two taken
/// from the input, and keeping the evens of two lists joined gives the evens
/// of each, joined.
pub proof fn lemma_evens_keeps_exactly_multiples_of_two(v: Seq<i32>, w: Seq<i32>)
    ensures
        forall|x: i32| is_even(x) <==> exists|k: int| #[trigger] twice(k) == x,
        forall|i: int|
            0 <= i < v.len() && (exists|k: int| #[trigger] twice(k) == v[i]) ==> evens_of(
                v,
            ).contains(v[i]),
        forall|j: int|
            0 <= j < evens_of(v).len() ==> v.contains(#[trigger] evens_of(v)[j]) && exists|k: int|
                twice(k) == evens_of(v)[j],
        evens_of(v + w) == evens_of(v) + evens_of(w),
{
    broadcast use vstd::seq_lib::group_filter_ensures;

    assert forall|x: i32| is_even(x) <==> exists|k: int| #[trigger] twice(k) == x by {
        if is_even(x) {
            assert(twice(x / 2) == x);
        }
        if exists|k: int| #[trigger] twice(k) == x {
            let k = choose|k: int| #[trigger] twice(k) == x;
            assert(x % 2 == 0);
        }
    }
    let f = evens_of(v);
    assert forall|i: int|
        0 <= i < v.len() && (exists|k: int| #[trigger] twice(k) == v[i]) implies f.contains(
        v[i],
    ) by {
        assert(is_even(v[i]));
    }
    assert forall|j: int| 0 <= j < f.len() implies v.contains(#[trigger] f[j]) && exists|k: int|
        twice(k) == f[j] by {
        assert(is_even(f[j]));
        assert(twice(f[j] / 2) == f[j]);
        assert(f.contains(f[j]));
        v.lemma_filter_contains_rev(|x: i32| is_even(x), f[j]);
    }
    Seq::filter_distributes_over_add(v, w, |x: i32| is_even(x));
}

/// The even values, in order.
pub fn evens(v: &[i32]) -> (r: Vec<i32>)
    ensures
        r@ == v@.filter(|x: i32| is_even(x)),
{
    let mut r: Vec<i32> = Vec::new();
    for i in 0..v.len()
        invariant
            r@ == v@.take(i as int).filter(|x: i32| is_even(x)),
    {
        proof {
            reveal_with_fuel(Seq::<_>::filter, 1);
            assert(v@.take(i + 1).drop_last() =~= v@.take(i as int));
        }
        if v[i] % 2 == 0 {
            r.push(v[i]);
        }
    }
    assert(v@.take(v@.len() as int) =~= v@);
    r
}

/// The sum of a sequence of integers.
pub open spec fn sum_spec(s: Seq<i32>) -> int
    decreases s.len(),
{
    if s.len() == 0 {
        0
    } else {
        sum_spec(s.drop_last()) + s.last()
    }
}

/// Summing counts every value once: the empty list sums to zero, one value
/// sums to itself, and the sum of two lists joined is the sum of their sums.
pub proof fn lemma_sum_adds_every_value(a: Seq<i32>, b: Seq<i32>, x: i32)
    ensures
        sum_spec(Seq::<i32>::empty()) == 0,
        sum_spec(seq![x]) == x,
        sum_spec(a + b) == sum_spec(a) + sum_spec(b),
        sum_spec(a.push(x)) == sum_spec(a) + x,
    decreases b.len(),
{
    assert(seq![x].drop_last() =~= Seq::<i32>::empty());
    assert(a.push(x).drop_last() =~= a);
    if b.len() == 0 {
        assert(a + b =~= a);
    } else {
        lemma_sum_adds_every_value(a, b.drop_last(), x);
        assert((a + b).drop_last() =~= a + b.drop_last());
        assert((a + b).last() == b.last());
    }
}

/// The squares summed are those of every value, in order: the square list
/// of a list with one more value has that value's square appended.
pub proof fn lemma_squares_of_every_value(a: Seq<i32>, x: i32)
    requires
        x * x <= i32::MAX,
    ensures
        squares(Seq::<i32>::empty()) == Seq::<i32>::empty(),
        squares(a.push(x)) == squares(a).push((x * x) as i32),
        sum_spec(squares(a.push(x))) == sum_spec(squares(a)) + x * x,
{
    assert(squares(Seq::<i32>::empty()) =~= Seq::<i32>::empty());
    assert(squares(a.push(x)) =~= squares(a).push((x * x) as i32));
    assert(x * x >= 0) by (nonlinear_arith);
    lemma_sum_adds_every_value(squares(a), Seq::<i32>::empty(), (x * x) as i32);
}

/// Every running total of `s` fits in an `i32` (summing otherwise overflows).
pub open spec fn prefix_sums_fit(s: Seq<i32>) -> bool {
    forall|k: int| 0 <= k <= s.len() ==> i32::MIN <= #[trigger] sum_spec(s.take(k)) <= i32::MAX
}

/// The sum of the values, as `iter().sum()` adds them from the left.
pub fn sum(v: &[i32]) -> (r: i32)
    requires
        prefix_sums_fit(v@),
    ensures
        r == sum_spec(v@),
{
    let mut total: i32 = 0;
    for i in 0..v.len()
        invariant
            prefix_sums_fit(v@),
            total == sum_spec(v@.take(i as int)),
    {
        assert(v@.take(i + 1).drop_last() =~= v@.take(i as int));
        assert(sum_spec(v@.take(i + 1)) == total + v@[i as int]);
        total = total + v[i];
    }
    assert(v@.take(v@.len() as int) =~= v@);
    total
}

pub open spec fn squares(s: Seq<i32>) -> Seq<i32> {
    s.map_values(|x: i32| (x * x) as i32)
}

/// The sum of the squares; each square and each running total must fit in
/// an `i32`.
pub fn sum_of_squares(v: &[i32]) -> (r: i32)
    requires
        forall|i: int| 0 <= i < v@.len() ==> #[trigger] v@[i] * v@[i] <= i32::MAX,
        prefix_sums_fit(squares(v@)),
    ensures
        r == sum_spec(squares(v@)),
{
    let mut total: i32 = 0;
    for i in 0..v.len()
        invariant
            forall|k: int| 0 <= k < v@.len() ==> #[trigger] v@[k] * v@[k] <= i32::MAX,
            prefix_sums_fit(squares(v@)),
            total == sum_spec(squares(v@).take(i as int)),
    {
        let x = v[i];
        assert(x * x >= 0) by (nonlinear_arith);
        let sq = x * x;
        assert(squares(v@).take(i + 1).drop_last() =~= squares(v@).take(i as int));
        assert(sum_spec(squares(v@).take(i + 1)) == total + sq);
        total = total + sq;
    }
    assert(squares(v@).take(v@.len() as int) =~= squares(v@));
    total
}

pub open spec fn above_one(s: Seq<i32>) -> Seq<i32> {
    s.filter(|x: i32| x > 1)
}

/// Keeps the values above 1, multiplies them by ten and takes the first two,
/// as the lazy pipeline `filter(> 1).map(* 10).take(2)` does: only the values
/// that are taken are multiplied, so only those must fit when multiplied.
pub fn tens_of_first_two_above_one(v: &[i32]) -> (r: Vec<i32>)
    requires
        forall|i: int|
            0 <= i < above_one(v@).len() && i < 2 ==> 10 * #[trigger] above_one(v@)[i]
                <= i32::MAX,
    ensures
        r@ == above_one(v@).take(
            if above_one(v@).len() < 2 {
                above_one(v@).len() as int
            } else {
                2
            },
        ).map_values(|x: i32| (10 * x) as i32),
{
    let mut r: Vec<i32> = Vec::new();
    let mut i: usize = 0;
    let n = v.len();
    while i < n && r.len() < 2
        invariant
            0 <= i <= n,
            n == v@.len(),
            r@.len() <= 2,
            r@.len() == above_one(v@.take(i as int)).len(),
            forall|k: int|
                0 <= k < above_one(v@).len() && k < 2 ==> 10 * #[trigger] above_one(v@)[k]
                    <= i32::MAX,
            forall|k: int| 0 <= k < r@.len() ==> r@[k] == 10 * above_one(v@)[k],
            forall|k: int|
                0 <= k < above_one(v@.take(i as int)).len() ==> above_one(v@.take(i as int))[k]
                    == above_one(v@)[k],
            above_one(v@.take(i as int)).len() <= above_one(v@).len(),
        decreases n - i,
    {
        proof {
            lemma_filter_prefix(v@, i as int);
        }
        let x = v[i];
        if x > 1 {
            assert(above_one(v@.take(i + 1))[r@.len() as int] == x);
            assert(above_one(v@)[r@.len() as int] == x);
            r.push(x * 10);
        }
        i = i + 1;
    }
    proof {
        if i == n {
            assert(v@.take(n as int) =~= v@);
        }
        lemma_filter_prefix_len(v@, i as int);
    }
    let ghost len = if above_one(v@).len() < 2 {
        above_one(v@).len() as int
    } else {
        2
    };
    assert(r@ =~= above_one(v@).take(len).map_values(|x: i32| (10 * x) as i32));
    r
}

/// Extending a prefix by one element extends its filtered values by at most
/// that element, and filtered prefixes are prefixes of the filtered whole.
proof fn lemma_filter_prefix(s: Seq<i32>, i: int)
    requires
        0 <= i < s.len(),
    ensures
        above_one(s.take(i + 1)) == (if s[i] > 1 {
            above_one(s.take(i)).push(s[i])
        } else {
            above_one(s.take(i))
        }),
        above_one(s.take(i + 1)).len() <= above_one(s).len(),
        forall|k: int|
            0 <= k < above_one(s.take(i + 1)).len() ==> above_one(s.take(i + 1))[k] == above_one(
                s,
            )[k],
{
    reveal_with_fuel(Seq::<_>::filter, 1);
    assert(s.take(i + 1).drop_last() =~= s.take(i));
    lemma_filter_is_prefix(s, i + 1);
}

proof fn lemma_filter_prefix_len(s: Seq<i32>, i: int)
    requires
        0 <= i <= s.len(),
    ensures
        above_one(s.take(i)).len() <= above_one(s).len(),
        forall|k: int|
            0 <= k < above_one(s.take(i)).len() ==> above_one(s.take(i))[k] == above_one(s)[k],
{
    lemma_filter_is_prefix(s, i);
}

/// The values above one in a prefix are a prefix of those in the whole.
proof fn lemma_filter_is_prefix(s: Seq<i32>, i: int)
    requires
        0 <= i <= s.len(),
    ensures
        above_one(s.take(i)).len() <= above_one(s).len(),
        forall|k: int|
            0 <= k < above_one(s.take(i)).len() ==> above_one(s.take(i))[k] == above_one(s)[k],
    decreases s.len() - i,
{
    if i < s.len() {
        lemma_filter_is_prefix(s, i + 1);
        reveal_with_fuel(Seq::<_>::filter, 1);
        assert(s.take(i + 1).drop_last() =~= s.take(i));
    } else {
        assert(s.take(i) =~= s);
    }
}

/// The first value equal to `target`, if any.
pub fn find_number(numbers: &[i32], target: i32) -> (r: Option<&i32>)
    ensures
        match r {
            Some(x) => *x == target && numbers@.contains(target),
            None => !numbers@.contains(target),
        },
{
    for i in 0..numbers.len()
        invariant
            forall|k: int| 0 <= k < i ==> numbers@[k] != target,
    {
        if numbers[i] == target {
            return Some(&numbers[i]);
        }
    }
    None
}

/// The first item the predicate accepts, if any. The predicate is asked
/// about the items in order and no further once one is accepted.
pub fn find_with_predicate<T: PartialEq>(items: &[T], predicate: impl Fn(&T) -> bool) -> (r:
    Option<&T>)
    requires
        forall|i: int| 0 <= i < items@.len() ==> call_requires(predicate, (&items@[i],)),
    ensures
        match r {
            Some(x) => exists|i: int|
                0 <= i < items@.len() && *x == items@[i] && call_ensures(
                    predicate,
                    (&items@[i],),
                    true,
                ) && forall|j: int|
                    0 <= j < i ==> call_ensures(predicate, (&items@[j],), false),
            None => forall|i: int|
                0 <= i < items@.len() ==> call_ensures(predicate, (&items@[i],), false),
        },
{
    for i in 0..items.len()
        invariant
            forall|k: int| 0 <= k < items@.len() ==> call_requires(predicate, (&items@[k],)),
            forall|k: int| 0 <= k < i ==> call_ensures(predicate, (&items@[k],), false),
    {
        let item = &items[i];
        if predicate(item) {
            return Some(item);
        }
    }
    None
}

} // verus!
