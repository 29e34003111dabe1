//! A hand-written iterator that counts down to one.
use vstd::prelude::*;

verus! {

/// Yields `n`, `n - 1`, ..., `1`, then nothing more.
#[derive(Debug, Clone, Copy, PartialEq, Eq, Structural)]
pub struct Countdown(pub u32);

/// The values a countdown from `n` yields.
pub open spec fn countdown_seq(n: u32) -> Seq<u32> {
    Seq::new(n as nat, |i: int| (n - i) as u32)
}

/// `n + (n - 1) + ... + 1`.
pub open spec fn triangle(n: nat) -> nat
    decreases n,
{
    if n == 0 {
        0
    } else {
        n + triangle((n - 1) as nat)
    }
}

/// The sum of `1..=n` is `n * (n + 1) / 2`.
pub proof fn lemma_triangle_closed_form(n: nat)
    ensures
        triangle(n) == n * (n + 1) / 2,
    decreases n,
{
    if n > 0 {
        let m = (n - 1) as nat;
        lemma_triangle_closed_form(m);
        assert(triangle(n) == n + triangle(m));
        assert(m * (m + 1) / 2 + n == n * (n + 1) / 2) by (nonlinear_arith)
            requires
                m + 1 == n,
        ;
    } else {
        assert(n * (n + 1) / 2 == 0) by (nonlinear_arith)
            requires
                n == 0,
        ;
    }
}

proof fn lemma_triangle_monotone(a: nat, b: nat)
    requires
        a <= b,
    ensures
        triangle(a) <= triangle(b),
    decreases b,
{
    if a < b {
        lemma_triangle_monotone(a, (b - 1) as nat);
    }
}

/// One call of `next`: the countdown afterwards and the value returned.
pub open spec fn step(c: Countdown) -> (Countdown, Option<u32>) {
    if c.0 == 0 {
        (c, None)
    } else {
        (Countdown((c.0 - 1) as u32), Some(c.0))
    }
}

/// The countdown after `k` calls of `next`.
pub open spec fn after_calls(c: Countdown, k: nat) -> Countdown
    decreases k,
{
    if k == 0 {
        c
    } else {
        after_calls(step(c).0, (k - 1) as nat)
    }
}

/// What call number `k + 1` of `next` returns.
pub open spec fn result_of_call(c: Countdown, k: nat) -> Option<u32> {
    step(after_calls(c, k)).1
}

/// A countdown from `n` answers its first `n` calls of `next` with `n`,
/// `n - 1`, ..., `1`, and every later call with `None`.
pub proof fn lemma_countdown_run(n: u32, k: nat)
    ensures
        after_calls(Countdown(n), k).0 == (if k < n { n - k } else { 0 }),
        result_of_call(Countdown(n), k) == (if k < n {
            Some((n - k) as u32)
        } else {
            None::<u32>
        }),
    decreases k,
{
    if k > 0 {
        if n > 0 {
            lemma_countdown_run((n - 1) as u32, (k - 1) as nat);
        } else {
            lemma_countdown_run(0, (k - 1) as nat);
        }
    }
}

impl Countdown {
    /// The next value: the current count, which then drops by one; nothing
    /// once the count is zero, and the count stays zero.
    pub fn next(&mut self) -> (r: Option<u32>)
        ensures
            old(self).0 == 0 ==> r is None && final(self).0 == 0,
            old(self).0 > 0 ==> r == Some(old(self).0) && final(self).0 == old(self).0 - 1,
            (*final(self), r) == step(*old(self)),
    {
        if self.0 == 0 {
            None
        } else {
            self.0 -= 1;
            Some(self.0 + 1)
        }
    }

    /// Every value the countdown yields, in order.
    pub fn collect_all(self) -> (r: Vec<u32>)
        ensures
            r@ == countdown_seq(self.0),
    {
        let n = self.0;
        let mut it = self;
        let mut out: Vec<u32> = Vec::new();
        loop
            invariant
                it.0 <= n,
                out@ == countdown_seq(n).take(n - it.0),
            ensures
                out@ == countdown_seq(n),
            decreases it.0,
        {
            let ghost before = it.0;
            match it.next() {
                Some(x) => {
                    out.push(x);
                    assert(countdown_seq(n).take(n - it.0) =~= countdown_seq(n).take(
                        n - before,
                    ).push(x));
                },
                None => {
                    assert(countdown_seq(n).take(n - it.0) =~= countdown_seq(n));
                    break;
                },
            }
        }
        out
    }

    /// The sum of the values yielded, `n * (n + 1) / 2`; it must fit in a
    /// `u32`.
    pub fn sum_all(self) -> (r: u32)
        requires
            self.0 * (self.0 + 1) / 2 <= u32::MAX,
        ensures
            r == self.0 * (self.0 + 1) / 2,
    {
        let n = self.0;
        proof {
            lemma_triangle_closed_form(n as nat);
        }
        let mut it = self;
        let mut total: u32 = 0;
        loop
            invariant
                it.0 <= n,
                triangle(n as nat) <= u32::MAX,
                total == triangle(n as nat) - triangle(it.0 as nat),
            ensures
                total == triangle(n as nat),
            decreases it.0,
        {
            match it.next() {
                Some(x) => {
                    proof {
                        lemma_triangle_monotone((x - 1) as nat, n as nat);
                        lemma_triangle_monotone(x as nat, n as nat);
                    }
                    total = total + x;
                },
                None => {
                    break;
                },
            }
        }
        total
    }

    /// Each value yielded, doubled; twice the start must fit in a `u32`.
    pub fn doubled(self) -> (r: Vec<u32>)
        requires
            2 * self.0 <= u32::MAX,
        ensures
            r@ == countdown_seq(self.0).map_values(|x: u32| (2 * x) as u32),
    {
        let n = self.0;
        let mut it = self;
        let mut out: Vec<u32> = Vec::new();
        loop
            invariant
                it.0 <= n,
                2 * n <= u32::MAX,
                out@ == countdown_seq(n).take(n - it.0).map_values(|x: u32| (2 * x) as u32),
            ensures
                out@ == countdown_seq(n).map_values(|x: u32| (2 * x) as u32),
            decreases it.0,
        {
            let ghost before = it.0;
            match it.next() {
                Some(x) => {
                    out.push(x * 2);
                    assert(countdown_seq(n).take(n - it.0).map_values(|x: u32| (2 * x) as u32)
                        =~= countdown_seq(n).take(n - before).map_values(
                        |x: u32| (2 * x) as u32,
                    ).push((2 * x) as u32));
                },
                None => {
                    assert(countdown_seq(n).take(n - it.0) =~= countdown_seq(n));
                    break;
                },
            }
        }
        out
    }
}

} // verus!
