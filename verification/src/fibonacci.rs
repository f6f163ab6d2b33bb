//! Fibonacci numbers in 64-bit wrapping arithmetic.

use vstd::prelude::*;

verus! {

/// The number of values of a `u64`: two to the power of 64.
pub open spec fn word() -> int {
    0x1_0000_0000_0000_0000
}

/// The `n`-th Fibonacci number, counted from `fib(0) == 0`, without any bound.
pub open spec fn fib(n: nat) -> nat
    decreases n,
{
    if n <= 1 {
        n
    } else {
        fib((n - 1) as nat) + fib((n - 2) as nat)
    }
}

/// The `n`-th Fibonacci number modulo two to the power of 64.
pub open spec fn wrapped_fib(n: nat) -> u64 {
    (fib(n) as int % word()) as u64
}

/// The sum of the squares of the numbers below `n`.
pub open spec fn sum_of_squares(n: nat) -> nat
    decreases n,
{
    if n == 0 {
        0
    } else {
        sum_of_squares((n - 1) as nat) + ((n - 1) * (n - 1)) as nat
    }
}

/// From two neighbours the recurrence gives the next wrapped Fibonacci number.
proof fn lemma_wrapped_step(i: nat)
    requires
        i >= 1,
    ensures
        wrapped_fib(i + 1) as int == (wrapped_fib((i - 1) as nat) + wrapped_fib(i)) % word(),
{
    let x = fib((i - 1) as nat) as int;
    let y = fib(i) as int;
    assert(fib(i + 1) == fib(i) + fib((i - 1) as nat));
    assert((x + y) % word() == (x % word() + y % word()) % word()) by {
        vstd::arithmetic::div_mod::lemma_add_mod_noop(x, y, word());
    }
}

/// Deliberate filler work: adds up the squares of the numbers below 100.
fn extra_work() -> (total: u64)
    ensures
        total == sum_of_squares(100),
{
    let mut total: u64 = 0;
    let mut x: u64 = 0;
    while x < 100
        invariant
            x <= 100,
            total == sum_of_squares(x as nat),
            total <= x * 10_000,
        decreases 100 - x,
    {
        assert(x * x <= 10_000) by (nonlinear_arith)
            requires
                x < 100,
        ;
        total = total + x * x;
        x = x + 1;
    }
    total
}

/// Computes the `n`-th Fibonacci number modulo two to the power of 64, one
/// addition at a time, with some filler work at every thousandth step.
pub fn compute_fibonacci(n: u64) -> (result: u64)
    ensures
        result == wrapped_fib(n as nat),
{
    if n <= 1 {
        return n;
    }
    let mut a: u64 = 0;
    let mut b: u64 = 1;
    let mut i: u64 = 1;
    while i < n
        invariant
            1 <= i <= n,
            a == wrapped_fib((i - 1) as nat),
            b == wrapped_fib(i as nat),
        decreases n - i,
    {
        proof {
            lemma_wrapped_step(i as nat);
        }
        i = i + 1;
        let next: u64 = a.wrapping_add(b);
        a = b;
        b = next;
        if i % 1000 == 0 {
            let _extra_work: u64 = extra_work();
        }
    }
    b
}

/// Fibonacci numbers never fall.
proof fn lemma_fib_is_monotonic(m: nat, n: nat)
    requires
        m <= n,
    ensures
        fib(m) <= fib(n),
    decreases n,
{
    if m < n {
        lemma_fib_is_monotonic(m, (n - 1) as nat);
        assert(fib((n - 1) as nat) <= fib(n));
    }
}

/// Two neighbours give the two that stand ten places on.
proof fn lemma_ten_places_on(n: nat)
    ensures
        fib(n + 10) == 55 * fib(n + 1) + 34 * fib(n),
        fib(n + 11) == 89 * fib(n + 1) + 55 * fib(n),
{
    assert(fib(n + 2) == fib(n + 1) + fib(n));
    assert(fib(n + 3) == fib(n + 2) + fib(n + 1));
    assert(fib(n + 4) == fib(n + 3) + fib(n + 2));
    assert(fib(n + 5) == fib(n + 4) + fib(n + 3));
    assert(fib(n + 6) == fib(n + 5) + fib(n + 4));
    assert(fib(n + 7) == fib(n + 6) + fib(n + 5));
    assert(fib(n + 8) == fib(n + 7) + fib(n + 6));
    assert(fib(n + 9) == fib(n + 8) + fib(n + 7));
    assert(fib(n + 10) == fib(n + 9) + fib(n + 8));
    assert(fib(n + 11) == fib(n + 10) + fib(n + 9));
}

/// The Fibonacci numbers up to the ninety-third come out in full, since a `u64`
/// can hold them.
pub proof fn lemma_small_numbers_do_not_wrap(n: nat)
    requires
        n <= 93,
    ensures
        wrapped_fib(n) == fib(n),
{
    assert(fib(93) == 12_200_160_415_121_876_738) by {
        lemma_ten_places_on(0);
        lemma_ten_places_on(10);
        lemma_ten_places_on(20);
        lemma_ten_places_on(30);
        lemma_ten_places_on(40);
        lemma_ten_places_on(50);
        lemma_ten_places_on(60);
        lemma_ten_places_on(70);
        lemma_ten_places_on(80);
        assert(fib(92) == fib(91) + fib(90));
    }
    lemma_fib_is_monotonic(n, 93);
}

/// The Fibonacci numbers: zero, one, and then the sum of the two before.
pub proof fn lemma_fib_recurrence(n: nat)
    ensures
        fib(0) == 0,
        fib(1) == 1,
        fib(n + 2) == fib(n + 1) + fib(n),
        wrapped_fib(n) as int == fib(n) as int % 0x1_0000_0000_0000_0000,
{
}

/// What is computed for neighbouring numbers obeys the recurrence, with
/// wrap-around, and starts with zero and one.
pub proof fn lemma_results_obey_the_recurrence(n: u64, first: u64, second: u64, third: u64)
    requires
        n <= u64::MAX - 2,
        call_ensures(compute_fibonacci, (n,), first),
        call_ensures(compute_fibonacci, ((n + 1) as u64,), second),
        call_ensures(compute_fibonacci, ((n + 2) as u64,), third),
    ensures
        third as int == (first + second) % 0x1_0000_0000_0000_0000,
        n == 0 ==> first == 0 && second == 1,
{
    lemma_wrapped_step((n + 1) as nat);
}

/// The sum of the squares of the numbers below `n` in closed form.
pub proof fn lemma_sum_of_squares(n: nat)
    ensures
        6 * sum_of_squares(n) == n * (n - 1) * (2 * n - 1),
    decreases n,
{
    if n == 0 {
        assert(n * (n - 1) * (2 * n - 1) == 0) by (nonlinear_arith)
            requires
                n == 0,
        ;
    } else {
        let m = (n - 1) as nat;
        lemma_sum_of_squares(m);
        assert(m * m >= 0 && m * (m - 1) * (2 * m - 1) + 6 * (m * m) == n * (n - 1) * (2 * n - 1))
            by (nonlinear_arith)
            requires
                m == n - 1,
        ;
    }
}

} // verus!
