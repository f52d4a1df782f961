//! Small numeric routines exported next to the simulation.
use vstd::prelude::*;

verus! {

/// The Fibonacci numbers: 0, 1, 1, 2, 3, 5, ...
pub open spec fn fib(n: nat) -> nat
    decreases n,
{
    if n <= 1 {
        n
    } else {
        fib((n - 1) as nat) + fib((n - 2) as nat)
    }
}

/// The largest Fibonacci number that fits in a `u32`.
proof fn lemma_fib_47()
    ensures
        fib(47) == 2971215073,
{
    assert(fib(0) == 0);
    assert(fib(1) == 1);
    assert(fib(2) == 1);
    assert(fib(3) == 2);
    assert(fib(4) == 3);
    assert(fib(5) == 5);
    assert(fib(6) == 8);
    assert(fib(7) == 13);
    assert(fib(8) == 21);
    assert(fib(9) == 34);
    assert(fib(10) == 55);
    assert(fib(11) == 89);
    assert(fib(12) == 144);
    assert(fib(13) == 233);
    assert(fib(14) == 377);
    assert(fib(15) == 610);
    assert(fib(16) == 987);
    assert(fib(17) == 1597);
    assert(fib(18) == 2584);
    assert(fib(19) == 4181);
    assert(fib(20) == 6765);
    assert(fib(21) == 10946);
    assert(fib(22) == 17711);
    assert(fib(23) == 28657);
    assert(fib(24) == 46368);
    assert(fib(25) == 75025);
    assert(fib(26) == 121393);
    assert(fib(27) == 196418);
    assert(fib(28) == 317811);
    assert(fib(29) == 514229);
    assert(fib(30) == 832040);
    assert(fib(31) == 1346269);
    assert(fib(32) == 2178309);
    assert(fib(33) == 3524578);
    assert(fib(34) == 5702887);
    assert(fib(35) == 9227465);
    assert(fib(36) == 14930352);
    assert(fib(37) == 24157817);
    assert(fib(38) == 39088169);
    assert(fib(39) == 63245986);
    assert(fib(40) == 102334155);
    assert(fib(41) == 165580141);
    assert(fib(42) == 267914296);
    assert(fib(43) == 433494437);
    assert(fib(44) == 701408733);
    assert(fib(45) == 1134903170);
    assert(fib(46) == 1836311903);
    assert(fib(47) == 2971215073);
}

proof fn lemma_fib_monotone(i: nat, j: nat)
    requires
        i <= j,
    ensures
        fib(i) <= fib(j),
    decreases j - i,
{
    if i < j {
        lemma_fib_monotone(i, (j - 1) as nat);
        if j >= 2 {
            assert(fib(j) == fib((j - 1) as nat) + fib((j - 2) as nat));
        }
    }
}

/// The `n`-th Fibonacci number; `n` at most 47 keeps it within a `u32`.
pub fn compute_fibonacci(n: u32) -> (r: u32)
    requires
        n <= 47,
    ensures
        r == fib(n as nat),
{
    if n <= 1 {
        return n;
    }
    let mut a: u32 = 0;
    let mut b: u32 = 1;
    let mut i: u32 = 2;
    proof {
        lemma_fib_47();
    }
    while i <= n
        invariant
            2 <= i <= n + 1,
            n <= 47,
            a == fib((i - 2) as nat),
            b == fib((i - 1) as nat),
            fib(47) == 2971215073,
        decreases n + 1 - i,
    {
        proof {
            lemma_fib_monotone(i as nat, 47);
            assert(fib(i as nat) == fib((i - 1) as nat) + fib((i - 2) as nat));
        }
        let temp = a + b;
        a = b;
        b = temp;
        i = i + 1;
    }
    b
}

/// The sum of `i * i` for `0 <= i < k`, each product and sum wrapping
/// around in `i32`.
pub open spec fn wrapped_square_sum(k: int) -> i32
    decreases k,
{
    if k <= 0 {
        0
    } else {
        let i = (k - 1) as i32;
        wrapped_square_sum(k - 1).wrapping_add(i.wrapping_mul(i))
    }
}

/// How many squares `heavy_computation_sum` adds.
pub const HEAVY_TERMS: i32 = 10_000_000;

/// A deliberately long computation: the wrapping sum of the first
/// `HEAVY_TERMS` squares.
pub fn heavy_computation_sum() -> (r: i32)
    ensures
        r == wrapped_square_sum(HEAVY_TERMS as int),
{
    let mut result: i32 = 0;
    let mut i: i32 = 0;
    while i < HEAVY_TERMS
        invariant
            0 <= i <= HEAVY_TERMS,
            result == wrapped_square_sum(i as int),
        decreases HEAVY_TERMS - i,
    {
        result = result.wrapping_add(i.wrapping_mul(i));
        i = i + 1;
    }
    result
}

} // verus!
