use vstd::prelude::*;

verus! {

/// The Fibonacci numbers: 0, 1, 1, 2, 3, 5, ...
pub open spec fn fib(n: nat) -> nat
    decreases n,
{
    if n == 0 {
        0
    } else if n == 1 {
        1
    } else {
        fib((n - 1) as nat) + fib((n - 2) as nat)
    }
}

/// Each Fibonacci number is at least the one before it.
proof fn lemma_fib_monotone(n: nat)
    requires
        n >= 1,
    ensures
        fib((n - 1) as nat) <= fib(n),
    decreases n,
{
    if n >= 2 {
        lemma_fib_monotone((n - 1) as nat);
    }
}

/// The Fibonacci number at position `n`, for every `n` whose value fits in
/// 64 bits.
pub fn fibonacci(n: u32) -> (r: u64)
    requires
        fib(n as nat) <= u64::MAX,
    ensures
        r == fib(n as nat),
    decreases n,
{
    match n {
        0 => 0,
        1 => 1,
        _ => {
            proof {
                lemma_fib_monotone(n as nat);
                lemma_fib_monotone((n - 1) as nat);
            }
            fibonacci(n - 1) + fibonacci(n - 2)
        },
    }
}

} // verus!
