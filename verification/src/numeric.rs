//! The two smallest contract programs: a Fibonacci computation whose
//! result becomes the next state digest, and the Collatz step machine
//! whose state is a single number.

use vstd::prelude::*;

verus! {

/// The Fibonacci sequence.
pub open spec fn spec_fib(n: nat) -> nat
    decreases n,
{
    if n == 0 {
        0
    } else if n == 1 {
        1
    } else {
        spec_fib((n - 1) as nat) + spec_fib((n - 2) as nat)
    }
}

/// The sequence never decreases.
pub proof fn lemma_fib_monotonic(m: nat, n: nat)
    requires
        m <= n,
    ensures
        spec_fib(m) <= spec_fib(n),
    decreases n,
{
    if m < n && n >= 2 {
        lemma_fib_monotonic(m, (n - 1) as nat);
    }
}

/// Computes the `n`th Fibonacci number, with the success flag its
/// callers expect alongside it.
pub fn fibonacci(n: u32) -> (r: (u32, bool))
    requires
        spec_fib(n as nat) <= u32::MAX,
    ensures
        r.0 == spec_fib(n as nat),
        r.1,
{
    if n == 0 {
        return (0, true);
    }
    if n == 1 {
        return (1, true);
    }
    let mut a: u32 = 0;
    let mut b: u32 = 1;
    let mut i: u32 = 1;
    while i < n
        invariant
            1 <= i <= n,
            a == spec_fib((i - 1) as nat),
            b == spec_fib(i as nat),
            spec_fib(n as nat) <= u32::MAX,
        decreases n - i,
    {
        proof {
            lemma_fib_monotonic((i + 1) as nat, n as nat);
        }
        let next = a + b;
        a = b;
        b = next;
        i = i + 1;
    }
    (b, true)
}

/// One step of the Collatz machine: from state one, any suggested
/// nonzero number restarts the walk; otherwise the state halves when
/// even and becomes three times itself plus one when odd.
pub open spec fn spec_collatz_next(state: u32, suggested: u32) -> Option<u32> {
    if state == 1 {
        if suggested == 0 {
            None
        } else {
            Some(suggested)
        }
    } else if state % 2 == 0 {
        Some((state / 2) as u32)
    } else {
        Some((3 * state + 1) as u32)
    }
}

/// Computes the Collatz machine's next state, or nothing when a restart
/// to zero is suggested, which would block the machine.
pub fn collatz_next(state: u32, suggested: u32) -> (r: Option<u32>)
    requires
        state != 1 && state % 2 == 1 ==> 3 * state + 1 <= u32::MAX,
    ensures
        r == spec_collatz_next(state, suggested),
{
    if state == 1 {
        if suggested == 0 {
            None
        } else {
            Some(suggested)
        }
    } else if state % 2 == 0 {
        Some(state / 2)
    } else {
        Some(3 * state + 1)
    }
}

} // verus!
