//! The two-crystal-balls puzzle: the slice records, position by position,
//! whether a ball dropped from that height breaks, and once a ball breaks
//! at some height it breaks at every greater one. With only two balls to
//! spend, the first one jumps ahead by the square root of the length and
//! the second walks the last window, which finds the exact breaking spot
//! in O(sqrt(n)) drops.

use vstd::prelude::*;

verus! {

/// Once true, always true: the breakage record a dropped ball leaves.
pub open spec fn monotonic(s: Seq<bool>) -> bool {
    forall|i: int, j: int| (0 <= i <= j < s.len() && s[i]) ==> s[j]
}

/// The integer square root: the largest `r` with `r * r <= n`.
pub fn integer_sqrt(n: usize) -> (r: usize)
    ensures
        r * r <= n < (r + 1) * (r + 1),
{
    let mut root: usize = 0;
    loop
        invariant
            root * root <= n,
            root <= n,
            root <= 0x1_0000_0000,
        ensures
            root * root <= n < (root + 1) * (root + 1),
        decreases n - root,
    {
        proof {
            assert((root + 1) * (root + 1) < 0x1_0000_0000_0000_0000_0000_0000_0000_0000)
                by (nonlinear_arith)
                requires
                    root <= 0x1_0000_0000,
            ;
        }
        let next_sq = (root as u128 + 1) * (root as u128 + 1);
        if next_sq <= n as u128 {
            proof {
                assert(root + 1 <= 0x1_0000_0000 && root + 1 <= n) by (nonlinear_arith)
                    requires
                        (root + 1) * (root + 1) <= n,
                        n < 0x1_0000_0000_0000_0000,
                ;
            }
            root = root + 1;
        } else {
            break;
        }
    }
    root
}

/// Finds the first height at which a ball breaks, or `None` when none does.
/// The first ball is dropped every `sqrt(n)` heights until it breaks; the
/// second ball then walks the last window one height at a time.
pub fn two_crystal_balls(breaks: &[bool]) -> (r: Option<usize>)
    requires
        monotonic(breaks@),
    ensures
        match r {
            Option::Some(i) => i < breaks.len() && breaks[i as int] && forall|j: int|
                0 <= j < i ==> !breaks[j],
            Option::None => forall|j: int| 0 <= j < breaks.len() ==> !breaks[j],
        },
{
    let jmp_amount = integer_sqrt(breaks.len());
    proof {
        assert(breaks.len() >= 1 ==> jmp_amount >= 1) by (nonlinear_arith)
            requires
                breaks.len() < (jmp_amount + 1) * (jmp_amount + 1),
        ;
        assert(jmp_amount <= breaks.len() && jmp_amount + 1 <= usize::MAX) by (nonlinear_arith)
            requires
                jmp_amount * jmp_amount <= breaks.len() <= usize::MAX,
        ;
    }

    let mut i = jmp_amount;
    while i < breaks.len()
        invariant
            monotonic(breaks@),
            breaks.len() >= 1 ==> jmp_amount >= 1,
            jmp_amount <= breaks.len(),
            jmp_amount <= i,
            i - jmp_amount <= breaks.len(),
            forall|j: int| 0 <= j < i - jmp_amount ==> !breaks[j],
        ensures
            jmp_amount <= i,
            i - jmp_amount <= breaks.len(),
            forall|j: int| 0 <= j < i - jmp_amount ==> !breaks[j],
            i >= breaks.len() || breaks[i as int],
        decreases breaks.len() + jmp_amount - i,
    {
        if breaks[i] {
            break;
        }
        if jmp_amount > usize::MAX - i {
            i = breaks.len();
        } else {
            i = i + jmp_amount;
        }
    }

    // The first ball broke at `i` (or never); the break spot, if any, sits
    // in the window of `jmp_amount + 1` heights ending at `i`.
    i -= jmp_amount;
    let ghost start: int = i as int;
    let mut step: usize = 0;
    while step <= jmp_amount
        invariant
            monotonic(breaks@),
            i == start + step,
            step <= jmp_amount + 1,
            jmp_amount + 1 <= usize::MAX,
            start + jmp_amount >= breaks.len() || breaks[start + jmp_amount],
            forall|j: int| 0 <= j < i ==> !breaks[j],
        ensures
            i == start + step,
            start + jmp_amount >= breaks.len() || breaks[start + jmp_amount],
            forall|j: int| 0 <= j < i ==> !breaks[j],
            i >= breaks.len() || step == jmp_amount + 1,
        decreases jmp_amount + 1 - step,
    {
        if i >= breaks.len() {
            break;
        }
        if breaks[i] {
            return Some(i);
        }
        i += 1;
        step += 1;
    }

    proof {
        if i < breaks.len() {
            // The window was walked to its end without a break, so the
            // height the first ball broke at cannot lie inside the slice.
            assert(step == jmp_amount + 1);
            assert(!breaks[start + jmp_amount]);
            assert(start + jmp_amount >= breaks.len());
        }
    }
    None
}

} // verus!
