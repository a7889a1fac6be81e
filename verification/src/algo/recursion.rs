//! Recursion pattern demonstrations: tail, head, tree, indirect and nested
//! recursion, plus the classic recursive formulas (triangular numbers,
//! factorial, powers, Fibonacci, combinations).

use vstd::prelude::*;

verus! {

/// The values `n, n - 1, ..., 1`, in that order.
pub open spec fn descending_seq(n: u32) -> Seq<u32>
    decreases n,
{
    if n == 0 {
        Seq::empty()
    } else {
        seq![n] + descending_seq((n - 1) as u32)
    }
}

/// The values `1, 2, ..., n`, in that order.
pub open spec fn ascending_seq(n: u32) -> Seq<u32>
    decreases n,
{
    if n == 0 {
        Seq::empty()
    } else {
        ascending_seq((n - 1) as u32) + seq![n]
    }
}

/// The values appended by the tree recursion: `n`, followed by the whole
/// pattern for `n - 1` twice.
pub open spec fn tree_seq(n: u32) -> Seq<u32>
    decreases n,
{
    if n == 0 {
        Seq::empty()
    } else {
        seq![n] + tree_seq((n - 1) as u32) + tree_seq((n - 1) as u32)
    }
}

/// The values appended by the first half of the indirect recursion pair.
pub open spec fn indirect_a_seq(n: u32) -> Seq<u32>
    decreases n,
{
    if n == 0 {
        Seq::empty()
    } else {
        seq![n] + indirect_b_seq((n - 1) as u32)
    }
}

/// The values appended by the second half of the indirect recursion pair.
pub open spec fn indirect_b_seq(n: u32) -> Seq<u32>
    decreases n,
{
    if n <= 1 {
        Seq::empty()
    } else {
        seq![n] + indirect_a_seq(n / 2)
    }
}

/// McCarthy's nested function: `n - 10` above 100, and 91 everywhere else.
pub open spec fn nested_result(n: u32) -> int {
    if n > 100 {
        n - 10
    } else {
        91
    }
}

/// The n-th triangular number `0 + 1 + ... + n`.
pub open spec fn triangle(n: nat) -> nat
    decreases n,
{
    if n == 0 {
        0
    } else {
        n + triangle((n - 1) as nat)
    }
}

/// The factorial of `n`.
pub open spec fn factorial(n: nat) -> nat
    decreases n,
{
    if n <= 1 {
        1
    } else {
        n * factorial((n - 1) as nat)
    }
}

/// `n` raised to the power `times`.
pub open spec fn power(n: nat, times: nat) -> nat
    decreases times,
{
    if times == 0 {
        1
    } else {
        n * power(n, (times - 1) as nat)
    }
}

/// The Fibonacci number of rank `n`, with `fibonacci(0) == 0` and
/// `fibonacci(1) == 1`.
pub open spec fn fibonacci(n: nat) -> nat
    decreases n,
{
    if n < 2 {
        n
    } else {
        fibonacci((n - 1) as nat) + fibonacci((n - 2) as nat)
    }
}

/// The binomial coefficient "n choose r", by Pascal's rule. Meant for
/// `r <= n`; it is padded with 1 beyond that so that the recursion is total.
pub open spec fn combinations(n: nat, r: nat) -> nat
    decreases n,
{
    if r == 0 || r >= n {
        1
    } else {
        combinations((n - 1) as nat, (r - 1) as nat) + combinations((n - 1) as nat, r)
    }
}

/// Tail recursion: the recursive call is the last thing the function does,
/// so the values `n ..= 1` land in the vector in descending order.
pub fn recursive_tail_push(n: u32, vals: &mut Vec<u32>)
    ensures
        final(vals)@ == old(vals)@ + descending_seq(n),
    decreases n,
{
    if n > 0 {
        vals.push(n);
        recursive_tail_push(n - 1, vals);
        assert(old(vals)@ + descending_seq(n) =~= (old(vals)@ + seq![n]) + descending_seq(
            (n - 1) as u32,
        ));
    } else {
        assert(old(vals)@ + descending_seq(n) =~= old(vals)@);
    }
}

/// Head recursion: the recursive call comes first, so the values end up in
/// ascending order `1 ..= n`.
pub fn recursive_head_push(n: u32, vals: &mut Vec<u32>)
    ensures
        final(vals)@ == old(vals)@ + ascending_seq(n),
    decreases n,
{
    if n > 0 {
        recursive_head_push(n - 1, vals);
        vals.push(n);
        assert(old(vals)@ + ascending_seq(n) =~= (old(vals)@ + ascending_seq((n - 1) as u32))
            + seq![n]);
    } else {
        assert(old(vals)@ + ascending_seq(n) =~= old(vals)@);
    }
}

/// Tree recursion: two recursive calls per level, so the pattern for `n - 1`
/// appears twice after each value.
pub fn recursive_tree_push(n: u32, vals: &mut Vec<u32>)
    ensures
        final(vals)@ == old(vals)@ + tree_seq(n),
    decreases n,
{
    if n > 0 {
        vals.push(n);
        recursive_tree_push(n - 1, vals);
        recursive_tree_push(n - 1, vals);
        assert(old(vals)@ + tree_seq(n) =~= ((old(vals)@ + seq![n]) + tree_seq((n - 1) as u32))
            + tree_seq((n - 1) as u32));
    } else {
        assert(old(vals)@ + tree_seq(n) =~= old(vals)@);
    }
}

/// Indirect recursion, first half: pushes `n` and hands `n - 1` to the
/// second half.
pub fn recursive_indirect_a_push(n: u32, vals: &mut Vec<u32>)
    ensures
        final(vals)@ == old(vals)@ + indirect_a_seq(n),
    decreases n,
{
    if n > 0 {
        vals.push(n);
        recursive_indirect_b_push(n - 1, vals);
        assert(old(vals)@ + indirect_a_seq(n) =~= (old(vals)@ + seq![n]) + indirect_b_seq(
            (n - 1) as u32,
        ));
    } else {
        assert(old(vals)@ + indirect_a_seq(n) =~= old(vals)@);
    }
}

/// Indirect recursion, second half: pushes `n` and hands `n / 2` back to the
/// first half.
pub fn recursive_indirect_b_push(n: u32, vals: &mut Vec<u32>)
    ensures
        final(vals)@ == old(vals)@ + indirect_b_seq(n),
    decreases n,
{
    if n > 1 {
        vals.push(n);
        recursive_indirect_a_push(n / 2, vals);
        assert(old(vals)@ + indirect_b_seq(n) =~= (old(vals)@ + seq![n]) + indirect_a_seq(n / 2));
    } else {
        assert(old(vals)@ + indirect_b_seq(n) =~= old(vals)@);
    }
}

/// Nested recursion (McCarthy's function): the recursive call takes another
/// recursive call as its argument. Returns `n - 10` above 100 and 91
/// everywhere else.
pub fn nested_recursion(n: u32) -> (r: u32)
    ensures
        r == nested_result(n),
    decreases (if n > 100 { 0int } else { 101 - n }),
{
    if n > 100 {
        n - 10
    } else {
        let inner = nested_recursion(n + 11);
        nested_recursion(inner)
    }
}

/// Sums `1 + 2 + ... + n` by recursion; the bound on the triangular number
/// keeps the additions inside `u32`.
pub fn sum_of_first_natural_numbers(n: u32) -> (r: u32)
    requires
        triangle(n as nat) <= u32::MAX,
    ensures
        r == triangle(n as nat),
    decreases n,
{
    if n > 0 {
        sum_of_first_natural_numbers(n - 1) + n
    } else {
        0
    }
}

proof fn lemma_factorial_at_least_one(n: nat)
    ensures
        factorial(n) >= 1,
    decreases n,
{
    if n > 1 {
        lemma_factorial_at_least_one((n - 1) as nat);
        assert(factorial(n) >= 1) by (nonlinear_arith)
            requires
                factorial(n) == n * factorial((n - 1) as nat),
                factorial((n - 1) as nat) >= 1,
                n >= 2,
        ;
    }
}

/// The factorial of `n`, by recursion; the bound on the result keeps the
/// multiplications inside `u32`.
pub fn factorial_of_n(n: u32) -> (r: u32)
    requires
        factorial(n as nat) <= u32::MAX,
    ensures
        r == factorial(n as nat),
    decreases n,
{
    if n > 1 {
        proof {
            lemma_factorial_at_least_one((n - 1) as nat);
            assert(factorial((n - 1) as nat) <= factorial(n as nat)) by (nonlinear_arith)
                requires
                    factorial(n as nat) == n * factorial((n - 1) as nat),
                    factorial((n - 1) as nat) >= 1,
                    n >= 2,
            ;
        }
        let sub = factorial_of_n(n - 1);
        proof {
            assert(sub * n == factorial(n as nat)) by (nonlinear_arith)
                requires
                    sub == factorial((n - 1) as nat),
                    factorial(n as nat) == n * factorial((n - 1) as nat),
            ;
        }
        sub * n
    } else {
        1
    }
}

proof fn lemma_power_step_bound(n: nat, times: nat)
    requires
        times >= 2,
        power(n, times) <= u32::MAX,
    ensures
        power(n, (times - 1) as nat) <= u32::MAX,
        power(n, (times - 1) as nat) * n == power(n, times),
{
    let prev = power(n, (times - 1) as nat);
    assert(power(n, times) == n * prev);
    if n == 0 {
        assert(prev == 0 * power(n, (times - 2) as nat));
        assert(prev == 0) by (nonlinear_arith)
            requires
                prev == 0 * power(n, (times - 2) as nat),
        ;
    } else {
        assert(prev <= n * prev && prev * n == n * prev) by (nonlinear_arith)
            requires
                n >= 1,
                prev >= 0,
        ;
    }
}

/// Raises `n` to the power `times` by repeated multiplication. As a quirk of
/// the exercise, a zero exponent yields 0 rather than 1.
pub fn power_recursion(n: u32, times: u32) -> (r: u32)
    requires
        power(n as nat, times as nat) <= u32::MAX,
    ensures
        r == if times == 0 {
            0int
        } else {
            power(n as nat, times as nat) as int
        },
    decreases times,
{
    if times == 0 {
        0
    } else if times > 1 {
        proof {
            lemma_power_step_bound(n as nat, times as nat);
        }
        let sub = power_recursion(n, times - 1);
        sub * n
    } else {
        proof {
            assert(power(n as nat, 1nat) == n as nat * power(n as nat, 0nat));
            assert(power(n as nat, 0nat) == 1nat);
            assert(n as nat * power(n as nat, 0nat) == n) by (nonlinear_arith)
                requires
                    power(n as nat, 0nat) == 1nat,
            ;
        }
        n
    }
}

proof fn lemma_fibonacci_monotonic(i: nat, j: nat)
    requires
        i <= j,
    ensures
        fibonacci(i) <= fibonacci(j),
    decreases j - i,
{
    if i < 2 && j < 2 {
    } else if i == j {
    } else if i == j - 1 {
        assert(fibonacci(j) == fibonacci((j - 1) as nat) + fibonacci((j - 2) as nat));
    } else {
        lemma_fibonacci_monotonic(i, (j - 1) as nat);
        lemma_fibonacci_monotonic(i, (j - 2) as nat);
        assert(fibonacci(j) == fibonacci((j - 1) as nat) + fibonacci((j - 2) as nat));
    }
}

/// The Fibonacci number of rank `n`, by plain double recursion.
pub fn fibonacci_series_recursion(n: u32) -> (r: u32)
    requires
        fibonacci(n as nat) <= u32::MAX,
    ensures
        r == fibonacci(n as nat),
    decreases n,
{
    if n < 2 {
        n
    } else {
        proof {
            lemma_fibonacci_monotonic((n - 1) as nat, n as nat);
            lemma_fibonacci_monotonic((n - 2) as nat, n as nat);
        }
        fibonacci_series_recursion(n - 1) + fibonacci_series_recursion(n - 2)
    }
}

/// The number of ways to choose `r` items out of `n`, by Pascal's rule.
pub fn combination_formula_recursion(n: u32, r: u32) -> (res: u32)
    requires
        r <= n,
        combinations(n as nat, r as nat) <= u32::MAX,
    ensures
        res == combinations(n as nat, r as nat),
    decreases n,
{
    if r == 0 || n == r {
        1
    } else {
        combination_formula_recursion(n - 1, r - 1) + combination_formula_recursion(n - 1, r)
    }
}

} // verus!
