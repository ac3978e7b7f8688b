//! What holds of every traversal of a range with a positive step.

use vstd::prelude::*;
use vstd::arithmetic::div_mod::lemma_fundamental_div_mod;

use crate::range::{after_pulls, eligible, initial_state, pull, pulls, Pull, RangeState};

verus! {

/// The largest multiple of the step that the last produced value may lie above `start`.
pub open spec fn span(s: RangeState) -> int {
    if s.inclusive {
        s.stop - s.start
    } else {
        s.stop - s.start - 1
    }
}

/// How many values one traversal yields.
pub open spec fn term_count(s: RangeState) -> nat {
    if span(s) < 0 {
        0
    } else {
        (span(s) / s.step + 1) as nat
    }
}

/// One traversal: `start, start + step, ...` up to the last eligible term, then the end.
pub open spec fn traversal(s: RangeState) -> Seq<Pull> {
    Seq::new(term_count(s), |i: int| Pull::Value(s.start + i * s.step)).push(Pull::Done)
}

proof fn lemma_term_eligible(s: RangeState, k: int)
    requires
        k >= 0,
        s.step > 0,
        s.start <= s.stop,
    ensures
        eligible(s, s.start + k * s.step) <==> k < term_count(s),
{
    let d = span(s);
    let st = s.step;
    if d < 0 {
        assert(k * st >= 0) by (nonlinear_arith)
            requires
                k >= 0,
                st > 0,
        ;
    } else {
        lemma_fundamental_div_mod(d, st);
        let q = d / st;
        assert(k * st <= d <==> k <= q) by (nonlinear_arith)
            requires
                k >= 0,
                st > 0,
                d == st * q + d % st,
                0 <= d % st < st,
        ;
    }
}

proof fn lemma_prefix(s: RangeState, k: nat)
    requires
        s.step > 0,
        s.start <= s.stop,
        s.cursor == s.start,
        i32::MIN <= s.start,
        k <= term_count(s),
    ensures
        after_pulls(s, k) == (RangeState { cursor: s.start + k * s.step, ..s }),
        pulls(s, k) == Seq::new(k, |i: int| Pull::Value(s.start + i * s.step)),
    decreases k,
{
    if k > 0 {
        let j = (k - 1) as nat;
        lemma_prefix(s, j);
        lemma_term_eligible(s, j as int);
        assert(s.start + j * s.step >= s.start) by (nonlinear_arith)
            requires
                s.step > 0,
        ;
        assert(s.start + j * s.step + s.step == s.start + k * s.step) by (nonlinear_arith)
            requires
                k == j + 1,
        ;
        assert(pulls(s, k) =~= Seq::new(k, |i: int| Pull::Value(s.start + i * s.step)));
    }
}

proof fn lemma_one_traversal(s: RangeState)
    requires
        s.step > 0,
        s.start <= s.stop,
        s.cursor == s.start,
        i32::MIN <= s.start,
    ensures
        pulls(s, term_count(s) + 1) == traversal(s),
        after_pulls(s, term_count(s) + 1) == s,
{
    let c = term_count(s);
    lemma_prefix(s, c);
    lemma_term_eligible(s, c as int);
    assert(pulls(s, c + 1) =~= traversal(s));
}

proof fn lemma_compose(s: RangeState, a: nat, b: nat)
    ensures
        after_pulls(s, a + b) == after_pulls(after_pulls(s, a), b),
    decreases b,
{
    if b > 0 {
        lemma_compose(s, a, (b - 1) as nat);
        assert((a + b - 1) as nat == a + (b - 1) as nat);
    }
}

proof fn lemma_pulls_len(s: RangeState, n: nat)
    ensures
        pulls(s, n).len() == n,
    decreases n,
{
    if n > 0 {
        lemma_pulls_len(s, (n - 1) as nat);
    }
}

proof fn lemma_pull_at(s: RangeState, n: nat, i: int)
    requires
        0 <= i < n,
    ensures
        pulls(s, n)[i] == pull(after_pulls(s, i as nat)).0,
    decreases n,
{
    lemma_pulls_len(s, (n - 1) as nat);
    if i < n - 1 {
        lemma_pull_at(s, (n - 1) as nat, i);
    }
}

proof fn lemma_cycles(s: RangeState, q: nat, r: nat)
    requires
        s.step > 0,
        s.start <= s.stop,
        s.cursor == s.start,
        i32::MIN <= s.start,
    ensures
        after_pulls(s, q * (term_count(s) + 1) + r) == after_pulls(s, r),
    decreases q,
{
    let p = term_count(s) + 1;
    if q > 0 {
        let q1 = (q - 1) as nat;
        lemma_cycles(s, q1, r);
        lemma_one_traversal(s);
        assert(q * p + r == p + (q1 * p + r)) by (nonlinear_arith)
            requires
                q == q1 + 1,
        ;
        lemma_compose(s, p, q1 * p + r);
    }
}

/// For `start <= stop` and a positive step, a fresh range yields exactly
/// `start, start + step, start + 2 * step, ...` up to the largest term that is
/// at most `stop` (inclusive) or below `stop` (exclusive), and then the end.
pub proof fn law_traversal(start: i32, stop: i32, step: i32, inclusive: bool)
    requires
        start <= stop,
        step > 0,
    ensures
        ({
            let s = initial_state(start as int, stop as int, step as int, inclusive);
            &&& pulls(s, term_count(s) + 1) == traversal(s)
            &&& forall|i: int|
                0 <= i < term_count(s) ==> start <= #[trigger] (s.start + i * s.step) && (if inclusive {
                    s.start + i * s.step <= stop
                } else {
                    s.start + i * s.step < stop
                })
        }),
{
    let s = initial_state(start as int, stop as int, step as int, inclusive);
    lemma_one_traversal(s);
    assert forall|i: int| 0 <= i < term_count(s) implies start <= #[trigger] (s.start + i * s.step)
        && eligible(s, s.start + i * s.step) by {
        lemma_term_eligible(s, i);
        assert(i * s.step >= 0) by (nonlinear_arith)
            requires
                i >= 0,
                s.step > 0,
        ;
    }
}

/// A step of zero gives the same range, and so the same pulls, as a step of one.
pub proof fn law_zero_step(start: i32, stop: i32, inclusive: bool)
    ensures
        initial_state(start as int, stop as int, 0, inclusive) == initial_state(
            start as int,
            stop as int,
            1,
            inclusive,
        ),
        forall|n: nat|
            #[trigger] pulls(initial_state(start as int, stop as int, 0, inclusive), n) == pulls(
                initial_state(start as int, stop as int, 1, inclusive),
                n,
            ),
{
}

/// Exhaustion puts the cursor back at `start`: pulling on after the end walks
/// the same traversal again, for as long as one keeps pulling.
pub proof fn law_restart(start: i32, stop: i32, step: i32, inclusive: bool)
    requires
        start <= stop,
        step > 0,
    ensures
        ({
            let s = initial_state(start as int, stop as int, step as int, inclusive);
            let p = term_count(s) + 1;
            &&& after_pulls(s, p) == s
            &&& forall|n: nat, i: int| 0 <= i < n ==> #[trigger] pulls(s, n)[i] == traversal(s)[i % (p as int)]
        }),
{
    let s = initial_state(start as int, stop as int, step as int, inclusive);
    let p = term_count(s) + 1;
    lemma_one_traversal(s);
    assert forall|n: nat, i: int| 0 <= i < n implies #[trigger] pulls(s, n)[i] == traversal(s)[i % (p as int)] by {
        lemma_fundamental_div_mod(i, p as int);
        let q = (i / p as int) as nat;
        let r = (i % p as int) as nat;
        lemma_cycles(s, q, r);
        lemma_pull_at(s, n, i);
        lemma_pull_at(s, p, r as int);
    }
}

} // verus!
