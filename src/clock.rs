//! The accumulator that turns wall-clock time into fixed simulation ticks.
use vstd::prelude::*;
use vstd::arithmetic::div_mod::{
    lemma_fundamental_div_mod,
    lemma_hoist_over_denominator,
    lemma_mod_multiples_vanish,
};

verus! {

/// The time scale that runs the simulation at wall-clock speed; a scale is
/// counted in hundredths.
pub const SCALE_ONE: u32 = 100;

/// Sum of a sequence of durations.
pub open spec fn total(deltas: Seq<nat>) -> nat
    decreases deltas.len(),
{
    if deltas.len() == 0 {
        0
    } else {
        total(deltas.drop_last()) + deltas.last()
    }
}

/// The scaled time that makes up one tick of length `step`.
pub open spec fn tick_span(step: nat) -> nat {
    SCALE_ONE as nat * step
}

/// Ticks emitted when the deltas are fed one by one into an accumulator
/// that starts at `acc`, each scaled by `scale` hundredths.
pub open spec fn ticks_of(acc: nat, step: nat, scale: nat, deltas: Seq<nat>) -> nat
    decreases deltas.len(),
{
    if deltas.len() == 0 {
        0
    } else {
        let prev = leftover_of(acc, step, scale, deltas.drop_last());
        ticks_of(acc, step, scale, deltas.drop_last()) + (prev + deltas.last() * scale) / tick_span(
            step,
        )
    }
}

/// What is left in the accumulator after the same run.
pub open spec fn leftover_of(acc: nat, step: nat, scale: nat, deltas: Seq<nat>) -> nat
    decreases deltas.len(),
{
    if deltas.len() == 0 {
        acc
    } else {
        let prev = leftover_of(acc, step, scale, deltas.drop_last());
        (prev + deltas.last() * scale) % tick_span(step)
    }
}

/// Feeding deltas one by one emits as many ticks, and leaves as much behind,
/// as feeding their sum at once.
pub proof fn lemma_ticks_follow_total(acc: nat, step: nat, scale: nat, deltas: Seq<nat>)
    requires
        step > 0,
        acc < tick_span(step),
    ensures
        ticks_of(acc, step, scale, deltas) == (acc + total(deltas) * scale) / tick_span(step),
        leftover_of(acc, step, scale, deltas) == (acc + total(deltas) * scale) % tick_span(step),
    decreases deltas.len(),
{
    let m = tick_span(step);
    if deltas.len() == 0 {
        assert(acc / m == 0 && acc % m == acc) by (nonlinear_arith)
            requires
                acc < m,
                m > 0,
        ;
        assert(total(deltas) * scale == 0) by (nonlinear_arith)
            requires
                total(deltas) == 0,
        ;
    } else {
        let init = deltas.drop_last();
        let x: int = deltas.last() as int;
        let sc: int = scale as int;
        let mi: int = m as int;
        lemma_ticks_follow_total(acc, step, scale, init);
        let t: int = (acc + total(init) * scale) as int;
        let q: int = t / mi;
        let r: int = t % mi;
        lemma_fundamental_div_mod(t, mi);
        assert(total(deltas) == total(init) + x);
        let a: int = total(deltas) as int;
        let b: int = total(init) as int;
        assert(a * sc == b * sc + x * sc) by (nonlinear_arith)
            requires
                a == b + x,
        ;
        lemma_hoist_over_denominator(r + x * sc, q, m);
        assert(r + x * sc + q * mi == t + x * sc) by (nonlinear_arith)
            requires
                t == mi * q + r,
        ;
        lemma_mod_multiples_vanish(q, r + x * sc, mi);
        assert(mi * q + (r + x * sc) == t + x * sc) by (nonlinear_arith)
            requires
                t == mi * q + r,
        ;
    }
}

/// Two ways of cutting the same wall-clock time into deltas emit the same
/// ticks and leave the same remainder.
pub proof fn lemma_chunking_irrelevant(
    acc: nat,
    step: nat,
    scale: nat,
    a: Seq<nat>,
    b: Seq<nat>,
)
    requires
        step > 0,
        acc < tick_span(step),
        total(a) == total(b),
    ensures
        ticks_of(acc, step, scale, a) == ticks_of(acc, step, scale, b),
        leftover_of(acc, step, scale, a) == leftover_of(acc, step, scale, b),
{
    lemma_ticks_follow_total(acc, step, scale, a);
    lemma_ticks_follow_total(acc, step, scale, b);
}

/// At the wall-clock time scale, deltas that add up to `n` steps emit
/// exactly `n` ticks from an empty accumulator, however they are cut.
pub proof fn lemma_tick_determinism(step: nat, n: nat, deltas: Seq<nat>)
    requires
        step > 0,
        total(deltas) == n * step,
    ensures
        ticks_of(0, step, SCALE_ONE as nat, deltas) == n,
        leftover_of(0, step, SCALE_ONE as nat, deltas) == 0,
{
    lemma_ticks_follow_total(0, step, SCALE_ONE as nat, deltas);
    let m = tick_span(step) as int;
    assert(0 + total(deltas) * (SCALE_ONE as nat) == n * m) by (nonlinear_arith)
        requires
            total(deltas) == n * step,
            m == 100 * step,
    ;
    lemma_mod_multiples_vanish(n as int, 0, m);
    lemma_hoist_over_denominator(0, n as int, m as nat);
    assert(m * n == n * m) by (nonlinear_arith);
}

/// Largest value the accumulator holds between calls.
pub open spec fn acc_bound() -> nat {
    tick_span(u64::MAX as nat)
}

/// Turns wall-clock time into a whole number of ticks of length
/// `fixed_delta`, keeping the scaled remainder in `acc` (in hundredths of a
/// time unit).
#[derive(Clone, Copy, Debug)]
pub struct Clock {
    pub fixed_delta: u64,
    pub acc: u128,
}

impl Clock {
    /// The accumulator is bounded.
    pub open spec fn wf(&self) -> bool {
        self.acc < acc_bound()
    }

    /// A clock with an empty accumulator.
    pub fn new(fixed_delta: u64) -> (r: Clock)
        ensures
            r.wf(),
            r.fixed_delta == fixed_delta,
            r.acc == 0,
    {
        Clock { fixed_delta, acc: 0 }
    }

    /// Adds `delta` scaled by `scale` hundredths to the accumulator and takes
    /// out as many whole ticks as it holds; returns their number. A clock
    /// whose tick length is zero emits nothing.
    pub fn advance(&mut self, delta: u64, scale: u32) -> (ticks: u128)
        requires
            old(self).wf(),
        ensures
            final(self).wf(),
            final(self).fixed_delta == old(self).fixed_delta,
            old(self).fixed_delta == 0 ==> ticks == 0 && *final(self) == *old(self),
            old(self).fixed_delta > 0 ==> {
                let sum: int = old(self).acc + delta * scale;
                let span: int = tick_span(old(self).fixed_delta as nat) as int;
                &&& ticks == sum / span
                &&& final(self).acc == sum % span
            },
    {
        if self.fixed_delta == 0 {
            return 0;
        }
        assert(100 * (self.fixed_delta as int) <= 100 * (u64::MAX as int)) by (nonlinear_arith);
        let span: u128 = 100u128 * (self.fixed_delta as u128);
        assert((delta as int) * (scale as int) <= (u64::MAX as int) * (u32::MAX as int))
            by (nonlinear_arith);
        let add: u128 = (delta as u128) * (scale as u128);
        let sum: u128 = self.acc + add;
        let ticks: u128 = sum / span;
        self.acc = sum % span;
        assert(self.acc < span) by (nonlinear_arith)
            requires
                self.acc == sum % span,
                span > 0,
        ;
        ticks
    }
}

} // verus!
