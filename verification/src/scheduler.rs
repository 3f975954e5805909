//! The denoising schedule: which noise levels are visited, in which order, and
//! which table entries each step reads.
//!
//! The table holds one cumulative signal level per training timestep; the entries
//! are real numbers and live with whoever runs the model.

use vstd::prelude::*;

verus! {

/// Entries of the signal-level table.
pub const NUM_TRAIN_TIMESTEPS: usize = 1000;

/// The distance between visited timesteps when `n` steps are taken.
pub open spec fn step_ratio(n: int) -> int {
    1000int / crate::tiling::max2(n, 1)
}

/// The timesteps visited when `n` steps are taken: evenly spaced, from the noisiest
/// down to one.
pub open spec fn schedule(n: nat) -> Seq<int> {
    Seq::new(n, |k: int| (n - 1 - k) * step_ratio(n as int) + 1)
}

/// A denoising schedule.
pub struct DdimScheduler {
    timesteps: Vec<i64>,
    ratio: usize,
}

impl DdimScheduler {
    /// How many steps are taken.
    pub closed spec fn steps(&self) -> nat {
        self.timesteps@.len()
    }

    /// The timesteps and their distance are those of the number of steps.
    pub closed spec fn wf(&self) -> bool {
        &&& self.ratio == step_ratio(self.timesteps@.len() as int)
        &&& forall|k: int|
            0 <= k < self.timesteps@.len() ==> #[trigger] self.timesteps@[k] == schedule(
                self.timesteps@.len(),
            )[k]
    }

    /// The full schedule: every training timestep.
    pub fn new() -> (scheduler: Self)
        ensures
            scheduler.wf(),
            scheduler.steps() == NUM_TRAIN_TIMESTEPS,
    {
        let mut scheduler = DdimScheduler { timesteps: Vec::new(), ratio: 1000 };
        scheduler.set_timesteps(NUM_TRAIN_TIMESTEPS);
        scheduler
    }

    /// Takes `n` steps from now on.
    pub fn set_timesteps(&mut self, n: usize)
        ensures
            final(self).wf(),
            final(self).steps() == n,
    {
        let divisor: usize = if n > 1 { n } else { 1 };
        let ratio: usize = NUM_TRAIN_TIMESTEPS / divisor;
        let mut timesteps: Vec<i64> = Vec::new();
        let mut left: usize = n;
        proof {
            lemma_ratio(n as int);
        }
        while left > 0
            invariant
                left <= n,
                ratio == step_ratio(n as int),
                0 <= ratio * n <= 1000,
                timesteps@.len() == n - left,
                forall|k: int|
                    0 <= k < timesteps@.len() ==> #[trigger] timesteps@[k] == schedule(n as nat)[k],
            decreases left,
        {
            left = left - 1;
            proof {
                assert(0 <= left * ratio <= 1000) by (nonlinear_arith)
                    requires
                        0 <= left < n,
                        ratio >= 0,
                        ratio * n <= 1000,
                ;
            }
            timesteps.push((left * ratio) as i64 + 1);
        }
        self.timesteps = timesteps;
        self.ratio = ratio;
    }

    /// The timesteps to visit, in order.
    pub fn timesteps(&self) -> (timesteps: &[i64])
        requires
            self.wf(),
        ensures
            timesteps@.len() == self.steps(),
            forall|k: int|
                0 <= k < timesteps@.len() ==> #[trigger] timesteps@[k] == schedule(self.steps())[k],
    {
        self.timesteps.as_slice()
    }

    /// The table entries that the step at timestep `t` reads: its own, and that of
    /// the timestep it leads to. Where that would be below zero, the first entry.
    pub fn levels(&self, t: i64) -> (levels: (usize, usize))
        requires
            self.wf(),
            0 <= t < NUM_TRAIN_TIMESTEPS,
        ensures
            levels.0 == t,
            levels.1 == next_level(self.steps() as int, t as int),
            levels.1 < NUM_TRAIN_TIMESTEPS,
    {
        proof {
            lemma_ratio(self.timesteps@.len() as int);
        }
        let at: usize = t as usize;
        let next: usize = if at > self.ratio { at - self.ratio } else { 0 };
        (at, next)
    }
}

impl Default for DdimScheduler {
    fn default() -> (scheduler: Self)
        ensures
            scheduler.wf(),
            scheduler.steps() == NUM_TRAIN_TIMESTEPS,
    {
        DdimScheduler::new()
    }
}

/// The table entry of the timestep that timestep `t` leads to.
pub open spec fn next_level(n: int, t: int) -> int {
    crate::tiling::max2(t - step_ratio(n), 0)
}

/// The spacing is a whole fraction of the table.
proof fn lemma_ratio(n: int)
    requires
        n >= 0,
    ensures
        0 <= step_ratio(n) <= 1000,
        0 <= step_ratio(n) * n <= 1000,
        n <= 1000 ==> step_ratio(n) >= 1,
        n > 1000 ==> step_ratio(n) == 0,
{
    let m = crate::tiling::max2(n, 1);
    let q = step_ratio(n);
    vstd::arithmetic::div_mod::lemma_fundamental_div_mod(1000, m);
    vstd::arithmetic::div_mod::lemma_mod_bound(1000, m);
    let r = 1000int % m;
    assert(0 <= q <= 1000 && 0 <= q * n <= 1000 && (n <= 1000 ==> q >= 1) && (n > 1000 ==> q
        == 0)) by (nonlinear_arith)
        requires
            1000 == m * q + r,
            0 <= r < m,
            m >= 1,
            0 <= n <= m,
            n >= 1 ==> n == m,
            n == 0 ==> m == 1,
    ;
}

/// Unless every training timestep is visited, every visited one has an entry in the
/// table; the full schedule begins one past its end.
pub proof fn law_timesteps_in_table(n: nat, k: int)
    requires
        n != NUM_TRAIN_TIMESTEPS,
        0 <= k < n,
    ensures
        1 <= schedule(n)[k] < NUM_TRAIN_TIMESTEPS,
{
    lemma_ratio(n as int);
    let q = step_ratio(n as int);
    let i = n - 1 - k;
    assert(0 <= i * q && i * q + 1 <= 999) by (nonlinear_arith)
        requires
            0 <= i <= n - 1,
            0 <= q,
            q * n <= 1000,
            n != 1000,
            n <= 1000 ==> 1 <= q,
            n > 1000 ==> q == 0,
    ;
}

/// The schedule goes strictly down.
pub proof fn law_timesteps_descend(n: nat, j: int, k: int)
    requires
        n <= 1000,
        0 <= j < k < n,
    ensures
        schedule(n)[j] > schedule(n)[k],
{
    lemma_ratio(n as int);
    let q = step_ratio(n as int);
    assert((n - 1 - j) * q > (n - 1 - k) * q) by (nonlinear_arith)
        requires
            j < k,
            q >= 1,
    ;
}

/// Each step lands on the level from which the next one starts, and the last step of
/// at most a thousand lands on the first entry of the table.
pub proof fn law_steps_connect(n: nat, k: int)
    requires
        0 <= k < n,
    ensures
        k + 1 < n ==> next_level(n as int, schedule(n)[k]) == schedule(n)[k + 1],
        k + 1 == n && n <= 1000 ==> next_level(n as int, schedule(n)[k]) == 0,
{
    lemma_ratio(n as int);
    let q = step_ratio(n as int);
    if k + 1 < n {
        assert((n - 1 - k) * q - q == (n - 1 - (k + 1)) * q) by (nonlinear_arith);
        assert((n - 1 - (k + 1)) * q >= 0) by (nonlinear_arith)
            requires
                n - 1 - (k + 1) >= 0,
                q >= 0,
        ;
    } else {
        assert(0 * q == 0);
    }
}

/// The schedule spans the table: the spacing is the largest whole number of which `n`
/// still fit into the thousand training timesteps, the first timestep lies `n - 1`
/// spacings above the last, neighbouring ones lie one spacing apart, and the last is
/// one. So less than one spacing per step is left above the first.
pub proof fn law_schedule_spans_the_table(n: nat, k: int)
    requires
        1 <= n <= 1000,
        0 <= k < n,
    ensures
        ({
            let q = step_ratio(n as int);
            &&& n * q <= 1000 < n * (q + 1)
            &&& schedule(n).len() == n
            &&& schedule(n)[0] == (n - 1) * q + 1
            &&& 1000 - n < schedule(n)[0] - 1 + q <= 1000
            &&& k + 1 < n ==> schedule(n)[k] - schedule(n)[k + 1] == q
            &&& schedule(n)[n - 1] == 1
        }),
{
    lemma_spacing(n as int);
    let q = step_ratio(n as int);
    assert((n - 1) * q + q == n * q) by (nonlinear_arith);
    assert(n * (q + 1) == n * q + n) by (nonlinear_arith);
    assert((n - 1 - k) * q == (n - 1 - (k + 1)) * q + q) by (nonlinear_arith);
    assert(0 * q == 0);
}

/// More steps than the table has entries stand still: all are taken at the first
/// timestep above the table's first entry, and none leads anywhere.
pub proof fn law_crowded_schedule_stands_still(n: nat, k: int, t: int)
    requires
        n > 1000,
        0 <= k < n,
        t >= 0,
    ensures
        schedule(n).len() == n,
        schedule(n)[k] == 1,
        next_level(n as int, t) == t,
{
    lemma_ratio(n as int);
    let i = n - 1 - k;
    assert(i * 0 == 0);
}

/// A step goes down by the spacing, the same from every timestep, and stops at the
/// first entry of the table where there is no room for it.
pub proof fn law_step_goes_down_by_the_spacing(n: nat, q: int, t: int)
    requires
        1 <= n <= 1000,
        n * q <= 1000 < n * (q + 1),
        t >= 0,
    ensures
        t >= q ==> next_level(n as int, t) == t - q,
        t < q ==> next_level(n as int, t) == 0,
{
    lemma_spacing(n as int);
    lemma_spacing_unique(n as int, q, step_ratio(n as int));
}

/// The spacing is the largest whole number of which `n` fit into the table.
proof fn lemma_spacing(n: int)
    requires
        1 <= n,
    ensures
        0 <= n * step_ratio(n) <= 1000 < n * (step_ratio(n) + 1),
{
    lemma_ratio(n);
    let q = step_ratio(n);
    vstd::arithmetic::div_mod::lemma_fundamental_div_mod(1000, n);
    vstd::arithmetic::div_mod::lemma_mod_bound(1000, n);
    assert(n * (q + 1) == n * q + n && q * n == n * q) by (nonlinear_arith);
}

/// There is one such number.
proof fn lemma_spacing_unique(n: int, p: int, q: int)
    requires
        1 <= n,
        n * p <= 1000 < n * (p + 1),
        n * q <= 1000 < n * (q + 1),
    ensures
        p == q,
{
    assert(p == q) by (nonlinear_arith)
        requires
            1 <= n,
            n * p <= 1000 < n * (p + 1),
            n * q <= 1000 < n * (q + 1),
    ;
}

/// `zs` are the latents on the way through the first `m` of `n` steps.
pub open spec fn denoised<Z, E, F: Fn(Z, i64, usize, usize) -> Result<Z, E>>(
    zs: Seq<Z>,
    start: Z,
    step: F,
    m: int,
    n: nat,
) -> bool {
    &&& zs.len() == m + 1
    &&& zs[0] == start
    &&& forall|k: int| 0 <= k < m ==> #[trigger] denoise_step::<Z, E, F>(zs, step, n, k)
}

/// Step `k` of `n` took the latent before it to the latent after it, at its
/// timestep and between its two levels.
pub open spec fn denoise_step<Z, E, F: Fn(Z, i64, usize, usize) -> Result<Z, E>>(
    zs: Seq<Z>,
    step: F,
    n: nat,
    k: int,
) -> bool {
    let t = schedule(n)[k];
    call_ensures(
        step,
        (zs[k], t as i64, t as usize, next_level(n as int, t) as usize),
        Ok::<Z, E>(zs[k + 1]),
    )
}

/// The step after the first `k` failed with `e`.
pub open spec fn denoise_broke<Z, E, F: Fn(Z, i64, usize, usize) -> Result<Z, E>>(
    zs: Seq<Z>,
    start: Z,
    step: F,
    e: E,
    n: nat,
    k: int,
) -> bool {
    let t = schedule(n)[k];
    &&& 0 <= k < n
    &&& denoised::<Z, E, F>(zs, start, step, k, n)
    &&& call_ensures(
        step,
        (zs.last(), t as i64, t as usize, next_level(n as int, t) as usize),
        Err::<Z, E>(e),
    )
}

/// Some step failed with `e`, after those before it went through.
pub open spec fn denoise_failed<Z, E, F: Fn(Z, i64, usize, usize) -> Result<Z, E>>(
    start: Z,
    step: F,
    e: E,
    n: nat,
) -> bool {
    exists|zs: Seq<Z>, k: int| #[trigger] denoise_broke::<Z, E, F>(zs, start, step, e, n, k)
}

/// All steps went through and led to `z`.
pub open spec fn denoise_done<Z, E, F: Fn(Z, i64, usize, usize) -> Result<Z, E>>(
    start: Z,
    step: F,
    z: Z,
    n: nat,
) -> bool {
    exists|zs: Seq<Z>| #[trigger] denoised::<Z, E, F>(zs, start, step, n as int, n) && zs.last() == z
}

/// The denoising loop: threads a latent through the schedule of `n` steps. `step` is
/// given the latent, the timestep and the two table entries. The full schedule is
/// left out: its first timestep has no entry.
pub fn denoise<Z, E, F: Fn(Z, i64, usize, usize) -> Result<Z, E>>(
    n: usize,
    start: Z,
    step: &F,
) -> (result: Result<Z, E>)
    requires
        n != NUM_TRAIN_TIMESTEPS,
        forall|z: Z, t: i64, a: usize, b: usize|
            1 <= t < 1000 && a < 1000 && b < 1000 ==> #[trigger] call_requires(
                *step,
                (z, t, a, b),
            ),
    ensures
        result matches Ok(z) ==> denoise_done::<Z, E, F>(start, *step, z, n as nat),
        result matches Err(e) ==> denoise_failed::<Z, E, F>(start, *step, e, n as nat),
{
    let mut scheduler = DdimScheduler::new();
    scheduler.set_timesteps(n);
    let ghost mut zs: Seq<Z> = seq![start];
    let ghost first = start;
    let mut z: Z = start;
    let mut k: usize = 0;
    while k < n
        invariant
            k <= n,
            n != NUM_TRAIN_TIMESTEPS,
            first == start,
            scheduler.wf(),
            scheduler.steps() == n,
            forall|z: Z, t: i64, a: usize, b: usize|
                1 <= t < 1000 && a < 1000 && b < 1000 ==> #[trigger] call_requires(
                    *step,
                    (z, t, a, b),
                ),
            denoised::<Z, E, F>(zs, first, *step, k as int, n as nat),
            zs.last() == z,
        decreases n - k,
    {
        let t: i64 = scheduler.timesteps()[k];
        proof {
            law_timesteps_in_table(n as nat, k as int);
        }
        let (at, next) = scheduler.levels(t);
        let ghost before = zs;
        match step(z, t, at, next) {
            Ok(to) => {
                z = to;
                proof {
                    zs = zs.push(to);
                    assert forall|i: int| 0 <= i < k + 1 implies #[trigger] denoise_step::<Z, E, F>(
                        zs,
                        *step,
                        n as nat,
                        i,
                    ) by {
                        if i < k {
                            assert(denoise_step::<Z, E, F>(before, *step, n as nat, i));
                        }
                    }
                }
            },
            Err(e) => {
                proof {
                    assert(denoise_broke::<Z, E, F>(zs, first, *step, e, n as nat, k as int));
                    assert(denoise_failed::<Z, E, F>(first, *step, e, n as nat));
                }
                return Err(e);
            },
        }
        k = k + 1;
    }
    assert(denoise_done::<Z, E, F>(first, *step, z, n as nat));
    Ok(z)
}

/// The loop visits the schedule from the top: with `q` the largest spacing of which
/// `n` fit into the table, step `k` is taken at `n - 1 - k` spacings above one, from
/// that level to the one `q` below it, the last one to the first entry of the table,
/// and each is given the latent that the one before it left.
pub proof fn law_denoising_walks_the_schedule<Z, E, F: Fn(Z, i64, usize, usize) -> Result<Z, E>>(
    zs: Seq<Z>,
    start: Z,
    step: F,
    n: nat,
    q: int,
    k: int,
)
    requires
        1 <= n < 1000,
        n * q <= 1000 < n * (q + 1),
        denoised::<Z, E, F>(zs, start, step, n as int, n),
        0 <= k < n,
    ensures
        zs.len() == n + 1,
        zs[0] == start,
        ({
            let at = (n - 1 - k) * q + 1;
            let below = if k + 1 < n {
                at - q
            } else {
                0
            };
            call_ensures(
                step,
                (zs[k], at as i64, at as usize, below as usize),
                Ok::<Z, E>(zs[k + 1]),
            )
        }),
{
    lemma_spacing(n as int);
    lemma_spacing_unique(n as int, q, step_ratio(n as int));
    law_steps_connect(n, k);
    law_schedule_spans_the_table(n, k);
    assert(denoise_step::<Z, E, F>(zs, step, n, k));
}

/// Whatever the number of steps, each is taken from the level of its own timestep to the
/// level from which the next one is taken.
pub proof fn law_denoising_steps_meet<Z, E, F: Fn(Z, i64, usize, usize) -> Result<Z, E>>(
    zs: Seq<Z>,
    start: Z,
    step: F,
    n: nat,
    k: int,
)
    requires
        denoised::<Z, E, F>(zs, start, step, n as int, n),
        0 <= k && k + 1 < n,
    ensures
        ({
            let (t, next) = (schedule(n)[k], schedule(n)[k + 1]);
            call_ensures(
                step,
                (zs[k], t as i64, t as usize, next as usize),
                Ok::<Z, E>(zs[k + 1]),
            )
        }),
{
    law_steps_connect(n, k);
    assert(denoise_step::<Z, E, F>(zs, step, n, k));
}

/// No steps visit nothing, and a step would go all the way down.
pub proof fn law_no_steps_visit_nothing(t: int)
    requires
        0 <= t <= 1000,
    ensures
        schedule(0).len() == 0,
        next_level(0, t) == 0,
{
    assert(1000int / 1 == 1000);
    assert(crate::tiling::max2(0, 1) == 1);
}

/// The loop fails with the error of the step that failed, after all steps before it went
/// through; the step was taken at its own timestep.
pub proof fn law_denoising_fails_on_a_step<Z, E, F: Fn(Z, i64, usize, usize) -> Result<Z, E>>(
    start: Z,
    step: F,
    e: E,
    n: nat,
)
    requires
        denoise_failed::<Z, E, F>(start, step, e, n),
    ensures
        exists|zs: Seq<Z>, k: int, next: usize|
            {
                &&& 0 <= k < n
                &&& zs.len() == k + 1
                &&& zs[0] == start
                &&& k + 1 < n ==> next == schedule(n)[k + 1] as usize
                &&& #[trigger] call_ensures(
                    step,
                    (zs[k], schedule(n)[k] as i64, schedule(n)[k] as usize, next),
                    Err::<Z, E>(e),
                )
            },
{
    let (zs, k) = choose|zs: Seq<Z>, k: int| #[trigger]
        denoise_broke::<Z, E, F>(zs, start, step, e, n, k);
    law_steps_connect(n, k);
    let t = schedule(n)[k];
    let next = next_level(n as int, t) as usize;
    assert(call_ensures(step, (zs[k], t as i64, t as usize, next), Err::<Z, E>(e)));
}

/// A run that ends well has taken all its steps, from the start to the result.
pub proof fn law_denoising_takes_every_step<Z, E, F: Fn(Z, i64, usize, usize) -> Result<Z, E>>(
    start: Z,
    step: F,
    z: Z,
    n: nat,
)
    requires
        denoise_done::<Z, E, F>(start, step, z, n),
    ensures
        exists|zs: Seq<Z>|
            #![trigger denoised::<Z, E, F>(zs, start, step, n as int, n)]
            denoised::<Z, E, F>(zs, start, step, n as int, n) && zs.len() == n + 1 && zs[0] == start
                && zs[n as int] == z,
{
    let zs = choose|zs: Seq<Z>| #[trigger]
        denoised::<Z, E, F>(zs, start, step, n as int, n) && zs.last() == z;
    assert(zs[n as int] == z);
}

} // verus!
