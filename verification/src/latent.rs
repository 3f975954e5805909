//! Runs over latent windows: blending a plane window by window, and the sampling
//! loop of the flow-matching model.
//!
//! What is computed on a window is handed in; this module fixes which windows are
//! visited, in which order, what each is given, and how results are threaded from
//! one to the next.

use vstd::prelude::*;

use crate::grid::Window;
use crate::grid::WindowPlan;
use crate::layout::crop_chw;

verus! {

/// `accs` are the values on the way from `start` through the first `n` windows.
pub open spec fn folded<A, E, F: Fn(A, Window) -> Result<A, E>>(
    accs: Seq<A>,
    windows: Seq<Window>,
    n: int,
    start: A,
    step: F,
) -> bool {
    &&& accs.len() == n + 1
    &&& accs[0] == start
    &&& forall|k: int| 0 <= k < n ==> #[trigger] fold_step::<A, E, F>(accs, windows, step, k)
}

/// Window `k` took the value before it to the value after it.
pub open spec fn fold_step<A, E, F: Fn(A, Window) -> Result<A, E>>(
    accs: Seq<A>,
    windows: Seq<Window>,
    step: F,
    k: int,
) -> bool {
    call_ensures(step, (accs[k], windows[k]), Ok::<A, E>(accs[k + 1]))
}

/// `a` is what came of all the windows.
pub open spec fn blended<A, E, F: Fn(A, Window) -> Result<A, E>>(
    windows: Seq<Window>,
    start: A,
    step: F,
    a: A,
) -> bool {
    exists|accs: Seq<A>| #[trigger]
        folded::<A, E, F>(accs, windows, windows.len() as int, start, step) && accs.last() == a
}

/// Window `k` failed with `e`, after the windows before it went through.
pub open spec fn broke_at<A, E, F: Fn(A, Window) -> Result<A, E>>(
    accs: Seq<A>,
    windows: Seq<Window>,
    start: A,
    step: F,
    e: E,
    k: int,
) -> bool {
    &&& 0 <= k < windows.len()
    &&& folded::<A, E, F>(accs, windows, k, start, step)
    &&& call_ensures(step, (accs.last(), windows[k]), Err::<A, E>(e))
}

/// Some window failed with `e`, after those before it went through.
pub open spec fn broke<A, E, F: Fn(A, Window) -> Result<A, E>>(
    windows: Seq<Window>,
    start: A,
    step: F,
    e: E,
) -> bool {
    exists|accs: Seq<A>, k: int| #[trigger]
        broke_at::<A, E, F>(accs, windows, start, step, e, k)
}

/// Threads a value through every window of a plan, in order, stopping at the first
/// failure.
pub fn blend_windows<A, E, F: Fn(A, Window) -> Result<A, E>>(
    plan: &WindowPlan,
    start: A,
    step: &F,
) -> (result: Result<A, E>)
    requires
        forall|a: A, w: Window| call_requires(*step, (a, w)),
    ensures
        result matches Ok(a) ==> blended::<A, E, F>(plan.windows@, start, *step, a),
        result matches Err(e) ==> broke::<A, E, F>(plan.windows@, start, *step, e),
{
    let ghost mut accs: Seq<A> = seq![start];
    let ghost first = start;
    let mut acc: A = start;
    let mut k: usize = 0;
    while k < plan.windows.len()
        invariant
            k <= plan.windows@.len(),
            first == start,
            forall|a: A, w: Window| call_requires(*step, (a, w)),
            folded::<A, E, F>(accs, plan.windows@, k as int, first, *step),
            accs.last() == acc,
        decreases plan.windows@.len() - k,
    {
        let ghost before = accs;
        match step(acc, plan.windows[k]) {
            Ok(next) => {
                acc = next;
                proof {
                    accs = accs.push(next);
                    assert forall|i: int| 0 <= i < k + 1 implies #[trigger] fold_step::<A, E, F>(
                        accs,
                        plan.windows@,
                        *step,
                        i,
                    ) by {
                        if i < k {
                            assert(fold_step::<A, E, F>(before, plan.windows@, *step, i));
                        }
                    }
                }
            },
            Err(e) => {
                proof {
                    assert(broke_at::<A, E, F>(accs, plan.windows@, first, *step, e, k as int));
                    assert(broke::<A, E, F>(plan.windows@, first, *step, e));
                }
                return Err(e);
            },
        }
        k = k + 1;
    }
    assert(blended::<A, E, F>(plan.windows@, first, *step, acc));
    Ok(acc)
}

/// The pixel crop that window `win` of the latent looks at.
pub open spec fn window_crop<T>(
    hr: Seq<T>,
    hh: int,
    ww: int,
    plan: WindowPlan,
    win: Window,
) -> Seq<T> {
    crate::layout::cropped(
        hr,
        3,
        hh,
        ww,
        8 * win.row,
        8 * (win.row + plan.th),
        8 * win.col,
        8 * (win.col + plan.tw),
    )
}

/// The features of window `k` are those of its pixel crop.
pub open spec fn feature_of<T, C, E, F: Fn(Vec<T>, usize, usize) -> Result<C, E>>(
    hr: Seq<T>,
    hh: int,
    ww: int,
    plan: WindowPlan,
    features: F,
    feats: Seq<C>,
    k: int,
) -> bool {
    exists|crop: Vec<T>|
        crop@ == window_crop(hr, hh, ww, plan, plan.windows@[k]) && #[trigger] call_ensures(
            features,
            (crop, (8 * plan.th) as usize, (8 * plan.tw) as usize),
            Ok::<C, E>(feats[k]),
        )
}

/// The features of the first `m` windows were taken.
pub open spec fn features_taken<T, C, E, F: Fn(Vec<T>, usize, usize) -> Result<C, E>>(
    feats: Seq<C>,
    hr: Seq<T>,
    hh: int,
    ww: int,
    plan: WindowPlan,
    features: F,
    m: int,
) -> bool {
    &&& feats.len() == m
    &&& forall|k: int|
        0 <= k < m ==> #[trigger] feature_of::<T, C, E, F>(hr, hh, ww, plan, features, feats, k)
}

/// Window `k` of step `s` took the blend before it to the blend after it.
pub open spec fn velocity_added<C, Z, A, E, U: Fn(A, &Z, &C, Window, usize, usize) -> Result<A, E>>(
    accs: Seq<A>,
    windows: Seq<Window>,
    feats: Seq<C>,
    z: Z,
    velocity: U,
    s: int,
    n: int,
    k: int,
) -> bool {
    call_ensures(
        velocity,
        (accs[k], &z, &feats[k], windows[k], s as usize, n as usize),
        Ok::<A, E>(accs[k + 1]),
    )
}

/// The first `m` windows of step `s` were blended, starting from a cleared blend.
pub open spec fn velocities_added<
    C,
    Z,
    A,
    E,
    B: Fn() -> Result<A, E>,
    U: Fn(A, &Z, &C, Window, usize, usize) -> Result<A, E>,
>(
    accs: Seq<A>,
    windows: Seq<Window>,
    m: int,
    feats: Seq<C>,
    z: Z,
    clear: B,
    velocity: U,
    s: int,
    n: int,
) -> bool {
    &&& accs.len() == m + 1
    &&& call_ensures(clear, (), Ok::<A, E>(accs[0]))
    &&& forall|k: int|
        0 <= k < m ==> #[trigger] velocity_added::<C, Z, A, E, U>(
            accs,
            windows,
            feats,
            z,
            velocity,
            s,
            n,
            k,
        )
}

/// Step `s` blended all windows' velocities, advanced the latent, and was told: the
/// progress state went through the two calls.
pub open spec fn stepped<
    C,
    Z,
    A,
    E,
    H,
    B: Fn() -> Result<A, E>,
    U: Fn(A, &Z, &C, Window, usize, usize) -> Result<A, E>,
    V: Fn(Z, A, H, usize, usize) -> (Result<Z, E>, H),
    P: Fn(H, usize, usize) -> H,
>(
    zs: Seq<Z>,
    bars: Seq<H>,
    windows: Seq<Window>,
    feats: Seq<C>,
    clear: B,
    velocity: U,
    advance: V,
    on_progress: P,
    s: int,
    n: int,
) -> bool {
    exists|accs: Seq<A>, woken: H|
        {
            &&& #[trigger] velocities_added::<C, Z, A, E, B, U>(
                accs,
                windows,
                windows.len() as int,
                feats,
                zs[s],
                clear,
                velocity,
                s,
                n,
            )
            &&& call_ensures(
                advance,
                (zs[s], accs.last(), bars[s], s as usize, n as usize),
                (Ok::<Z, E>(zs[s + 1]), woken),
            )
            &&& #[trigger] call_ensures(
                on_progress,
                (woken, (s + 1) as usize, n as usize),
                bars[s + 1],
            )
        }
}

/// The latents on the way through the first `m` of `n` steps, and the progress
/// states: `bars[s]` is that after `s` steps were told.
pub open spec fn sampled<
    C,
    Z,
    A,
    E,
    H,
    B: Fn() -> Result<A, E>,
    U: Fn(A, &Z, &C, Window, usize, usize) -> Result<A, E>,
    V: Fn(Z, A, H, usize, usize) -> (Result<Z, E>, H),
    P: Fn(H, usize, usize) -> H,
>(
    zs: Seq<Z>,
    bars: Seq<H>,
    windows: Seq<Window>,
    feats: Seq<C>,
    start: Z,
    bar: H,
    clear: B,
    velocity: U,
    advance: V,
    on_progress: P,
    m: int,
    n: int,
) -> bool {
    &&& zs.len() == m + 1
    &&& bars.len() == m + 1
    &&& zs[0] == start
    &&& call_ensures(on_progress, (bar, 0usize, n as usize), bars[0])
    &&& forall|s: int|
        0 <= s < m ==> #[trigger] stepped::<C, Z, A, E, H, B, U, V, P>(
            zs,
            bars,
            windows,
            feats,
            clear,
            velocity,
            advance,
            on_progress,
            s,
            n,
        )
}

/// The features of every window, then every step, led from `start` to the last of
/// `zs`, and the progress state from `bar` to the last of `bars`.
pub open spec fn flow_done<
    T,
    C,
    Z,
    A,
    E,
    H,
    F: Fn(Vec<T>, usize, usize) -> Result<C, E>,
    B: Fn() -> Result<A, E>,
    U: Fn(A, &Z, &C, Window, usize, usize) -> Result<A, E>,
    V: Fn(Z, A, H, usize, usize) -> (Result<Z, E>, H),
    P: Fn(H, usize, usize) -> H,
>(
    feats: Seq<C>,
    zs: Seq<Z>,
    bars: Seq<H>,
    hr: Seq<T>,
    hh: int,
    ww: int,
    plan: WindowPlan,
    steps: int,
    start: Z,
    bar: H,
    features: F,
    clear: B,
    velocity: U,
    advance: V,
    on_progress: P,
) -> bool {
    &&& features_taken::<T, C, E, F>(
        feats,
        hr,
        hh,
        ww,
        plan,
        features,
        plan.windows@.len() as int,
    )
    &&& sampled::<C, Z, A, E, H, B, U, V, P>(
        zs,
        bars,
        plan.windows@,
        feats,
        start,
        bar,
        clear,
        velocity,
        advance,
        on_progress,
        steps,
        steps,
    )
}

/// The window after those whose features were taken failed with `e`.
pub open spec fn feature_failed<T, C, E, F: Fn(Vec<T>, usize, usize) -> Result<C, E>>(
    e: E,
    feats: Seq<C>,
    crop: Vec<T>,
    hr: Seq<T>,
    hh: int,
    ww: int,
    plan: WindowPlan,
    features: F,
) -> bool {
    let k = feats.len() as int;
    &&& k < plan.windows@.len()
    &&& features_taken::<T, C, E, F>(feats, hr, hh, ww, plan, features, k)
    &&& crop@ == window_crop(hr, hh, ww, plan, plan.windows@[k])
    &&& call_ensures(
        features,
        (crop, (8 * plan.th) as usize, (8 * plan.tw) as usize),
        Err::<C, E>(e),
    )
}

/// Step `s` failed with `e` on the window after those that were blended.
pub open spec fn velocity_failed<
    C,
    Z,
    A,
    E,
    B: Fn() -> Result<A, E>,
    U: Fn(A, &Z, &C, Window, usize, usize) -> Result<A, E>,
>(
    e: E,
    accs: Seq<A>,
    windows: Seq<Window>,
    feats: Seq<C>,
    z: Z,
    clear: B,
    velocity: U,
    s: int,
    n: int,
) -> bool {
    let m = accs.len() - 1;
    &&& 0 <= m < windows.len()
    &&& velocities_added::<C, Z, A, E, B, U>(accs, windows, m, feats, z, clear, velocity, s, n)
    &&& call_ensures(
        velocity,
        (accs[m], &z, &feats[m], windows[m], s as usize, n as usize),
        Err::<A, E>(e),
    )
}

/// Step `s` failed with `e` once all its windows were blended: advancing the latent
/// did, and left the progress state `end`.
pub open spec fn advance_failed<
    C,
    Z,
    A,
    E,
    H,
    B: Fn() -> Result<A, E>,
    U: Fn(A, &Z, &C, Window, usize, usize) -> Result<A, E>,
    V: Fn(Z, A, H, usize, usize) -> (Result<Z, E>, H),
>(
    e: E,
    end: H,
    accs: Seq<A>,
    windows: Seq<Window>,
    feats: Seq<C>,
    z: Z,
    bar: H,
    clear: B,
    velocity: U,
    advance: V,
    s: int,
    n: int,
) -> bool {
    &&& velocities_added::<C, Z, A, E, B, U>(
        accs,
        windows,
        windows.len() as int,
        feats,
        z,
        clear,
        velocity,
        s,
        n,
    )
    &&& call_ensures(
        advance,
        (z, accs.last(), bar, s as usize, n as usize),
        (Err::<Z, E>(e), end),
    )
}

/// The step after those that led to the latents `zs` failed with `e`, and left the
/// progress state `end`.
pub open spec fn step_failed<
    C,
    Z,
    A,
    E,
    H,
    B: Fn() -> Result<A, E>,
    U: Fn(A, &Z, &C, Window, usize, usize) -> Result<A, E>,
    V: Fn(Z, A, H, usize, usize) -> (Result<Z, E>, H),
    P: Fn(H, usize, usize) -> H,
>(
    e: E,
    end: H,
    zs: Seq<Z>,
    bars: Seq<H>,
    windows: Seq<Window>,
    feats: Seq<C>,
    start: Z,
    bar: H,
    clear: B,
    velocity: U,
    advance: V,
    on_progress: P,
    n: int,
) -> bool {
    let s = zs.len() - 1;
    &&& 0 <= s < n
    &&& sampled::<C, Z, A, E, H, B, U, V, P>(
        zs,
        bars,
        windows,
        feats,
        start,
        bar,
        clear,
        velocity,
        advance,
        on_progress,
        s,
        n,
    )
    &&& {
        ||| call_ensures(clear, (), Err::<A, E>(e)) && end == bars[s]
        ||| exists|accs: Seq<A>| #[trigger]
            velocity_failed::<C, Z, A, E, B, U>(
                e,
                accs,
                windows,
                feats,
                zs[s],
                clear,
                velocity,
                s,
                n,
            ) && end == bars[s]
        ||| exists|accs: Seq<A>| #[trigger]
            advance_failed::<C, Z, A, E, H, B, U, V>(
                e,
                end,
                accs,
                windows,
                feats,
                zs[s],
                bars[s],
                clear,
                velocity,
                advance,
                s,
                n,
            )
    }
}

/// The run failed with `e`, and left the progress state `end`: on the features of
/// some window, before anything was told, or in some step, after everything before
/// it went through.
pub open spec fn flow_failed<
    T,
    C,
    Z,
    A,
    E,
    H,
    F: Fn(Vec<T>, usize, usize) -> Result<C, E>,
    B: Fn() -> Result<A, E>,
    U: Fn(A, &Z, &C, Window, usize, usize) -> Result<A, E>,
    V: Fn(Z, A, H, usize, usize) -> (Result<Z, E>, H),
    P: Fn(H, usize, usize) -> H,
>(
    e: E,
    end: H,
    hr: Seq<T>,
    hh: int,
    ww: int,
    plan: WindowPlan,
    steps: int,
    start: Z,
    bar: H,
    features: F,
    clear: B,
    velocity: U,
    advance: V,
    on_progress: P,
) -> bool {
    ||| end == bar && exists|feats: Seq<C>, crop: Vec<T>| #[trigger]
        feature_failed::<T, C, E, F>(e, feats, crop, hr, hh, ww, plan, features)
    ||| exists|feats: Seq<C>, zs: Seq<Z>, bars: Seq<H>|
        features_taken::<T, C, E, F>(
            feats,
            hr,
            hh,
            ww,
            plan,
            features,
            plan.windows@.len() as int,
        ) && #[trigger] step_failed::<C, Z, A, E, H, B, U, V, P>(
            e,
            end,
            zs,
            bars,
            plan.windows@,
            feats,
            start,
            bar,
            clear,
            velocity,
            advance,
            on_progress,
            steps,
        )
}

/// The sampler steps that are run: at least one.
pub open spec fn flow_steps(steps: int) -> int {
    crate::tiling::max2(steps, 1)
}

/// The sampling loop of the flow-matching model over the latent of a
/// conditioning picture.
///
/// First the features of every window's pixel region are taken, once. Then, in each
/// step, the velocities of all windows are blended from a cleared blend, and the
/// blend advances the latent. `on_progress` is told how many steps are done, from
/// none on. The progress state `bar` goes through its calls and those of `advance`,
/// in the order in which they are made, and is given back at the end.
pub fn flow_sample<
    T: Copy,
    C,
    Z,
    A,
    E,
    H,
    F: Fn(Vec<T>, usize, usize) -> Result<C, E>,
    B: Fn() -> Result<A, E>,
    U: Fn(A, &Z, &C, Window, usize, usize) -> Result<A, E>,
    V: Fn(Z, A, H, usize, usize) -> (Result<Z, E>, H),
    P: Fn(H, usize, usize) -> H,
>(
    hr: &[T],
    hh: usize,
    ww: usize,
    plan: &WindowPlan,
    steps: usize,
    start: Z,
    bar: H,
    features: &F,
    clear: &B,
    velocity: &U,
    advance: &V,
    on_progress: &P,
) -> (outcome: (Result<Z, E>, H))
    requires
        hr@.len() == 3 * (hh * ww),
        plan.fits(hh as int / 8, ww as int / 8),
        forall|crop: Vec<T>, h: usize, w: usize|
            crop@.len() == 3 * (h * w) ==> #[trigger] call_requires(*features, (crop, h, w)),
        call_requires(*clear, ()),
        forall|a: A, z: &Z, c: &C, win: Window, s: usize, n: usize|
            s < n ==> #[trigger] call_requires(*velocity, (a, z, c, win, s, n)),
        forall|z: Z, a: A, h: H, s: usize, n: usize|
            s < n ==> #[trigger] call_requires(*advance, (z, a, h, s, n)),
        forall|h: H, done: usize, total: usize|
            done <= total ==> #[trigger] call_requires(*on_progress, (h, done, total)),
    ensures
        outcome.0 matches Ok(z) ==> exists|feats: Seq<C>, zs: Seq<Z>, bars: Seq<H>| #[trigger]
            flow_done::<T, C, Z, A, E, H, F, B, U, V, P>(
                feats,
                zs,
                bars,
                hr@,
                hh as int,
                ww as int,
                *plan,
                flow_steps(steps as int),
                start,
                bar,
                *features,
                *clear,
                *velocity,
                *advance,
                *on_progress,
            ) && zs.last() == z && bars.last() == outcome.1,
        outcome.0 matches Err(e) ==> flow_failed::<T, C, Z, A, E, H, F, B, U, V, P>(
            e,
            outcome.1,
            hr@,
            hh as int,
            ww as int,
            *plan,
            flow_steps(steps as int),
            start,
            bar,
            *features,
            *clear,
            *velocity,
            *advance,
            *on_progress,
        ),
{
    let ghost (gh, gw) = (hh as int, ww as int);
    let mut feats: Vec<C> = Vec::new();
    let mut k: usize = 0;
    while k < plan.windows.len()
        invariant
            k <= plan.windows@.len(),
            gh == hh,
            gw == ww,
            hr@.len() == 3 * (hh * ww),
            plan.fits(gh / 8, gw / 8),
            forall|crop: Vec<T>, h: usize, w: usize|
                crop@.len() == 3 * (h * w) ==> #[trigger] call_requires(*features, (crop, h, w)),
            features_taken::<T, C, E, F>(feats@, hr@, gh, gw, *plan, *features, k as int),
        decreases plan.windows@.len() - k,
    {
        let win: Window = plan.windows[k];
        let ghost before = feats@;
        let y0: usize = 8 * win.row;
        let y1: usize = 8 * (win.row + plan.th);
        let x0: usize = 8 * win.col;
        let x1: usize = 8 * (win.col + plan.tw);
        let crop: Vec<T> = crop_chw(hr, 3, hh, ww, y0, y1, x0, x1);
        let ghost sent = crop;
        match features(crop, y1 - y0, x1 - x0) {
            Ok(feat) => {
                feats.push(feat);
                proof {
                    assert(call_ensures(
                        *features,
                        (sent, (8 * plan.th) as usize, (8 * plan.tw) as usize),
                        Ok::<C, E>(feats@[k as int]),
                    ));
                    assert forall|i: int| 0 <= i < k + 1 implies #[trigger] feature_of::<
                        T,
                        C,
                        E,
                        F,
                    >(hr@, gh, gw, *plan, *features, feats@, i) by {
                        if i < k {
                            assert(feature_of::<T, C, E, F>(
                                hr@,
                                gh,
                                gw,
                                *plan,
                                *features,
                                before,
                                i,
                            ));
                            assert(feats@[i] == before[i]);
                        }
                    }
                }
            },
            Err(e) => {
                proof {
                    assert(feature_failed::<T, C, E, F>(
                        e,
                        feats@,
                        sent,
                        hr@,
                        gh,
                        gw,
                        *plan,
                        *features,
                    ));
                }
                return (Err(e), bar);
            },
        }
        k = k + 1;
    }
    let n: usize = if steps >= 1 { steps } else { 1 };
    let ghost mut zs: Seq<Z> = seq![start];
    let ghost first = start;
    let mut z: Z = start;
    let ghost bar_0 = bar;
    let mut now: H = on_progress(bar, 0, n);
    let ghost mut bars: Seq<H> = seq![now];
    let mut s: usize = 0;
    while s < n
        invariant
            s <= n == flow_steps(steps as int),
            gh == hh,
            gw == ww,
            first == start,
            bar_0 == bar,
            features_taken::<T, C, E, F>(
                feats@,
                hr@,
                gh,
                gw,
                *plan,
                *features,
                plan.windows@.len() as int,
            ),
            call_requires(*clear, ()),
            forall|a: A, z: &Z, c: &C, win: Window, s: usize, n: usize|
                s < n ==> #[trigger] call_requires(*velocity, (a, z, c, win, s, n)),
            forall|z: Z, a: A, h: H, s: usize, n: usize|
                s < n ==> #[trigger] call_requires(*advance, (z, a, h, s, n)),
            forall|h: H, done: usize, total: usize|
                done <= total ==> #[trigger] call_requires(*on_progress, (h, done, total)),
            bars.last() == now,
            sampled::<C, Z, A, E, H, B, U, V, P>(
                zs,
                bars,
                plan.windows@,
                feats@,
                first,
                bar_0,
                *clear,
                *velocity,
                *advance,
                *on_progress,
                s as int,
                n as int,
            ),
            zs.last() == z,
        decreases n - s,
    {
        let mut acc: A = match clear() {
            Ok(acc) => acc,
            Err(e) => {
                proof {
                    assert(step_failed::<C, Z, A, E, H, B, U, V, P>(
                        e,
                        now,
                        zs,
                        bars,
                        plan.windows@,
                        feats@,
                        first,
                        bar_0,
                        *clear,
                        *velocity,
                        *advance,
                        *on_progress,
                        n as int,
                    ));
                }
                return (Err(e), now);
            },
        };
        let ghost mut accs: Seq<A> = seq![acc];
        let mut k: usize = 0;
        while k < plan.windows.len()
            invariant
                s < n == flow_steps(steps as int),
                gh == hh,
                gw == ww,
                first == start,
                bar_0 == bar,
                k <= plan.windows@.len(),
                features_taken::<T, C, E, F>(
                    feats@,
                    hr@,
                    gh,
                    gw,
                    *plan,
                    *features,
                    plan.windows@.len() as int,
                ),
                bars.last() == now,
                zs.len() == s + 1,
                zs.last() == z,
                sampled::<C, Z, A, E, H, B, U, V, P>(
                    zs,
                    bars,
                    plan.windows@,
                    feats@,
                    first,
                    bar_0,
                    *clear,
                    *velocity,
                    *advance,
                    *on_progress,
                    s as int,
                    n as int,
                ),
                forall|a: A, z: &Z, c: &C, win: Window, s: usize, n: usize|
                    s < n ==> #[trigger] call_requires(*velocity, (a, z, c, win, s, n)),
                velocities_added::<C, Z, A, E, B, U>(
                    accs,
                    plan.windows@,
                    k as int,
                    feats@,
                    z,
                    *clear,
                    *velocity,
                    s as int,
                    n as int,
                ),
                accs.last() == acc,
            decreases plan.windows@.len() - k,
        {
            let ghost before = accs;
            match velocity(acc, &z, &feats[k], plan.windows[k], s, n) {
                Ok(next) => {
                    acc = next;
                    proof {
                        accs = accs.push(next);
                        assert forall|i: int| 0 <= i < k + 1 implies #[trigger] velocity_added::<
                            C,
                            Z,
                            A,
                            E,
                            U,
                        >(accs, plan.windows@, feats@, z, *velocity, s as int, n as int, i) by {
                            if i < k {
                                assert(velocity_added::<C, Z, A, E, U>(
                                    before,
                                    plan.windows@,
                                    feats@,
                                    z,
                                    *velocity,
                                    s as int,
                                    n as int,
                                    i,
                                ));
                            }
                        }
                    }
                },
                Err(e) => {
                    proof {
                        assert(velocity_failed::<C, Z, A, E, B, U>(
                            e,
                            accs,
                            plan.windows@,
                            feats@,
                            zs[s as int],
                            *clear,
                            *velocity,
                            s as int,
                            n as int,
                        ));
                        assert(step_failed::<C, Z, A, E, H, B, U, V, P>(
                            e,
                            now,
                            zs,
                            bars,
                            plan.windows@,
                            feats@,
                            first,
                            bar_0,
                            *clear,
                            *velocity,
                            *advance,
                            *on_progress,
                            n as int,
                        ));
                    }
                    return (Err(e), now);
                },
            }
            k = k + 1;
        }
        let ghost earlier = zs;
        let ghost shown = bars;
        let (reply, woken): (Result<Z, E>, H) = advance(z, acc, now, s, n);
        match reply {
            Ok(next) => {
                z = next;
                let ghost left = woken;
                now = on_progress(woken, s + 1, n);
                proof {
                    zs = zs.push(next);
                    bars = bars.push(now);
                    assert(velocities_added::<C, Z, A, E, B, U>(
                        accs,
                        plan.windows@,
                        plan.windows@.len() as int,
                        feats@,
                        zs[s as int],
                        *clear,
                        *velocity,
                        s as int,
                        n as int,
                    ));
                    assert(call_ensures(
                        *on_progress,
                        (left, (s + 1) as usize, n),
                        bars[s + 1],
                    ));
                    assert forall|i: int| 0 <= i < s + 1 implies #[trigger] stepped::<C, Z, A, E, H, B, U, V, P>(
                        zs,
                        bars,
                        plan.windows@,
                        feats@,
                        *clear,
                        *velocity,
                        *advance,
                        *on_progress,
                        i,
                        n as int,
                    ) by {
                        if i < s {
                            assert(stepped::<C, Z, A, E, H, B, U, V, P>(
                                earlier,
                                shown,
                                plan.windows@,
                                feats@,
                                *clear,
                                *velocity,
                                *advance,
                                *on_progress,
                                i,
                                n as int,
                            ));
                            assert(zs[i] == earlier[i] && zs[i + 1] == earlier[i + 1]);
                            assert(bars[i] == shown[i] && bars[i + 1] == shown[i + 1]);
                        }
                    }
                }
            },
            Err(e) => {
                proof {
                    assert(advance_failed::<C, Z, A, E, H, B, U, V>(
                        e,
                        woken,
                        accs,
                        plan.windows@,
                        feats@,
                        zs[s as int],
                        bars[s as int],
                        *clear,
                        *velocity,
                        *advance,
                        s as int,
                        n as int,
                    ));
                    assert(step_failed::<C, Z, A, E, H, B, U, V, P>(
                        e,
                        woken,
                        zs,
                        bars,
                        plan.windows@,
                        feats@,
                        first,
                        bar_0,
                        *clear,
                        *velocity,
                        *advance,
                        *on_progress,
                        n as int,
                    ));
                }
                return (Err(e), woken);
            },
        }
        s = s + 1;
    }
    assert(flow_done::<T, C, Z, A, E, H, F, B, U, V, P>(
        feats@,
        zs,
        bars,
        hr@,
        hh as int,
        ww as int,
        *plan,
        flow_steps(steps as int),
        first,
        bar_0,
        *features,
        *clear,
        *velocity,
        *advance,
        *on_progress,
    ));
    (Ok(z), now)
}

/// A window of the latent sees the pixels under it, eight along each axis for every
/// cell: its crop's sample at row `y`, column `x` is the picture's at that row and column
/// counted from eight times the window's corner.
pub proof fn law_windows_see_their_pixels<T>(
    hr: Seq<T>,
    hh: int,
    ww: int,
    plan: WindowPlan,
    win: Window,
    c: int,
    y: int,
    x: int,
)
    requires
        0 <= c < 3,
        0 <= y < 8 * plan.th,
        0 <= x < 8 * plan.tw,
    ensures
        ({
            let (h, w) = (8 * plan.th, 8 * plan.tw);
            let crop = window_crop(hr, hh, ww, plan, win);
            &&& crop.len() == 3 * (h * w)
            &&& crop[c * (h * w) + (y * w + x)] == hr[c * (hh * ww) + ((8 * win.row + y) * ww + (8
                * win.col + x))]
        }),
{
    crate::layout::law_crop_shifts(
        hr,
        3,
        hh,
        ww,
        8 * win.row,
        8 * (win.row + plan.th),
        8 * win.col,
        8 * (win.col + plan.tw),
        c,
        y,
        x,
    );
}

/// As many steps are run as asked for, but never none.
pub proof fn law_at_least_one_step_is_run(steps: nat)
    ensures
        steps >= 1 ==> flow_steps(steps as int) == steps,
        steps == 0 ==> flow_steps(steps as int) == 1,
{
}

/// A blend goes through every window of the plan once, in order: each is given what the
/// one before it left, the first the start, and the last leaves the result.
pub proof fn law_blend_threads_every_window<A, E, F: Fn(A, Window) -> Result<A, E>>(
    windows: Seq<Window>,
    start: A,
    step: F,
    a: A,
)
    requires
        blended::<A, E, F>(windows, start, step, a),
    ensures
        exists|accs: Seq<A>|
            {
                &&& #[trigger] accs.len() == windows.len() + 1
                &&& accs[0] == start
                &&& accs.last() == a
                &&& forall|k: int|
                    0 <= k < windows.len() ==> call_ensures(
                        step,
                        (accs[k], #[trigger] windows[k]),
                        Ok::<A, E>(accs[k + 1]),
                    )
            },
{
    let accs = choose|accs: Seq<A>| #[trigger]
        folded::<A, E, F>(accs, windows, windows.len() as int, start, step) && accs.last() == a;
    assert(accs.len() == windows.len() + 1);
    assert forall|k: int| 0 <= k < windows.len() implies call_ensures(
        step,
        (accs[k], #[trigger] windows[k]),
        Ok::<A, E>(accs[k + 1]),
    ) by {
        assert(fold_step::<A, E, F>(accs, windows, step, k));
    }
}

/// The features of a window are taken of the pixels under that window, at their size.
pub proof fn law_features_are_those_of_the_window<
    T,
    C,
    E,
    F: Fn(Vec<T>, usize, usize) -> Result<C, E>,
>(
    feats: Seq<C>,
    hr: Seq<T>,
    hh: int,
    ww: int,
    plan: WindowPlan,
    features: F,
    m: int,
    k: int,
)
    requires
        features_taken::<T, C, E, F>(feats, hr, hh, ww, plan, features, m),
        0 <= k < m,
    ensures
        feats.len() == m,
        exists|crop: Vec<T>|
            {
                let win = plan.windows@[k];
                &&& crop@ == crate::layout::cropped(
                    hr,
                    3,
                    hh,
                    ww,
                    8 * win.row,
                    8 * win.row + 8 * plan.th,
                    8 * win.col,
                    8 * win.col + 8 * plan.tw,
                )
                &&& #[trigger] call_ensures(
                    features,
                    (crop, (8 * plan.th) as usize, (8 * plan.tw) as usize),
                    Ok::<C, E>(feats[k]),
                )
            },
{
    assert(feature_of::<T, C, E, F>(hr, hh, ww, plan, features, feats, k));
}

/// A run takes its steps in order, each in the same way. In step `s` the blend starts
/// cleared and goes through all windows in order, each given the latent of this step,
/// its own features and the number of the step; the full blend takes the latent to the
/// next; and then `s + 1` steps are told. Before the first step none are.
pub proof fn law_flow_steps_are_alike<
    T,
    C,
    Z,
    A,
    E,
    H,
    F: Fn(Vec<T>, usize, usize) -> Result<C, E>,
    B: Fn() -> Result<A, E>,
    U: Fn(A, &Z, &C, Window, usize, usize) -> Result<A, E>,
    V: Fn(Z, A, H, usize, usize) -> (Result<Z, E>, H),
    P: Fn(H, usize, usize) -> H,
>(
    feats: Seq<C>,
    zs: Seq<Z>,
    bars: Seq<H>,
    hr: Seq<T>,
    hh: int,
    ww: int,
    plan: WindowPlan,
    steps: int,
    start: Z,
    bar: H,
    features: F,
    clear: B,
    velocity: U,
    advance: V,
    on_progress: P,
    s: int,
)
    requires
        flow_done::<T, C, Z, A, E, H, F, B, U, V, P>(
            feats,
            zs,
            bars,
            hr,
            hh,
            ww,
            plan,
            steps,
            start,
            bar,
            features,
            clear,
            velocity,
            advance,
            on_progress,
        ),
        0 <= s < steps,
    ensures
        feats.len() == plan.windows@.len(),
        zs.len() == steps + 1,
        bars.len() == steps + 1,
        zs[0] == start,
        call_ensures(on_progress, (bar, 0usize, steps as usize), bars[0]),
        exists|accs: Seq<A>, woken: H|
            {
                &&& accs.len() == plan.windows@.len() + 1
                &&& call_ensures(clear, (), Ok::<A, E>(accs[0]))
                &&& forall|k: int|
                    0 <= k < plan.windows@.len() ==> call_ensures(
                        velocity,
                        (
                            accs[k],
                            &zs[s],
                            &feats[k],
                            #[trigger] plan.windows@[k],
                            s as usize,
                            steps as usize,
                        ),
                        Ok::<A, E>(accs[k + 1]),
                    )
                &&& #[trigger] call_ensures(
                    advance,
                    (zs[s], accs.last(), bars[s], s as usize, steps as usize),
                    (Ok::<Z, E>(zs[s + 1]), woken),
                )
                &&& call_ensures(
                    on_progress,
                    (woken, (s + 1) as usize, steps as usize),
                    bars[s + 1],
                )
            },
{
    let windows = plan.windows@;
    assert(stepped::<C, Z, A, E, H, B, U, V, P>(
        zs,
        bars,
        windows,
        feats,
        clear,
        velocity,
        advance,
        on_progress,
        s,
        steps,
    ));
    let (accs, woken) = choose|accs: Seq<A>, woken: H|
        {
            &&& #[trigger] velocities_added::<C, Z, A, E, B, U>(
                accs,
                windows,
                windows.len() as int,
                feats,
                zs[s],
                clear,
                velocity,
                s,
                steps,
            )
            &&& call_ensures(
                advance,
                (zs[s], accs.last(), bars[s], s as usize, steps as usize),
                (Ok::<Z, E>(zs[s + 1]), woken),
            )
            &&& #[trigger] call_ensures(
                on_progress,
                (woken, (s + 1) as usize, steps as usize),
                bars[s + 1],
            )
        };
    assert forall|k: int| 0 <= k < windows.len() implies call_ensures(
        velocity,
        (accs[k], &zs[s], &feats[k], #[trigger] windows[k], s as usize, steps as usize),
        Ok::<A, E>(accs[k + 1]),
    ) by {
        assert(velocity_added::<C, Z, A, E, U>(
            accs,
            windows,
            feats,
            zs[s],
            velocity,
            s,
            steps,
            k,
        ));
    }
}

/// A blend that fails does so on a window, with that window's own error, after the
/// windows before it went through in order.
pub proof fn law_blend_fails_on_a_window<A, E, F: Fn(A, Window) -> Result<A, E>>(
    windows: Seq<Window>,
    start: A,
    step: F,
    e: E,
)
    requires
        broke::<A, E, F>(windows, start, step, e),
    ensures
        exists|accs: Seq<A>, k: int|
            {
                &&& 0 <= k < windows.len()
                &&& accs.len() == k + 1
                &&& accs[0] == start
                &&& forall|i: int|
                    0 <= i < k ==> call_ensures(
                        step,
                        (accs[i], #[trigger] windows[i]),
                        Ok::<A, E>(accs[i + 1]),
                    )
                &&& #[trigger] call_ensures(step, (accs[k], windows[k]), Err::<A, E>(e))
            },
{
    let (accs, k) = choose|accs: Seq<A>, k: int| #[trigger]
        broke_at::<A, E, F>(accs, windows, start, step, e, k);
    assert forall|i: int| 0 <= i < k implies call_ensures(
        step,
        (accs[i], #[trigger] windows[i]),
        Ok::<A, E>(accs[i + 1]),
    ) by {
        assert(fold_step::<A, E, F>(accs, windows, step, i));
    }
    assert(call_ensures(step, (accs[k], windows[k]), Err::<A, E>(e)));
}

/// A run makes no error up: what it fails with is what one of the functions that it was
/// given failed with.
pub proof fn law_flow_errors_are_passed_on<
    T,
    C,
    Z,
    A,
    E,
    H,
    F: Fn(Vec<T>, usize, usize) -> Result<C, E>,
    B: Fn() -> Result<A, E>,
    U: Fn(A, &Z, &C, Window, usize, usize) -> Result<A, E>,
    V: Fn(Z, A, H, usize, usize) -> (Result<Z, E>, H),
    P: Fn(H, usize, usize) -> H,
>(
    e: E,
    end: H,
    hr: Seq<T>,
    hh: int,
    ww: int,
    plan: WindowPlan,
    steps: int,
    start: Z,
    bar: H,
    features: F,
    clear: B,
    velocity: U,
    advance: V,
    on_progress: P,
)
    requires
        flow_failed::<T, C, Z, A, E, H, F, B, U, V, P>(
            e,
            end,
            hr,
            hh,
            ww,
            plan,
            steps,
            start,
            bar,
            features,
            clear,
            velocity,
            advance,
            on_progress,
        ),
    ensures
        ({
            ||| exists|crop: Vec<T>, h: usize, w: usize| #[trigger]
                call_ensures(features, (crop, h, w), Err::<C, E>(e))
            ||| call_ensures(clear, (), Err::<A, E>(e))
            ||| exists|a: A, z: Z, c: C, win: Window, s: usize, n: usize| #[trigger]
                call_ensures(velocity, (a, &z, &c, win, s, n), Err::<A, E>(e))
            ||| exists|z: Z, a: A, h: H, s: usize, n: usize| #[trigger]
                call_ensures(advance, (z, a, h, s, n), (Err::<Z, E>(e), end))
        }),
{
    if exists|feats: Seq<C>, crop: Vec<T>| #[trigger]
        feature_failed::<T, C, E, F>(e, feats, crop, hr, hh, ww, plan, features) {
        let (feats, crop) = choose|feats: Seq<C>, crop: Vec<T>| #[trigger]
            feature_failed::<T, C, E, F>(e, feats, crop, hr, hh, ww, plan, features);
        assert(call_ensures(
            features,
            (crop, (8 * plan.th) as usize, (8 * plan.tw) as usize),
            Err::<C, E>(e),
        ));
    } else {
        let (feats, zs, bars) = choose|feats: Seq<C>, zs: Seq<Z>, bars: Seq<H>|
            features_taken::<T, C, E, F>(
                feats,
                hr,
                hh,
                ww,
                plan,
                features,
                plan.windows@.len() as int,
            ) && #[trigger] step_failed::<C, Z, A, E, H, B, U, V, P>(
                e,
                end,
                zs,
                bars,
                plan.windows@,
                feats,
                start,
                bar,
                clear,
                velocity,
                advance,
                on_progress,
                steps,
            );
        let (s, windows) = (zs.len() - 1, plan.windows@);
        if !call_ensures(clear, (), Err::<A, E>(e)) {
            if exists|accs: Seq<A>| #[trigger]
                velocity_failed::<C, Z, A, E, B, U>(
                    e,
                    accs,
                    windows,
                    feats,
                    zs[s],
                    clear,
                    velocity,
                    s,
                    steps,
                ) {
                let accs = choose|accs: Seq<A>| #[trigger]
                    velocity_failed::<C, Z, A, E, B, U>(
                        e,
                        accs,
                        windows,
                        feats,
                        zs[s],
                        clear,
                        velocity,
                        s,
                        steps,
                    );
                let m = accs.len() - 1;
                assert(call_ensures(
                    velocity,
                    (accs[m], &zs[s], &feats[m], windows[m], s as usize, steps as usize),
                    Err::<A, E>(e),
                ));
            } else {
                let accs = choose|accs: Seq<A>| #[trigger]
                    advance_failed::<C, Z, A, E, H, B, U, V>(
                        e,
                        end,
                        accs,
                        windows,
                        feats,
                        zs[s],
                        bars[s],
                        clear,
                        velocity,
                        advance,
                        s,
                        steps,
                    );
                assert(call_ensures(
                    advance,
                    (zs[s], accs.last(), bars[s], s as usize, steps as usize),
                    (Err::<Z, E>(e), end),
                ));
            }
        }
    }
}

} // verus!
