//! A run over a whole conditioning picture: the low-resolution image is resampled
//! four times larger, a model refines it, and the result is packed.

use vstd::prelude::*;

use crate::pixels::pack_rgba;
use crate::pixels::rgba_to_planes;
use crate::resize::bicubic_chw;
use crate::resize::AxisPlan;
use crate::stitch::is_rgba_len;
use crate::stitch::TileError;

verus! {

/// The plan's taps are those that `tap` gives.
pub open spec fn plan_from<W: Copy, X: Fn(usize) -> (isize, [W; 4])>(
    plan: AxisPlan<W>,
    n: int,
    tap: X,
) -> bool {
    &&& plan.base@.len() == n
    &&& plan.weights@.len() == n
    &&& forall|o: int|
        #![trigger plan.base@[o]]
        0 <= o < n ==> call_ensures(tap, (o as usize,), (plan.base@[o], plan.weights@[o]))
}

/// `hr` is the conditioning picture of `rgba`: its planes, resampled four times
/// larger along both axes.
pub open spec fn conditioning<
    T,
    W: Copy,
    A,
    S: Fn(u8) -> T,
    X: Fn(usize) -> (isize, [W; 4]),
    Y: Fn(usize) -> (isize, [W; 4]),
    F: Fn(A, W, T) -> A,
    G: Fn(A) -> T,
>(
    rgba: Seq<u8>,
    width: int,
    height: int,
    hr: Seq<T>,
    start: A,
    sample: S,
    tap_x: X,
    tap_y: Y,
    step: F,
    done: G,
) -> bool {
    exists|planes: Seq<T>, hplan: AxisPlan<W>, vplan: AxisPlan<W>|
        {
            &&& #[trigger] crate::pixels::planes_from(rgba, width * height, planes, sample)
            &&& #[trigger] plan_from(hplan, 4 * width, tap_x)
            &&& #[trigger] plan_from(vplan, 4 * height, tap_y)
            &&& crate::resize::resampled(
                planes,
                3,
                height,
                width,
                hplan,
                vplan,
                hr,
                start,
                step,
                done,
            )
        }
}

/// `rgba` is the opaque picture of three planes of samples.
pub open spec fn packed<T, Q: Fn(T) -> u8>(
    vals: Seq<T>,
    plane: int,
    rgba: Seq<u8>,
    quantize: Q,
) -> bool {
    &&& rgba.len() == 4 * plane
    &&& forall|i: int|
        #![trigger rgba[i]]
        0 <= i < rgba.len() ==> if i % 4 == 3 {
            rgba[i] == 255
        } else {
            call_ensures(quantize, (vals[(i % 4) * plane + i / 4],), rgba[i])
        }
}

/// The model was told of, then given the conditioning picture `hr`, at its size, and
/// gave `reply`. The progress state `bar` went through both, and the model left it
/// as `woken`.
pub open spec fn model_ran<
    T,
    E,
    H,
    W: Copy,
    A,
    S: Fn(u8) -> T,
    X: Fn(usize) -> (isize, [W; 4]),
    Y: Fn(usize) -> (isize, [W; 4]),
    F: Fn(A, W, T) -> A,
    G: Fn(A) -> T,
    R: Fn(Vec<T>, usize, usize, H) -> (Result<Vec<T>, E>, H),
    P: Fn(H, usize, usize) -> H,
>(
    hr: Vec<T>,
    told: H,
    reply: Result<Vec<T>, E>,
    woken: H,
    rgba: Seq<u8>,
    width: int,
    height: int,
    bar: H,
    start: A,
    sample: S,
    tap_x: X,
    tap_y: Y,
    step: F,
    done: G,
    run: R,
    on_progress: P,
) -> bool {
    &&& conditioning::<T, W, A, S, X, Y, F, G>(
        rgba,
        width,
        height,
        hr@,
        start,
        sample,
        tap_x,
        tap_y,
        step,
        done,
    )
    &&& call_ensures(on_progress, (bar, 0usize, 1usize), told)
    &&& call_ensures(
        run,
        (hr, (4 * height) as usize, (4 * width) as usize, told),
        (reply, woken),
    )
}

/// The model failed with `e` on the conditioning picture, and left the progress state
/// `end`.
pub open spec fn model_failed<
    T,
    E,
    H,
    W: Copy,
    A,
    S: Fn(u8) -> T,
    X: Fn(usize) -> (isize, [W; 4]),
    Y: Fn(usize) -> (isize, [W; 4]),
    F: Fn(A, W, T) -> A,
    G: Fn(A) -> T,
    R: Fn(Vec<T>, usize, usize, H) -> (Result<Vec<T>, E>, H),
    P: Fn(H, usize, usize) -> H,
>(
    e: E,
    end: H,
    rgba: Seq<u8>,
    width: int,
    height: int,
    bar: H,
    start: A,
    sample: S,
    tap_x: X,
    tap_y: Y,
    step: F,
    done: G,
    run: R,
    on_progress: P,
) -> bool {
    exists|hr: Vec<T>, told: H| #[trigger]
        model_ran::<T, E, H, W, A, S, X, Y, F, G, R, P>(
            hr,
            told,
            Err(e),
            end,
            rgba,
            width,
            height,
            bar,
            start,
            sample,
            tap_x,
            tap_y,
            step,
            done,
            run,
            on_progress,
        )
}

/// `image` is what the model made of the picture, and `end` the progress state once
/// its end was told too.
pub open spec fn whole_result<
    T,
    E,
    H,
    W: Copy,
    A,
    S: Fn(u8) -> T,
    X: Fn(usize) -> (isize, [W; 4]),
    Y: Fn(usize) -> (isize, [W; 4]),
    F: Fn(A, W, T) -> A,
    G: Fn(A) -> T,
    R: Fn(Vec<T>, usize, usize, H) -> (Result<Vec<T>, E>, H),
    Q: Fn(T) -> u8,
    P: Fn(H, usize, usize) -> H,
>(
    image: Seq<u8>,
    end: H,
    rgba: Seq<u8>,
    width: int,
    height: int,
    bar: H,
    start: A,
    sample: S,
    tap_x: X,
    tap_y: Y,
    step: F,
    done: G,
    run: R,
    quantize: Q,
    on_progress: P,
) -> bool {
    exists|hr: Vec<T>, told: H, vals: Vec<T>, woken: H| #[trigger]
        model_ran::<T, E, H, W, A, S, X, Y, F, G, R, P>(
            hr,
            told,
            Ok(vals),
            woken,
            rgba,
            width,
            height,
            bar,
            start,
            sample,
            tap_x,
            tap_y,
            step,
            done,
            run,
            on_progress,
        ) && packed(vals@, 16 * (width * height), image, quantize) && call_ensures(
            on_progress,
            (woken, 1usize, 1usize),
            end,
        )
}

/// Upscales an RGBA picture four times in one piece.
///
/// `run` is handed the conditioning picture as three planes with its height and
/// width, and gives back the refined planes. `on_progress` is told before and after
/// it. The progress state `bar` goes through the three calls, in that order, and is
/// given back at the end.
pub fn upscale_whole<
    T: Copy,
    E,
    H,
    W: Copy,
    A: Copy,
    S: Fn(u8) -> T,
    X: Fn(usize) -> (isize, [W; 4]),
    Y: Fn(usize) -> (isize, [W; 4]),
    F: Fn(A, W, T) -> A,
    G: Fn(A) -> T,
    R: Fn(Vec<T>, usize, usize, H) -> (Result<Vec<T>, E>, H),
    Q: Fn(T) -> u8,
    P: Fn(H, usize, usize) -> H,
>(
    rgba: &[u8],
    width: usize,
    height: usize,
    bar: H,
    start: A,
    sample: &S,
    tap_x: &X,
    tap_y: &Y,
    step: &F,
    done: &G,
    run: &R,
    quantize: &Q,
    on_progress: &P,
) -> (outcome: (Result<(Vec<u8>, usize, usize), TileError<E>>, H))
    requires
        rgba@.len() == 4 * (width * height) ==> 64 * (width * height) <= usize::MAX && 4 * width
            <= isize::MAX && 4 * height <= isize::MAX && 3 * height <= usize::MAX,
        forall|b: u8| call_requires(*sample, (b,)),
        forall|o: usize| o < 4 * width ==> call_requires(*tap_x, (o,)),
        forall|o: usize, r: (isize, [W; 4])|
            o < 4 * width && #[trigger] call_ensures(*tap_x, (o,), r) ==> r.0 <= isize::MAX - 3,
        forall|o: usize| o < 4 * height ==> call_requires(*tap_y, (o,)),
        forall|o: usize, r: (isize, [W; 4])|
            o < 4 * height && #[trigger] call_ensures(*tap_y, (o,), r) ==> r.0 <= isize::MAX - 3,
        forall|a: A, w: W, t: T| call_requires(*step, (a, w, t)),
        forall|a: A| call_requires(*done, (a,)),
        forall|v: Vec<T>, h: usize, w: usize, b: H|
            v@.len() == 3 * (h * w) ==> #[trigger] call_requires(*run, (v, h, w, b)),
        forall|v: Vec<T>, h: usize, w: usize, b0: H, r: Vec<T>, b1: H|
            #[trigger] call_ensures(*run, (v, h, w, b0), (Ok::<Vec<T>, E>(r), b1)) ==> r@.len()
                == 3 * (h * w),
        forall|v: T| call_requires(*quantize, (v,)),
        forall|h: H, n: usize, total: usize|
            n <= total ==> #[trigger] call_requires(*on_progress, (h, n, total)),
    ensures
        (outcome.0 matches Err(TileError::Length)) <==> rgba@.len() != 4 * (width * height),
        (outcome.0 matches Err(TileError::Length)) ==> outcome.1 == bar,
        outcome.0 matches Ok(image) ==> image.1 == 4 * width && image.2 == 4 * height
            && whole_result::<T, E, H, W, A, S, X, Y, F, G, R, Q, P>(
            image.0@,
            outcome.1,
            rgba@,
            width as int,
            height as int,
            bar,
            start,
            *sample,
            *tap_x,
            *tap_y,
            *step,
            *done,
            *run,
            *quantize,
            *on_progress,
        ),
        outcome.0 matches Err(TileError::Model(e)) ==> model_failed::<
            T,
            E,
            H,
            W,
            A,
            S,
            X,
            Y,
            F,
            G,
            R,
            P,
        >(
            e,
            outcome.1,
            rgba@,
            width as int,
            height as int,
            bar,
            start,
            *sample,
            *tap_x,
            *tap_y,
            *step,
            *done,
            *run,
            *on_progress,
        ),
{
    if !is_rgba_len(rgba.len(), width, height) {
        return (Err(TileError::Length), bar);
    }
    let planes: Vec<T> = rgba_to_planes(rgba, width, height, sample);
    let ww: usize = 4 * width;
    let hh: usize = 4 * height;
    let hplan: AxisPlan<W> = AxisPlan::new(ww, tap_x);
    let vplan: AxisPlan<W> = AxisPlan::new(hh, tap_y);
    proof {
        assert(width * height == height * width) by (nonlinear_arith);
        assert(crate::pixels::planes_from(rgba@, width * height, planes@, *sample));
        assert(plan_from(hplan, 4 * width, *tap_x));
        assert(plan_from(vplan, 4 * height, *tap_y));
    }
    let hr: Vec<T> = bicubic_chw(
        planes.as_slice(),
        3,
        height,
        width,
        &hplan,
        &vplan,
        start,
        step,
        done,
    );
    let ghost sent = hr;
    proof {
        assert(hh * ww == 16 * (width * height)) by (nonlinear_arith)
            requires
                hh == 4 * height,
                ww == 4 * width,
        ;
    }
    let told: H = on_progress(bar, 0, 1);
    let ghost shown = told;
    let (reply, woken): (Result<Vec<T>, E>, H) = run(hr, hh, ww, told);
    let ghost left = woken;
    proof {
        assert(model_ran::<T, E, H, W, A, S, X, Y, F, G, R, P>(
            sent,
            shown,
            reply,
            left,
            rgba@,
            width as int,
            height as int,
            bar,
            start,
            *sample,
            *tap_x,
            *tap_y,
            *step,
            *done,
            *run,
            *on_progress,
        ));
    }
    match reply {
        Ok(vals) => {
            let end: H = on_progress(woken, 1, 1);
            let plane: usize = hh * ww;
            let out: Vec<u8> = pack_rgba(vals.as_slice(), plane, quantize);
            assert(packed(vals@, plane as int, out@, *quantize));
            (Ok((out, ww, hh)), end)
        },
        Err(e) => (Err(TileError::Model(e)), woken),
    }
}

/// What the model makes of a conditioning picture depends on its samples and its size
/// alone.
pub open spec fn run_decided<T, E, H, R: Fn(Vec<T>, usize, usize, H) -> (Result<Vec<T>, E>, H)>(
    run: R,
) -> bool {
    forall|
        v: Vec<T>,
        w: Vec<T>,
        hh: usize,
        ww: usize,
        v0: H,
        w0: H,
        x: Vec<T>,
        y: Vec<T>,
        v1: H,
        w1: H,
    |
        v@ == w@ && #[trigger] call_ensures(run, (v, hh, ww, v0), (Ok::<Vec<T>, E>(x), v1))
            && #[trigger] call_ensures(run, (w, hh, ww, w0), (Ok::<Vec<T>, E>(y), w1)) ==> x@
            == y@
}

/// There is one conditioning picture of a picture, where the functions give one
/// result for each argument.
proof fn lemma_conditioning_decided<
    T,
    W: Copy,
    A,
    S: Fn(u8) -> T,
    X: Fn(usize) -> (isize, [W; 4]),
    Y: Fn(usize) -> (isize, [W; 4]),
    F: Fn(A, W, T) -> A,
    G: Fn(A) -> T,
>(
    rgba: Seq<u8>,
    width: int,
    height: int,
    x: Seq<T>,
    y: Seq<T>,
    start: A,
    sample: S,
    tap_x: X,
    tap_y: Y,
    step: F,
    done: G,
)
    requires
        crate::pixels::decided1::<u8, T, S>(sample),
        crate::pixels::decided1::<usize, (isize, [W; 4]), X>(tap_x),
        crate::pixels::decided1::<usize, (isize, [W; 4]), Y>(tap_y),
        crate::pixels::decided3::<A, W, T, A, F>(step),
        crate::pixels::decided1::<A, T, G>(done),
        conditioning::<T, W, A, S, X, Y, F, G>(
            rgba,
            width,
            height,
            x,
            start,
            sample,
            tap_x,
            tap_y,
            step,
            done,
        ),
        conditioning::<T, W, A, S, X, Y, F, G>(
            rgba,
            width,
            height,
            y,
            start,
            sample,
            tap_x,
            tap_y,
            step,
            done,
        ),
    ensures
        x == y,
{
    let (px, hx, vx) = choose|planes: Seq<T>, hplan: AxisPlan<W>, vplan: AxisPlan<W>|
        {
            &&& #[trigger] crate::pixels::planes_from(rgba, width * height, planes, sample)
            &&& #[trigger] plan_from(hplan, 4 * width, tap_x)
            &&& #[trigger] plan_from(vplan, 4 * height, tap_y)
            &&& crate::resize::resampled(
                planes,
                3,
                height,
                width,
                hplan,
                vplan,
                x,
                start,
                step,
                done,
            )
        };
    let (py, hy, vy) = choose|planes: Seq<T>, hplan: AxisPlan<W>, vplan: AxisPlan<W>|
        {
            &&& #[trigger] crate::pixels::planes_from(rgba, width * height, planes, sample)
            &&& #[trigger] plan_from(hplan, 4 * width, tap_x)
            &&& #[trigger] plan_from(vplan, 4 * height, tap_y)
            &&& crate::resize::resampled(
                planes,
                3,
                height,
                width,
                hplan,
                vplan,
                y,
                start,
                step,
                done,
            )
        };
    assert forall|j: int| 0 <= j < px.len() implies px[j] == py[j] by {
        let (a, b) = (px[j], py[j]);
    }
    assert(px =~= py);
    lemma_plans_agree(hx, hy, 4 * width, tap_x);
    lemma_plans_agree(vx, vy, 4 * height, tap_y);
    crate::resize::lemma_resampled_decided(
        px,
        3,
        height,
        width,
        hx,
        vx,
        hy,
        vy,
        x,
        y,
        start,
        step,
        done,
    );
}

/// Two plans made of the same taps hold the same.
proof fn lemma_plans_agree<W: Copy, X: Fn(usize) -> (isize, [W; 4])>(
    p: AxisPlan<W>,
    q: AxisPlan<W>,
    n: int,
    tap: X,
)
    requires
        crate::pixels::decided1::<usize, (isize, [W; 4]), X>(tap),
        plan_from(p, n, tap),
        plan_from(q, n, tap),
    ensures
        p.base@ == q.base@,
        p.weights@ == q.weights@,
{
    assert forall|o: int| 0 <= o < n implies p.base@[o] == q.base@[o] && #[trigger] p.weights@[o]
        == q.weights@[o] by {
        let (a, b) = (p.base@[o], q.base@[o]);
        assert((p.base@[o], p.weights@[o]) == (q.base@[o], q.weights@[o]));
    }
    assert forall|o: int| 0 <= o < n implies p.base@[o] == q.base@[o] by {
        assert(p.weights@[o] == q.weights@[o]);
    }
    assert(p.base@ =~= q.base@);
    assert(p.weights@ =~= q.weights@);
}

/// A run in one piece depends on the picture and on nothing else: with functions that
/// give one result for each argument, two runs on one picture give the same image,
/// whatever progress state each is given. No seed, step count, noise level or batch
/// size goes into it.
pub proof fn law_whole_run_is_decided<
    T,
    E,
    H,
    W: Copy,
    A,
    S: Fn(u8) -> T,
    X: Fn(usize) -> (isize, [W; 4]),
    Y: Fn(usize) -> (isize, [W; 4]),
    F: Fn(A, W, T) -> A,
    G: Fn(A) -> T,
    R: Fn(Vec<T>, usize, usize, H) -> (Result<Vec<T>, E>, H),
    Q: Fn(T) -> u8,
    P: Fn(H, usize, usize) -> H,
>(
    x_image: Seq<u8>,
    y_image: Seq<u8>,
    x_bar: H,
    y_bar: H,
    x_end: H,
    y_end: H,
    rgba: Seq<u8>,
    width: usize,
    height: usize,
    start: A,
    sample: S,
    tap_x: X,
    tap_y: Y,
    step: F,
    done: G,
    run: R,
    quantize: Q,
    on_progress: P,
)
    requires
        crate::pixels::decided1::<u8, T, S>(sample),
        crate::pixels::decided1::<usize, (isize, [W; 4]), X>(tap_x),
        crate::pixels::decided1::<usize, (isize, [W; 4]), Y>(tap_y),
        crate::pixels::decided3::<A, W, T, A, F>(step),
        crate::pixels::decided1::<A, T, G>(done),
        run_decided::<T, E, H, R>(run),
        crate::pixels::decided1::<T, u8, Q>(quantize),
        whole_result::<T, E, H, W, A, S, X, Y, F, G, R, Q, P>(
            x_image,
            x_end,
            rgba,
            width as int,
            height as int,
            x_bar,
            start,
            sample,
            tap_x,
            tap_y,
            step,
            done,
            run,
            quantize,
            on_progress,
        ),
        whole_result::<T, E, H, W, A, S, X, Y, F, G, R, Q, P>(
            y_image,
            y_end,
            rgba,
            width as int,
            height as int,
            y_bar,
            start,
            sample,
            tap_x,
            tap_y,
            step,
            done,
            run,
            quantize,
            on_progress,
        ),
    ensures
        x_image == y_image,
{
    let (w, h) = (width as int, height as int);
    let (x_hr, x_told, x_vals, x_woken) = choose|
        hr: Vec<T>,
        told: H,
        vals: Vec<T>,
        woken: H,
    | #[trigger]
        model_ran::<T, E, H, W, A, S, X, Y, F, G, R, P>(
            hr,
            told,
            Ok(vals),
            woken,
            rgba,
            w,
            h,
            x_bar,
            start,
            sample,
            tap_x,
            tap_y,
            step,
            done,
            run,
            on_progress,
        ) && packed(vals@, 16 * (w * h), x_image, quantize) && call_ensures(
            on_progress,
            (woken, 1usize, 1usize),
            x_end,
        );
    let (y_hr, y_told, y_vals, y_woken) = choose|
        hr: Vec<T>,
        told: H,
        vals: Vec<T>,
        woken: H,
    | #[trigger]
        model_ran::<T, E, H, W, A, S, X, Y, F, G, R, P>(
            hr,
            told,
            Ok(vals),
            woken,
            rgba,
            w,
            h,
            y_bar,
            start,
            sample,
            tap_x,
            tap_y,
            step,
            done,
            run,
            on_progress,
        ) && packed(vals@, 16 * (w * h), y_image, quantize) && call_ensures(
            on_progress,
            (woken, 1usize, 1usize),
            y_end,
        );
    lemma_conditioning_decided::<T, W, A, S, X, Y, F, G>(
        rgba,
        w,
        h,
        x_hr@,
        y_hr@,
        start,
        sample,
        tap_x,
        tap_y,
        step,
        done,
    );
    assert(x_vals@ == y_vals@);
    assert forall|i: int| 0 <= i < x_image.len() implies x_image[i] == y_image[i] by {
        let (a, b) = (x_image[i], y_image[i]);
    }
    assert(x_image =~= y_image);
}

/// Each pixel is packed from the samples of its own place in the three planes, red,
/// green and blue in that order, and is opaque.
pub proof fn law_planes_are_packed_in_place<T, Q: Fn(T) -> u8>(
    vals: Seq<T>,
    plane: nat,
    rgba: Seq<u8>,
    quantize: Q,
    p: int,
    c: int,
)
    requires
        packed(vals, plane as int, rgba, quantize),
        0 <= p < plane,
        0 <= c < 3,
    ensures
        rgba.len() == 4 * plane,
        call_ensures(quantize, (vals[c * plane + p],), rgba[4 * p + c]),
        rgba[4 * p + 3] == 255,
{
    let (i, a) = (4 * p + c, 4 * p + 3);
    assert(i / 4 == p && i % 4 == c && a / 4 == p && a % 4 == 3);
    let (x, y) = (rgba[i], rgba[a]);
}

/// A run in one piece hands the model the picture enlarged four times, with the height
/// and the width that it then has, and packs what the model gives back. The start is told
/// before, the end after it, and the progress state goes from one to the next.
pub proof fn law_whole_run_goes_through_the_model<
    T,
    E,
    H,
    W: Copy,
    A,
    S: Fn(u8) -> T,
    X: Fn(usize) -> (isize, [W; 4]),
    Y: Fn(usize) -> (isize, [W; 4]),
    F: Fn(A, W, T) -> A,
    G: Fn(A) -> T,
    R: Fn(Vec<T>, usize, usize, H) -> (Result<Vec<T>, E>, H),
    Q: Fn(T) -> u8,
    P: Fn(H, usize, usize) -> H,
>(
    image: Seq<u8>,
    end: H,
    rgba: Seq<u8>,
    width: usize,
    height: usize,
    bar: H,
    start: A,
    sample: S,
    tap_x: X,
    tap_y: Y,
    step: F,
    done: G,
    run: R,
    quantize: Q,
    on_progress: P,
)
    requires
        4 * width <= usize::MAX,
        4 * height <= usize::MAX,
        whole_result::<T, E, H, W, A, S, X, Y, F, G, R, Q, P>(
            image,
            end,
            rgba,
            width as int,
            height as int,
            bar,
            start,
            sample,
            tap_x,
            tap_y,
            step,
            done,
            run,
            quantize,
            on_progress,
        ),
    ensures
        image.len() == 4 * ((4 * width) * (4 * height)),
        exists|hr: Vec<T>, told: H, vals: Vec<T>, woken: H|
            {
                &&& hr@.len() == 3 * ((4 * height) * (4 * width))
                &&& call_ensures(on_progress, (bar, 0usize, 1usize), told)
                &&& #[trigger] call_ensures(
                    run,
                    (hr, (4 * height) as usize, (4 * width) as usize, told),
                    (Ok::<Vec<T>, E>(vals), woken),
                )
                &&& call_ensures(on_progress, (woken, 1usize, 1usize), end)
                &&& packed(vals@, (4 * height) * (4 * width), image, quantize)
            },
{
    let (w, h) = (width as int, height as int);
    let (hr, told, vals, woken) = choose|
        hr: Vec<T>,
        told: H,
        vals: Vec<T>,
        woken: H,
    | #[trigger]
        model_ran::<T, E, H, W, A, S, X, Y, F, G, R, P>(
            hr,
            told,
            Ok(vals),
            woken,
            rgba,
            w,
            h,
            bar,
            start,
            sample,
            tap_x,
            tap_y,
            step,
            done,
            run,
            on_progress,
        ) && packed(vals@, 16 * (w * h), image, quantize) && call_ensures(
            on_progress,
            (woken, 1usize, 1usize),
            end,
        );
    assert((4 * w) * (4 * h) == 16 * (w * h) && (4 * h) * (4 * w) == 16 * (w * h))
        by (nonlinear_arith);
    let (planes, hplan, vplan) = choose|planes: Seq<T>, hplan: AxisPlan<W>, vplan: AxisPlan<W>|
        {
            &&& #[trigger] crate::pixels::planes_from(rgba, w * h, planes, sample)
            &&& #[trigger] plan_from(hplan, 4 * w, tap_x)
            &&& #[trigger] plan_from(vplan, 4 * h, tap_y)
            &&& crate::resize::resampled(planes, 3, h, w, hplan, vplan, hr@, start, step, done)
        };
    assert(hr@.len() == 3 * ((4 * h) * (4 * w)));
}

/// The picture is enlarged along its rows by the horizontal taps, one entry for each of
/// four columns per column, and along its columns by the vertical ones, one entry for
/// each of four rows per row.
pub proof fn law_conditioning_uses_each_axis_taps<
    T,
    W: Copy,
    A,
    S: Fn(u8) -> T,
    X: Fn(usize) -> (isize, [W; 4]),
    Y: Fn(usize) -> (isize, [W; 4]),
    F: Fn(A, W, T) -> A,
    G: Fn(A) -> T,
>(
    rgba: Seq<u8>,
    width: nat,
    height: nat,
    hr: Seq<T>,
    start: A,
    sample: S,
    tap_x: X,
    tap_y: Y,
    step: F,
    done: G,
)
    requires
        conditioning::<T, W, A, S, X, Y, F, G>(
            rgba,
            width as int,
            height as int,
            hr,
            start,
            sample,
            tap_x,
            tap_y,
            step,
            done,
        ),
    ensures
        exists|planes: Seq<T>, hplan: AxisPlan<W>, vplan: AxisPlan<W>|
            {
                &&& crate::pixels::planes_from(
                    rgba,
                    (width * height) as int,
                    planes,
                    sample,
                )
                &&& hplan.base@.len() == 4 * width
                &&& hplan.weights@.len() == 4 * width
                &&& vplan.base@.len() == 4 * height
                &&& vplan.weights@.len() == 4 * height
                &&& forall|o: int|
                    0 <= o < 4 * width ==> call_ensures(
                        tap_x,
                        (o as usize,),
                        (#[trigger] hplan.base@[o], hplan.weights@[o]),
                    )
                &&& forall|o: int|
                    0 <= o < 4 * height ==> call_ensures(
                        tap_y,
                        (o as usize,),
                        (#[trigger] vplan.base@[o], vplan.weights@[o]),
                    )
                &&& #[trigger] crate::resize::resampled(
                    planes,
                    3,
                    height as int,
                    width as int,
                    hplan,
                    vplan,
                    hr,
                    start,
                    step,
                    done,
                )
            },
{
    let (w, h) = (width as int, height as int);
    let (planes, hplan, vplan) = choose|planes: Seq<T>, hplan: AxisPlan<W>, vplan: AxisPlan<W>|
        {
            &&& #[trigger] crate::pixels::planes_from(rgba, w * h, planes, sample)
            &&& #[trigger] plan_from(hplan, 4 * w, tap_x)
            &&& #[trigger] plan_from(vplan, 4 * h, tap_y)
            &&& crate::resize::resampled(planes, 3, h, w, hplan, vplan, hr, start, step, done)
        };
    assert(crate::resize::resampled(planes, 3, h, w, hplan, vplan, hr, start, step, done));
}

} // verus!
