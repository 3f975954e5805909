use upscale::layout::{crop_chw, extend_chw, map_planes, outer_product, rope_table, sinusoid, HEAD_DIM};
use upscale::resize::{bicubic_chw, clamp_idx, AxisPlan};

#[test]
fn extending_repeats_the_edges() {
    let src: Vec<u8> = (1..=12).collect();
    let out = extend_chw(&src, 2, 2, 3, 3, 5);
    assert_eq!(out[..15], [1, 2, 3, 3, 3, 4, 5, 6, 6, 6, 4, 5, 6, 6, 6]);
    assert_eq!(out[15..20], [7, 8, 9, 9, 9]);
    assert_eq!(crop_chw(&out, 2, 3, 5, 0, 2, 0, 3), src);
    assert_eq!(extend_chw(&src, 2, 2, 3, 2, 3), src);
}

#[test]
fn taps_are_clamped_to_the_edges() {
    assert_eq!(clamp_idx(-2, 5), 0);
    assert_eq!(clamp_idx(3, 5), 3);
    assert_eq!(clamp_idx(7, 5), 4);
    assert_eq!(clamp_idx(isize::MIN, 1), 0);
}

/// The cubic convolution kernel with `a = -0.75`.
fn cubic(x: f64) -> f64 {
    let a = -0.75;
    let x = x.abs();
    if x <= 1.0 {
        ((a + 2.0) * x - (a + 3.0)) * x * x + 1.0
    } else if x < 2.0 {
        (((x - 5.0) * x + 8.0) * x - 4.0) * a
    } else {
        0.0
    }
}

fn plan(in_len: usize, out_len: usize) -> AxisPlan<f64> {
    let scale = in_len as f64 / out_len as f64;
    AxisPlan::new(out_len, &|o: usize| {
        let src = (o as f64 + 0.5) * scale - 0.5;
        let frac = src - src.floor();
        (
            src.floor() as isize - 1,
            [cubic(frac + 1.0), cubic(frac), cubic(frac - 1.0), cubic(frac - 2.0)],
        )
    })
}

fn resize(src: &[f32], c: usize, ih: usize, iw: usize, oh: usize, ow: usize) -> Vec<f32> {
    bicubic_chw(
        src,
        c,
        ih,
        iw,
        &plan(iw, ow),
        &plan(ih, oh),
        0.0f64,
        &|a: f64, w: f64, t: f32| a + w * f64::from(t),
        &|a: f64| a as f32,
    )
}

#[test]
fn resampling_to_the_same_size_changes_nothing() {
    let src: Vec<f32> = (0..24).map(|i| i as f32).collect();
    assert_eq!(resize(&src, 2, 3, 4, 3, 4), src);
}

#[test]
fn a_constant_plane_stays_constant() {
    for v in resize(&[0.5; 12], 1, 3, 4, 12, 16) {
        assert!((v - 0.5).abs() < 1e-6);
    }
}

#[test]
fn planes_do_not_mix() {
    let mut src = vec![0.0; 8];
    src.extend([1.0; 8]);
    let out = resize(&src, 2, 2, 4, 4, 8);
    assert_eq!(out.len(), 64);
    assert!(out[..32].iter().all(|&v| v == 0.0));
    assert!(out[32..].iter().all(|&v| (v - 1.0).abs() < 1e-6));
}

#[test]
fn doubling_a_ramp() {
    let out = resize(&[0.0, 1.0], 1, 1, 2, 1, 4);
    let want = [-0.105_468_75, 0.226_562_5, 0.773_437_5, 1.105_468_75];
    for (got, want) in out.iter().zip(want) {
        assert!((got - want).abs() < 1e-6, "{got} {want}");
    }
}

#[test]
fn rows_come_before_columns() {
    let base = |o: usize| (o as isize, ["w0", "w1", "w2", "w3"]);
    let hplan: AxisPlan<&str> = AxisPlan::new(1, &base);
    let vplan: AxisPlan<&str> = AxisPlan::new(1, &base);
    assert_eq!(hplan.base, vec![0]);
    let out = bicubic_chw(
        &[1i64, 2, 3, 4],
        1,
        2,
        2,
        &hplan,
        &vplan,
        0i64,
        &|a: i64, _: &str, t: i64| a * 10 + t,
        &|a: i64| a,
    );
    // Row taps 0, 1, 1, 1 give 1222 and 3444; then the columns are combined.
    assert_eq!(out, vec![((1222 * 10 + 3444) * 10 + 3444) * 10 + 3444]);
}

#[test]
fn nothing_is_resampled_to_nothing() {
    assert!(resize(&[], 3, 5, 0, 20, 0).is_empty());
}

#[test]
fn cropping_keeps_rows_columns_and_planes() {
    let src: Vec<usize> = (0..2 * 3 * 4).collect();
    assert_eq!(crop_chw(&src, 2, 3, 4, 1, 3, 2, 4), vec![6, 7, 10, 11, 18, 19, 22, 23]);
    assert_eq!(crop_chw(&src, 2, 3, 4, 0, 3, 0, 4), src);
    assert!(crop_chw(&src, 2, 3, 4, 1, 1, 0, 4).is_empty());
}

#[test]
fn masks_are_outer_products() {
    assert_eq!(
        outer_product(&[2, 3], &[5, 7, 11], &|a: i32, b: i32| a * b),
        vec![10, 14, 22, 15, 21, 33]
    );
}

#[test]
fn position_tables_pair_rows_and_columns() {
    let table = rope_table(2, &|pos: usize, freq: usize| 100 * pos + freq);
    assert_eq!(table.len(), 4 * HEAD_DIM);
    let patch = &table[2 * HEAD_DIM..3 * HEAD_DIM];
    assert_eq!(patch[..4], [100, 100, 101, 101]);
    assert_eq!(patch[31], 115);
    assert_eq!(patch[32..36], [0, 0, 1, 1]);
    let patch = &table[HEAD_DIM..2 * HEAD_DIM];
    assert_eq!(patch[0], 0);
    assert_eq!(patch[32], 100);
}

#[test]
fn embeddings_hold_cosines_then_sines() {
    let cos = |i: usize| 10 + i as i32;
    let sin = |i: usize| 20 + i as i32;
    assert_eq!(sinusoid(4, 0, &cos, &sin), vec![10, 11, 20, 21]);
    assert_eq!(sinusoid(5, -1, &cos, &sin), vec![10, 11, 20, 21, -1]);
}

#[test]
fn planes_are_mapped_by_channel() {
    assert_eq!(
        map_planes(&[1, 2, 3, 4, 5, 6], 2, &|c: usize, v: usize| 100 * c + v),
        vec![1, 2, 103, 104, 205, 206]
    );
}
