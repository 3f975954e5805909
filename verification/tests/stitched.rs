use std::cell::RefCell;

use upscale::model::UpscaleOptions;
use upscale::noise::{tile_seed, LOW_RES_TWIST};
use upscale::pixels::{accumulate, nearest_x4, normalize_to_rgba, pack_rgba, rgba_to_planes};
use upscale::stitch::{is_rgba_len, length_message, upscale_tiled, Stitcher, TileBatch, TileError};
use upscale::whole::upscale_whole;

fn options(tile: usize, overlap: usize, batch: usize) -> UpscaleOptions {
    UpscaleOptions { steps: 3, noise_level: 20, tile, overlap, batch }
}

/// Repeats every pixel of every tile of a batch four times along both axes.
fn enlarge(b: &TileBatch<f32>) -> Vec<f32> {
    let (th, tw) = (b.th, b.tw);
    let mut out = Vec::new();
    for s in 0..b.count {
        for c in 0..3 {
            for y in 0..4 * th {
                for x in 0..4 * tw {
                    out.push(b.pixels[((s * 3 + c) * th + y / 4) * tw + x / 4]);
                }
            }
        }
    }
    out
}

fn picture(width: usize, height: usize) -> Vec<u8> {
    (0..width * height * 4).map(|i| (i * 7 % 251) as u8).collect()
}

fn sample(b: u8) -> f32 {
    f32::from(b) / 255.0
}

fn quantize(v: f32, n: usize) -> u8 {
    ((v / n as f32).clamp(0.0, 1.0) * 255.0 + 0.5) as u8
}

/// What was told, and when the model ran.
type Log = Vec<(usize, usize)>;

/// Stands for a run of the model in a log.
const MODEL: (usize, usize) = (0, 0);

fn tell(mut log: Log, done: usize, total: usize) -> Log {
    log.push((done, total));
    log
}

fn run_logged(
    rgba: &[u8],
    w: usize,
    h: usize,
    o: &UpscaleOptions,
) -> ((Vec<u8>, usize, usize), Log) {
    let denoise =
        |b: TileBatch<f32>, log: Log| -> (Result<Vec<f32>, String>, Log) { (Ok(enlarge(&b)), log) };
    let (result, log) = upscale_tiled(
        rgba,
        w,
        h,
        o,
        9,
        0.0,
        Log::new(),
        &sample,
        &denoise,
        &|a: f32, b: f32| a + b,
        &quantize,
        &tell,
    );
    (result.unwrap(), log)
}

fn run(rgba: &[u8], w: usize, h: usize, o: &UpscaleOptions) -> (Vec<u8>, usize, usize) {
    run_logged(rgba, w, h, o).0
}

#[test]
fn tiles_blend_back_into_one_picture() {
    let (w, h) = (21, 13);
    let mut rgba = picture(w, h);
    for px in 0..w * h {
        rgba[px * 4 + 3] = 255;
    }
    let (out, ow, oh) = run(&rgba, w, h, &options(8, 3, 4));
    assert_eq!((ow, oh), (84, 52));
    let (want, _, _) = nearest_x4(&rgba, w, h, (), &|(): (), _: usize, _: usize| {}).0;
    assert_eq!(out, want);
}

#[test]
fn the_batch_size_does_not_change_the_picture() {
    let rgba = picture(20, 9);
    let one = run_logged(&rgba, 20, 9, &options(8, 4, 1));
    for batch in [0, 2, 3, 100] {
        assert_eq!(run_logged(&rgba, 20, 9, &options(8, 4, batch)), one);
    }
}

#[test]
fn batches_carry_pixels_seeds_and_settings() {
    let rgba = picture(20, 8);
    let seen = RefCell::new(Vec::new());
    let denoise = |b: TileBatch<f32>, mut log: Log| -> (Result<Vec<f32>, String>, Log) {
        let out = enlarge(&b);
        seen.borrow_mut().push(b);
        log.push(MODEL);
        (Ok(out), log)
    };
    let (result, log) = upscale_tiled(
        &rgba,
        20,
        8,
        &options(8, 0, 2),
        77,
        0.0,
        Log::new(),
        &sample,
        &denoise,
        &|a: f32, b: f32| a + b,
        &quantize,
        &tell,
    );
    result.unwrap();
    let seen = seen.into_inner();
    assert_eq!(seen.len(), 2);
    assert_eq!((seen[0].first, seen[0].count, seen[1].first, seen[1].count), (0, 2, 2, 1));
    assert_eq!((seen[0].steps, seen[0].noise_level), (3, 20));
    assert_eq!((seen[1].th, seen[1].tw), (8, 8));
    assert_eq!(seen[1].init_seeds, vec![tile_seed(77, 2, 0)]);
    assert_eq!(seen[1].noise_seeds, vec![tile_seed(77, 2, LOW_RES_TWIST)]);
    // The last tile starts at column 12; its first sample is that pixel's red.
    assert_eq!(seen[1].pixels[0], sample(rgba[12 * 4]));
    assert_eq!(seen[1].pixels[64], sample(rgba[12 * 4 + 1]));
    assert_eq!(log, vec![MODEL, (1, 3), (2, 3), MODEL, (3, 3)]);
}

#[test]
fn a_wrong_length_is_refused_before_the_model_runs() {
    let denoise =
        |_: TileBatch<f32>, _: Log| -> (Result<Vec<f32>, String>, Log) { panic!("not reached") };
    let (result, log) = upscale_tiled(
        &[0u8; 15],
        2,
        2,
        &options(8, 0, 1),
        0,
        0.0,
        vec![(7, 7)],
        &sample,
        &denoise,
        &|a: f32, b: f32| a + b,
        &quantize,
        &tell,
    );
    assert!(matches!(result, Err(TileError::Length)));
    assert_eq!(log, vec![(7, 7)]);
    assert_eq!(length_message(15, 2, 2), "rgba len 15 != 2x2x4");
    assert!(is_rgba_len(16, 2, 2));
    assert!(!is_rgba_len(0, usize::MAX, 2));
}

#[test]
fn a_model_failure_is_passed_on() {
    let denoise = |b: TileBatch<f32>, log: Log| -> (Result<Vec<f32>, String>, Log) {
        if b.first == 0 {
            (Ok(enlarge(&b)), log)
        } else {
            (Err("no memory".to_string()), tell(log, b.first, 99))
        }
    };
    let (result, log) = upscale_tiled(
        &picture(20, 8),
        20,
        8,
        &options(8, 0, 1),
        0,
        0.0,
        Log::new(),
        &sample,
        &denoise,
        &|a: f32, b: f32| a + b,
        &quantize,
        &tell,
    );
    assert!(matches!(result, Err(TileError::Model(e)) if e == "no memory"));
    assert_eq!(log, vec![(1, 3), (1, 99)]);
}

#[test]
fn an_empty_picture_needs_no_model() {
    let (out, ow, oh) = run(&[], 0, 5, &options(8, 0, 1));
    assert_eq!((out.len(), ow, oh), (0, 0, 20));
}

#[test]
fn a_stitcher_walks_its_tiles() {
    let mut run: Stitcher<i64> = Stitcher::new(12, 8, 8, 0, 0);
    assert_eq!(run.tile_size(), (8, 8));
    assert_eq!(run.tile_count(), 2);
    assert_eq!((run.corner(0), run.corner(1)), ((0, 0), (0, 4)));
    run.place(&[10; 48 * 64], &|a: i64, b: i64| a + b);
    assert_eq!(run.progress(), (1, 2));
    run.place(&[20; 48 * 64], &|a: i64, b: i64| a + b);
    assert_eq!(run.progress(), (2, 2));
    let (out, ow, oh) = run.finish(&|v: i64, n: usize| (v / n as i64) as u8);
    assert_eq!((ow, oh), (48, 32));
    assert_eq!(out[..4], [10, 10, 10, 255]);
    // Columns 4 to 7 of the source lie in both tiles.
    assert_eq!(out[16 * 4..16 * 4 + 4], [15, 15, 15, 255]);
    assert_eq!(out[47 * 4..48 * 4], [20, 20, 20, 255]);
}

#[test]
fn accumulating_adds_a_tile_at_its_place() {
    let mut out = vec![0i32; 4 * 3 * 3];
    let mut weight = vec![0usize; 12];
    let vals: Vec<i32> = (1..=12).collect();
    accumulate(&mut out, &mut weight, &vals, 2, 2, 4, 1, 1, &|a: i32, b: i32| a + b);
    accumulate(&mut out, &mut weight, &vals, 2, 2, 4, 2, 1, &|a: i32, b: i32| a + b);
    assert_eq!(weight, vec![0, 0, 0, 0, 0, 1, 2, 1, 0, 1, 2, 1]);
    assert_eq!(out[15..24], [1, 5, 9, 3, 11, 19, 2, 6, 10]);
    assert_eq!(out[..15], [0; 15]);
}

#[test]
fn normalizing_divides_by_at_least_one() {
    let rgba = normalize_to_rgba(&[8, 6, 4, 9, 9, 9], &[2, 0], 2, 1, &|v: i32, n: usize| {
        (v / n as i32) as u8
    });
    assert_eq!(rgba, vec![4, 3, 2, 255, 9, 9, 9, 255]);
}

#[test]
fn colours_make_the_round_trip() {
    let (w, h) = (16, 17);
    let rgba: Vec<u8> = (0..w * h * 4).map(|i| (i / 3 % 256) as u8).collect();
    let planes = rgba_to_planes(&rgba, w, h, &sample);
    let samples: Vec<f32> = (0..3 * w * h).map(|k| planes[k % 3 * w * h + k / 3]).collect();
    let back = normalize_to_rgba(&samples, &vec![1; w * h], w, h, &quantize);
    for (i, &b) in back.iter().enumerate() {
        assert_eq!(b, if i % 4 == 3 { 255 } else { rgba[i] });
    }
}

#[test]
fn a_stitcher_hands_out_its_tiles_in_order() {
    let planes: Vec<i64> = (0..3 * 12 * 8).collect();
    let mut run: Stitcher<i64> = Stitcher::new(12, 8, 8, 0, 0);
    let mut seen = Vec::new();
    while let Some(tile) = run.next_tile(&planes) {
        assert_eq!(tile, run.cut(&planes, seen.len()));
        seen.push((tile[0], tile[8], tile.len()));
        run.place(&[1; 48 * 64], &|a: i64, b: i64| a + b);
    }
    assert_eq!(seen, vec![(0, 12, 192), (4, 16, 192)]);
    assert_eq!(run.progress(), (2, 2));
}

#[test]
fn planes_and_packing() {
    let planes = rgba_to_planes(&[1, 2, 3, 4, 5, 6, 7, 8], 2, 1, &|b: u8| u32::from(b) * 10);
    assert_eq!(planes, vec![10, 50, 20, 60, 30, 70]);
    assert_eq!(
        pack_rgba(&planes, 2, &|v: u32| (v / 10) as u8),
        vec![1, 2, 3, 255, 5, 6, 7, 255]
    );
}

#[test]
fn repeating_pixels_fills_four_by_four_blocks() {
    let rgba = [1, 2, 3, 4, 5, 6, 7, 8];
    let ((out, ow, oh), log) = nearest_x4(&rgba, 2, 1, Log::new(), &tell);
    assert_eq!((ow, oh), (8, 4));
    for y in 0..4 {
        for x in 0..8 {
            let at = (y * 8 + x) * 4;
            let want = if x < 4 { [1, 2, 3, 4] } else { [5, 6, 7, 8] };
            assert_eq!(out[at..at + 4], want);
        }
    }
    assert_eq!(log, vec![(1, 4), (2, 4), (3, 4), (4, 4)]);
}

fn nearest_tap(o: usize) -> (isize, [f64; 4]) {
    ((o / 4) as isize - 1, [0.0, 1.0, 0.0, 0.0])
}

#[test]
fn a_whole_run_resamples_refines_and_packs() {
    let rgba = picture(3, 2);
    let refine = |hr: Vec<f32>, h: usize, w: usize, log: Log| -> (Result<Vec<f32>, String>, Log) {
        assert_eq!((h, w, hr.len()), (8, 12, 3 * 96));
        (Ok(hr.iter().map(|v| 1.0 - v).collect()), tell(log, 5, 5))
    };
    let (result, log) = upscale_whole(
        &rgba,
        3,
        2,
        Log::new(),
        0.0f64,
        &sample,
        &nearest_tap,
        &nearest_tap,
        &|a: f64, w: f64, t: f32| a + w * f64::from(t),
        &|a: f64| a as f32,
        &refine,
        &|v: f32| (v.clamp(0.0, 1.0) * 255.0 + 0.5) as u8,
        &tell,
    );
    let (out, ow, oh) = result.unwrap();
    assert_eq!((ow, oh), (12, 8));
    let at = (5 * 12 + 9) * 4;
    let from = (3 + 2) * 4;
    assert_eq!(out[at], 255 - rgba[from]);
    assert_eq!(out[at + 2], 255 - rgba[from + 2]);
    assert_eq!(out[at + 3], 255);
    assert_eq!(log, vec![(0, 1), (5, 5), (1, 1)]);
}

#[test]
fn a_whole_run_fails_as_its_model_fails() {
    let call = |rgba: &[u8]| {
        upscale_whole(
            rgba,
            1,
            1,
            Log::new(),
            0.0f64,
            &sample,
            &nearest_tap,
            &nearest_tap,
            &|a: f64, w: f64, t: f32| a + w * f64::from(t),
            &|a: f64| a as f32,
            &|_: Vec<f32>, _: usize, _: usize, log: Log| -> (Result<Vec<f32>, i32>, Log) {
                (Err(5), log)
            },
            &|_: f32| 0,
            &tell,
        )
    };
    let (result, log) = call(&[0; 4]);
    assert!(matches!(result, Err(TileError::Model(5))));
    assert_eq!(log, vec![(0, 1)]);
    let (result, log) = call(&[0; 5]);
    assert!(matches!(result, Err(TileError::Length)));
    assert!(log.is_empty());
}

#[test]
fn a_whole_run_is_decided_by_the_picture() {
    let call = |bar: Log| {
        upscale_whole(
            &picture(5, 3),
            5,
            3,
            bar,
            0.0f64,
            &sample,
            &nearest_tap,
            &nearest_tap,
            &|a: f64, w: f64, t: f32| a + w * f64::from(t),
            &|a: f64| a as f32,
            &|hr: Vec<f32>, _: usize, _: usize, log: Log| -> (Result<Vec<f32>, i32>, Log) {
                (Ok(hr), log)
            },
            &|v: f32| (v.clamp(0.0, 1.0) * 255.0 + 0.5) as u8,
            &tell,
        )
        .0
        .unwrap()
    };
    assert_eq!(call(Log::new()), call(vec![(3, 4)]));
}
