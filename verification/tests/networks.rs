use upscale::grid::{flow_windows, tile_grid, vae_windows, Window, WindowPlan};
use upscale::latent::{blend_windows, flow_sample};
use upscale::scheduler::{denoise, DdimScheduler};
use upscale::unet::{x4_unet, Part, UnetOp};
use upscale::vae::{d4_config, light_config, sd21_config, VaeConfig, VaePlan};

#[test]
fn twenty_steps_are_fifty_apart() {
    let mut scheduler = DdimScheduler::new();
    scheduler.set_timesteps(20);
    let want: Vec<i64> = (0..20).rev().map(|i| i * 50 + 1).collect();
    assert_eq!(scheduler.timesteps(), want.as_slice());
    assert_eq!(scheduler.levels(951), (951, 901));
    assert_eq!(scheduler.levels(1), (1, 0));
}

#[test]
fn a_fresh_schedule_visits_every_timestep() {
    for scheduler in [DdimScheduler::new(), DdimScheduler::default()] {
        let t = scheduler.timesteps();
        assert_eq!(t.len(), 1000);
        assert_eq!((t[0], t[999]), (1000, 1));
    }
}

#[test]
fn steps_that_do_not_divide_the_table() {
    let mut scheduler = DdimScheduler::new();
    scheduler.set_timesteps(3);
    assert_eq!(scheduler.timesteps(), [667, 334, 1]);
    assert_eq!(scheduler.levels(667), (667, 334));
    scheduler.set_timesteps(999);
    assert_eq!(scheduler.timesteps()[0], 999);
    scheduler.set_timesteps(1001);
    assert_eq!(scheduler.timesteps(), [1; 1001]);
    scheduler.set_timesteps(0);
    assert!(scheduler.timesteps().is_empty());
    assert_eq!(scheduler.levels(500), (500, 0));
}

#[test]
fn each_step_lands_where_the_next_one_starts() {
    for n in [1, 2, 7, 20, 333, 999] {
        let mut scheduler = DdimScheduler::new();
        scheduler.set_timesteps(n);
        let t = scheduler.timesteps().to_vec();
        for (k, &at) in t.iter().enumerate() {
            assert!((1..1000).contains(&at));
            let (_, next) = scheduler.levels(at);
            let want = if k + 1 < n { t[k + 1] as usize } else { 0 };
            assert_eq!(next, want);
        }
    }
}

#[test]
fn denoising_threads_the_latent_through_the_schedule() {
    let step = |mut seen: Vec<(i64, usize, usize)>, t: i64, at: usize, next: usize| {
        seen.push((t, at, next));
        Ok::<_, String>(seen)
    };
    assert_eq!(
        denoise(3, Vec::new(), &step),
        Ok(vec![(667, 667, 334), (334, 334, 1), (1, 1, 0)])
    );
}

#[test]
fn denoising_stops_at_the_first_failure() {
    let step = |n: u32, t: i64, _: usize, _: usize| if t < 500 { Err(t) } else { Ok(n + 1) };
    assert_eq!(denoise(4, 0, &step), Err(251));
}

#[test]
fn the_network_is_a_program() {
    let plan = x4_unet();
    let ops = plan.program();
    assert_eq!(ops[0], UnetOp::ConvIn { from: 7, to: 256 });
    assert_eq!(ops[1], UnetOp::SaveSkip);
    assert_eq!(ops.last(), Some(&UnetOp::ConvOut { from: 256, to: 4 }));
    let count = |f: &dyn Fn(&UnetOp) -> bool| ops.iter().filter(|op| f(op)).count();
    assert_eq!(count(&|op| matches!(op, UnetOp::Resnet { .. })), 22);
    assert_eq!(count(&|op| matches!(op, UnetOp::Attend { .. })), 16);
    assert_eq!(count(&|op| matches!(op, UnetOp::SaveSkip)), 12);
    assert_eq!(count(&|op| matches!(op, UnetOp::JoinSkip)), 12);
    assert_eq!(count(&|op| matches!(op, UnetOp::Downsample { .. })), 3);
    assert_eq!(count(&|op| matches!(op, UnetOp::Upsample { .. })), 3);
    assert_eq!(
        count(&|op| matches!(op, UnetOp::Attend { only_cross: true, .. })),
        2 * 2 + 3 * 2
    );
}

/// Follows channels and one side through a program.
fn follow(ops: &[UnetOp], side: usize) -> Option<(usize, usize)> {
    let (mut ch, mut n) = (7, side);
    let mut skips = Vec::new();
    for op in ops {
        match *op {
            UnetOp::ConvIn { from, to }
            | UnetOp::ConvOut { from, to }
            | UnetOp::Resnet { from, to, .. } => {
                if ch != from {
                    return None;
                }
                ch = to;
            }
            UnetOp::Attend { channels, .. } => {
                if ch != channels {
                    return None;
                }
            }
            UnetOp::Downsample { .. } => n = n.div_ceil(2),
            UnetOp::Upsample { .. } => n *= 2,
            UnetOp::SaveSkip => skips.push((ch, n)),
            UnetOp::JoinSkip => {
                let (c, m) = skips.pop()?;
                if m != n {
                    return None;
                }
                ch += c;
            }
        }
    }
    if skips.is_empty() {
        Some((ch, n))
    } else {
        None
    }
}

#[test]
fn skips_meet_on_multiples_of_eight() {
    let ops = x4_unet().program();
    for side in 1..=40 {
        let want = if side % 8 == 0 { Some((4, side)) } else { None };
        assert_eq!(follow(&ops, side), want);
    }
}

#[test]
fn layers_are_named_as_in_the_checkpoint() {
    let down = Part::Down(1);
    assert_eq!(UnetOp::ConvIn { from: 7, to: 256 }.path(), "conv_in");
    assert_eq!(UnetOp::ConvOut { from: 256, to: 4 }.path(), "conv_out");
    assert_eq!(
        UnetOp::Resnet { at: down, index: 0, from: 1, to: 2 }.path(),
        "down_blocks.1.resnets.0"
    );
    assert_eq!(
        UnetOp::Attend { at: Part::Up(2), index: 10, channels: 1, only_cross: true }.path(),
        "up_blocks.2.attentions.10"
    );
    assert_eq!(
        UnetOp::Attend { at: Part::Mid, index: 0, channels: 1, only_cross: false }.path(),
        "mid_block.attentions.0"
    );
    assert_eq!(
        UnetOp::Downsample { stage: 0, channels: 1 }.path(),
        "down_blocks.0.downsamplers.0"
    );
    assert_eq!(UnetOp::Upsample { stage: 3, channels: 1 }.path(), "up_blocks.3.upsamplers.0");
    assert_eq!(UnetOp::SaveSkip.path(), "");
    assert_eq!(UnetOp::JoinSkip.path(), "");
}

fn shape(plan: &VaePlan) -> Vec<(Vec<(usize, usize)>, bool)> {
    plan.blocks.iter().map(|b| (b.resnets.clone(), b.resample)).collect()
}

#[test]
fn a_decoder_walks_the_widths_backwards() {
    let config = VaeConfig::default();
    assert_eq!(
        (config.latent_channels, config.out_channels, config.layers_per_block),
        (4, 3, 2)
    );
    let plan = config.decoder();
    assert_eq!((plan.input, plan.first, plan.last, plan.output), (4, 512, 128, 3));
    assert_eq!(
        shape(&plan),
        vec![
            (vec![(512, 512); 3], true),
            (vec![(512, 256), (256, 256), (256, 256)], true),
            (vec![(256, 128), (128, 128), (128, 128)], false),
        ]
    );
}

#[test]
fn an_encoder_walks_the_widths_forwards() {
    let plan = sd21_config().encoder();
    assert_eq!((plan.input, plan.first, plan.last, plan.output), (3, 128, 512, 8));
    assert_eq!(
        shape(&plan),
        vec![
            (vec![(128, 128); 2], true),
            (vec![(128, 256), (256, 256)], true),
            (vec![(256, 512), (512, 512)], true),
            (vec![(512, 512); 2], false),
        ]
    );
}

#[test]
fn encoders_undo_what_decoders_do_to_the_size() {
    for (config, factor) in
        [(VaeConfig::default(), 4), (sd21_config(), 8), (light_config(), 8), (d4_config(), 4)]
    {
        let grown = config.decoder().blocks.iter().filter(|b| b.resample).count();
        let shrunk = config.encoder().blocks.iter().filter(|b| b.resample).count();
        assert_eq!(1 << grown, factor);
        assert_eq!(grown, shrunk);
    }
}

#[test]
fn windows_are_blended_in_order() {
    let plan = vae_windows(64, 130);
    let step = |mut seen: Vec<(usize, usize)>, w: Window| {
        seen.push((w.row, w.col));
        Ok::<_, String>(seen)
    };
    assert_eq!(blend_windows(&plan, Vec::new(), &step), Ok(vec![(0, 0), (0, 56), (0, 66)]));
    let broken = |n: u32, w: Window| if w.col == 56 { Err(n) } else { Ok(n + 1) };
    assert_eq!(blend_windows(&plan, 5, &broken), Err(6));
}

/// What was told.
type Log = Vec<(usize, usize)>;

fn tell(mut log: Log, done: usize, total: usize) -> Log {
    log.push((done, total));
    log
}

/// A latent of six by two cells in windows of two by two, over a picture of 48 by 16.
fn small_plan() -> WindowPlan {
    flow_windows(6, 2, 1, 0)
}

#[test]
fn flow_sampling_visits_every_window_in_every_step() {
    let hr: Vec<usize> = (0..3 * 48 * 16).collect();
    let (result, log) = flow_sample(
        &hr,
        48,
        16,
        &small_plan(),
        2,
        "z".to_string(),
        Log::new(),
        &|crop: Vec<usize>, h: usize, w: usize| {
            assert_eq!((crop.len(), h, w), (3 * 256, 16, 16));
            Ok::<usize, String>(crop[0])
        },
        &|| Ok(String::new()),
        &|acc: String, z: &String, feat: &usize, win: Window, s: usize, n: usize| {
            assert_eq!(*feat, win.row * 8 * 16);
            Ok(format!("{acc}[{}:{}@{s}/{n}]", z.len(), win.row))
        },
        &|z: String, acc: String, log: Log, s: usize, n: usize| {
            (Ok(format!("{z}|{s}/{n}{acc}")), tell(log, 90 + s, n))
        },
        &tell,
    );
    let first = "z|0/2[1:0@0/2][1:2@0/2][1:4@0/2]";
    let want = format!("{first}|1/2[{0}:0@1/2][{0}:2@1/2][{0}:4@1/2]", first.len());
    assert_eq!(result, Ok(want));
    assert_eq!(log, vec![(0, 2), (90, 2), (1, 2), (91, 2), (2, 2)]);
}

#[test]
fn flow_sampling_takes_at_least_one_step() {
    let (result, log) = flow_sample(
        &[0u8; 3 * 48 * 16],
        48,
        16,
        &small_plan(),
        0,
        0usize,
        Log::new(),
        &|_: Vec<u8>, _: usize, _: usize| Ok::<(), String>(()),
        &|| Ok(0usize),
        &|acc: usize, _: &usize, _: &(), _: Window, _: usize, _: usize| Ok(acc + 1),
        &|z: usize, acc: usize, log: Log, _: usize, _: usize| (Ok(10 * z + acc), log),
        &tell,
    );
    assert_eq!(result, Ok(3));
    assert_eq!(log, vec![(0, 1), (1, 1)]);
}

#[test]
fn flow_sampling_stops_at_the_first_failure() {
    let run = |bad: &str| {
        flow_sample(
            &[0u8; 3 * 48 * 16],
            48,
            16,
            &small_plan(),
            3,
            0usize,
            Log::new(),
            &|_: Vec<u8>, _: usize, _: usize| {
                if bad == "features" {
                    Err("features".to_string())
                } else {
                    Ok(())
                }
            },
            &|| if bad == "clear" { Err("clear".to_string()) } else { Ok(0usize) },
            &|acc: usize, _: &usize, _: &(), w: Window, s: usize, _: usize| {
                if bad == "velocity" {
                    Err(format!("velocity {} {s}", w.row))
                } else {
                    Ok(acc)
                }
            },
            &|z: usize, _: usize, log: Log, s: usize, _: usize| {
                if bad == "advance" && s == 1 {
                    (Err(format!("advance {z}")), tell(log, 99, 9))
                } else {
                    (Ok(z + 1), log)
                }
            },
            &tell,
        )
    };
    assert_eq!(run("features"), (Err("features".to_string()), vec![]));
    assert_eq!(run("clear"), (Err("clear".to_string()), vec![(0, 3)]));
    assert_eq!(run("velocity"), (Err("velocity 0 0".to_string()), vec![(0, 3)]));
    assert_eq!(run("advance"), (Err("advance 1".to_string()), vec![(0, 3), (1, 3), (99, 9)]));
    assert_eq!(run("nothing"), (Ok(3), vec![(0, 3), (1, 3), (2, 3), (3, 3)]));
}

#[test]
fn grid_positions_cover_the_axis() {
    for length in 1..60 {
        for tile in 1..=length {
            for overlap in [0, 1, 3, 100] {
                let at = tile_grid(length, tile, overlap);
                assert_eq!(at[0], 0);
                assert_eq!(*at.last().unwrap(), length - tile);
                for pair in at.windows(2) {
                    assert!(pair[0] < pair[1] && pair[1] <= pair[0] + tile);
                }
            }
        }
    }
}
