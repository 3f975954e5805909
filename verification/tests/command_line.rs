use upscale::cli::{
    dir_size, resolve_model, resolve_weights_root, scale_desc, shrink_at, DtypeChoice, Entry,
    ModelChoice, PresetChoice, Request, ShrinkAt, UsageError, WeightsSource,
};
use upscale::model::{ModelId, Preset};

fn request() -> Request {
    Request {
        has_input: true,
        model: None,
        preset: None,
        dtype: None,
        steps: None,
        batch: None,
        noise_level: 20,
        tile: 128,
        overlap: 16,
        scale_in_range: true,
        scale: "4".to_string(),
    }
}

#[test]
fn a_plain_request_takes_the_defaults_of_the_model() {
    let plan = request().plan().unwrap();
    assert_eq!(plan.id, ModelId::Sdx4);
    assert_eq!((plan.options.steps, plan.options.batch), (20, 1));
    assert_eq!((plan.options.noise_level, plan.options.tile, plan.options.overlap), (20, 128, 16));
    assert_eq!(plan.dtype, DtypeChoice::Bf16);
    let plan = Request { model: Some(ModelChoice::Vosr), ..request() }.plan().unwrap();
    assert_eq!((plan.id, plan.options.steps, plan.options.batch), (ModelId::Vosr, 4, 8));
}

#[test]
fn flags_win_over_defaults() {
    let plan = Request {
        model: Some(ModelChoice::Tvt),
        dtype: Some(DtypeChoice::F32),
        steps: Some(999),
        batch: Some(3),
        noise_level: 350,
        tile: 64,
        overlap: 8,
        ..request()
    }
    .plan()
    .unwrap();
    assert_eq!((plan.id, plan.options.steps, plan.options.batch), (ModelId::Tvt, 999, 3));
    assert_eq!((plan.options.noise_level, plan.options.tile, plan.options.overlap), (350, 64, 8));
    assert_eq!(plan.dtype, DtypeChoice::F32);
}

fn refusal(request: Request) -> String {
    match request.plan() {
        Ok(_) => panic!("accepted"),
        Err(e) => e.message(),
    }
}

#[test]
fn bad_requests_are_refused() {
    let both = Request {
        model: Some(ModelChoice::Sdx4),
        preset: Some(PresetChoice::Image),
        ..request()
    };
    assert_eq!(refusal(Request { has_input: false, ..request() }), "--input <INPUT> is required");
    assert_eq!(
        refusal(both),
        "--model and --preset are mutually exclusive; pass at most one"
    );
    assert_eq!(
        refusal(Request { steps: Some(0), ..request() }),
        "--steps must be in 1..=999 (got 0)"
    );
    assert_eq!(
        refusal(Request { steps: Some(1000), ..request() }),
        "--steps must be in 1..=999 (got 1000)"
    );
    assert_eq!(refusal(Request { batch: Some(0), ..request() }), "--batch must be at least 1");
    assert_eq!(
        refusal(Request { noise_level: -1, ..request() }),
        "--noise-level must be in 0..=350 (got -1)"
    );
    assert_eq!(
        refusal(Request { noise_level: 351, ..request() }),
        "--noise-level must be in 0..=350 (got 351)"
    );
    assert_eq!(
        refusal(Request { scale_in_range: false, scale: "4.5".to_string(), ..request() }),
        "--scale must be in 1 < scale ≤ 4 (got 4.5)"
    );
    assert_eq!(
        UsageError::Unpublished.message(),
        "--model tvt needs locally-prepared weights; pass --models-dir <dir> containing fused_unet.safetensors and vae.safetensors (auto-download not yet supported for tvt)"
    );
}

#[test]
fn the_first_fault_is_reported() {
    let text = refusal(Request {
        has_input: false,
        steps: Some(0),
        batch: Some(0),
        noise_level: 999,
        ..request()
    });
    assert_eq!(text, "--input <INPUT> is required");
    let text = refusal(Request { steps: Some(0), batch: Some(0), ..request() });
    assert_eq!(text, "--steps must be in 1..=999 (got 0)");
}

#[test]
fn a_model_or_a_preset_selects_the_model() {
    assert!(matches!(resolve_model(None, None), Ok(ModelId::Sdx4)));
    assert!(matches!(resolve_model(Some(ModelChoice::Tvt), None), Ok(ModelId::Tvt)));
    assert!(matches!(resolve_model(None, Some(PresetChoice::Image)), Ok(ModelId::Sdx4)));
    assert!(matches!(
        resolve_model(Some(ModelChoice::Vosr), Some(PresetChoice::Document)),
        Err(UsageError::Exclusive)
    ));
    assert_eq!(ModelChoice::Vosr.model_id(), ModelId::Vosr);
    assert_eq!(PresetChoice::Document.preset(), Preset::Document);
    assert_eq!(PresetChoice::Image.preset(), Preset::Image);
    assert_eq!((DtypeChoice::F32.as_str(), DtypeChoice::Bf16.as_str()), ("f32", "bf16"));
}

#[test]
fn weights_come_from_a_given_directory_or_the_cache() {
    match resolve_weights_root(ModelId::Sdx4, Some(b"/w".to_vec())) {
        Ok(WeightsSource::Given(dir)) => assert_eq!(dir, b"/w".to_vec()),
        _ => panic!("not the given directory"),
    }
    match resolve_weights_root(ModelId::Vosr, None) {
        Ok(WeightsSource::Cache(name, files)) => {
            assert_eq!(name, "vosr");
            assert_eq!(files.len(), 5);
        }
        _ => panic!("not the cache"),
    }
}

#[test]
fn a_smaller_scale_shrinks_on_one_side() {
    assert_eq!(shrink_at(true, false), ShrinkAt::Nowhere);
    assert_eq!(shrink_at(false, false), ShrinkAt::Nowhere);
    assert_eq!(shrink_at(true, true), ShrinkAt::Input);
    assert_eq!(shrink_at(false, true), ShrinkAt::Output);
}

#[test]
fn sizes_are_described() {
    assert_eq!(scale_desc(100, 50, None), "100x50 → 400x200");
    assert_eq!(
        scale_desc(100, 50, Some((200, 100))),
        "100x50 → 400x200 (×4), supersampled → 200x100"
    );
}

#[test]
fn progress_lines() {
    let plan = Request { model: Some(ModelChoice::Vosr), ..request() }.plan().unwrap();
    assert_eq!(plan.loading_line(), "loading Vosr model (bf16)…");
    assert_eq!(
        plan.upscaling_line("2x3 → 8x12"),
        "upscaling 2x3 → 8x12 (4 steps, noise 20, bf16)…"
    );
    let plan = Request { dtype: Some(DtypeChoice::F32), ..request() }.plan().unwrap();
    assert_eq!(plan.loading_line(), "loading Sdx4 model (f32)…");
    let plan = Request { model: Some(ModelChoice::Tvt), ..request() }.plan().unwrap();
    assert_eq!(plan.loading_line(), "loading Tvt model (bf16)…");
}

#[test]
fn directory_sizes_add_up() {
    assert_eq!(dir_size(&[]), 0);
    assert_eq!(dir_size(&[Entry::File(3), Entry::Unreadable, Entry::Dir(40)]), 43);
}

#[test]
fn a_model_that_was_not_built_in() {
    assert_eq!(
        ModelId::Tvt.unavailable(),
        "built without the tvt model (rebuild with --features model-tvt)"
    );
    assert_eq!(
        ModelId::Sdx4.unavailable(),
        "built without the sdx4 model (rebuild with --features model-sdx4)"
    );
}
