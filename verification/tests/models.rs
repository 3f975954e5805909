use upscale::manifest::weight_paths;
use upscale::model::{ModelId, Preset, UpscaleOptions};

#[test]
fn vosr_defaults_to_its_converged_step_count_and_batched_tiles() {
    assert_eq!(ModelId::Vosr.default_steps(), 4);
    assert_eq!(ModelId::Vosr.default_batch(), 8);
}

#[test]
fn sdx4_retains_its_existing_defaults() {
    assert_eq!(ModelId::Sdx4.default_steps(), 20);
    assert_eq!(ModelId::Sdx4.default_batch(), 1);
}

#[test]
fn tvt_runs_one_step_on_one_tile() {
    assert_eq!(ModelId::Tvt.default_steps(), 1);
    assert_eq!(ModelId::Tvt.default_batch(), 1);
}

#[test]
fn both_presets_select_the_x4_upscaler() {
    assert_eq!(Preset::Document.model(), ModelId::Sdx4);
    assert_eq!(Preset::Image.model(), ModelId::Sdx4);
}

#[test]
fn default_options() {
    let o = UpscaleOptions::default();
    assert_eq!(
        (o.steps, o.noise_level, o.tile, o.overlap, o.batch),
        (20, 20, 128, 16, 1)
    );
}

#[test]
fn manifests_name_every_file() {
    let sdx4 = ModelId::Sdx4.manifest().unwrap();
    assert_eq!(sdx4.len(), 2);
    assert_eq!(
        sdx4[0].url,
        "https://huggingface.co/stabilityai/stable-diffusion-x4-upscaler/resolve/main/unet/diffusion_pytorch_model.safetensors"
    );
    assert_eq!(sdx4[0].dest, "unet.safetensors");
    assert_eq!(sdx4[1].dest, "vae.safetensors");
    let vosr = ModelId::Vosr.manifest().unwrap();
    assert_eq!(vosr.len(), 5);
    assert_eq!(vosr[4].dest, "VOSR_0.5B_ms/args.json");
    let tvt = ModelId::Tvt.manifest().unwrap();
    assert_eq!(tvt.len(), 2);
    assert_eq!(
        tvt[0].url,
        "https://huggingface.co/romnnn/tvtsr-fused/resolve/main/fused_unet.safetensors"
    );
}

#[test]
fn a_downloaded_cache_is_a_weights_directory() {
    for id in [ModelId::Sdx4, ModelId::Vosr, ModelId::Tvt] {
        let dests: Vec<Vec<u8>> = id
            .manifest()
            .unwrap()
            .iter()
            .map(|f| format!("/w/{}", f.dest).into_bytes())
            .collect();
        for path in weight_paths(id, b"/w", None, None) {
            assert!(dests.contains(&path));
        }
    }
}

#[test]
fn explicit_weights_win() {
    let paths = weight_paths(ModelId::Vosr, b"/w/", Some(b"a".to_vec()), Some(b"b".to_vec()));
    assert_eq!(paths.len(), 4);
    assert_eq!(paths[0], b"a".to_vec());
    assert_eq!(paths[1], b"b".to_vec());
    assert_eq!(paths[2], b"/w/sd21_lwdecoder.pth".to_vec());
    assert_eq!(
        paths[3],
        b"/w/torch_cache/checkpoints/dinov2_vitb14_pretrain.pth".to_vec()
    );
}
