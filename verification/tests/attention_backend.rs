use upscale::attention::{
    projection_names, query_chunks, AttentionBackend, AttentionError, Build, DeviceKind, Dtype,
};

type Capability = Result<Option<(i32, i32)>, String>;

const PORTABLE: Build = Build { cuda: false, metal: false };
const BOTH: Build = Build { cuda: true, metal: true };

fn none() -> Capability {
    Ok(None)
}

#[test]
fn portable_devices_choose_candle_attention() {
    let backend =
        AttentionBackend::from_setting(None, DeviceKind::Cpu, Dtype::BF16, PORTABLE, none());
    assert_eq!(backend.unwrap(), AttentionBackend::Candle);
    let backend = AttentionBackend::from_setting(None, DeviceKind::Cpu, Dtype::BF16, BOTH, none());
    assert_eq!(backend.unwrap(), AttentionBackend::Candle);
}

#[test]
fn candle_override_is_backend_independent() {
    let backend = AttentionBackend::from_setting(
        Some("candle"),
        DeviceKind::Cpu,
        Dtype::F32,
        PORTABLE,
        none(),
    );
    assert_eq!(backend.unwrap(), AttentionBackend::Candle);
}

#[test]
fn baseline_alias_selects_candle_attention() {
    let backend = AttentionBackend::from_setting(
        Some("baseline"),
        DeviceKind::Cpu,
        Dtype::F32,
        PORTABLE,
        none(),
    );
    assert_eq!(backend.unwrap(), AttentionBackend::Candle);
}

#[test]
fn unknown_override_is_rejected() {
    let result = AttentionBackend::from_setting(
        Some("unknown"),
        DeviceKind::Cpu,
        Dtype::F32,
        PORTABLE,
        none(),
    );
    assert!(result.is_err());
    assert_eq!(
        result.unwrap_err().message().unwrap(),
        "VOSR_ATTENTION must be auto, candle, baseline, flash, or metal (got \"unknown\")"
    );
}

#[test]
fn metal_override_rejects_non_metal_devices() {
    let result = AttentionBackend::from_setting(
        Some("metal"),
        DeviceKind::Cpu,
        Dtype::F32,
        PORTABLE,
        none(),
    );
    assert!(result.is_err());
    let result =
        AttentionBackend::from_setting(Some("metal"), DeviceKind::Cpu, Dtype::F32, BOTH, none());
    assert_eq!(
        result.unwrap_err().message().unwrap(),
        "VOSR_ATTENTION=metal requires a Metal device"
    );
}

#[test]
fn empty_and_auto_choose_the_fastest() {
    for setting in [None, Some(""), Some("auto")] {
        let flash = AttentionBackend::from_setting(
            setting,
            DeviceKind::Cuda,
            Dtype::BF16,
            BOTH,
            Capability::Ok(Some((8, 0))),
        );
        assert_eq!(flash.unwrap(), AttentionBackend::Flash);
        let old = AttentionBackend::from_setting(
            setting,
            DeviceKind::Cuda,
            Dtype::BF16,
            BOTH,
            Capability::Ok(Some((7, 5))),
        );
        assert_eq!(old.unwrap(), AttentionBackend::Candle);
        let full = AttentionBackend::from_setting(
            setting,
            DeviceKind::Cuda,
            Dtype::F32,
            BOTH,
            Capability::Err("lost".to_string()),
        );
        assert_eq!(full.unwrap(), AttentionBackend::Candle);
        let metal =
            AttentionBackend::from_setting(setting, DeviceKind::Metal, Dtype::F32, BOTH, none());
        assert_eq!(metal.unwrap(), AttentionBackend::Metal);
        let wide =
            AttentionBackend::from_setting(setting, DeviceKind::Metal, Dtype::F64, BOTH, none());
        assert_eq!(wide.unwrap(), AttentionBackend::Candle);
    }
}

#[test]
fn flash_override_says_what_is_missing() {
    let flash = |device, dtype, build, capability: Capability| {
        AttentionBackend::from_setting(Some("flash"), device, dtype, build, capability)
    };
    let text = |r: Result<AttentionBackend, AttentionError<String>>| {
        r.unwrap_err().message().unwrap()
    };
    assert_eq!(
        text(flash(DeviceKind::Cpu, Dtype::F16, PORTABLE, none())),
        "VOSR_ATTENTION=flash requires building with the cuda feature"
    );
    assert_eq!(
        text(flash(DeviceKind::Cpu, Dtype::F16, BOTH, none())),
        "VOSR_ATTENTION=flash requires a CUDA device"
    );
    assert_eq!(
        text(flash(DeviceKind::Cuda, Dtype::F32, BOTH, Ok(Some((9, 0))))),
        "VOSR_ATTENTION=flash requires f16 or bf16, got F32"
    );
    assert_eq!(
        text(flash(DeviceKind::Cuda, Dtype::F16, BOTH, Ok(Some((7, 5))))),
        "VOSR_ATTENTION=flash requires CUDA compute capability 8.0 or newer, got 7.5"
    );
    assert_eq!(
        flash(DeviceKind::Cuda, Dtype::F16, BOTH, Ok(Some((8, 6)))).unwrap(),
        AttentionBackend::Flash
    );
    let lost = flash(DeviceKind::Cuda, Dtype::F16, BOTH, Err("lost".to_string())).unwrap_err();
    assert!(lost.message().is_none());
    assert!(matches!(lost, AttentionError::Query(e) if e == "lost"));
}

#[test]
fn metal_override_says_what_is_missing() {
    let metal = |device, dtype, build| {
        AttentionBackend::from_setting(Some("metal"), device, dtype, build, none())
    };
    assert_eq!(
        metal(DeviceKind::Metal, Dtype::F32, PORTABLE).unwrap_err().message().unwrap(),
        "VOSR_ATTENTION=metal requires building with the metal feature"
    );
    assert_eq!(
        metal(DeviceKind::Metal, Dtype::F64, BOTH).unwrap_err().message().unwrap(),
        "VOSR_ATTENTION=metal requires f16, bf16, or f32, got F64"
    );
    assert_eq!(
        metal(DeviceKind::Metal, Dtype::F16, BOTH).unwrap(),
        AttentionBackend::Metal
    );
}

#[test]
fn backend_names() {
    assert_eq!(AttentionBackend::Candle.name(), "candle");
    assert_eq!(AttentionBackend::Flash.name(), "flash");
    assert_eq!(AttentionBackend::Metal.name(), "metal-sdpa");
}

#[test]
fn query_rows_are_cut_into_consecutive_chunks() {
    assert_eq!(query_chunks(1, 5000), vec![(0, 2048), (2048, 2048), (4096, 904)]);
    assert_eq!(query_chunks(4096, 3), vec![(0, 1), (1, 1), (2, 1)]);
    assert_eq!(query_chunks(2, 1024), vec![(0, 1024)]);
    assert!(query_chunks(1, 0).is_empty());
}

#[test]
fn projections_have_two_namings() {
    assert_eq!(projection_names(true), ["query", "key", "value", "proj_attn"]);
    assert_eq!(projection_names(false), ["to_q", "to_k", "to_v", "to_out.0"]);
}
