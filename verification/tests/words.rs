use upscale::attention::{Build, DeviceKind};
use upscale::device::{profile_enabled, select_device, Probe};
use upscale::text::{decimal, joined, parse_i64, parse_u32, parse_u64, same_text, signed_decimal};

#[test]
fn numbers_are_written_as_the_standard_library_writes_them() {
    for n in [0, 7, 10, 99, 1000, u64::MAX] {
        assert_eq!(decimal(n), n.to_string());
    }
    for n in [0, -1, 42, i64::MAX, i64::MIN] {
        assert_eq!(signed_decimal(n), n.to_string());
    }
}

#[test]
fn numbers_are_read_as_the_standard_library_reads_them() {
    for text in [
        "0", "7", "+7", "-7", "", "+", "-", "007", "1e3", " 1", "18446744073709551615",
        "18446744073709551616", "4294967295", "4294967296", "9223372036854775807",
        "9223372036854775808", "-9223372036854775808", "-9223372036854775809", "+-1", "1٢",
        "99999999999999999999999",
    ] {
        assert_eq!(parse_u64(text), text.parse().ok(), "{text}");
        assert_eq!(parse_u32(text), text.parse().ok(), "{text}");
        assert_eq!(parse_i64(text), text.parse().ok(), "{text}");
    }
}

#[test]
fn text_is_joined_and_compared() {
    assert_eq!(joined("a", "é"), "aé");
    assert!(same_text("aé", "aé"));
    assert!(!same_text("a", "A"));
}

#[test]
fn the_fastest_device_that_opens_is_used() {
    let all = Build { cuda: true, metal: true };
    let none = Build { cuda: false, metal: false };
    let metal = Build { cuda: false, metal: true };
    assert_eq!(select_device(none, None, None), Probe::Use(DeviceKind::Cpu));
    assert_eq!(select_device(all, None, None), Probe::Open(DeviceKind::Cuda));
    assert_eq!(select_device(all, Some(true), None), Probe::Use(DeviceKind::Cuda));
    assert_eq!(select_device(all, Some(false), None), Probe::Open(DeviceKind::Metal));
    assert_eq!(select_device(all, Some(false), Some(true)), Probe::Use(DeviceKind::Metal));
    assert_eq!(select_device(all, Some(false), Some(false)), Probe::Use(DeviceKind::Cpu));
    assert_eq!(select_device(metal, None, None), Probe::Open(DeviceKind::Metal));
}

#[test]
fn profiling_is_asked_for() {
    assert!(!profile_enabled(None));
    assert!(!profile_enabled(Some("0")));
    assert!(profile_enabled(Some("1")));
    assert!(profile_enabled(Some("")));
}
