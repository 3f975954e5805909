//! Choosing a device, and whether to time what runs on it.

use vstd::prelude::*;

use crate::attention::Build;
use crate::attention::DeviceKind;
use crate::text::same_text;

verus! {

/// What to do to find a device.
#[derive(Clone, Copy, Debug, PartialEq, Eq, Structural)]
pub enum Probe {
    /// Try to open this device.
    Open(DeviceKind),
    /// Use this device, which was opened or needs no opening.
    Use(DeviceKind),
}

/// The next step in finding the fastest device of the build.
pub open spec fn next_probe(build: Build, cuda: Option<bool>, metal: Option<bool>) -> Probe {
    if build.cuda && cuda is None {
        Probe::Open(DeviceKind::Cuda)
    } else if build.cuda && cuda == Some(true) {
        Probe::Use(DeviceKind::Cuda)
    } else if build.metal && metal is None {
        Probe::Open(DeviceKind::Metal)
    } else if build.metal && metal == Some(true) {
        Probe::Use(DeviceKind::Metal)
    } else {
        Probe::Use(DeviceKind::Cpu)
    }
}

/// The next step in finding the fastest device of the build: CUDA, else Metal, else
/// the CPU. Each of `cuda` and `metal` says whether that device could be opened, if
/// it was tried; one that could not is passed over.
pub fn select_device(build: Build, cuda: Option<bool>, metal: Option<bool>) -> (probe: Probe)
    ensures
        probe == next_probe(build, cuda, metal),
{
    if build.cuda {
        match cuda {
            None => {
                return Probe::Open(DeviceKind::Cuda);
            },
            Some(true) => {
                return Probe::Use(DeviceKind::Cuda);
            },
            Some(false) => {},
        }
    }
    if build.metal {
        match metal {
            None => {
                return Probe::Open(DeviceKind::Metal);
            },
            Some(true) => {
                return Probe::Use(DeviceKind::Metal);
            },
            Some(false) => {},
        }
    }
    Probe::Use(DeviceKind::Cpu)
}

/// Whether the setting asks for times.
pub open spec fn asks_for_times(setting: Option<&str>) -> bool {
    setting matches Some(s) && s@ != "0"@
}

/// Whether phases are timed: the setting is there and is not zero.
pub fn profile_enabled(setting: Option<&str>) -> (enabled: bool)
    ensures
        enabled == asks_for_times(setting),
{
    match setting {
        Some(value) => !same_text(value, "0"),
        None => false,
    }
}

/// The search ends with the first device that opens: CUDA where the build has it and it
/// opens, else Metal where the build has it and it opens, else the CPU. No device is
/// opened that the build does not have, and none twice.
pub proof fn law_first_device_that_opens_is_used(build: Build, cuda: bool, metal: bool)
    ensures
        ({
            let first = next_probe(build, None, None);
            let second = next_probe(build, Some(cuda), None);
            let last = next_probe(build, Some(cuda), Some(metal));
            &&& build.cuda ==> first == Probe::Open(DeviceKind::Cuda)
            &&& !build.cuda ==> first == second
            &&& build.cuda && cuda ==> second == Probe::Use(DeviceKind::Cuda)
            &&& !(build.cuda && cuda) && build.metal ==> second == Probe::Open(DeviceKind::Metal)
            &&& !(build.cuda && cuda) && !build.metal ==> second == Probe::Use(DeviceKind::Cpu)
            &&& last is Use
            &&& last == Probe::Use(DeviceKind::Cuda) <==> build.cuda && cuda
            &&& last == Probe::Use(DeviceKind::Metal) <==> !(build.cuda && cuda) && build.metal
                && metal
            &&& last == Probe::Use(DeviceKind::Cpu) <==> !(build.cuda && cuda) && !(build.metal
                && metal)
        }),
{
}

/// Every setting asks for times but a single zero.
pub proof fn law_any_setting_asks_for_times(setting: &str)
    ensures
        !asks_for_times(None),
        asks_for_times(Some(setting)) <==> !(setting@.len() == 1 && setting@[0] == '0'),
{
    reveal_strlit("0");
    if setting@.len() == 1 && setting@[0] == '0' {
        assert(setting@ =~= "0"@);
    }
}

} // verus!
