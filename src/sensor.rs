//! The sensor locator: which entry of the hardware-monitor registry belongs
//! to a given sensor chip.
use vstd::prelude::*;
use crate::text::same_text;

verus! {

/// The sensor chips whose references a configuration may hold.
#[derive(Clone, Copy, Debug, PartialEq, Eq, Structural)]
pub enum SensorKind {
    /// The CPU package temperature sensor.
    CoreTemperature,
    /// The NVMe disk sensor.
    NvmeDisk,
}

impl SensorKind {
    /// The name under which the chip registers itself.
    pub open spec fn chip(self) -> Seq<char> {
        match self {
            SensorKind::CoreTemperature => "coretemp"@,
            SensorKind::NvmeDisk => "nvme"@,
        }
    }

    /// The prefix of the configuration lines that refer to this chip.
    pub open spec fn section(self) -> Seq<char> {
        match self {
            SensorKind::CoreTemperature => "== CPU =="@,
            SensorKind::NvmeDisk => "== Disk IO =="@,
        }
    }

    /// The name under which the chip registers itself.
    pub fn chip_name(&self) -> (r: &'static str)
        ensures
            r@ == self.chip(),
    {
        match self {
            SensorKind::CoreTemperature => "coretemp",
            SensorKind::NvmeDisk => "nvme",
        }
    }

    /// The prefix of the configuration lines that refer to this chip.
    pub fn section_marker(&self) -> (r: &'static str)
        ensures
            r@ == self.section(),
    {
        match self {
            SensorKind::CoreTemperature => "== CPU ==",
            SensorKind::NvmeDisk => "== Disk IO ==",
        }
    }
}

/// A registry entry was read and holds exactly `chip`.
pub open spec fn names_chip(entry: Option<String>, chip: Seq<char>) -> bool {
    match entry {
        Some(content) => content@ == chip,
        None => false,
    }
}

/// The index of the first registry entry whose content is exactly `chip`.
///
/// `registry[k]` is what the descriptor of index `k` held, or `None` where it
/// exists but could not be read; the sequence ends just before the first
/// index that has no descriptor.
pub fn locate(chip: &str, registry: &Vec<Option<String>>) -> (r: Option<i32>)
    requires
        registry@.len() <= i32::MAX,
    ensures
        r matches Some(i) ==> 0 <= i < registry@.len() && names_chip(registry@[i as int], chip@)
            && forall|j: int| 0 <= j < i ==> !names_chip(#[trigger] registry@[j], chip@),
        r is None ==> forall|j: int|
            0 <= j < registry@.len() ==> !names_chip(#[trigger] registry@[j], chip@),
{
    let mut k: usize = 0;
    while k < registry.len()
        invariant
            k <= registry@.len() <= i32::MAX,
            forall|j: int| 0 <= j < k ==> !names_chip(#[trigger] registry@[j], chip@),
        decreases registry@.len() - k,
    {
        match &registry[k] {
            Some(content) => {
                if same_text(content.as_str(), chip) {
                    return Some(k as i32);
                }
            },
            None => {},
        }
        k += 1;
    }
    None
}

} // verus!
