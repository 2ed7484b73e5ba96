//! Power source detection.
use vstd::prelude::*;

use crate::text::{eq_chars, to_chars, trim, trimmed};

verus! {

/// Power source status.
#[derive(Clone, Copy, Debug, PartialEq, Eq, Structural)]
pub enum PowerSource {
    Battery,
    Ac,
    Unknown,
}

impl PowerSource {
    /// The name shown for the power source.
    pub open spec fn text(self) -> Seq<char> {
        match self {
            PowerSource::Battery => "battery"@,
            PowerSource::Ac => "ac"@,
            PowerSource::Unknown => "unknown"@,
        }
    }

    /// Renders the power source.
    pub fn name(&self) -> (r: &'static str)
        ensures
            r@ == self.text(),
    {
        match self {
            PowerSource::Battery => "battery",
            PowerSource::Ac => "ac",
            PowerSource::Unknown => "unknown",
        }
    }
}

/// One entry of `/sys/class/power_supply`: the contents of its `type` file and,
/// where it could be read, of its `online` file.
#[derive(Debug)]
pub struct Supply {
    pub kind: String,
    pub online: Option<String>,
}

/// Whether a supply is a mains adapter that delivers power.
pub open spec fn on_mains(s: Supply) -> bool {
    trimmed(s.kind@) == "Mains"@ && s.online is Some && trimmed(s.online->0@) == "1"@
}

/// Whether a supply is a battery.
pub open spec fn is_battery(s: Supply) -> bool {
    trimmed(s.kind@) == "Battery"@
}

/// The power source that a list of supplies shows: AC where a mains adapter is
/// online, else battery where there is one.
pub open spec fn source_of(supplies: Seq<Supply>) -> PowerSource {
    if exists|i: int| 0 <= i < supplies.len() && on_mains(#[trigger] supplies[i]) {
        PowerSource::Ac
    } else if exists|i: int| 0 <= i < supplies.len() && is_battery(#[trigger] supplies[i]) {
        PowerSource::Battery
    } else {
        PowerSource::Unknown
    }
}

fn trims_to(text: &str, wanted: &str) -> (r: bool)
    ensures
        r == (trimmed(text@) == wanted@),
{
    let chars = to_chars(text);
    let goal = to_chars(wanted);
    eq_chars(trim(&chars), &goal)
}

/// Determines the power source from the supplies that were found.
pub fn detect_power_source(supplies: &Vec<Supply>) -> (r: PowerSource)
    ensures
        r == source_of(supplies@),
{
    let mut has_battery = false;
    let mut i: usize = 0;
    while i < supplies.len()
        invariant
            i <= supplies@.len(),
            forall|j: int| 0 <= j < i ==> !on_mains(#[trigger] supplies@[j]),
            has_battery == exists|j: int| 0 <= j < i && is_battery(#[trigger] supplies@[j]),
        decreases supplies@.len() - i,
    {
        let s = &supplies[i];
        if trims_to(&s.kind, "Mains") {
            if let Some(online) = &s.online {
                if trims_to(online, "1") {
                    proof {
                        assert(on_mains(supplies@[i as int]));
                    }
                    return PowerSource::Ac;
                }
            }
            proof {
                reveal_strlit("Mains");
                reveal_strlit("Battery");
                assert("Mains"@.len() != "Battery"@.len());
                assert(!is_battery(supplies@[i as int]));
            }
        } else if trims_to(&s.kind, "Battery") {
            has_battery = true;
            proof {
                assert(is_battery(supplies@[i as int]));
            }
        }
        i = i + 1;
    }
    if has_battery {
        PowerSource::Battery
    } else {
        PowerSource::Unknown
    }
}

/// A mains adapter that is online means AC power, whatever else there is. Without one
/// a battery means battery power; without either the source is not known.
pub proof fn mains_outrank_batteries(supplies: Seq<Supply>)
    ensures
        source_of(supplies) is Ac <==> exists|i: int|
            0 <= i < supplies.len() && trimmed((#[trigger] supplies[i]).kind@) == "Mains"@
                && supplies[i].online is Some && trimmed(supplies[i].online->0@) == "1"@,
        source_of(supplies) is Battery ==> exists|i: int|
            0 <= i < supplies.len() && trimmed((#[trigger] supplies[i]).kind@) == "Battery"@,
        source_of(supplies) is Unknown ==> forall|i: int|
            0 <= i < supplies.len() ==> trimmed((#[trigger] supplies[i]).kind@) != "Battery"@,
{
    if source_of(supplies) is Ac {
        let i = choose|i: int| 0 <= i < supplies.len() && on_mains(#[trigger] supplies[i]);
        assert(trimmed(supplies[i].kind@) == "Mains"@);
    }
    if exists|i: int|
        0 <= i < supplies.len() && trimmed((#[trigger] supplies[i]).kind@) == "Mains"@
            && supplies[i].online is Some && trimmed(supplies[i].online->0@) == "1"@ {
        let i = choose|i: int|
            0 <= i < supplies.len() && trimmed((#[trigger] supplies[i]).kind@) == "Mains"@
                && supplies[i].online is Some && trimmed(supplies[i].online->0@) == "1"@;
        assert(on_mains(supplies[i]));
    }
    if source_of(supplies) is Battery {
        let i = choose|i: int| 0 <= i < supplies.len() && is_battery(#[trigger] supplies[i]);
        assert(trimmed(supplies[i].kind@) == "Battery"@);
    }
    if source_of(supplies) is Unknown {
        assert forall|i: int| 0 <= i < supplies.len() implies trimmed(
            (#[trigger] supplies[i]).kind@,
        ) != "Battery"@ by {
            assert(!is_battery(supplies[i]));
        }
    }
}

} // verus!
