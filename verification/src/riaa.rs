//! RIAA preamp plugin: the switches and the subsonic filter, read from the
//! plugin's parameters with the plugin's defaults.
use vstd::prelude::*;

verus! {

/// The subsonic filter setting.
#[derive(Debug)]
pub struct SubsonicFilterValue {
    pub filter: i32,
}

/// Whether a switch of the plugin is on.
#[derive(Debug)]
pub struct EnableValue {
    pub enabled: bool,
}

/// The subsonic filter, from the integer that the `Subsonic Filter`
/// parameter holds; none (0) where it holds no integer.
pub fn subsonic_filter_value(param: Option<i32>) -> (r: SubsonicFilterValue)
    ensures
        r.filter == match param {
            Some(i) => i,
            None => 0i32,
        },
{
    match param {
        Some(i) => SubsonicFilterValue { filter: i },
        None => SubsonicFilterValue { filter: 0 },
    }
}

/// The RIAA equalisation switch, from the `RIAA Enable` parameter; on where
/// the parameter holds no boolean.
pub fn riaa_enable_value(param: Option<bool>) -> (r: EnableValue)
    ensures
        r.enabled == (param != Some(false)),
{
    match param {
        Some(b) => EnableValue { enabled: b },
        None => EnableValue { enabled: true },
    }
}

/// The declick switch, from the `Declick Enable` parameter; off where the
/// parameter holds no boolean.
pub fn declick_enable_value(param: Option<bool>) -> (r: EnableValue)
    ensures
        r.enabled == (param == Some(true)),
{
    match param {
        Some(b) => EnableValue { enabled: b },
        None => EnableValue { enabled: false },
    }
}

/// The notch filter switch, from the `Notch Filter Enable` parameter; off
/// where the parameter holds no boolean.
pub fn notch_filter_enabled(param: Option<bool>) -> (r: bool)
    ensures
        r == (param == Some(true)),
{
    match param {
        Some(b) => b,
        None => false,
    }
}

} // verus!
