//! Vendor Defined Objects: what a cable's e-marker says of itself.

use vstd::prelude::*;
use crate::number::Decimal;

verus! {

/// The rate that the low three bits of a cable's first product type VDO name:
/// its highest signalling, from USB 2.0 up. Zero for a reserved value.
pub open spec fn cable_speed(raw: u32) -> Decimal {
    let bits = raw % 8;
    if bits == 0 {
        Decimal::of(480)
    } else if bits == 1 {
        Decimal::of(5_000)
    } else if bits == 2 {
        Decimal::of(10_000)
    } else if bits == 3 {
        Decimal::of(40_000)
    } else if bits == 4 {
        Decimal::of(80_000)
    } else {
        Decimal::of(0)
    }
}

pub fn cable_speed_mbps(raw: u32) -> (r: Decimal)
    ensures
        r == cable_speed(raw),
{
    match raw % 8 {
        0 => Decimal::whole(480),
        1 => Decimal::whole(5_000),
        2 => Decimal::whole(10_000),
        3 => Decimal::whole(40_000),
        4 => Decimal::whole(80_000),
        _ => Decimal::whole(0),
    }
}

} // verus!
