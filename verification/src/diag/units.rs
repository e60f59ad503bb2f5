//! Power, voltage and current the way people say them.

use vstd::prelude::*;
use crate::diag::{or_text, text_or};
use crate::model::{nonzero, Identity, Pdo, PortPowerSupply, PowerDelivery, TypecPort};
use crate::number::{
    dec, double_side, hundredths, hundredths_text, number, one_place, one_place_text, round_div, rounded, side_of, tenths,
    tenths_text, Decimal,
};
use crate::seqs::{lemma_take_all, lemma_take_more};
use crate::text::{fill1, fill2, fill3, filled, owned};

verus! {

pub const IN_WATTS: &'static str = "{} W";

pub const IN_VOLTS: &'static str = "{} V";

pub const IN_AMPS: &'static str = "{} A";

/// Whether a number of thousandths, as a double, lies less than `slack`
/// thousandths above a whole number.
pub open spec fn nearly_whole(n: u32, slack: nat) -> bool {
    let f = n as nat % 1000;
    f < slack || (f == slack && double_side(n as nat, 1000) < 0)
}

fn is_nearly_whole(n: u32, slack: u32) -> (r: bool)
    ensures
        r == nearly_whole(n, slack as nat),
{
    let f: u32 = n % 1000;
    if f < slack {
        true
    } else if f == slack {
        side_of(n as u64, 1000) < 0
    } else {
        false
    }
}

/// To one place: a number of thousandths as tenths.
pub open spec fn in_tenths(n: u32) -> nat {
    rounded(n as nat, 100, double_side(n as nat, 1000))
}

/// To two places: a number of thousandths as hundredths.
pub open spec fn in_hundredths(n: u32) -> nat {
    rounded(n as nat, 10, double_side(n as nat, 1000))
}

/// Milliwatts in watts: whole where it is within 50 mW above a whole number,
/// else with one place.
pub open spec fn watts_text(mw: u32) -> Seq<char> {
    if nearly_whole(mw, 50) {
        filled(IN_WATTS@, seq![dec(mw as nat / 1000)])
    } else {
        filled(IN_WATTS@, seq![tenths(in_tenths(mw))])
    }
}

pub fn watts(mw: u32) -> (r: String)
    ensures
        r@ == watts_text(mw),
{
    if is_nearly_whole(mw, 50) {
        let n = number((mw / 1000) as u64);
        fill1(IN_WATTS, n.as_str())
    } else {
        let n = tenths_text(round_div(mw as u64, 100, side_of(mw as u64, 1000)));
        fill1(IN_WATTS, n.as_str())
    }
}

/// Millivolts in volts.
pub open spec fn volts_text(mv: u32) -> Seq<char> {
    if nearly_whole(mv, 5) {
        filled(IN_VOLTS@, seq![dec(mv as nat / 1000)])
    } else {
        filled(IN_VOLTS@, seq![tenths(in_tenths(mv))])
    }
}

pub fn volts(mv: u32) -> (r: String)
    ensures
        r@ == volts_text(mv),
{
    if is_nearly_whole(mv, 5) {
        let n = number((mv / 1000) as u64);
        fill1(IN_VOLTS, n.as_str())
    } else {
        let n = tenths_text(round_div(mv as u64, 100, side_of(mv as u64, 1000)));
        fill1(IN_VOLTS, n.as_str())
    }
}

/// Milliamps in amps.
pub open spec fn amps_text(ma: u32) -> Seq<char> {
    if nearly_whole(ma, 5) {
        filled(IN_AMPS@, seq![dec(ma as nat / 1000)])
    } else {
        filled(IN_AMPS@, seq![hundredths(in_hundredths(ma))])
    }
}

pub fn milliamps(ma: u32) -> (r: String)
    ensures
        r@ == amps_text(ma),
{
    if is_nearly_whole(ma, 5) {
        let n = number((ma / 1000) as u64);
        fill1(IN_AMPS, n.as_str())
    } else {
        let n = hundredths_text(round_div(ma as u64, 10, side_of(ma as u64, 1000)));
        fill1(IN_AMPS, n.as_str())
    }
}

// ---------------------------------------------------------------------------
// bytes
// ---------------------------------------------------------------------------

pub const IN_GB: &'static str = "{} GB";

pub const IN_MB: &'static str = "{} MB";

pub const IN_KB: &'static str = "{} kB";

pub const IN_BYTES: &'static str = "{} B";

/// A number of bytes in the largest decimal unit it reaches, with one place.
pub open spec fn bytes_text(b: u64) -> Seq<char> {
    if b >= 1_000_000_000 {
        filled(IN_GB@, seq![one_place(b as nat, 100_000_000)])
    } else if b >= 1_000_000 {
        filled(IN_MB@, seq![one_place(b as nat, 100_000)])
    } else if b >= 1_000 {
        filled(IN_KB@, seq![one_place(b as nat, 100)])
    } else {
        filled(IN_BYTES@, seq![dec(b as nat)])
    }
}

pub fn bytes_human(b: u64) -> (r: String)
    ensures
        r@ == bytes_text(b),
{
    if b >= 1_000_000_000 {
        let n = one_place_text(b, 100_000_000);
        fill1(IN_GB, n.as_str())
    } else if b >= 1_000_000 {
        let n = one_place_text(b, 100_000);
        fill1(IN_MB, n.as_str())
    } else if b >= 1_000 {
        let n = one_place_text(b, 100);
        fill1(IN_KB, n.as_str())
    } else {
        let n = number(b);
        fill1(IN_BYTES, n.as_str())
    }
}

/// The whole bytes of a rate.
pub open spec fn rate_bytes(bps: Decimal) -> Seq<char> {
    bytes_text(bps.micros / 1_000_000)
}

pub fn bytes_per_second(bps: Decimal) -> (r: String)
    ensures
        r@ == rate_bytes(bps),
{
    bytes_human(bps.micros / 1_000_000)
}

// ---------------------------------------------------------------------------
// offers, contracts and cables in words
// ---------------------------------------------------------------------------

pub open spec fn power_or_zero(p: Pdo) -> u32 {
    match p.power() {
        Some(mw) => mw,
        None => 0,
    }
}

/// The object with the most power; of two with the same, the later.
pub open spec fn best_pdo(s: Seq<Pdo>) -> Option<Pdo>
    decreases s.len(),
{
    if s.len() == 0 {
        None
    } else {
        match best_pdo(s.drop_last()) {
            Some(b) => if power_or_zero(s.last()) >= power_or_zero(b) {
                Some(s.last())
            } else {
                Some(b)
            },
            None => Some(s.last()),
        }
    }
}

/// The best offer of a list, in words.
pub open spec fn best_of_list(s: Seq<Pdo>) -> Seq<char> {
    match best_pdo(s) {
        Some(p) => p.described(),
        None => "none advertised"@,
    }
}

pub open spec fn best_source(pd: Option<PowerDelivery>) -> Seq<char> {
    match pd {
        Some(p) => best_of_list(p.source_capabilities@),
        None => "unknown"@,
    }
}

pub open spec fn best_sink(pd: Option<PowerDelivery>) -> Seq<char> {
    match pd {
        Some(p) => best_of_list(p.sink_capabilities@),
        None => "unknown"@,
    }
}

fn describe_best(list: &Vec<Pdo>) -> (r: String)
    ensures
        r@ == best_of_list(list@),
{
    let mut best: Option<&Pdo> = None;
    let mut power: u32 = 0;
    let mut i: usize = 0;
    while i < list.len()
        invariant
            i <= list.len(),
            match best {
                Some(b) => best_pdo(list@.take(i as int)) == Some(*b) && power == power_or_zero(*b),
                None => best_pdo(list@.take(i as int)) is None,
            },
        decreases list.len() - i,
    {
        proof {
            lemma_take_more(list@, i as int);
        }
        let p: u32 = match list[i].power_mw() {
            Some(mw) => mw,
            None => 0,
        };
        if best.is_none() || p >= power {
            best = Some(&list[i]);
            power = p;
        }
        i += 1;
    }
    proof {
        lemma_take_all(list@);
    }
    match best {
        Some(b) => b.describe(),
        None => owned("none advertised"),
    }
}

pub fn best_pdo_desc(pd: &Option<PowerDelivery>, source: bool) -> (r: String)
    ensures
        r@ == (if source {
            best_source(*pd)
        } else {
            best_sink(*pd)
        }),
{
    match pd {
        None => owned("unknown"),
        Some(p) => if source {
            describe_best(&p.source_capabilities)
        } else {
            describe_best(&p.sink_capabilities)
        },
    }
}

pub const CONTRACT_LINE: &'static str = "{} at up to {} ({})";

/// A current rating, where it was stated.
pub open spec fn rating_words(ma: Option<u32>) -> Seq<char> {
    match ma {
        Some(n) => amps_text(n),
        None => "unstated"@,
    }
}

/// A contract in words: the voltage and the current of the selected PDO, and the
/// power they come to. The range endpoints are no part of it.
pub open spec fn contract_words(ps: Option<PortPowerSupply>) -> Seq<char> {
    match ps {
        None => "unknown"@,
        Some(c) => match (nonzero(c.voltage_now_mv), nonzero(c.current_now_ma)) {
            (Some(v), Some(i)) => filled(
                CONTRACT_LINE@,
                seq![volts_text(v), amps_text(i), watts_text(c.contract_mw()->0)],
            ),
            _ => "no contract"@,
        },
    }
}

pub fn contract_desc(ps: &Option<PortPowerSupply>) -> (r: String)
    ensures
        r@ == contract_words(*ps),
{
    match ps {
        None => owned("unknown"),
        Some(c) => match (c.contract_voltage_mv(), c.contract_current_ma(), c.contract_power_mw()) {
            (Some(v), Some(i), Some(mw)) => {
                let a = volts(v);
                let b = milliamps(i);
                let w = watts(mw);
                fill3(CONTRACT_LINE, a.as_str(), b.as_str(), w.as_str())
            },
            _ => owned("no contract"),
        },
    }
}

pub const CABLE_LINE: &'static str = "cable: {} rating, {}";

pub const NO_EMARKER: &'static str = "cable: no e-marker reported (3 A limit applies)";

/// The identity a port's cable reported.
pub open spec fn cable_identity(port: TypecPort) -> Option<Identity> {
    match port.cable {
        Some(c) => c.identity,
        None => None,
    }
}

/// A port's cable in words.
pub open spec fn cable_words(port: TypecPort) -> Seq<char> {
    match cable_identity(port) {
        Some(id) => filled(
            CABLE_LINE@,
            seq![
                rating_words(id.decoded.cable_current_ma),
                text_or(id.decoded.cable_max_speed, "unknown speed"@),
            ],
        ),
        None => NO_EMARKER@,
    }
}

pub fn cable_summary(port: &TypecPort) -> (r: String)
    ensures
        r@ == cable_words(*port),
{
    if let Some(c) = &port.cable {
        if let Some(id) = &c.identity {
            let a = match id.decoded.cable_current_ma {
                Some(ma) => milliamps(ma),
                None => owned("unstated"),
            };
            return fill2(
                CABLE_LINE,
                a.as_str(),
                or_text(&id.decoded.cable_max_speed, "unknown speed"),
            );
        }
    }
    owned(NO_EMARKER)
}

} // verus!
