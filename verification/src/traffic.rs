//! Traffic counters of the primary interface between two samples.

use vstd::prelude::*;
use crate::name_map::NameMap;
use crate::network::{DevStats, InterfaceState};
use crate::text::{chars_eq, chars_of, push_text, string_from};

verus! {

/// Byte counters of the primary interface at one sample.
#[derive(Clone, Debug)]
pub struct TrafficCounters {
    pub iface: String,
    pub recv_bytes: u128,
    pub trans_bytes: u128,
}

/// The counters to sample: those of the primary interface when there is one
/// and `/proc/net/dev` lists it; otherwise nothing, and the history resets.
pub fn traffic_source(primary: &Option<InterfaceState>, dev: &NameMap<DevStats>) -> (r: Option<
    TrafficCounters,
>)
    ensures
        match r {
            Some(c) => primary matches Some(p) && dev@.dom().contains(p.name@) && c.iface@
                == p.name@ && c.recv_bytes == dev@[p.name@].recv_bytes && c.trans_bytes
                == dev@[p.name@].trans_bytes,
            None => primary is None || !dev@.dom().contains(primary->0.name@),
        },
{
    let iface = match primary {
        Some(p) => p,
        None => return None,
    };
    match dev.get(iface.name.as_str()) {
        Some(stats) => Some(
            TrafficCounters {
                iface: iface.name.clone(),
                recv_bytes: stats.recv_bytes,
                trans_bytes: stats.trans_bytes,
            },
        ),
        None => None,
    }
}

/// Subtraction that stops at zero.
pub open spec fn sat_sub(a: u128, b: u128) -> u128 {
    if a >= b {
        (a - b) as u128
    } else {
        0
    }
}

/// The bytes received and sent since the previous sample, or nothing when
/// there was no previous sample or it was of another interface; counters
/// that went backwards count as zero.
pub open spec fn deltas_spec(previous: Option<TrafficCounters>, current: TrafficCounters) -> Option<
    (u128, u128),
> {
    match previous {
        None => None,
        Some(p) => if p.iface@ != current.iface@ {
            None
        } else {
            Some(
                (
                    sat_sub(current.recv_bytes, p.recv_bytes),
                    sat_sub(current.trans_bytes, p.trans_bytes),
                ),
            )
        },
    }
}

/// Reset rates cleanly when the primary interface changes.
pub fn traffic_deltas(previous: &Option<TrafficCounters>, current: &TrafficCounters) -> (r: Option<
    (u128, u128),
>)
    ensures
        r == deltas_spec(*previous, *current),
{
    let p = match previous {
        Some(p) => p,
        None => return None,
    };
    let a = chars_of(p.iface.as_str());
    let b = chars_of(current.iface.as_str());
    if !chars_eq(&a, &b) {
        return None;
    }
    let recv = if current.recv_bytes >= p.recv_bytes {
        current.recv_bytes - p.recv_bytes
    } else {
        0
    };
    let trans = if current.trans_bytes >= p.trans_bytes {
        current.trans_bytes - p.trans_bytes
    } else {
        0
    };
    Some((recv, trans))
}

/// Keep the traffic block terse and glanceable: glyph, `↓` and the receive
/// rate, then ` ↑` and the transmit rate, both already formatted.
pub fn format_traffic_output(glyph: &str, recv_rate: &str, trans_rate: &str) -> (r: String)
    ensures
        r@ == glyph@ + "↓"@ + recv_rate@ + " ↑"@ + trans_rate@,
{
    let mut out = string_from(glyph);
    push_text(&mut out, "↓");
    push_text(&mut out, recv_rate);
    push_text(&mut out, " ↑");
    push_text(&mut out, trans_rate);
    out
}

} // verus!
