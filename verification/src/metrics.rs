//! What is normal on this network.
use vstd::prelude::*;

verus! {

/// Medians of the last samples, in millionths.
#[derive(Clone, Copy)]
pub struct InboundBaseline {
    pub inbound_mbps: i64,
    pub outbound_mbps: i64,
    pub total_kpps: i64,
    pub connections: i64,
    pub wan_latency_ms: i64,
}

} // verus!
