use vstd::prelude::*;
use crate::msg::DialDataRequest;

verus! {

// The anti-amplification gate: how much padding traffic the verifier
// demands before it spends a dial. The amount is drawn afresh per
// request, so a requester cannot precompute a minimal proof.

/// Relies on `rand::random::<u64>`: one draw from the thread-local
/// generator. Nothing is assumed of the value.
#[verifier::external_body]
fn random_u64() -> u64 {
    rand::random::<u64>()
}

impl DialDataRequest {
    /// Maps one draw of entropy onto a padding requirement: the demanded
    /// size lands in the closed interval between the two protocol bounds,
    /// and every size in it is reachable.
    pub fn from_entropy(addr_idx: usize, entropy: u64) -> (r: DialDataRequest)
        ensures
            r.addr_idx == addr_idx,
            r.num_bytes == crate::DATA_LEN_LOWER_BOUND as u64 + entropy % 70001,
            crate::DATA_LEN_LOWER_BOUND as u64 <= r.num_bytes <= crate::DATA_LEN_UPPER_BOUND
                as u64,
    {
        let span: u64 = 70001;
        let num_bytes: u64 = 30000 + entropy % span;
        DialDataRequest { addr_idx, num_bytes }
    }

    /// Draws a fresh padding requirement for the given candidate address.
    pub fn new(addr_idx: usize) -> (r: DialDataRequest)
        ensures
            r.addr_idx == addr_idx,
            crate::DATA_LEN_LOWER_BOUND as u64 <= r.num_bytes <= crate::DATA_LEN_UPPER_BOUND
                as u64,
    {
        DialDataRequest::from_entropy(addr_idx, random_u64())
    }
}

} // verus!
