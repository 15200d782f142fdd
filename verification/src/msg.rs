use vstd::prelude::*;
use crate::addr::Addr;

verus! {

// The message model: the typed values the rest of the system programs
// against, and their mathematical views.

/// Outcome of the verifier's handling of a request.
#[derive(Debug, Clone, Copy, PartialEq, Eq, Structural)]
pub enum ResponseStatus {
    InternalError,
    RequestRejected,
    DialRefused,
    Accepted,
}

/// Outcome of the dial attempt itself.
#[derive(Debug, Clone, Copy, PartialEq, Eq, Structural)]
pub enum DialStatus {
    Unused,
    DialError,
    DialBackError,
    Reachable,
}

pub open spec fn response_status_code(s: ResponseStatus) -> u64 {
    match s {
        ResponseStatus::InternalError => 0,
        ResponseStatus::RequestRejected => 100,
        ResponseStatus::DialRefused => 101,
        ResponseStatus::Accepted => 200,
    }
}

/// Unknown numeric values fall back to the first variant, as schema
/// readers conventionally do for open enumerations.
pub open spec fn response_status_from_code(c: u64) -> ResponseStatus {
    if c == 100 {
        ResponseStatus::RequestRejected
    } else if c == 101 {
        ResponseStatus::DialRefused
    } else if c == 200 {
        ResponseStatus::Accepted
    } else {
        ResponseStatus::InternalError
    }
}

pub open spec fn dial_status_code(s: DialStatus) -> u64 {
    match s {
        DialStatus::Unused => 0,
        DialStatus::DialError => 100,
        DialStatus::DialBackError => 101,
        DialStatus::Reachable => 200,
    }
}

pub open spec fn dial_status_from_code(c: u64) -> DialStatus {
    if c == 100 {
        DialStatus::DialError
    } else if c == 101 {
        DialStatus::DialBackError
    } else if c == 200 {
        DialStatus::Reachable
    } else {
        DialStatus::Unused
    }
}

pub fn status_to_code(s: &ResponseStatus) -> (c: u64)
    ensures
        c == response_status_code(*s),
{
    match s {
        ResponseStatus::InternalError => 0,
        ResponseStatus::RequestRejected => 100,
        ResponseStatus::DialRefused => 101,
        ResponseStatus::Accepted => 200,
    }
}

pub fn status_of_code(c: u64) -> (s: ResponseStatus)
    ensures
        s == response_status_from_code(c),
{
    if c == 100 {
        ResponseStatus::RequestRejected
    } else if c == 101 {
        ResponseStatus::DialRefused
    } else if c == 200 {
        ResponseStatus::Accepted
    } else {
        ResponseStatus::InternalError
    }
}

pub fn dial_status_to_code(s: &DialStatus) -> (c: u64)
    ensures
        c == dial_status_code(*s),
{
    match s {
        DialStatus::Unused => 0,
        DialStatus::DialError => 100,
        DialStatus::DialBackError => 101,
        DialStatus::Reachable => 200,
    }
}

pub fn dial_status_of_code(c: u64) -> (s: DialStatus)
    ensures
        s == dial_status_from_code(c),
{
    if c == 100 {
        DialStatus::DialError
    } else if c == 101 {
        DialStatus::DialBackError
    } else if c == 200 {
        DialStatus::Reachable
    } else {
        DialStatus::Unused
    }
}

/// A requester's candidate address list and its dial-back correlator.
#[derive(Debug, Clone, PartialEq, Eq)]
pub struct DialRequest {
    pub addrs: Vec<Addr>,
    pub nonce: u64,
}

/// One chunk of padding traffic; only its length is meaningful, the
/// bytes on the wire are always zero-filled.
#[derive(Debug, Clone, Copy, PartialEq, Eq, Structural)]
pub struct DialDataResponse {
    pub data_count: usize,
}

/// Requester-to-verifier message.
#[derive(Debug, Clone, PartialEq, Eq)]
pub enum Request {
    Dial(DialRequest),
    Data(DialDataResponse),
}

/// The verifier's report on a dial attempt. `addr_idx` is carried
/// unchecked: range-checking it against the original address list is the
/// caller's obligation.
#[derive(Debug, Clone, Copy, PartialEq, Eq, Structural)]
pub struct DialResponse {
    pub status: ResponseStatus,
    pub addr_idx: usize,
    pub dial_status: DialStatus,
}

/// The verifier's demand for padding traffic before it dials
/// `addrs[addr_idx]`.
#[derive(Debug, Clone, Copy, PartialEq, Eq, Structural)]
pub struct DialDataRequest {
    pub addr_idx: usize,
    pub num_bytes: u64,
}

/// Verifier-to-requester message.
#[derive(Debug, Clone, Copy, PartialEq, Eq, Structural)]
pub enum Response {
    Dial(DialResponse),
    Data(DialDataRequest),
}

/// Sent over a fresh connection back to the candidate address to prove
/// the dial succeeded; the nonce echoes the original request's.
#[derive(Debug, Clone, Copy, PartialEq, Eq, Structural)]
pub struct DialBack {
    pub nonce: u64,
}

// --- views ---

#[verifier::ext_equal]
pub struct DialRequestV {
    pub addrs: Seq<Seq<u8>>,
    pub nonce: u64,
}

#[verifier::ext_equal]
pub enum RequestV {
    Dial(DialRequestV),
    Data(nat),
}

impl View for DialRequest {
    type V = DialRequestV;

    open spec fn view(&self) -> DialRequestV {
        DialRequestV { addrs: self.addrs@.map_values(|a: Addr| a@), nonce: self.nonce }
    }
}

impl View for Request {
    type V = RequestV;

    open spec fn view(&self) -> RequestV {
        match self {
            Request::Dial(d) => RequestV::Dial(d@),
            Request::Data(d) => RequestV::Data(d.data_count as nat),
        }
    }
}

impl DialRequest {
    pub open spec fn wf(&self) -> bool {
        forall|i: int| 0 <= i < self.addrs@.len() ==> (#[trigger] self.addrs@[i]).wf()
    }
}

impl Request {
    /// What encoding requires of an outbound value: a data chunk never
    /// exceeds the per-message padding ceiling.
    pub open spec fn wf(&self) -> bool {
        match self {
            Request::Dial(_) => true,
            Request::Data(d) => d.data_count <= crate::DATA_FIELD_LEN_UPPER_BOUND,
        }
    }
}

impl Response {
    /// What encoding requires: the address index must fit the 32-bit
    /// wire field.
    pub open spec fn wf(&self) -> bool {
        match self {
            Response::Dial(d) => d.addr_idx <= u32::MAX,
            Response::Data(d) => d.addr_idx <= u32::MAX,
        }
    }
}

} // verus!
