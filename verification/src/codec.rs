use vstd::prelude::*;
use crate::addr::{all_addrs_valid, multiaddr_valid, Addr};
use crate::msg::{
    dial_status_code, dial_status_from_code, response_status_code, response_status_from_code,
    DialBack, DialDataRequest, DialDataResponse, DialRequest, DialRequestV, DialResponse, Request,
    RequestV, Response,
};
use crate::wire::{
    all_fields_wf, encode_field, encode_fields, fields_view, lemma_encode_fields_parse,
    lemma_encode_fields_snoc, parse_fields, parse_fields_x, push_bytes_field, push_fixed64_field,
    push_varint, push_varint_field, varint, WireField, WireFieldX, WireVal, WireValX,
};

verus! {

// The wire codec: how each message kind is laid out as wire fields, what
// decoding yields for every byte string, and the round-trip laws.

/// The required field a message lacked.
#[derive(Debug, Clone, Copy, PartialEq, Eq, Structural)]
pub enum FieldName {
    Nonce,
    Data,
    Status,
    AddrIdx,
    DialStatus,
    NumBytes,
}

#[derive(Debug, Clone, Copy, PartialEq, Eq, Structural)]
pub enum DecodeError {
    /// The bytes do not parse as the wire format at all.
    Malformed,
    /// A structurally valid message whose populated union case is not
    /// among the ones expected for this message kind.
    UnexpectedVariant,
    /// A field this protocol treats as mandatory is absent.
    MissingField(FieldName),
    /// An address entry is not a valid multiaddress.
    InvalidAddress,
}

// --- the raw layer: field lists folded into loosely-typed messages ---

#[verifier::ext_equal]
pub struct RawDialRequest {
    pub addrs: Seq<Seq<u8>>,
    pub nonce: Option<u64>,
}

#[verifier::ext_equal]
pub struct RawDialResponse {
    pub status: Option<u64>,
    pub addr_idx: Option<u64>,
    pub dial_status: Option<u64>,
}

#[verifier::ext_equal]
pub struct RawDialDataRequest {
    pub addr_idx: Option<u64>,
    pub num_bytes: Option<u64>,
}

#[verifier::ext_equal]
pub struct RawDialDataResponse {
    pub data_len: Option<nat>,
}

#[verifier::ext_equal]
pub enum RawOneof {
    DialReq(RawDialRequest),
    DialResp(RawDialResponse),
    DataReq(RawDialDataRequest),
    DataResp(RawDialDataResponse),
}

/// Later occurrences of a field overwrite earlier ones; address entries
/// accumulate in order; unknown fields are skipped.
pub open spec fn dial_req_fold(fs: Seq<WireField>, acc: RawDialRequest) -> RawDialRequest
    decreases fs.len(),
{
    if fs.len() == 0 {
        acc
    } else {
        let f = fs[0];
        let acc2 = if f.fno == 1 {
            match f.val {
                WireVal::Bytes(b) => RawDialRequest { addrs: acc.addrs.push(b), nonce: acc.nonce },
                _ => acc,
            }
        } else if f.fno == 2 {
            match f.val {
                WireVal::Fixed64(v) => RawDialRequest { addrs: acc.addrs, nonce: Some(v) },
                _ => acc,
            }
        } else {
            acc
        };
        dial_req_fold(fs.skip(1), acc2)
    }
}

pub open spec fn dial_resp_fold(fs: Seq<WireField>, acc: RawDialResponse) -> RawDialResponse
    decreases fs.len(),
{
    if fs.len() == 0 {
        acc
    } else {
        let f = fs[0];
        let acc2 = match f.val {
            WireVal::Varint(v) => if f.fno == 1 {
                RawDialResponse { status: Some(v), ..acc }
            } else if f.fno == 2 {
                RawDialResponse { addr_idx: Some(v), ..acc }
            } else if f.fno == 3 {
                RawDialResponse { dial_status: Some(v), ..acc }
            } else {
                acc
            },
            _ => acc,
        };
        dial_resp_fold(fs.skip(1), acc2)
    }
}

pub open spec fn data_req_fold(fs: Seq<WireField>, acc: RawDialDataRequest) -> RawDialDataRequest
    decreases fs.len(),
{
    if fs.len() == 0 {
        acc
    } else {
        let f = fs[0];
        let acc2 = match f.val {
            WireVal::Varint(v) => if f.fno == 1 {
                RawDialDataRequest { addr_idx: Some(v), ..acc }
            } else if f.fno == 2 {
                RawDialDataRequest { num_bytes: Some(v), ..acc }
            } else {
                acc
            },
            _ => acc,
        };
        data_req_fold(fs.skip(1), acc2)
    }
}

/// Only the length of the padding blob is retained; its content is
/// discarded unread.
pub open spec fn data_resp_fold(fs: Seq<WireField>, acc: RawDialDataResponse) -> RawDialDataResponse
    decreases fs.len(),
{
    if fs.len() == 0 {
        acc
    } else {
        let f = fs[0];
        let acc2 = if f.fno == 1 {
            match f.val {
                WireVal::Bytes(b) => RawDialDataResponse { data_len: Some(b.len()) },
                _ => acc,
            }
        } else {
            acc
        };
        data_resp_fold(fs.skip(1), acc2)
    }
}

pub open spec fn dial_back_fold(fs: Seq<WireField>, acc: Option<u64>) -> Option<u64>
    decreases fs.len(),
{
    if fs.len() == 0 {
        acc
    } else {
        let f = fs[0];
        let acc2 = if f.fno == 1 {
            match f.val {
                WireVal::Fixed64(v) => Some(v),
                _ => acc,
            }
        } else {
            acc
        };
        dial_back_fold(fs.skip(1), acc2)
    }
}

pub open spec fn empty_raw_dial_request() -> RawDialRequest {
    RawDialRequest { addrs: Seq::empty(), nonce: None }
}

pub open spec fn empty_raw_dial_response() -> RawDialResponse {
    RawDialResponse { status: None, addr_idx: None, dial_status: None }
}

pub open spec fn empty_raw_data_request() -> RawDialDataRequest {
    RawDialDataRequest { addr_idx: None, num_bytes: None }
}

/// The union envelope: the populated case a message's fields leave
/// behind, the last one winning; a sub-message that fails to parse is a
/// structural failure.
pub open spec fn msg_fold(fs: Seq<WireField>, acc: Option<RawOneof>) -> Option<Option<RawOneof>>
    decreases fs.len(),
{
    if fs.len() == 0 {
        Some(acc)
    } else {
        let f = fs[0];
        if 1 <= f.fno <= 4 {
            match f.val {
                WireVal::Bytes(b) => match parse_fields(b) {
                    None => None,
                    Some(sub) => {
                        let ro = if f.fno == 1 {
                            RawOneof::DialReq(dial_req_fold(sub, empty_raw_dial_request()))
                        } else if f.fno == 2 {
                            RawOneof::DialResp(dial_resp_fold(sub, empty_raw_dial_response()))
                        } else if f.fno == 3 {
                            RawOneof::DataReq(data_req_fold(sub, empty_raw_data_request()))
                        } else {
                            RawOneof::DataResp(data_resp_fold(sub, RawDialDataResponse { data_len: None }))
                        };
                        msg_fold(fs.skip(1), Some(ro))
                    },
                },
                _ => msg_fold(fs.skip(1), acc),
            }
        } else {
            msg_fold(fs.skip(1), acc)
        }
    }
}

/// Shared structural decode of the union envelope. The empty buffer is
/// malformed; a message that populates no known case is the wrong
/// variant for either expected kind.
pub open spec fn spec_decode_msg(s: Seq<u8>) -> Result<RawOneof, DecodeError> {
    if s.len() == 0 {
        Err(DecodeError::Malformed)
    } else {
        match parse_fields(s) {
            None => Err(DecodeError::Malformed),
            Some(fs) => match msg_fold(fs, None) {
                None => Err(DecodeError::Malformed),
                Some(None) => Err(DecodeError::UnexpectedVariant),
                Some(Some(ro)) => Ok(ro),
            },
        }
    }
}

/// The typed reading of a raw request: addresses must all be valid
/// multiaddresses (checked first), then the nonce must be present; a
/// padding message must carry its blob.
pub open spec fn req_from_raw(ro: RawOneof) -> Result<RequestV, DecodeError> {
    match ro {
        RawOneof::DialReq(r) => if !all_addrs_valid(r.addrs) {
            Err(DecodeError::InvalidAddress)
        } else {
            match r.nonce {
                None => Err(DecodeError::MissingField(FieldName::Nonce)),
                Some(n) => Ok(RequestV::Dial(DialRequestV { addrs: r.addrs, nonce: n })),
            }
        },
        RawOneof::DataResp(d) => match d.data_len {
            None => Err(DecodeError::MissingField(FieldName::Data)),
            Some(l) => Ok(RequestV::Data(l)),
        },
        _ => Err(DecodeError::UnexpectedVariant),
    }
}

/// The typed reading of a raw response: all three dial-report fields,
/// or both padding-demand fields, must be present; the address index
/// must fit its 32-bit wire type.
pub open spec fn resp_from_raw(ro: RawOneof) -> Result<Response, DecodeError> {
    match ro {
        RawOneof::DialResp(r) => match (r.status, r.addr_idx, r.dial_status) {
            (None, _, _) => Err(DecodeError::MissingField(FieldName::Status)),
            (Some(_), None, _) => Err(DecodeError::MissingField(FieldName::AddrIdx)),
            (Some(_), Some(_), None) => Err(DecodeError::MissingField(FieldName::DialStatus)),
            (Some(st), Some(ai), Some(ds)) => if ai > u32::MAX {
                Err(DecodeError::Malformed)
            } else {
                Ok(Response::Dial(DialResponse {
                    status: response_status_from_code(st),
                    addr_idx: ai as usize,
                    dial_status: dial_status_from_code(ds),
                }))
            },
        },
        RawOneof::DataReq(r) => match (r.addr_idx, r.num_bytes) {
            (None, _) => Err(DecodeError::MissingField(FieldName::AddrIdx)),
            (Some(_), None) => Err(DecodeError::MissingField(FieldName::NumBytes)),
            (Some(ai), Some(nb)) => if ai > u32::MAX {
                Err(DecodeError::Malformed)
            } else {
                Ok(Response::Data(DialDataRequest { addr_idx: ai as usize, num_bytes: nb }))
            },
        },
        _ => Err(DecodeError::UnexpectedVariant),
    }
}

pub open spec fn spec_decode_request(s: Seq<u8>) -> Result<RequestV, DecodeError> {
    match spec_decode_msg(s) {
        Err(e) => Err(e),
        Ok(ro) => req_from_raw(ro),
    }
}

pub open spec fn spec_decode_response(s: Seq<u8>) -> Result<Response, DecodeError> {
    match spec_decode_msg(s) {
        Err(e) => Err(e),
        Ok(ro) => resp_from_raw(ro),
    }
}

/// A dial-back is a bare message, not a union case; its nonce is
/// mandatory at this layer.
pub open spec fn spec_decode_dial_back(s: Seq<u8>) -> Result<DialBack, DecodeError> {
    if s.len() == 0 {
        Err(DecodeError::Malformed)
    } else {
        match parse_fields(s) {
            None => Err(DecodeError::Malformed),
            Some(fs) => match dial_back_fold(fs, None) {
                None => Err(DecodeError::MissingField(FieldName::Nonce)),
                Some(n) => Ok(DialBack { nonce: n }),
            },
        }
    }
}

// --- canonical encodings ---

pub open spec fn zeros(n: nat) -> Seq<u8> {
    Seq::new(n, |i: int| 0u8)
}

pub open spec fn addr_fields(addrs: Seq<Seq<u8>>) -> Seq<WireField> {
    addrs.map_values(|a: Seq<u8>| WireField { fno: 1, val: WireVal::Bytes(a) })
}

pub open spec fn dial_req_fields(addrs: Seq<Seq<u8>>, nonce: u64) -> Seq<WireField> {
    addr_fields(addrs) + seq![WireField { fno: 2, val: WireVal::Fixed64(nonce) }]
}

pub open spec fn data_resp_fields(n: nat) -> Seq<WireField> {
    seq![WireField { fno: 1, val: WireVal::Bytes(zeros(n)) }]
}

pub open spec fn dial_resp_fields(r: DialResponse) -> Seq<WireField> {
    seq![
        WireField { fno: 1, val: WireVal::Varint(response_status_code(r.status)) },
        WireField { fno: 2, val: WireVal::Varint(r.addr_idx as u64) },
        WireField { fno: 3, val: WireVal::Varint(dial_status_code(r.dial_status)) },
    ]
}

pub open spec fn data_req_fields(r: DialDataRequest) -> Seq<WireField> {
    seq![
        WireField { fno: 1, val: WireVal::Varint(r.addr_idx as u64) },
        WireField { fno: 2, val: WireVal::Varint(r.num_bytes) },
    ]
}

pub open spec fn spec_encode_request(v: RequestV) -> Seq<u8> {
    match v {
        RequestV::Dial(d) => encode_fields(
            seq![
                WireField {
                    fno: 1,
                    val: WireVal::Bytes(encode_fields(dial_req_fields(d.addrs, d.nonce))),
                },
            ],
        ),
        RequestV::Data(n) => encode_fields(
            seq![WireField { fno: 4, val: WireVal::Bytes(encode_fields(data_resp_fields(n))) }],
        ),
    }
}

pub open spec fn spec_encode_response(r: Response) -> Seq<u8> {
    match r {
        Response::Dial(d) => encode_fields(
            seq![WireField { fno: 2, val: WireVal::Bytes(encode_fields(dial_resp_fields(d))) }],
        ),
        Response::Data(d) => encode_fields(
            seq![WireField { fno: 3, val: WireVal::Bytes(encode_fields(data_req_fields(d))) }],
        ),
    }
}

pub open spec fn spec_encode_dial_back(b: DialBack) -> Seq<u8> {
    encode_fields(seq![WireField { fno: 1, val: WireVal::Fixed64(b.nonce) }])
}

/// The machine bounds under which a ghost request value can be framed at
/// all; every value held in the executable types satisfies them.
pub open spec fn encodable_request(v: RequestV) -> bool {
    match v {
        RequestV::Dial(d) => {
            &&& forall|i: int| 0 <= i < d.addrs.len() ==> (#[trigger] d.addrs[i]).len() <= u64::MAX
            &&& encode_fields(dial_req_fields(d.addrs, d.nonce)).len() <= u64::MAX
        },
        RequestV::Data(n) => n + 16 <= u64::MAX,
    }
}


// --- round-trip laws ---

proof fn lemma_encode_fields1(a: WireField)
    ensures
        encode_fields(seq![a]) == encode_field(a),
{
    assert(seq![a].skip(1) =~= Seq::<WireField>::empty());
    assert(encode_fields(seq![a]) =~= encode_field(a) + encode_fields(Seq::<WireField>::empty()));
    assert(encode_field(a) + Seq::<u8>::empty() =~= encode_field(a));
}

proof fn lemma_encode_fields2(a: WireField, b: WireField)
    ensures
        encode_fields(seq![a, b]) == encode_field(a) + encode_field(b),
{
    assert(seq![a, b].skip(1) =~= seq![b]);
    lemma_encode_fields1(b);
    assert(encode_fields(seq![a, b]) =~= encode_field(a) + encode_fields(seq![b]));
}

proof fn lemma_encode_fields3(a: WireField, b: WireField, c: WireField)
    ensures
        encode_fields(seq![a, b, c]) == encode_field(a) + (encode_field(b) + encode_field(c)),
{
    assert(seq![a, b, c].skip(1) =~= seq![b, c]);
    lemma_encode_fields2(b, c);
    assert(encode_fields(seq![a, b, c]) =~= encode_field(a) + encode_fields(seq![b, c]));
}

proof fn lemma_varint_field_len(fno: u64, v: u64)
    requires
        1 <= fno <= 15,
    ensures
        1 <= encode_field(WireField { fno, val: WireVal::Varint(v) }).len() <= 11,
{
    assert(varint((8 * fno as nat) as nat).len() == 1);
    crate::wire::lemma_varint_parse(v as nat, Seq::empty());
}

proof fn lemma_fixed64_field_len(fno: u64, v: u64)
    requires
        1 <= fno <= 15,
    ensures
        encode_field(WireField { fno, val: WireVal::Fixed64(v) }).len() == 9,
{
    assert(varint((8 * fno as nat + 1) as nat).len() == 1);
    crate::wire::lemma_le_bytes_len(v as nat, 8);
}

proof fn lemma_bytes_field_len(fno: u64, data: Seq<u8>)
    requires
        1 <= fno <= 15,
        data.len() <= u64::MAX,
    ensures
        2 + data.len() <= encode_field(WireField { fno, val: WireVal::Bytes(data) }).len() <= 11
            + data.len(),
{
    assert(varint((8 * fno as nat + 2) as nat).len() == 1);
    crate::wire::lemma_varint_parse(data.len(), Seq::empty());
}

proof fn lemma_dial_req_fold_addrs(addrs: Seq<Seq<u8>>, tail: Seq<WireField>, acc: RawDialRequest)
    ensures
        dial_req_fold(addr_fields(addrs) + tail, acc) == dial_req_fold(
            tail,
            RawDialRequest { addrs: acc.addrs + addrs, nonce: acc.nonce },
        ),
    decreases addrs.len(),
{
    if addrs.len() == 0 {
        assert(addr_fields(addrs) + tail =~= tail);
        assert(acc.addrs + addrs =~= acc.addrs);
        assert(RawDialRequest { addrs: acc.addrs + addrs, nonce: acc.nonce } =~= acc);
    } else {
        let fs = addr_fields(addrs) + tail;
        assert(fs[0] == WireField { fno: 1, val: WireVal::Bytes(addrs[0]) });
        assert(fs.skip(1) =~= addr_fields(addrs.skip(1)) + tail);
        let acc2 = RawDialRequest { addrs: acc.addrs.push(addrs[0]), nonce: acc.nonce };
        assert(dial_req_fold(fs, acc) == dial_req_fold(fs.skip(1), acc2));
        lemma_dial_req_fold_addrs(addrs.skip(1), tail, acc2);
        assert(acc.addrs.push(addrs[0]) + addrs.skip(1) =~= acc.addrs + addrs);
    }
}

proof fn lemma_dial_req_fields_wf(d: DialRequestV)
    requires
        encodable_request(RequestV::Dial(d)),
    ensures
        all_fields_wf(dial_req_fields(d.addrs, d.nonce)),
{
    let fs = dial_req_fields(d.addrs, d.nonce);
    assert forall|i: int| 0 <= i < fs.len() implies crate::wire::wf_field(#[trigger] fs[i]) by {
        if i < d.addrs.len() {
            assert(fs[i] == WireField { fno: 1, val: WireVal::Bytes(d.addrs[i]) });
        } else {
            assert(fs[i] == WireField { fno: 2, val: WireVal::Fixed64(d.nonce) });
        }
    }
}

proof fn lemma_single_field_msg(fno: u64, body: Seq<u8>)
    requires
        1 <= fno <= 4,
        body.len() <= u64::MAX,
    ensures
        ({
            let enc = encode_fields(seq![WireField { fno, val: WireVal::Bytes(body) }]);
            &&& enc.len() > 0
            &&& parse_fields(enc) == Some(seq![WireField { fno, val: WireVal::Bytes(body) }])
        }),
{
    let f = WireField { fno, val: WireVal::Bytes(body) };
    lemma_encode_fields_parse(seq![f]);
    lemma_encode_fields1(f);
    lemma_bytes_field_len(fno, body);
}

pub open spec fn msg_fold_acc_after(f: WireField, sub: Seq<WireField>) -> Option<RawOneof> {
    if f.fno == 1 {
        Some(RawOneof::DialReq(dial_req_fold(sub, empty_raw_dial_request())))
    } else if f.fno == 2 {
        Some(RawOneof::DialResp(dial_resp_fold(sub, empty_raw_dial_response())))
    } else if f.fno == 3 {
        Some(RawOneof::DataReq(data_req_fold(sub, empty_raw_data_request())))
    } else {
        Some(RawOneof::DataResp(data_resp_fold(sub, RawDialDataResponse { data_len: None })))
    }
}

/// One known union field, then nothing more: what the envelope fold
/// leaves behind.
proof fn lemma_msg_fold_single(f: WireField)
    requires
        1 <= f.fno <= 4,
        f.val is Bytes,
    ensures
        ({
            let b = f.val->Bytes_0;
            parse_fields(b) matches Some(sub) ==> msg_fold(seq![f], None) == Some(
                msg_fold_acc_after(f, sub),
            )
        }),
{
    reveal_with_fuel(msg_fold, 3);
    assert(seq![f].skip(1) =~= Seq::<WireField>::empty());
    assert(seq![f][0] == f);
    match parse_fields(f.val->Bytes_0) {
        Some(sub) => {
            assert(msg_fold(Seq::<WireField>::empty(), msg_fold_acc_after(f, sub))
                == Some(msg_fold_acc_after(f, sub)));
        },
        None => {},
    }
}

/// Round trip for requests, stated over the ghost view so that it also
/// covers address lists that would not pass validation: decoding a
/// canonical encoding recovers the value exactly, except that a dial
/// request carrying an invalid address is rejected as such.
#[verifier::rlimit(100)]
pub proof fn lemma_request_round_trip(v: RequestV)
    requires
        encodable_request(v),
    ensures
        spec_decode_request(spec_encode_request(v)) == (match v {
            RequestV::Dial(d) => if all_addrs_valid(d.addrs) {
                Ok::<RequestV, DecodeError>(v)
            } else {
                Err::<RequestV, DecodeError>(DecodeError::InvalidAddress)
            },
            RequestV::Data(_) => Ok::<RequestV, DecodeError>(v),
        }),
{
    match v {
        RequestV::Dial(d) => {
            let dfields = dial_req_fields(d.addrs, d.nonce);
            let sub = encode_fields(dfields);
            lemma_dial_req_fields_wf(d);
            lemma_encode_fields_parse(dfields);
            lemma_single_field_msg(1, sub);
            let f = WireField { fno: 1, val: WireVal::Bytes(sub) };
            lemma_msg_fold_single(f);
            let nff = WireField { fno: 2, val: WireVal::Fixed64(d.nonce) };
            lemma_dial_req_fold_addrs(d.addrs, seq![nff], empty_raw_dial_request());
            assert(Seq::<Seq<u8>>::empty() + d.addrs =~= d.addrs);
            let acc1 = RawDialRequest { addrs: d.addrs, nonce: None };
            let acc2 = RawDialRequest { addrs: d.addrs, nonce: Some(d.nonce) };
            assert(seq![nff].skip(1) =~= Seq::<WireField>::empty());
            assert(dial_req_fold(seq![nff], acc1) == dial_req_fold(
                Seq::<WireField>::empty(),
                acc2,
            ));
            assert(dial_req_fold(Seq::<WireField>::empty(), acc2) == acc2);
            let enc = spec_encode_request(v);
            assert(spec_decode_msg(enc) == Ok::<RawOneof, DecodeError>(RawOneof::DialReq(acc2)));
            if all_addrs_valid(d.addrs) {
                assert(DialRequestV { addrs: d.addrs, nonce: d.nonce } =~= d);
            }
        },
        RequestV::Data(n) => {
            let dfields = data_resp_fields(n);
            let sub = encode_fields(dfields);
            assert(zeros(n).len() == n);
            assert(all_fields_wf(dfields)) by {
                assert(dfields[0] == WireField { fno: 1, val: WireVal::Bytes(zeros(n)) });
            }
            lemma_encode_fields_parse(dfields);
            lemma_encode_fields1(dfields[0]);
            lemma_bytes_field_len(1, zeros(n));
            lemma_single_field_msg(4, sub);
            let f = WireField { fno: 4, val: WireVal::Bytes(sub) };
            lemma_msg_fold_single(f);
            reveal_with_fuel(data_resp_fold, 3);
            assert(dfields.skip(1) =~= Seq::<WireField>::empty());
            let raw = data_resp_fold(dfields, RawDialDataResponse { data_len: None });
            assert(raw == RawDialDataResponse { data_len: Some(n) });
            let enc = spec_encode_request(v);
            assert(spec_decode_msg(enc) == Ok::<RawOneof, DecodeError>(RawOneof::DataResp(raw)));
        },
    }
}

/// Round trip for responses: decoding a canonical encoding of any
/// well-formed response recovers it exactly.
#[verifier::rlimit(100)]
pub proof fn lemma_response_round_trip(r: Response)
    requires
        r.wf(),
    ensures
        spec_decode_response(spec_encode_response(r)) == Ok::<Response, DecodeError>(r),
{
    match r {
        Response::Dial(d) => {
            let dfields = dial_resp_fields(d);
            assert(all_fields_wf(dfields));
            lemma_encode_fields_parse(dfields);
            let sub = encode_fields(dfields);
            lemma_encode_fields3(dfields[0], dfields[1], dfields[2]);
            lemma_varint_field_len(1, response_status_code(d.status));
            lemma_varint_field_len(2, d.addr_idx as u64);
            lemma_varint_field_len(3, dial_status_code(d.dial_status));
            lemma_single_field_msg(2, sub);
            let f = WireField { fno: 2, val: WireVal::Bytes(sub) };
            lemma_msg_fold_single(f);
            reveal_with_fuel(dial_resp_fold, 5);
            assert(dfields.skip(1) =~= seq![dfields[1], dfields[2]]);
            assert(seq![dfields[1], dfields[2]].skip(1) =~= seq![dfields[2]]);
            assert(seq![dfields[2]].skip(1) =~= Seq::<WireField>::empty());
            let raw = dial_resp_fold(dfields, empty_raw_dial_response());
            assert(raw == RawDialResponse {
                status: Some(response_status_code(d.status)),
                addr_idx: Some(d.addr_idx as u64),
                dial_status: Some(dial_status_code(d.dial_status)),
            });
            let enc = spec_encode_response(r);
            assert(spec_decode_msg(enc) == Ok::<RawOneof, DecodeError>(RawOneof::DialResp(raw)));
            assert(response_status_from_code(response_status_code(d.status)) == d.status);
            assert(dial_status_from_code(dial_status_code(d.dial_status)) == d.dial_status);
        },
        Response::Data(d) => {
            let dfields = data_req_fields(d);
            assert(all_fields_wf(dfields));
            lemma_encode_fields_parse(dfields);
            let sub = encode_fields(dfields);
            lemma_encode_fields2(dfields[0], dfields[1]);
            lemma_varint_field_len(1, d.addr_idx as u64);
            lemma_varint_field_len(2, d.num_bytes);
            lemma_single_field_msg(3, sub);
            let f = WireField { fno: 3, val: WireVal::Bytes(sub) };
            lemma_msg_fold_single(f);
            reveal_with_fuel(data_req_fold, 4);
            assert(dfields.skip(1) =~= seq![dfields[1]]);
            assert(seq![dfields[1]].skip(1) =~= Seq::<WireField>::empty());
            let raw = data_req_fold(dfields, empty_raw_data_request());
            assert(raw == RawDialDataRequest {
                addr_idx: Some(d.addr_idx as u64),
                num_bytes: Some(d.num_bytes),
            });
            let enc = spec_encode_response(r);
            assert(spec_decode_msg(enc) == Ok::<RawOneof, DecodeError>(RawOneof::DataReq(raw)));
        },
    }
}

// --- executable decoding ---

enum RawOneofX {
    DialReq(Vec<Vec<u8>>, Option<u64>),
    DialResp(Option<u64>, Option<u64>, Option<u64>),
    DataReq(Option<u64>, Option<u64>),
    DataResp(Option<usize>),
}

spec fn raw_oneof_view(x: RawOneofX) -> RawOneof {
    match x {
        RawOneofX::DialReq(addrs, nonce) => RawOneof::DialReq(
            RawDialRequest { addrs: addrs@.map_values(|a: Vec<u8>| a@), nonce },
        ),
        RawOneofX::DialResp(st, ai, ds) => RawOneof::DialResp(
            RawDialResponse { status: st, addr_idx: ai, dial_status: ds },
        ),
        RawOneofX::DataReq(ai, nb) => RawOneof::DataReq(
            RawDialDataRequest { addr_idx: ai, num_bytes: nb },
        ),
        RawOneofX::DataResp(dl) => RawOneof::DataResp(
            RawDialDataResponse {
                data_len: match dl {
                    Some(l) => Some(l as nat),
                    None => None,
                },
            },
        ),
    }
}

fn run_dial_req_fold(fs: &Vec<WireFieldX>) -> (r: (Vec<Vec<u8>>, Option<u64>))
    ensures
        dial_req_fold(fields_view(fs@), empty_raw_dial_request()) == (RawDialRequest {
            addrs: r.0@.map_values(|a: Vec<u8>| a@),
            nonce: r.1,
        }),
{
    let mut addrs: Vec<Vec<u8>> = Vec::new();
    let mut nonce: Option<u64> = None;
    let mut i: usize = 0;
    proof {
        assert(addrs@.map_values(|a: Vec<u8>| a@) =~= Seq::<Seq<u8>>::empty());
    }
    proof {
        assert(fields_view(fs@).skip(0) =~= fields_view(fs@));
    }
    while i < fs.len()
        invariant
            i <= fs@.len(),
            dial_req_fold(fields_view(fs@), empty_raw_dial_request()) == dial_req_fold(
                fields_view(fs@).skip(i as int),
                (RawDialRequest { addrs: addrs@.map_values(|a: Vec<u8>| a@), nonce }),
            ),
        decreases fs@.len() - i,
    {
        let ghost pre = RawDialRequest { addrs: addrs@.map_values(|a: Vec<u8>| a@), nonce };
        proof {
            assert(fields_view(fs@).skip(i as int)[0] == fs@[i as int]@);
            assert(fields_view(fs@).skip(i as int).skip(1) =~= fields_view(fs@).skip(i + 1));
        }
        let f = &fs[i];
        if f.fno == 1 {
            match &f.val {
                WireValX::Bytes(b) => {
                    let ghost olda = addrs@;
                    addrs.push(vstd::slice::slice_to_vec(b.as_slice()));
                    proof {
                        assert(addrs@.map_values(|a: Vec<u8>| a@) =~= olda.map_values(
                            |a: Vec<u8>| a@,
                        ).push(b@));
                    }
                },
                _ => {},
            }
        } else if f.fno == 2 {
            match &f.val {
                WireValX::Fixed64(v) => {
                    nonce = Some(*v);
                },
                _ => {},
            }
        }
        i = i + 1;
    }
    proof {
        assert(fields_view(fs@).skip(i as int) =~= Seq::<WireField>::empty());
    }
    (addrs, nonce)
}

fn run_dial_resp_fold(fs: &Vec<WireFieldX>) -> (r: (Option<u64>, Option<u64>, Option<u64>))
    ensures
        dial_resp_fold(fields_view(fs@), empty_raw_dial_response()) == (RawDialResponse {
            status: r.0,
            addr_idx: r.1,
            dial_status: r.2,
        }),
{
    let mut status: Option<u64> = None;
    let mut addr_idx: Option<u64> = None;
    let mut dial_status: Option<u64> = None;
    let mut i: usize = 0;
    proof {
        assert(fields_view(fs@).skip(0) =~= fields_view(fs@));
    }
    while i < fs.len()
        invariant
            i <= fs@.len(),
            dial_resp_fold(fields_view(fs@), empty_raw_dial_response()) == dial_resp_fold(
                fields_view(fs@).skip(i as int),
                (RawDialResponse { status, addr_idx, dial_status }),
            ),
        decreases fs@.len() - i,
    {
        proof {
            assert(fields_view(fs@).skip(i as int)[0] == fs@[i as int]@);
            assert(fields_view(fs@).skip(i as int).skip(1) =~= fields_view(fs@).skip(i + 1));
        }
        let f = &fs[i];
        match &f.val {
            WireValX::Varint(v) => {
                if f.fno == 1 {
                    status = Some(*v);
                } else if f.fno == 2 {
                    addr_idx = Some(*v);
                } else if f.fno == 3 {
                    dial_status = Some(*v);
                }
            },
            _ => {},
        }
        i = i + 1;
    }
    proof {
        assert(fields_view(fs@).skip(i as int) =~= Seq::<WireField>::empty());
    }
    (status, addr_idx, dial_status)
}

fn run_data_req_fold(fs: &Vec<WireFieldX>) -> (r: (Option<u64>, Option<u64>))
    ensures
        data_req_fold(fields_view(fs@), empty_raw_data_request()) == (RawDialDataRequest {
            addr_idx: r.0,
            num_bytes: r.1,
        }),
{
    let mut addr_idx: Option<u64> = None;
    let mut num_bytes: Option<u64> = None;
    let mut i: usize = 0;
    proof {
        assert(fields_view(fs@).skip(0) =~= fields_view(fs@));
    }
    while i < fs.len()
        invariant
            i <= fs@.len(),
            data_req_fold(fields_view(fs@), empty_raw_data_request()) == data_req_fold(
                fields_view(fs@).skip(i as int),
                (RawDialDataRequest { addr_idx, num_bytes }),
            ),
        decreases fs@.len() - i,
    {
        proof {
            assert(fields_view(fs@).skip(i as int)[0] == fs@[i as int]@);
            assert(fields_view(fs@).skip(i as int).skip(1) =~= fields_view(fs@).skip(i + 1));
        }
        let f = &fs[i];
        match &f.val {
            WireValX::Varint(v) => {
                if f.fno == 1 {
                    addr_idx = Some(*v);
                } else if f.fno == 2 {
                    num_bytes = Some(*v);
                }
            },
            _ => {},
        }
        i = i + 1;
    }
    proof {
        assert(fields_view(fs@).skip(i as int) =~= Seq::<WireField>::empty());
    }
    (addr_idx, num_bytes)
}

fn run_data_resp_fold(fs: &Vec<WireFieldX>) -> (r: Option<usize>)
    ensures
        data_resp_fold(fields_view(fs@), RawDialDataResponse { data_len: None })
            == (RawDialDataResponse {
            data_len: match r {
                Some(l) => Some(l as nat),
                None => None,
            },
        }),
{
    let mut data_len: Option<usize> = None;
    let mut i: usize = 0;
    proof {
        assert(fields_view(fs@).skip(0) =~= fields_view(fs@));
    }
    while i < fs.len()
        invariant
            i <= fs@.len(),
            data_resp_fold(fields_view(fs@), RawDialDataResponse { data_len: None })
                == data_resp_fold(
                fields_view(fs@).skip(i as int),
                (RawDialDataResponse {
                    data_len: match data_len {
                        Some(l) => Some(l as nat),
                        None => None,
                    },
                }),
            ),
        decreases fs@.len() - i,
    {
        proof {
            assert(fields_view(fs@).skip(i as int)[0] == fs@[i as int]@);
            assert(fields_view(fs@).skip(i as int).skip(1) =~= fields_view(fs@).skip(i + 1));
        }
        let f = &fs[i];
        if f.fno == 1 {
            match &f.val {
                WireValX::Bytes(b) => {
                    data_len = Some(b.len());
                },
                _ => {},
            }
        }
        i = i + 1;
    }
    proof {
        assert(fields_view(fs@).skip(i as int) =~= Seq::<WireField>::empty());
    }
    data_len
}

fn run_dial_back_fold(fs: &Vec<WireFieldX>) -> (r: Option<u64>)
    ensures
        dial_back_fold(fields_view(fs@), None) == r,
{
    let mut nonce: Option<u64> = None;
    let mut i: usize = 0;
    proof {
        assert(fields_view(fs@).skip(0) =~= fields_view(fs@));
    }
    while i < fs.len()
        invariant
            i <= fs@.len(),
            dial_back_fold(fields_view(fs@), None) == dial_back_fold(
                fields_view(fs@).skip(i as int),
                nonce,
            ),
        decreases fs@.len() - i,
    {
        proof {
            assert(fields_view(fs@).skip(i as int)[0] == fs@[i as int]@);
            assert(fields_view(fs@).skip(i as int).skip(1) =~= fields_view(fs@).skip(i + 1));
        }
        let f = &fs[i];
        if f.fno == 1 {
            match &f.val {
                WireValX::Fixed64(v) => {
                    nonce = Some(*v);
                },
                _ => {},
            }
        }
        i = i + 1;
    }
    proof {
        assert(fields_view(fs@).skip(i as int) =~= Seq::<WireField>::empty());
    }
    nonce
}

fn run_msg_fold(fs: &Vec<WireFieldX>) -> (r: Option<Option<RawOneofX>>)
    ensures
        match r {
            None => msg_fold(fields_view(fs@), None) is None,
            Some(opt) => msg_fold(fields_view(fs@), None) == Some(
                match opt {
                    None => None::<RawOneof>,
                    Some(x) => Some(raw_oneof_view(x)),
                },
            ),
        },
{
    let mut cur: Option<RawOneofX> = None;
    let mut i: usize = 0;
    proof {
        assert(fields_view(fs@).skip(0) =~= fields_view(fs@));
    }
    while i < fs.len()
        invariant
            i <= fs@.len(),
            msg_fold(fields_view(fs@), None) == msg_fold(
                fields_view(fs@).skip(i as int),
                match cur {
                    None => None::<RawOneof>,
                    Some(x) => Some(raw_oneof_view(x)),
                },
            ),
        decreases fs@.len() - i,
    {
        proof {
            assert(fields_view(fs@).skip(i as int)[0] == fs@[i as int]@);
            assert(fields_view(fs@).skip(i as int).skip(1) =~= fields_view(fs@).skip(i + 1));
        }
        let f = &fs[i];
        if 1 <= f.fno && f.fno <= 4 {
            match &f.val {
                WireValX::Bytes(b) => {
                    match parse_fields_x(b.as_slice()) {
                        None => {
                            return None;
                        },
                        Some(sub) => {
                            if f.fno == 1 {
                                let (addrs, nonce) = run_dial_req_fold(&sub);
                                cur = Some(RawOneofX::DialReq(addrs, nonce));
                            } else if f.fno == 2 {
                                let (st, ai, ds) = run_dial_resp_fold(&sub);
                                cur = Some(RawOneofX::DialResp(st, ai, ds));
                            } else if f.fno == 3 {
                                let (ai, nb) = run_data_req_fold(&sub);
                                cur = Some(RawOneofX::DataReq(ai, nb));
                            } else {
                                let dl = run_data_resp_fold(&sub);
                                cur = Some(RawOneofX::DataResp(dl));
                            }
                        },
                    }
                },
                _ => {},
            }
        }
        i = i + 1;
    }
    proof {
        assert(fields_view(fs@).skip(i as int) =~= Seq::<WireField>::empty());
    }
    Some(cur)
}

/// Decodes one requester-to-verifier message. The result is exactly what
/// the specification-level decoder gives for these bytes: the typed value
/// on success, and the precise error class otherwise.
#[verifier::loop_isolation(false)]
pub fn decode_request(bytes: &[u8]) -> (r: Result<Request, DecodeError>)
    ensures
        match r {
            Ok(v) => spec_decode_request(bytes@) == Ok::<RequestV, DecodeError>(v@),
            Err(e) => spec_decode_request(bytes@) == Err::<RequestV, DecodeError>(e),
        },
        r matches Ok(Request::Dial(d)) ==> d.wf(),
{
    if bytes.len() == 0 {
        return Err(DecodeError::Malformed);
    }
    let fs = match parse_fields_x(bytes) {
        None => {
            return Err(DecodeError::Malformed);
        },
        Some(fs) => fs,
    };
    let folded = match run_msg_fold(&fs) {
        None => {
            return Err(DecodeError::Malformed);
        },
        Some(x) => x,
    };
    let raw = match folded {
        None => {
            return Err(DecodeError::UnexpectedVariant);
        },
        Some(x) => x,
    };
    match raw {
        RawOneofX::DialReq(addr_bytes, nonce) => {
            let ghost raw_addrs = addr_bytes@.map_values(|a: Vec<u8>| a@);
            let mut addrs: Vec<Addr> = Vec::new();
            let mut i: usize = 0;
            while i < addr_bytes.len()
                invariant
                    i <= addr_bytes@.len(),
                    raw_addrs == addr_bytes@.map_values(|a: Vec<u8>| a@),
                    addrs@.len() == i,
                    forall|j: int| 0 <= j < i ==> (#[trigger] addrs@[j])@ == raw_addrs[j],
                    forall|j: int| 0 <= j < i ==> multiaddr_valid(#[trigger] raw_addrs[j]),
                decreases addr_bytes@.len() - i,
            {
                match Addr::from_slice(addr_bytes[i].as_slice()) {
                    None => {
                        proof {
                            assert(raw_addrs[i as int] == addr_bytes@[i as int]@);
                            assert(!multiaddr_valid(raw_addrs[i as int]));
                            assert(!all_addrs_valid(raw_addrs));
                        }
                        return Err(DecodeError::InvalidAddress);
                    },
                    Some(a) => {
                        addrs.push(a);
                    },
                }
                i = i + 1;
            }
            assert(all_addrs_valid(raw_addrs));
            match nonce {
                None => Err(DecodeError::MissingField(FieldName::Nonce)),
                Some(n) => {
                    let req = Request::Dial(DialRequest { addrs, nonce: n });
                    proof {
                        assert(addrs@.map_values(|a: Addr| a@) =~= raw_addrs);
                    }
                    Ok(req)
                },
            }
        },
        RawOneofX::DataResp(dl) => match dl {
            None => Err(DecodeError::MissingField(FieldName::Data)),
            Some(l) => Ok(Request::Data(DialDataResponse { data_count: l })),
        },
        _ => Err(DecodeError::UnexpectedVariant),
    }
}

/// Decodes one verifier-to-requester message, with the same exactness.
pub fn decode_response(bytes: &[u8]) -> (r: Result<Response, DecodeError>)
    ensures
        match r {
            Ok(v) => spec_decode_response(bytes@) == Ok::<Response, DecodeError>(v),
            Err(e) => spec_decode_response(bytes@) == Err::<Response, DecodeError>(e),
        },
        r matches Ok(v) ==> v.wf(),
{
    if bytes.len() == 0 {
        return Err(DecodeError::Malformed);
    }
    let fs = match parse_fields_x(bytes) {
        None => {
            return Err(DecodeError::Malformed);
        },
        Some(fs) => fs,
    };
    let folded = match run_msg_fold(&fs) {
        None => {
            return Err(DecodeError::Malformed);
        },
        Some(x) => x,
    };
    let raw = match folded {
        None => {
            return Err(DecodeError::UnexpectedVariant);
        },
        Some(x) => x,
    };
    match raw {
        RawOneofX::DialResp(st, ai, ds) => {
            let st = match st {
                None => {
                    return Err(DecodeError::MissingField(FieldName::Status));
                },
                Some(v) => v,
            };
            let ai = match ai {
                None => {
                    return Err(DecodeError::MissingField(FieldName::AddrIdx));
                },
                Some(v) => v,
            };
            let ds = match ds {
                None => {
                    return Err(DecodeError::MissingField(FieldName::DialStatus));
                },
                Some(v) => v,
            };
            if ai > u32::MAX as u64 {
                return Err(DecodeError::Malformed);
            }
            Ok(Response::Dial(DialResponse {
                status: crate::msg::status_of_code(st),
                addr_idx: ai as usize,
                dial_status: crate::msg::dial_status_of_code(ds),
            }))
        },
        RawOneofX::DataReq(ai, nb) => {
            let ai = match ai {
                None => {
                    return Err(DecodeError::MissingField(FieldName::AddrIdx));
                },
                Some(v) => v,
            };
            let nb = match nb {
                None => {
                    return Err(DecodeError::MissingField(FieldName::NumBytes));
                },
                Some(v) => v,
            };
            if ai > u32::MAX as u64 {
                return Err(DecodeError::Malformed);
            }
            Ok(Response::Data(DialDataRequest { addr_idx: ai as usize, num_bytes: nb }))
        },
        _ => Err(DecodeError::UnexpectedVariant),
    }
}

/// Decodes one dial-back message, with the same exactness.
pub fn decode_dial_back(bytes: &[u8]) -> (r: Result<DialBack, DecodeError>)
    ensures
        match r {
            Ok(v) => spec_decode_dial_back(bytes@) == Ok::<DialBack, DecodeError>(v),
            Err(e) => spec_decode_dial_back(bytes@) == Err::<DialBack, DecodeError>(e),
        },
{
    if bytes.len() == 0 {
        return Err(DecodeError::Malformed);
    }
    let fs = match parse_fields_x(bytes) {
        None => {
            return Err(DecodeError::Malformed);
        },
        Some(fs) => fs,
    };
    match run_dial_back_fold(&fs) {
        None => Err(DecodeError::MissingField(FieldName::Nonce)),
        Some(n) => Ok(DialBack { nonce: n }),
    }
}

/// Round trip for dial-backs: unconditional over the whole nonce space.
pub proof fn lemma_dial_back_round_trip(b: DialBack)
    ensures
        spec_decode_dial_back(spec_encode_dial_back(b)) == Ok::<DialBack, DecodeError>(b),
{
    let f = WireField { fno: 1, val: WireVal::Fixed64(b.nonce) };
    lemma_encode_fields_parse(seq![f]);
    lemma_encode_fields1(f);
    lemma_fixed64_field_len(1, b.nonce);
    reveal_with_fuel(dial_back_fold, 3);
    assert(seq![f].skip(1) =~= Seq::<WireField>::empty());
    assert(dial_back_fold(seq![f], None) == Some(b.nonce));
}

// --- executable encoding ---

/// Encodes one requester-to-verifier message canonically. An outbound
/// data chunk must respect the per-message padding ceiling; the encoding
/// of a value is a function of the value alone, so repeated calls yield
/// byte-identical output.
#[verifier::loop_isolation(false)]
pub fn encode_request(req: &Request) -> (out: Vec<u8>)
    requires
        req.wf(),
    ensures
        out@ == spec_encode_request(req@),
        encodable_request(req@),
{
    match req {
        Request::Dial(d) => {
            let ghost va = d.addrs@.map_values(|a: Addr| a@);
            let mut sub: Vec<u8> = Vec::new();
            let mut i: usize = 0;
            proof {
                assert(addr_fields(va.take(0)) =~= Seq::<WireField>::empty());
            }
            while i < d.addrs.len()
                invariant
                    i <= d.addrs@.len(),
                    sub@ == encode_fields(addr_fields(va.take(i as int))),
                    forall|j: int| 0 <= j < i ==> (#[trigger] va[j]).len() <= u64::MAX,
                decreases d.addrs@.len() - i,
            {
                let a = &d.addrs[i];
                let alen = a.as_bytes().len();
                proof {
                    assert(va[i as int].len() == alen as nat);
                }
                push_bytes_field(&mut sub, 1, a.as_bytes().as_slice());
                proof {
                    let f = WireField { fno: 1, val: WireVal::Bytes(va[i as int]) };
                    assert(addr_fields(va.take(i + 1)) =~= addr_fields(va.take(i as int)).push(f));
                    lemma_encode_fields_snoc(addr_fields(va.take(i as int)), f);
                }
                i = i + 1;
            }
            proof {
                assert(va.take(va.len() as int) =~= va);
            }
            push_fixed64_field(&mut sub, 2, d.nonce);
            proof {
                let nf = WireField { fno: 2, val: WireVal::Fixed64(d.nonce) };
                lemma_encode_fields_snoc(addr_fields(va), nf);
                assert(addr_fields(va).push(nf) =~= dial_req_fields(va, d.nonce));
            }
            let sub_len = sub.len();
            proof {
                assert(encode_fields(dial_req_fields(va, d.nonce)).len() == sub_len as nat);
            }
            let mut out: Vec<u8> = Vec::new();
            push_bytes_field(&mut out, 1, sub.as_slice());
            proof {
                lemma_encode_fields1(WireField { fno: 1, val: WireVal::Bytes(sub@) });
                assert(Seq::<u8>::empty() + encode_field(
                    WireField { fno: 1, val: WireVal::Bytes(sub@) },
                ) =~= encode_field(WireField { fno: 1, val: WireVal::Bytes(sub@) }));
            }
            out
        },
        Request::Data(d) => {
            let n = d.data_count;
            let mut z: Vec<u8> = Vec::new();
            let mut i: usize = 0;
            proof {
                assert(z@ =~= zeros(0));
            }
            while i < n
                invariant
                    i <= n,
                    z@ == zeros(i as nat),
                decreases n - i,
            {
                z.push(0u8);
                proof {
                    assert(zeros((i + 1) as nat) =~= zeros(i as nat).push(0u8));
                }
                i = i + 1;
            }
            let mut sub: Vec<u8> = Vec::new();
            push_bytes_field(&mut sub, 1, z.as_slice());
            let mut out: Vec<u8> = Vec::new();
            push_bytes_field(&mut out, 4, sub.as_slice());
            proof {
                lemma_encode_fields1(WireField { fno: 1, val: WireVal::Bytes(zeros(n as nat)) });
                assert(Seq::<u8>::empty() + encode_field(
                    WireField { fno: 1, val: WireVal::Bytes(zeros(n as nat)) },
                ) =~= encode_field(WireField { fno: 1, val: WireVal::Bytes(zeros(n as nat)) }));
                lemma_encode_fields1(WireField { fno: 4, val: WireVal::Bytes(sub@) });
                assert(Seq::<u8>::empty() + encode_field(
                    WireField { fno: 4, val: WireVal::Bytes(sub@) },
                ) =~= encode_field(WireField { fno: 4, val: WireVal::Bytes(sub@) }));
            }
            out
        },
    }
}

/// Encodes one verifier-to-requester message canonically.
pub fn encode_response(resp: &Response) -> (out: Vec<u8>)
    requires
        resp.wf(),
    ensures
        out@ == spec_encode_response(*resp),
{
    match resp {
        Response::Dial(d) => {
            let mut sub: Vec<u8> = Vec::new();
            push_varint_field(&mut sub, 1, crate::msg::status_to_code(&d.status));
            push_varint_field(&mut sub, 2, d.addr_idx as u64);
            push_varint_field(&mut sub, 3, crate::msg::dial_status_to_code(&d.dial_status));
            proof {
                let fs = dial_resp_fields(*d);
                lemma_encode_fields3(fs[0], fs[1], fs[2]);
                assert(sub@ =~= encode_fields(fs));
            }
            let mut out: Vec<u8> = Vec::new();
            push_bytes_field(&mut out, 2, sub.as_slice());
            proof {
                lemma_encode_fields1(WireField { fno: 2, val: WireVal::Bytes(sub@) });
                assert(Seq::<u8>::empty() + encode_field(
                    WireField { fno: 2, val: WireVal::Bytes(sub@) },
                ) =~= encode_field(WireField { fno: 2, val: WireVal::Bytes(sub@) }));
            }
            out
        },
        Response::Data(d) => {
            let mut sub: Vec<u8> = Vec::new();
            push_varint_field(&mut sub, 1, d.addr_idx as u64);
            push_varint_field(&mut sub, 2, d.num_bytes);
            proof {
                let fs = data_req_fields(*d);
                lemma_encode_fields2(fs[0], fs[1]);
                assert(sub@ =~= encode_fields(fs));
            }
            let mut out: Vec<u8> = Vec::new();
            push_bytes_field(&mut out, 3, sub.as_slice());
            proof {
                lemma_encode_fields1(WireField { fno: 3, val: WireVal::Bytes(sub@) });
                assert(Seq::<u8>::empty() + encode_field(
                    WireField { fno: 3, val: WireVal::Bytes(sub@) },
                ) =~= encode_field(WireField { fno: 3, val: WireVal::Bytes(sub@) }));
            }
            out
        },
    }
}

/// Encodes one dial-back message canonically.
pub fn encode_dial_back(b: &DialBack) -> (out: Vec<u8>)
    ensures
        out@ == spec_encode_dial_back(*b),
{
    let mut out: Vec<u8> = Vec::new();
    push_fixed64_field(&mut out, 1, b.nonce);
    proof {
        lemma_encode_fields1(WireField { fno: 1, val: WireVal::Fixed64(b.nonce) });
        assert(Seq::<u8>::empty() + encode_field(
            WireField { fno: 1, val: WireVal::Fixed64(b.nonce) },
        ) =~= encode_field(WireField { fno: 1, val: WireVal::Fixed64(b.nonce) }));
    }
    out
}

/// Lays a varint length prefix in front of an encoded message body: the
/// frame that goes onto the stream.
#[verifier::loop_isolation(false)]
pub fn frame(body: &[u8]) -> (out: Vec<u8>)
    ensures
        out@ == varint(body@.len()) + body@,
{
    let mut out: Vec<u8> = Vec::new();
    push_varint(&mut out, body.len() as u64);
    let ghost mid = out@;
    let mut i: usize = 0;
    while i < body.len()
        invariant
            i <= body@.len(),
            out@ == mid + body@.take(i as int),
        decreases body@.len() - i,
    {
        out.push(*vstd::slice::slice_index_get(body, i));
        proof {
            assert(mid + body@.take(i + 1) =~= (mid + body@.take(i as int)).push(
                body@[i as int],
            ));
        }
        i = i + 1;
    }
    proof {
        assert(body@.take(body@.len() as int) =~= body@);
        assert(Seq::<u8>::empty() + varint(body@.len()) =~= varint(body@.len()));
    }
    out
}

// --- size ceilings ---

proof fn lemma_varint_len_two(n: nat)
    requires
        n < 16384,
    ensures
        n < 128 ==> varint(n).len() == 1,
        128 <= n ==> varint(n).len() == 2,
{
    if n >= 128 {
        assert(n / 128 < 128);
        assert(varint(n / 128).len() == 1);
    }
}

/// The data-carrying message is what fills a frame: a full chunk of 4096
/// padding bytes encodes to a 4102-byte body, a 4104-byte frame, and no
/// legal chunk exceeds that.
pub proof fn lemma_data_response_sizes()
    ensures
        spec_encode_request(RequestV::Data(4096)).len() == 4102,
        (varint(spec_encode_request(RequestV::Data(4096)).len()) + spec_encode_request(
            RequestV::Data(4096),
        )).len() == 4104,
        forall|n: nat| n <= 4096 ==> (varint(
            (#[trigger] spec_encode_request(RequestV::Data(n))).len(),
        ) + spec_encode_request(RequestV::Data(n))).len() <= 4104,
{
    assert forall|n: nat| n <= 4096 implies (varint(
        (#[trigger] spec_encode_request(RequestV::Data(n))).len(),
    ) + spec_encode_request(RequestV::Data(n))).len() <= 4104 && (n == 4096
        ==> spec_encode_request(RequestV::Data(n)).len() == 4102) by {
        let inner = WireField { fno: 1, val: WireVal::Bytes(zeros(n)) };
        lemma_encode_fields1(inner);
        assert(zeros(n).len() == n);
        lemma_varint_len_two(n);
        let sub = encode_fields(data_resp_fields(n));
        assert(sub.len() <= 4099);
        let outer = WireField { fno: 4, val: WireVal::Bytes(sub) };
        lemma_encode_fields1(outer);
        lemma_varint_len_two(sub.len());
        assert(spec_encode_request(RequestV::Data(n)).len() <= 4102);
        lemma_varint_len_two(spec_encode_request(RequestV::Data(n)).len());
    }
    assert(spec_encode_request(RequestV::Data(4096)).len() == 4102);
    lemma_varint_len_two(4102);
}

/// Every dial-back encodes to a nine-byte body and a ten-byte frame.
pub proof fn lemma_dial_back_size(b: DialBack)
    ensures
        spec_encode_dial_back(b).len() == 9,
        (varint(spec_encode_dial_back(b).len()) + spec_encode_dial_back(b)).len() == 10,
{
    let f = WireField { fno: 1, val: WireVal::Fixed64(b.nonce) };
    lemma_encode_fields1(f);
    crate::wire::lemma_le_bytes_len(b.nonce as nat, 8);
    assert(varint(9).len() == 1);
}

// --- error classification ---

/// Exactly which byte strings a request decode rejects, and with what:
/// the empty buffer and structural failures are malformed; an address
/// failure is precisely an invalid entry in a dial request's list; each
/// missing-field failure names its field; the remaining union cases are
/// the unexpected variants.
pub proof fn lemma_request_error_classes(s: Seq<u8>)
    ensures
        s.len() == 0 ==> spec_decode_request(s) == Err::<RequestV, DecodeError>(
            DecodeError::Malformed,
        ),
        spec_decode_request(s) == Err::<RequestV, DecodeError>(DecodeError::InvalidAddress) <==> (
        spec_decode_msg(s) matches Ok(ro) && ro matches RawOneof::DialReq(r)
            && !all_addrs_valid(r.addrs)),
        spec_decode_request(s) == Err::<RequestV, DecodeError>(
            DecodeError::MissingField(FieldName::Nonce),
        ) <==> (spec_decode_msg(s) matches Ok(ro) && ro matches RawOneof::DialReq(r)
            && all_addrs_valid(r.addrs) && r.nonce is None),
        spec_decode_request(s) == Err::<RequestV, DecodeError>(
            DecodeError::MissingField(FieldName::Data),
        ) <==> (spec_decode_msg(s) matches Ok(ro) && ro matches RawOneof::DataResp(d)
            && d.data_len is None),
        spec_decode_request(s) == Err::<RequestV, DecodeError>(DecodeError::UnexpectedVariant)
            <==> (spec_decode_msg(s) == Err::<RawOneof, DecodeError>(DecodeError::UnexpectedVariant)
            || (spec_decode_msg(s) matches Ok(ro) && (ro is DialResp || ro is DataReq))),
{
}

/// The same classification for response decodes, field by field.
pub proof fn lemma_response_error_classes(s: Seq<u8>)
    ensures
        s.len() == 0 ==> spec_decode_response(s) == Err::<Response, DecodeError>(
            DecodeError::Malformed,
        ),
        spec_decode_response(s) == Err::<Response, DecodeError>(
            DecodeError::MissingField(FieldName::Status),
        ) <==> (spec_decode_msg(s) matches Ok(ro) && ro matches RawOneof::DialResp(r)
            && r.status is None),
        spec_decode_response(s) == Err::<Response, DecodeError>(
            DecodeError::MissingField(FieldName::AddrIdx),
        ) <==> (spec_decode_msg(s) matches Ok(ro) && ((ro matches RawOneof::DialResp(r)
            && r.status is Some && r.addr_idx is None) || (ro matches RawOneof::DataReq(r)
            && r.addr_idx is None))),
        spec_decode_response(s) == Err::<Response, DecodeError>(
            DecodeError::MissingField(FieldName::DialStatus),
        ) <==> (spec_decode_msg(s) matches Ok(ro) && ro matches RawOneof::DialResp(r)
            && r.status is Some && r.addr_idx is Some && r.dial_status is None),
        spec_decode_response(s) == Err::<Response, DecodeError>(
            DecodeError::MissingField(FieldName::NumBytes),
        ) <==> (spec_decode_msg(s) matches Ok(ro) && ro matches RawOneof::DataReq(r)
            && r.addr_idx is Some && r.num_bytes is None),
        spec_decode_response(s) == Err::<Response, DecodeError>(DecodeError::UnexpectedVariant)
            <==> (spec_decode_msg(s) == Err::<RawOneof, DecodeError>(DecodeError::UnexpectedVariant)
            || (spec_decode_msg(s) matches Ok(ro) && (ro is DialReq || ro is DataResp))),
{
}

/// A dial-back decode fails only two ways: malformed bytes (the empty
/// buffer included), or a missing nonce.
pub proof fn lemma_dial_back_error_classes(s: Seq<u8>)
    ensures
        s.len() == 0 ==> spec_decode_dial_back(s) == Err::<DialBack, DecodeError>(
            DecodeError::Malformed,
        ),
        spec_decode_dial_back(s) == Err::<DialBack, DecodeError>(
            DecodeError::MissingField(FieldName::Nonce),
        ) <==> (s.len() != 0 && (parse_fields(s) matches Some(fs) && dial_back_fold(fs, None)
            is None)),
{
}

} // verus!
