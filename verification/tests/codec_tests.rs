use autonat_codec::addr::Addr;
use autonat_codec::codec::{
    decode_dial_back, decode_request, decode_response, encode_dial_back, encode_request,
    encode_response, frame, DecodeError, FieldName,
};
use autonat_codec::msg::{
    DialBack, DialDataRequest, DialDataResponse, DialRequest, DialResponse, DialStatus, Request,
    Response, ResponseStatus,
};
use autonat_codec::{DATA_LEN_LOWER_BOUND, DATA_LEN_UPPER_BOUND, DIAL_BACK_MAX_SIZE, REQUEST_MAX_SIZE};

fn addr_from_str(s: &str) -> Addr {
    let ma: libp2p_core::Multiaddr = s.parse().unwrap();
    Addr::from_bytes(ma.to_vec()).unwrap()
}

#[test]
fn message_correct_max_size() {
    let message_bytes = frame(&encode_request(&Request::Data(DialDataResponse {
        data_count: 4096,
    })));
    assert_eq!(message_bytes.len(), REQUEST_MAX_SIZE);
}

#[test]
fn dial_back_correct_size() {
    let dial_back = frame(&encode_dial_back(&DialBack { nonce: 0 }));
    assert!(dial_back.len() <= DIAL_BACK_MAX_SIZE);

    let empty_body: Vec<u8> = Vec::new();
    let dial_back_empty_body = frame(&empty_body);
    assert!(dial_back_empty_body.len() <= DIAL_BACK_MAX_SIZE);

    let dial_back_max_nonce = frame(&encode_dial_back(&DialBack { nonce: u64::MAX }));
    assert!(dial_back_max_nonce.len() <= DIAL_BACK_MAX_SIZE);
}

#[test]
fn round_trip_dial_request() {
    let req = Request::Dial(DialRequest {
        addrs: vec![
            addr_from_str("/ip4/198.51.100.1/tcp/4242"),
            addr_from_str("/ip6/::1/udp/53"),
        ],
        nonce: 0xdead_beef_cafe_f00d,
    });
    let bytes = encode_request(&req);
    assert_eq!(decode_request(&bytes), Ok(req));
}

#[test]
fn round_trip_empty_addrs() {
    let req = Request::Dial(DialRequest { addrs: vec![], nonce: 7 });
    let bytes = encode_request(&req);
    let back = decode_request(&bytes).unwrap();
    match &back {
        Request::Dial(d) => assert!(d.addrs.is_empty()),
        _ => panic!("wrong variant"),
    }
    assert_eq!(back, req);
}

#[test]
fn round_trip_data_counts() {
    for n in [0usize, 1, 127, 128, 4095, 4096] {
        let req = Request::Data(DialDataResponse { data_count: n });
        let bytes = encode_request(&req);
        assert_eq!(decode_request(&bytes), Ok(req));
    }
}

#[test]
fn data_count_is_blob_length() {
    // a data-kind request whose blob holds five arbitrary bytes
    let bytes = vec![0x22, 0x07, 0x0a, 0x05, 1, 2, 3, 4, 5];
    assert_eq!(
        decode_request(&bytes),
        Ok(Request::Data(DialDataResponse { data_count: 5 }))
    );
}

#[test]
fn round_trip_responses() {
    let statuses = [
        ResponseStatus::InternalError,
        ResponseStatus::RequestRejected,
        ResponseStatus::DialRefused,
        ResponseStatus::Accepted,
    ];
    let dial_statuses = [
        DialStatus::Unused,
        DialStatus::DialError,
        DialStatus::DialBackError,
        DialStatus::Reachable,
    ];
    for (i, st) in statuses.iter().enumerate() {
        let resp = Response::Dial(DialResponse {
            status: *st,
            addr_idx: i,
            dial_status: dial_statuses[i],
        });
        let bytes = encode_response(&resp);
        assert_eq!(decode_response(&bytes), Ok(resp));
    }
    let resp = Response::Data(DialDataRequest { addr_idx: 0, num_bytes: 65536 });
    let bytes = encode_response(&resp);
    assert_eq!(decode_response(&bytes), Ok(resp));
}

#[test]
fn round_trip_dial_back() {
    for nonce in [0u64, 42, u64::MAX] {
        let b = DialBack { nonce };
        let bytes = encode_dial_back(&b);
        assert_eq!(decode_dial_back(&bytes), Ok(b));
    }
}

#[test]
fn empty_buffers_are_malformed() {
    assert_eq!(decode_request(&[]), Err(DecodeError::Malformed));
    assert_eq!(decode_response(&[]), Err(DecodeError::Malformed));
    assert_eq!(decode_dial_back(&[]), Err(DecodeError::Malformed));
}

#[test]
fn truncated_buffers_are_malformed() {
    // length prefix claims more bytes than follow
    assert_eq!(decode_request(&[0x0a, 0x05, 0x11]), Err(DecodeError::Malformed));
    // a lone continuation byte is no varint
    assert_eq!(decode_response(&[0x80]), Err(DecodeError::Malformed));
}

#[test]
fn missing_fields_are_reported() {
    // a dial request with an empty body lacks its nonce
    assert_eq!(
        decode_request(&[0x0a, 0x00]),
        Err(DecodeError::MissingField(FieldName::Nonce))
    );
    // a data-kind request with an empty body lacks its blob
    assert_eq!(
        decode_request(&[0x22, 0x00]),
        Err(DecodeError::MissingField(FieldName::Data))
    );
    // a dial response with an empty body lacks its status first
    assert_eq!(
        decode_response(&[0x12, 0x00]),
        Err(DecodeError::MissingField(FieldName::Status))
    );
    // a data-kind response with an empty body lacks its address index
    assert_eq!(
        decode_response(&[0x1a, 0x00]),
        Err(DecodeError::MissingField(FieldName::AddrIdx))
    );
    // a dial-back with only an unknown field lacks its nonce
    assert_eq!(
        decode_dial_back(&[0x10, 0x00]),
        Err(DecodeError::MissingField(FieldName::Nonce))
    );
}

#[test]
fn unexpected_variants_are_reported() {
    // a response-kind body handed to the request decoder
    assert_eq!(decode_request(&[0x12, 0x00]), Err(DecodeError::UnexpectedVariant));
    // a request-kind body handed to the response decoder
    assert_eq!(decode_response(&[0x0a, 0x00]), Err(DecodeError::UnexpectedVariant));
    // a message that populates no known union case
    assert_eq!(decode_request(&[0x28, 0x07]), Err(DecodeError::UnexpectedVariant));
}

#[test]
fn invalid_address_is_reported() {
    // dial request whose single address entry is a dangling varint
    let bad = vec![0x0a, 0x0c, 0x0a, 0x01, 0xff, 0x11, 1, 0, 0, 0, 0, 0, 0, 0];
    assert_eq!(decode_request(&bad), Err(DecodeError::InvalidAddress));

    // the same shape with a well-formed address decodes
    let ma: libp2p_core::Multiaddr = "/ip4/127.0.0.1/tcp/80".parse().unwrap();
    let mav = ma.to_vec();
    let mut good = vec![0x0a];
    good.push((mav.len() + 2 + 9) as u8);
    good.push(0x0a);
    good.push(mav.len() as u8);
    good.extend_from_slice(&mav);
    good.push(0x11);
    good.extend_from_slice(&[1, 0, 0, 0, 0, 0, 0, 0]);
    let decoded = decode_request(&good).unwrap();
    match decoded {
        Request::Dial(d) => {
            assert_eq!(d.nonce, 1);
            assert_eq!(d.addrs.len(), 1);
            assert_eq!(d.addrs[0].as_bytes(), &mav);
        }
        _ => panic!("wrong variant"),
    }
}

#[test]
fn unknown_fields_are_skipped() {
    let req = Request::Dial(DialRequest { addrs: vec![], nonce: 5 });
    let mut bytes = encode_request(&req);
    // append an unknown varint field (field number five)
    bytes.push(0x28);
    bytes.push(0x07);
    assert_eq!(decode_request(&bytes), Ok(req));
}

#[test]
fn generator_maps_entropy_onto_the_closed_interval() {
    let low = DialDataRequest::from_entropy(3, 0);
    assert_eq!(low.addr_idx, 3);
    assert_eq!(low.num_bytes, DATA_LEN_LOWER_BOUND as u64);

    let high = DialDataRequest::from_entropy(0, 70000);
    assert_eq!(high.num_bytes, DATA_LEN_UPPER_BOUND as u64);

    let wrapped = DialDataRequest::from_entropy(0, 70001);
    assert_eq!(wrapped.num_bytes, DATA_LEN_LOWER_BOUND as u64);
}

#[test]
fn generator_draws_stay_in_bounds_and_vary() {
    let mut seen = Vec::new();
    for _ in 0..64 {
        let r = DialDataRequest::new(0);
        assert!(r.num_bytes >= DATA_LEN_LOWER_BOUND as u64);
        assert!(r.num_bytes <= DATA_LEN_UPPER_BOUND as u64);
        seen.push(r.num_bytes);
    }
    let first = seen[0];
    assert!(seen.iter().any(|v| *v != first));
    assert!(seen.iter().filter(|v| **v == DATA_LEN_LOWER_BOUND as u64).count() < 32);
    assert!(seen.iter().filter(|v| **v == DATA_LEN_UPPER_BOUND as u64).count() < 32);
}

#[test]
fn full_chunk_encoding_is_deterministic() {
    let a = encode_request(&Request::Data(DialDataResponse { data_count: 4096 }));
    let b = encode_request(&Request::Data(DialDataResponse { data_count: 4096 }));
    assert_eq!(a, b);
    let again = Request::Data(DialDataResponse { data_count: 4096 });
    assert_eq!(a, encode_request(&again));
}

#[test]
fn exchange_with_padding_proof() {
    // requester advertises one address
    let addr = addr_from_str("/ip4/198.51.100.1/tcp/4242");
    let dial = Request::Dial(DialRequest { addrs: vec![addr], nonce: 42 });
    let on_wire = encode_request(&dial);
    let at_verifier = decode_request(&on_wire).unwrap();
    let original_nonce = match &at_verifier {
        Request::Dial(d) => {
            assert_eq!(d.addrs.len(), 1);
            d.nonce
        }
        _ => panic!("wrong variant"),
    };

    // verifier demands a padding proof before dialing
    let demand = Response::Data(DialDataRequest { addr_idx: 0, num_bytes: 65536 });
    let demand_back = decode_response(&encode_response(&demand)).unwrap();
    let needed = match demand_back {
        Response::Data(d) => d.num_bytes,
        _ => panic!("wrong variant"),
    };

    // requester satisfies it with sixteen full chunks
    let mut sent: u64 = 0;
    for _ in 0..16 {
        let chunk = Request::Data(DialDataResponse { data_count: 4096 });
        let frame_bytes = frame(&encode_request(&chunk));
        assert!(frame_bytes.len() <= REQUEST_MAX_SIZE);
        // strip the length prefix the way a frame reader would
        let (len, used) = autonat_codec::wire::parse_u64_x(&frame_bytes).unwrap();
        assert_eq!(used + len as usize, frame_bytes.len());
        match decode_request(&frame_bytes[used..]).unwrap() {
            Request::Data(d) => sent += d.data_count as u64,
            _ => panic!("wrong variant"),
        }
    }
    assert_eq!(sent, needed);

    // verifier reports the dial outcome
    let verdict = Response::Dial(DialResponse {
        status: ResponseStatus::Accepted,
        addr_idx: 0,
        dial_status: DialStatus::Reachable,
    });
    assert_eq!(decode_response(&encode_response(&verdict)), Ok(verdict));

    // and proves it over a fresh connection with the echoed nonce
    let back = decode_dial_back(&encode_dial_back(&DialBack { nonce: 42 })).unwrap();
    assert_eq!(back.nonce, original_nonce);
}

#[test]
fn frame_prefix_is_a_varint() {
    let empty_body: Vec<u8> = Vec::new();
    assert_eq!(frame(&empty_body), vec![0u8]);
    let body = encode_request(&Request::Data(DialDataResponse { data_count: 4096 }));
    assert_eq!(body.len(), 4102);
    let framed = frame(&body);
    assert_eq!(&framed[..2], &[0x86, 0x20]);
    assert_eq!(framed.len(), 4104);
}

#[test]
fn address_validation_tracks_the_multiaddr_parser() {
    assert!(Addr::from_bytes(vec![0xff]).is_none());
    let ma: libp2p_core::Multiaddr = "/dns4/example.com/tcp/443".parse().unwrap();
    let a = Addr::from_bytes(ma.to_vec()).unwrap();
    assert_eq!(a.as_bytes(), &ma.to_vec());
}

#[test]
fn oversized_addr_idx_is_malformed() {
    // a dial response whose address index needs more than 32 bits
    let bytes = vec![
        0x12, 0x0a, 0x08, 0x00, 0x10, 0x80, 0x80, 0x80, 0x80, 0x10, 0x18, 0x00,
    ];
    assert_eq!(decode_response(&bytes), Err(DecodeError::Malformed));
}
