use neb_offload::protocol::{
    conn_id_of, ep_id_of, hello_tag, is_request_tag, make_request_tag, request_message,
    response_message, response_tag, DecodeError, Hello, RequestHeader, ResponseHeader,
    HELLO_CONN_ID, HELLO_LEN, HELLO_MASK, OP_COMPRESS, OP_DECOMPRESS, REQUEST_HEADER_LEN,
    RESPONSE_HEADER_LEN, STATUS_OK, STATUS_ZSTD_ERROR, TAG_RESP_BIT,
};

#[test]
fn hello_roundtrip() {
    let hello = Hello {
        level: 3,
        window_log: 23,
        magicless: true,
        max_payload: 8 * 1024 * 1024,
    };
    let decoded = Hello::decode(&hello.encode()).unwrap();
    assert_eq!(hello, decoded);
}

#[test]
fn hello_rejects_bad_magic() {
    let mut buf = Hello {
        level: 3,
        window_log: 23,
        magicless: true,
        max_payload: 1024,
    }
    .encode();
    buf[0] = 0;
    assert!(Hello::decode(&buf).is_err());
    assert_eq!(Hello::decode(&buf), Err(DecodeError::BadHelloMagic));
    assert_eq!(DecodeError::BadHelloMagic.message(), "bad hello magic");
    for i in 0..4 {
        let mut wrong = Hello { level: 3, window_log: 23, magicless: true, max_payload: 1024 }.encode();
        wrong[i] += 1;
        assert_eq!(Hello::decode(&wrong), Err(DecodeError::BadHelloMagic));
    }
    let mut reversed = Hello { level: 3, window_log: 23, magicless: true, max_payload: 1024 }.encode();
    reversed[0..4].reverse();
    assert_eq!(Hello::decode(&reversed), Err(DecodeError::BadHelloMagic));
}

#[test]
fn request_header_roundtrip() {
    let h = RequestHeader {
        op: OP_DECOMPRESS,
        raw_size: 12345,
        payload_len: 678,
    };
    assert_eq!(h, RequestHeader::decode(&h.encode()).unwrap());
}

#[test]
fn response_message_layout() {
    let msg = response_message(STATUS_OK, &[1, 2, 3]);
    assert_eq!(msg.len(), RESPONSE_HEADER_LEN + 3);
    let h = ResponseHeader::decode(&msg).unwrap();
    assert_eq!(h.status, STATUS_OK);
    assert_eq!(h.payload_len, 3);
    assert_eq!(&msg[RESPONSE_HEADER_LEN..], &[1, 2, 3]);
}

#[test]
fn hello_bytes_are_fixed() {
    let hello = Hello {
        level: 3,
        window_log: 23,
        magicless: true,
        max_payload: 0x0080_0000,
    };
    assert_eq!(
        hello.encode(),
        [0x4E, 0x45, 0x42, 0x31, 3, 23, 1, 0, 0, 0, 0x80, 0, 0, 0, 0, 0]
    );
    assert_eq!(hello.encode()[0..4], *b"NEB1");
    let plain = Hello {
        magicless: false,
        ..hello
    };
    assert_eq!(plain.encode()[6], 0);
    assert_eq!(Hello::decode(&plain.encode()), Ok(plain));
}

#[test]
fn hello_reads_only_its_flag_and_ignores_what_follows() {
    let hello = Hello {
        level: 22,
        window_log: 25,
        magicless: true,
        max_payload: u32::MAX,
    };
    let mut bytes = hello.encode().to_vec();
    bytes[6] = 0xFF;
    bytes.extend_from_slice(&[9, 9, 9]);
    assert_eq!(Hello::decode(&bytes), Ok(hello));
    bytes[6] = 0xFE;
    assert_eq!(Hello::decode(&bytes).unwrap().magicless, false);
}

#[test]
fn short_buffers_are_refused() {
    assert_eq!(
        Hello::decode(&[0u8; HELLO_LEN - 1]),
        Err(DecodeError::HelloTooShort)
    );
    assert_eq!(
        RequestHeader::decode(&[0u8; REQUEST_HEADER_LEN - 1]),
        Err(DecodeError::RequestHeaderTooShort)
    );
    assert_eq!(
        ResponseHeader::decode(&[0u8; RESPONSE_HEADER_LEN - 1]),
        Err(DecodeError::ResponseHeaderTooShort)
    );
    assert_eq!(
        DecodeError::HelloTooShort.message(),
        "hello payload too short"
    );
    assert_eq!(
        DecodeError::RequestHeaderTooShort.message(),
        "request header too short"
    );
    assert_eq!(
        DecodeError::ResponseHeaderTooShort.message(),
        "response header too short"
    );
}

#[test]
fn negative_statuses_survive_the_wire() {
    for status in [STATUS_OK, -1, STATUS_ZSTD_ERROR, i32::MIN, i32::MAX, -100] {
        let header = ResponseHeader {
            status,
            payload_len: 0xDEAD_BEEF,
        };
        assert_eq!(header.encode()[..4], status.to_le_bytes());
        assert_eq!(header.encode()[4..], 0xDEAD_BEEFu32.to_le_bytes());
        assert_eq!(ResponseHeader::decode(&header.encode()), Ok(header));
    }
}

#[test]
fn request_message_layout() {
    let msg = request_message(OP_COMPRESS, 0x0102_0304, &[7, 8]);
    assert_eq!(msg, [1, 0, 0, 0, 4, 3, 2, 1, 2, 0, 0, 0, 7, 8]);
    let header = RequestHeader::decode(&msg).unwrap();
    assert_eq!(header.op, OP_COMPRESS);
    assert_eq!(header.raw_size, 0x0102_0304);
    assert_eq!(header.payload_len, 2);
}

#[test]
fn tags_carry_endpoint_and_connection() {
    let tag = make_request_tag(0xABCD, 0x1234_5678);
    assert_eq!(tag, 0xABCD_0000_1234_5678);
    assert_eq!(ep_id_of(tag), 0xABCD);
    assert_eq!(conn_id_of(tag), 0x1234_5678);
    assert!(is_request_tag(tag));
    let answer = response_tag(tag);
    assert_eq!(answer, 0xABCD_0001_1234_5678);
    assert_eq!(response_tag(answer), answer);
    assert_eq!(ep_id_of(answer), 0xABCD);
    assert_eq!(conn_id_of(answer), 0x1234_5678);
    assert!(!is_request_tag(answer));
}

#[test]
fn tags_tell_connections_apart() {
    let mut seen = Vec::new();
    for ep_id in [0u16, 1, u16::MAX] {
        for conn_id in [0u32, 1, 0x8000_0000, u32::MAX] {
            let tag = make_request_tag(ep_id, conn_id);
            for t in [tag, response_tag(tag)] {
                assert!(!seen.contains(&t));
                seen.push(t);
            }
        }
    }
}

#[test]
fn hello_tag_matches_under_its_mask_only() {
    assert_eq!(TAG_RESP_BIT, 1u64 << 32);
    assert_eq!(HELLO_MASK, TAG_RESP_BIT | u32::MAX as u64);
    let wanted = TAG_RESP_BIT | HELLO_CONN_ID as u64;
    for ep_id in [0u16, 1, 0x8000, u16::MAX] {
        assert_eq!(hello_tag(ep_id) & HELLO_MASK, wanted & HELLO_MASK);
        assert_eq!(ep_id_of(hello_tag(ep_id)), ep_id);
        assert_ne!(
            make_request_tag(ep_id, HELLO_CONN_ID) & HELLO_MASK,
            wanted & HELLO_MASK
        );
        assert_ne!(
            response_tag(make_request_tag(ep_id, 7)) & HELLO_MASK,
            wanted & HELLO_MASK
        );
        // A probe for requests sees neither a HELLO nor a response.
        assert_ne!(hello_tag(ep_id) & TAG_RESP_BIT, 0);
        assert_eq!(make_request_tag(ep_id, 7) & TAG_RESP_BIT, 0);
    }
}
