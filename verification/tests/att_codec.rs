use trouble_host::att::{Att, AttDecodeError, AttError, AttRsp, Uuid};
use trouble_host::l2cap::CapacityError;

#[test]
fn decode_reads_each_request() {
    assert_eq!(Att::decode(&[0x02, 0x17, 0x00]), Ok(Att::ExchangeMtu { mtu: 23 }));
    assert_eq!(
        Att::decode(&[0x04, 0x01, 0x00, 0xFF, 0xFF]),
        Ok(Att::FindInformation { start_handle: 1, end_handle: 0xFFFF })
    );
    assert_eq!(Att::decode(&[0x0A, 0x03, 0x00]), Ok(Att::ReadReq { handle: 3 }));
    assert_eq!(
        Att::decode(&[0x12, 0x34, 0x12, 0xAA, 0xBB]),
        Ok(Att::WriteReq { handle: 0x1234, data: &[0xAA, 0xBB] })
    );
    assert_eq!(
        Att::decode(&[0x52, 0x03, 0x00, 0x01]),
        Ok(Att::WriteCmd { handle: 3, data: &[1] })
    );
    assert_eq!(Att::decode(&[0x12, 0x03, 0x00]), Ok(Att::WriteReq { handle: 3, data: &[] }));
}

#[test]
fn decode_ignores_bytes_behind_a_fixed_layout() {
    assert_eq!(Att::decode(&[0x0A, 0x03, 0x00, 0x99]), Ok(Att::ReadReq { handle: 3 }));
}

#[test]
fn decode_refuses_every_request_that_is_too_short() {
    let full: [&[u8]; 5] = [
        &[0x02, 0x17, 0x00],
        &[0x04, 0x01, 0x00, 0xFF, 0xFF],
        &[0x0A, 0x03, 0x00],
        &[0x12, 0x03, 0x00],
        &[0x52, 0x03, 0x00],
    ];
    for pdu in full {
        assert!(Att::decode(pdu).is_ok());
        for n in 0..pdu.len() {
            assert_eq!(Att::decode(&pdu[..n]), Err(AttDecodeError::MalformedPdu));
        }
    }
}

#[test]
fn decode_refuses_every_unknown_opcode() {
    for opcode in 0..=255u8 {
        let known = [0x02, 0x04, 0x0A, 0x12, 0x52].contains(&opcode);
        let pdu = [opcode, 1, 0, 2, 0, 3, 0];
        assert_eq!(Att::decode(&pdu).is_ok(), known);
    }
}

#[test]
fn responses_start_with_their_opcode_and_hold_no_padding() {
    let mut dest = [0xEEu8; 24];
    let rsp = AttRsp::Read { value: b"Hello" };
    assert_eq!(rsp.encode(&mut dest), Ok(6));
    assert_eq!(&dest[..7], &[0x0B, b'H', b'e', b'l', b'l', b'o', 0xEE]);

    let mut dest = [0xEEu8; 24];
    assert_eq!(AttRsp::Write.encode(&mut dest), Ok(1));
    assert_eq!(&dest[..2], &[0x13, 0xEE]);

    let mut dest = [0xEEu8; 24];
    assert_eq!(AttRsp::ExchangeMtu { mtu: 0x0117 }.encode(&mut dest), Ok(3));
    assert_eq!(&dest[..4], &[0x03, 0x17, 0x01, 0xEE]);

    let mut dest = [0xEEu8; 24];
    let rsp = AttRsp::Error { request: 0x0A, handle: 0x0099, error: AttError::InvalidHandle };
    assert_eq!(rsp.encode(&mut dest), Ok(5));
    assert_eq!(&dest[..6], &[0x01, 0x0A, 0x99, 0x00, 0x01, 0xEE]);
}

#[test]
fn find_information_response_lists_handles_and_uuids() {
    let mut dest = [0xEEu8; 24];
    let rsp = AttRsp::FindInformation {
        entries: vec![(1, Uuid::Uuid16(0x2800)), (0x0203, Uuid::Uuid16(0x2A00))],
    };
    assert_eq!(rsp.encode(&mut dest), Ok(10));
    assert_eq!(
        &dest[..11],
        &[0x05, 0x01, 0x01, 0x00, 0x00, 0x28, 0x03, 0x02, 0x00, 0x2A, 0xEE]
    );

    let long = [0, 1, 2, 3, 4, 5, 6, 7, 8, 9, 10, 11, 12, 13, 14, 15];
    let mut dest = [0xEEu8; 24];
    let rsp = AttRsp::FindInformation { entries: vec![(7, Uuid::Uuid128(long))] };
    assert_eq!(rsp.encode(&mut dest), Ok(20));
    assert_eq!(&dest[..4], &[0x05, 0x02, 0x07, 0x00]);
    assert_eq!(&dest[4..20], &long);
    assert_eq!(dest[20], 0xEE);
}

#[test]
fn response_that_does_not_fit_writes_nothing() {
    let mut dest = [0xEEu8; 5];
    assert_eq!(AttRsp::Read { value: b"Hello" }.encode(&mut dest), Err(CapacityError));
    assert_eq!(dest, [0xEE; 5]);
    let rsp = AttRsp::FindInformation {
        entries: vec![(1, Uuid::Uuid16(0x2800)), (2, Uuid::Uuid16(0x2803))],
    };
    let mut dest = [0xEEu8; 9];
    assert_eq!(rsp.encode(&mut dest), Err(CapacityError));
    assert_eq!(dest, [0xEE; 9]);
    let mut dest = [0xEEu8; 4];
    let rsp = AttRsp::Error { request: 0x0A, handle: 3, error: AttError::InvalidHandle };
    assert_eq!(rsp.encode(&mut dest), Err(CapacityError));
    assert_eq!(AttRsp::ExchangeMtu { mtu: 23 }.encode(&mut dest[..2]), Err(CapacityError));
    assert_eq!(AttRsp::Write.encode(&mut dest[..0]), Err(CapacityError));
    assert_eq!(dest, [0xEE; 4]);
}

#[test]
fn each_error_has_its_code() {
    assert_eq!(AttError::InvalidHandle.code(), 0x01);
    assert_eq!(AttError::ReadNotPermitted.code(), 0x02);
    assert_eq!(AttError::WriteNotPermitted.code(), 0x03);
    assert_eq!(AttError::AttributeNotFound.code(), 0x0A);
    assert_eq!(AttError::InvalidAttributeValueLength.code(), 0x0D);
}

#[test]
fn uuid_says_its_length_and_format() {
    assert_eq!(Uuid::Uuid16(0x2800).len(), 2);
    assert_eq!(Uuid::Uuid16(0x2800).format_byte(), 1);
    assert_eq!(Uuid::Uuid128([0; 16]).len(), 16);
    assert_eq!(Uuid::Uuid128([0; 16]).format_byte(), 2);
    let mut dest = [0u8; 4];
    Uuid::Uuid16(0x2A19).write(&mut dest, 1);
    assert_eq!(dest, [0, 0x19, 0x2A, 0]);
}

#[test]
fn requests_say_their_opcode_and_handle() {
    let requests: [(Att, u8, u16); 5] = [
        (Att::ExchangeMtu { mtu: 23 }, 0x02, 0),
        (Att::FindInformation { start_handle: 5, end_handle: 9 }, 0x04, 5),
        (Att::ReadReq { handle: 3 }, 0x0A, 3),
        (Att::WriteReq { handle: 4, data: &[1] }, 0x12, 4),
        (Att::WriteCmd { handle: 6, data: &[] }, 0x52, 6),
    ];
    for (request, opcode, handle) in requests {
        assert_eq!(request.opcode(), opcode);
        assert_eq!(request.handle(), handle);
    }
}
