use trouble_host::l2cap::{CapacityError, L2capPacket, MalformedFrame, L2CAP_CID_ATT};

#[test]
fn encode_writes_length_channel_and_payload() {
    let packet = L2capPacket { channel: L2CAP_CID_ATT, payload: &[0x0B, b'H', b'i'] };
    let mut dest = [0xEEu8; 10];
    assert_eq!(packet.encode(&mut dest), Ok(7));
    assert_eq!(dest, [3, 0, 4, 0, 0x0B, b'H', b'i', 0xEE, 0xEE, 0xEE]);
}

#[test]
fn encode_writes_both_bytes_of_length_and_channel() {
    let payload = [7u8; 300];
    let packet = L2capPacket { channel: 0x1234, payload: &payload };
    let mut dest = [0u8; 304];
    assert_eq!(packet.encode(&mut dest), Ok(304));
    assert_eq!(&dest[..4], &[0x2C, 0x01, 0x34, 0x12]);
    assert_eq!(&dest[4..], &payload[..]);
}

#[test]
fn decode_gives_back_what_was_encoded() {
    let payloads: [&[u8]; 3] = [&[], &[1], &[9, 8, 7, 6, 5, 4, 3, 2, 1, 0]];
    for channel in [0u16, 4, 0x00FF, 0x0100, 0xFFFF] {
        for payload in payloads {
            let packet = L2capPacket { channel, payload };
            let mut dest = [0u8; 32];
            let n = packet.encode(&mut dest).unwrap();
            assert_eq!(n, 4 + payload.len());
            assert_eq!(L2capPacket::decode(&dest[..n]), Ok(packet));
        }
    }
}

#[test]
fn encode_into_too_small_a_buffer_writes_nothing() {
    let packet = L2capPacket { channel: 4, payload: &[1, 2, 3] };
    let mut dest = [0xEEu8; 6];
    assert_eq!(packet.encode(&mut dest), Err(CapacityError));
    assert_eq!(dest, [0xEE; 6]);
    let mut none: [u8; 0] = [];
    assert_eq!(packet.encode(&mut none), Err(CapacityError));
}

#[test]
fn encode_of_exactly_fitting_payload_succeeds() {
    let packet = L2capPacket { channel: 4, payload: &[1, 2, 3] };
    let mut dest = [0u8; 7];
    assert_eq!(packet.encode(&mut dest), Ok(7));
}

#[test]
fn encode_refuses_a_payload_longer_than_the_length_field() {
    let payload = vec![0u8; 0x1_0000];
    let packet = L2capPacket { channel: 4, payload: &payload };
    let mut dest = vec![0xEEu8; 0x1_0010];
    assert_eq!(packet.encode(&mut dest), Err(CapacityError));
    assert!(dest.iter().all(|b| *b == 0xEE));
    let longest = vec![1u8; 0xFFFF];
    let packet = L2capPacket { channel: 4, payload: &longest };
    assert_eq!(packet.encode(&mut dest), Ok(0x1_0003));
    assert_eq!(&dest[..4], &[0xFF, 0xFF, 4, 0]);
}

#[test]
fn decode_refuses_what_is_no_frame() {
    assert_eq!(L2capPacket::decode(&[]), Err(MalformedFrame));
    assert_eq!(L2capPacket::decode(&[0, 0, 4]), Err(MalformedFrame));
    // declares two bytes, holds one
    assert_eq!(L2capPacket::decode(&[2, 0, 4, 0, 1]), Err(MalformedFrame));
    // declares one byte, holds two
    assert_eq!(L2capPacket::decode(&[1, 0, 4, 0, 1, 2]), Err(MalformedFrame));
    assert_eq!(
        L2capPacket::decode(&[0, 0, 4, 0]),
        Ok(L2capPacket { channel: 4, payload: &[] })
    );
}
