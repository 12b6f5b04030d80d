use bytes::BytesMut;
use modbus_frames::codec::{ModbusDataCodec, ModbusRequestCodec, Request};
use modbus_frames::frame::{decode_frame, encode_frame, CodecError};

fn encode_request(v: Request) -> BytesMut {
    let mut buf = BytesMut::new();
    ModbusRequestCodec.encode(v, &mut buf).unwrap();
    buf
}

fn encode_words(w: Vec<u16>) -> BytesMut {
    let mut buf = BytesMut::new();
    ModbusDataCodec.encode(w, &mut buf).unwrap();
    buf
}

#[test]
fn request_round_trip_every_variant() {
    let all = [
        Request::ReadHoldingRegisters(0, 16),
        Request::ReadCoils(7, 3),
        Request::ReadDiscreteInputs(65535, 1),
        Request::ReadInputRegisters(1234, 65535),
        Request::Disconnect,
    ];
    for v in all {
        let mut buf = encode_request(v);
        assert_eq!(ModbusRequestCodec.decode(&mut buf).unwrap(), Some(v));
        assert!(buf.is_empty());
    }
}

#[test]
fn data_round_trip_including_empty() {
    for w in [vec![], vec![0u16], vec![1, 2, 3, 65535], (0..300u16).collect::<Vec<u16>>()] {
        let mut buf = encode_words(w.clone());
        assert_eq!(ModbusDataCodec.decode(&mut buf).unwrap(), Some(w));
        assert!(buf.is_empty());
    }
}

#[test]
fn scenario_read_holding_registers_prefix_is_payload_length() {
    let buf = encode_request(Request::ReadHoldingRegisters(0, 16));
    assert_eq!(&buf[..8], &[0, 0, 0, 0, 0, 0, 0, 8]);
    assert_eq!(&buf[8..], &[0, 0, 0, 0, 0, 0, 16, 0]);
    let mut peer = buf.clone();
    assert_eq!(
        ModbusRequestCodec.decode(&mut peer).unwrap(),
        Some(Request::ReadHoldingRegisters(0, 16))
    );
}

#[test]
fn disconnect_payload_is_its_tag_alone() {
    let buf = encode_request(Request::Disconnect);
    assert_eq!(&buf[..], &[0, 0, 0, 0, 0, 0, 0, 4, 4, 0, 0, 0]);
}

#[test]
fn words_wire_bytes() {
    let buf = encode_words(vec![1, 0x0203]);
    assert_eq!(
        &buf[..],
        &[0, 0, 0, 0, 0, 0, 0, 12, 2, 0, 0, 0, 0, 0, 0, 0, 1, 0, 3, 2]
    );
}

#[test]
fn byte_at_a_time_delivery() {
    let frame = encode_words(vec![10, 20, 30]);
    let mut buf = BytesMut::new();
    for (i, b) in frame.iter().enumerate() {
        buf.extend_from_slice(&[*b]);
        let r = ModbusDataCodec.decode(&mut buf).unwrap();
        if i + 1 < frame.len() {
            assert_eq!(r, None);
            assert_eq!(&buf[..], &frame[..i + 1]);
        } else {
            assert_eq!(r, Some(vec![10, 20, 30]));
            assert_eq!(buf.len(), 0);
        }
    }
}

#[test]
fn request_byte_at_a_time_delivery() {
    let frame = encode_request(Request::ReadCoils(5, 9));
    let mut buf = BytesMut::new();
    for (i, b) in frame.iter().enumerate() {
        buf.extend_from_slice(&[*b]);
        let r = ModbusRequestCodec.decode(&mut buf).unwrap();
        if i + 1 < frame.len() {
            assert_eq!(r, None);
        } else {
            assert_eq!(r, Some(Request::ReadCoils(5, 9)));
            assert!(buf.is_empty());
        }
    }
}

#[test]
fn concatenated_requests_decode_in_order() {
    let mut buf = encode_request(Request::ReadCoils(0, 3));
    buf.extend_from_slice(&encode_request(Request::ReadDiscreteInputs(0, 16)));
    assert_eq!(ModbusRequestCodec.decode(&mut buf).unwrap(), Some(Request::ReadCoils(0, 3)));
    assert_eq!(
        ModbusRequestCodec.decode(&mut buf).unwrap(),
        Some(Request::ReadDiscreteInputs(0, 16))
    );
    assert!(buf.is_empty());
    assert_eq!(ModbusRequestCodec.decode(&mut buf).unwrap(), None);
}

#[test]
fn scenario_two_replies_back_to_back() {
    let coils = vec![1, 0, 1];
    let discretes: Vec<u16> = (0..16).map(|i| i % 2).collect();
    let mut buf = encode_words(coils.clone());
    buf.extend_from_slice(&encode_words(discretes.clone()));
    assert_eq!(ModbusDataCodec.decode(&mut buf).unwrap(), Some(coils));
    assert_eq!(ModbusDataCodec.decode(&mut buf).unwrap(), Some(discretes));
    assert!(buf.is_empty());
}

#[test]
fn insufficient_input_keeps_bytes() {
    let mut buf = BytesMut::new();
    buf.extend_from_slice(&[0, 0, 0, 0, 0, 0, 0]);
    assert_eq!(ModbusDataCodec.decode(&mut buf).unwrap(), None);
    assert_eq!(&buf[..], &[0, 0, 0, 0, 0, 0, 0]);
    buf.extend_from_slice(&[5]);
    assert_eq!(ModbusDataCodec.decode(&mut buf).unwrap(), None);
    assert_eq!(&buf[..], &[0, 0, 0, 0, 0, 0, 0, 5]);
    buf.extend_from_slice(&[1, 0, 0, 0]);
    assert_eq!(decode_frame(&mut buf).unwrap(), None);
    assert_eq!(buf.len(), 12);
}

#[test]
fn oversized_length_prefix() {
    let mut buf = BytesMut::new();
    buf.extend_from_slice(&u64::MAX.to_be_bytes());
    buf.extend_from_slice(&[1, 2, 3]);
    let r = decode_frame(&mut buf);
    if u64::MAX > usize::MAX as u64 {
        assert_eq!(r, Err(CodecError::LengthTooLarge(u64::MAX)));
    } else {
        assert_eq!(r, Ok(None));
    }
    assert_eq!(buf.len(), 11);
}

#[test]
fn short_request_payload_is_malformed() {
    let mut buf = BytesMut::new();
    encode_frame(&[0, 0], &mut buf);
    assert_eq!(ModbusRequestCodec.decode(&mut buf), Err(CodecError::MalformedPayload));
    assert!(buf.is_empty());
}

#[test]
fn unknown_tag_is_malformed() {
    let mut buf = BytesMut::new();
    encode_frame(&[9, 0, 0, 0, 1, 0, 1, 0], &mut buf);
    assert_eq!(ModbusRequestCodec.decode(&mut buf), Err(CodecError::MalformedPayload));
}

#[test]
fn read_tag_without_fields_is_malformed() {
    let mut buf = BytesMut::new();
    encode_frame(&[1, 0, 0, 0], &mut buf);
    assert_eq!(ModbusRequestCodec.decode(&mut buf), Err(CodecError::MalformedPayload));
}

#[test]
fn truncated_words_are_malformed() {
    let mut buf = BytesMut::new();
    encode_frame(&[3, 0, 0, 0, 0, 0, 0, 0, 1, 0], &mut buf);
    assert_eq!(ModbusDataCodec.decode(&mut buf), Err(CodecError::MalformedPayload));
}

#[test]
fn frame_layer_round_trip_with_leftover() {
    let mut buf = BytesMut::new();
    encode_frame(&[7, 8, 9], &mut buf);
    buf.extend_from_slice(&[0, 0]);
    assert_eq!(&buf[..8], &[0, 0, 0, 0, 0, 0, 0, 3]);
    assert_eq!(decode_frame(&mut buf).unwrap(), Some(vec![7, 8, 9]));
    assert_eq!(&buf[..], &[0, 0]);
}

#[test]
fn empty_payload_frame() {
    let mut buf = BytesMut::new();
    encode_frame(&[], &mut buf);
    assert_eq!(buf.len(), 8);
    assert_eq!(decode_frame(&mut buf).unwrap(), Some(vec![]));
    assert!(buf.is_empty());
}
