use lora_gateway::packet::{decode_record, encode_ack, encode_record, AckPacket, SensorDataPacket};

fn sample_packet() -> SensorDataPacket {
    SensorDataPacket { seq_num: 1, temperature: 271, humidity: 5600, gas_resistance: 1000 }
}

#[test]
fn record_encoding_is_seven_bytes_for_small_fields() {
    let bytes = encode_record(&sample_packet());
    assert_eq!(bytes, vec![1, 158, 4, 224, 43, 232, 7]);
}

#[test]
fn record_encoding_matches_senders_serializer() {
    let cases = [
        sample_packet(),
        SensorDataPacket { seq_num: 0, temperature: 0, humidity: 0, gas_resistance: 0 },
        SensorDataPacket {
            seq_num: u16::MAX,
            temperature: i16::MIN,
            humidity: u16::MAX,
            gas_resistance: u32::MAX,
        },
        SensorDataPacket {
            seq_num: 127,
            temperature: -1,
            humidity: 128,
            gas_resistance: 16384,
        },
    ];
    for p in cases {
        let mine = encode_record(&p);
        let theirs = postcard::to_allocvec(&(p.seq_num, p.temperature, p.humidity, p.gas_resistance))
            .unwrap();
        assert_eq!(mine, theirs);
        let back = decode_record(&mine).unwrap();
        assert_eq!(back, p);
        let (s, t, h, g): (u16, i16, u16, u32) = postcard::from_bytes(&mine).unwrap();
        assert_eq!((s, t, h, g), (p.seq_num, p.temperature, p.humidity, p.gas_resistance));
    }
}

#[test]
fn record_decoding_ignores_trailing_bytes() {
    let mut bytes = encode_record(&sample_packet());
    bytes.push(0xAB);
    bytes.push(0xCD);
    assert_eq!(decode_record(&bytes), Some(sample_packet()));
}

#[test]
fn record_decoding_rejects_short_input() {
    let bytes = encode_record(&sample_packet());
    for n in 0..bytes.len() {
        assert_eq!(decode_record(&bytes[..n]), None);
    }
}

#[test]
fn record_decoding_rejects_unterminated_varint() {
    // A first field whose varint never terminates within three bytes.
    assert_eq!(decode_record(&[0x80, 0x80, 0x80, 0x01, 0, 0, 0]), None);
    // A first field whose value needs more than sixteen bits.
    assert_eq!(decode_record(&[0xFF, 0xFF, 0x04, 0, 0, 0]), None);
    // The same last byte within range is accepted as the field's top bits.
    let (s, _, _, _): (u16, i16, u16, u32) =
        postcard::from_bytes(&[0xFF, 0xFF, 0x03, 0, 0, 0]).unwrap();
    let p = decode_record(&[0xFF, 0xFF, 0x03, 0, 0, 0]).unwrap();
    assert_eq!(p.seq_num, s);
    assert_eq!(s, u16::MAX);
}

#[test]
fn ack_encoding_matches_senders_serializer() {
    for seq in [0u16, 1, 127, 128, 300, u16::MAX] {
        let ack = AckPacket { msg_type: 1, seq_num: seq };
        let mine = encode_ack(&ack);
        let theirs = postcard::to_allocvec(&(ack.msg_type, ack.seq_num)).unwrap();
        assert_eq!(mine, theirs);
    }
}
