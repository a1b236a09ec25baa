use lora_gateway::envelope::{build_ack_frame, decode_frame, encode_envelope,
    parse_binary_lora_message, DecodeError};
use lora_gateway::packet::SensorDataPacket;
use lora_gateway::state::SharedTelemetryState;

/// CRC-16/IBM-3740: polynomial 0x1021, initial value 0xFFFF, no
/// reflection, no final xor. Written out independently to hold the
/// library's checksum to the algorithm.
fn reference_crc16(data: &[u8]) -> u16 {
    let mut crc: u16 = 0xFFFF;
    for &b in data {
        crc ^= (b as u16) << 8;
        for _ in 0..8 {
            if crc & 0x8000 != 0 {
                crc = (crc << 1) ^ 0x1021;
            } else {
                crc <<= 1;
            }
        }
    }
    crc
}

fn sample_packet() -> SensorDataPacket {
    SensorDataPacket { seq_num: 1, temperature: 271, humidity: 5600, gas_resistance: 1000 }
}

#[test]
fn crc_has_the_documented_check_value() {
    assert_eq!(reference_crc16(b"123456789"), 0x29B1);
}

#[test]
fn envelope_round_trip() {
    let cases = [
        (sample_packet(), 1u32, -42i16, 11i16),
        (
            SensorDataPacket { seq_num: 0, temperature: 0, humidity: 0, gas_resistance: 0 },
            2,
            0,
            0,
        ),
        (
            SensorDataPacket {
                seq_num: u16::MAX,
                temperature: i16::MIN,
                humidity: u16::MAX,
                gas_resistance: u32::MAX,
            },
            240,
            i16::MIN,
            i16::MAX,
        ),
    ];
    for (p, addr, rssi, snr) in cases {
        let frame = encode_envelope(&p, addr, rssi, snr);
        let msg = decode_frame(&frame).unwrap();
        assert_eq!(msg.sensor_data.temperature, p.temperature);
        assert_eq!(msg.sensor_data.humidity, p.humidity);
        assert_eq!(msg.sensor_data.gas_resistance, p.gas_resistance);
        assert_eq!(msg.sensor_data.packet_num, p.seq_num);
        assert_eq!(msg.rssi, rssi);
        assert_eq!(msg.snr, snr);
    }
}

#[test]
fn concrete_frame_decodes_and_is_acknowledged() {
    // +RCV=1,9,<7-byte record><crc_hi><crc_lo>,-42,11\r\n
    let record: [u8; 7] = [1, 158, 4, 224, 43, 232, 7];
    let crc = reference_crc16(&record);
    let mut frame: Vec<u8> = Vec::new();
    frame.extend_from_slice(b"+RCV=1,9,");
    frame.extend_from_slice(&record);
    frame.push((crc >> 8) as u8);
    frame.push((crc & 0xFF) as u8);
    frame.extend_from_slice(b",-42,11\r\n");

    // The same frame the sender-side builder produces.
    assert_eq!(frame, encode_envelope(&sample_packet(), 1, -42, 11));

    let mut state = SharedTelemetryState::new();
    let actions = state.handle_frame(&frame);
    let msg = state.last_packet.unwrap();
    assert_eq!(msg.rssi, -42);
    assert_eq!(msg.snr, 11);
    assert_eq!(msg.sensor_data.temperature, 271); // 27.1 degrees
    assert_eq!(msg.sensor_data.humidity, 5600); // 56.00 percent
    assert_eq!(msg.sensor_data.gas_resistance, 1000);
    assert_eq!(msg.sensor_data.packet_num, 1);
    assert_eq!(state.packets_received, 1);
    assert_eq!(state.crc_errors, 0);

    // The acknowledgment carries the record's sequence number: msg_type 1,
    // seq_num 1 as a varint, framed as a send command.
    let ack = actions.ack.unwrap();
    assert_eq!(ack, b"AT+SEND=1,2,\x01\x01\r\n".to_vec());
}

#[test]
fn single_bit_flips_in_data_are_rejected_and_counted() {
    let frame = encode_envelope(&sample_packet(), 1, -42, 11);
    // "+RCV=1,9," is nine bytes; the seven record bytes follow.
    let data_start = 9;
    for byte_idx in 0..7 {
        for bit in 0..8 {
            let mut corrupted = frame.clone();
            corrupted[data_start + byte_idx] ^= 1 << bit;
            assert_eq!(decode_frame(&corrupted), Err(DecodeError::IntegrityFailure));
            assert_eq!(parse_binary_lora_message(&corrupted), None);

            let mut state = SharedTelemetryState::new();
            let actions = state.handle_frame(&corrupted);
            assert_eq!(state.crc_errors, 1);
            assert_eq!(state.packets_received, 0);
            assert!(state.last_packet.is_none());
            assert!(actions.ack.is_none());
            assert!(actions.telemetry.is_none());
        }
    }
}

#[test]
fn declared_length_beyond_frame_is_rejected_uncounted() {
    // The declared length exceeds what is left of the frame.
    let frame = b"+RCV=1,200,abc,-42,11\r\n".to_vec();
    assert_eq!(decode_frame(&frame), Err(DecodeError::Malformed));

    let mut state = SharedTelemetryState::new();
    let actions = state.handle_frame(&frame);
    assert_eq!(state.crc_errors, 0);
    assert_eq!(state.packets_received, 0);
    assert!(actions.ack.is_none());
}

#[test]
fn two_byte_payload_is_rejected() {
    // A payload of exactly two bytes: room for the checksum, no data.
    let frame = b"+RCV=1,2,\x29\xB1,-42,11\r\n".to_vec();
    assert_eq!(decode_frame(&frame), Err(DecodeError::Malformed));
    assert_eq!(parse_binary_lora_message(&frame), None);
}

#[test]
fn checksum_guards_arbitrary_data() {
    // Nine data bytes with their correct checksum: the integrity check
    // passes and the bytes deserialize as four single-byte fields, the
    // rest ignored.
    let data = b"123456789";
    let mut frame: Vec<u8> = Vec::new();
    frame.extend_from_slice(b"+RCV=1,11,");
    frame.extend_from_slice(data);
    frame.push(0x29);
    frame.push(0xB1);
    frame.extend_from_slice(b",-3,7\r\n");
    let msg = decode_frame(&frame).unwrap();
    assert_eq!(msg.sensor_data.packet_num, 49); // '1'
    assert_eq!(msg.sensor_data.temperature, 25); // '2' zigzag-decoded
    assert_eq!(msg.sensor_data.humidity, 51); // '3'
    assert_eq!(msg.sensor_data.gas_resistance, 52); // '4'
    assert_eq!(msg.rssi, -3);
    assert_eq!(msg.snr, 7);

    // The same frame with the checksum off by one is an integrity
    // failure.
    let n = frame.len();
    frame[n - 8] ^= 1; // low checksum byte
    assert_eq!(decode_frame(&frame), Err(DecodeError::IntegrityFailure));
}

#[test]
fn undecodable_record_is_rejected_uncounted() {
    // Three data bytes that pass the checksum but are an unterminated
    // varint: the record step fails, silently.
    let data: [u8; 3] = [0x80, 0x80, 0x80];
    let crc = reference_crc16(&data);
    let mut frame: Vec<u8> = Vec::new();
    frame.extend_from_slice(b"+RCV=1,5,");
    frame.extend_from_slice(&data);
    frame.push((crc >> 8) as u8);
    frame.push((crc & 0xFF) as u8);
    frame.extend_from_slice(b",-1,2\r\n");
    assert_eq!(decode_frame(&frame), Err(DecodeError::RecordInvalid));

    let mut state = SharedTelemetryState::new();
    let actions = state.handle_frame(&frame);
    assert_eq!(state.crc_errors, 0);
    assert_eq!(state.packets_received, 0);
    assert!(actions.ack.is_none());
}

#[test]
fn malformed_envelopes_are_rejected() {
    // Too short.
    assert_eq!(decode_frame(b"+RCV=1,9"), Err(DecodeError::Malformed));
    // Wrong prefix.
    assert_eq!(decode_frame(b"+ERR=1,9,aaaaaaaaa,-42,11\r\n"), Err(DecodeError::Malformed));
    // Only one comma.
    assert_eq!(decode_frame(b"+RCV=1 9 payload\r\n"), Err(DecodeError::Malformed));
    // Length field not decimal.
    assert_eq!(decode_frame(b"+RCV=1,x,abc,-42,11\r\n"), Err(DecodeError::Malformed));
    // Missing trailing fields after the payload.
    let p = sample_packet();
    let good = encode_envelope(&p, 1, -42, 11);
    let cut = &good[..good.len() - 9]; // drop ",-42,11\r\n"
    assert_eq!(decode_frame(cut), Err(DecodeError::Malformed));
}

#[test]
fn snr_field_is_trimmed_and_rssi_is_not() {
    let record: [u8; 7] = [1, 158, 4, 224, 43, 232, 7];
    let crc = reference_crc16(&record);
    let mut head: Vec<u8> = Vec::new();
    head.extend_from_slice(b"+RCV=1,9,");
    head.extend_from_slice(&record);
    head.push((crc >> 8) as u8);
    head.push((crc & 0xFF) as u8);

    // Whitespace around the SNR field is removed before parsing.
    let mut frame = head.clone();
    frame.extend_from_slice(b",-42, 11 \r\n");
    let msg = decode_frame(&frame).unwrap();
    assert_eq!(msg.snr, 11);

    // Text after a third comma is ignored.
    let mut frame = head.clone();
    frame.extend_from_slice(b",-42,11,extra\r\n");
    let msg = decode_frame(&frame).unwrap();
    assert_eq!(msg.snr, 11);

    // The RSSI field gets no such trimming.
    let mut frame = head.clone();
    frame.extend_from_slice(b", -42,11\r\n");
    assert_eq!(decode_frame(&frame), Err(DecodeError::Malformed));
}

#[test]
fn plus_signs_are_accepted_where_integer_parsing_accepts_them() {
    let record: [u8; 7] = [1, 158, 4, 224, 43, 232, 7];
    let crc = reference_crc16(&record);
    let mut payload: Vec<u8> = record.to_vec();
    payload.push((crc >> 8) as u8);
    payload.push((crc & 0xFF) as u8);

    // One leading plus sign on the length field.
    let mut frame: Vec<u8> = b"+RCV=1,+9,".to_vec();
    frame.extend_from_slice(&payload);
    frame.extend_from_slice(b",-42,11\r\n");
    let msg = decode_frame(&frame).unwrap();
    assert_eq!(msg.sensor_data.packet_num, 1);

    // And on the RSSI and SNR fields.
    let mut frame: Vec<u8> = b"+RCV=1,9,".to_vec();
    frame.extend_from_slice(&payload);
    frame.extend_from_slice(b",+42,+11\r\n");
    let msg = decode_frame(&frame).unwrap();
    assert_eq!(msg.rssi, 42);
    assert_eq!(msg.snr, 11);

    // A second sign, or a sign alone, is still malformed.
    let mut frame: Vec<u8> = b"+RCV=1,++9,".to_vec();
    frame.extend_from_slice(&payload);
    frame.extend_from_slice(b",-42,11\r\n");
    assert_eq!(decode_frame(&frame), Err(DecodeError::Malformed));
    let mut frame: Vec<u8> = b"+RCV=1,9,".to_vec();
    frame.extend_from_slice(&payload);
    frame.extend_from_slice(b",+,11\r\n");
    assert_eq!(decode_frame(&frame), Err(DecodeError::Malformed));
}

#[test]
fn ack_frames_use_decimal_length_and_varint_sequence() {
    assert_eq!(build_ack_frame(1, true), b"AT+SEND=1,2,\x01\x01\r\n".to_vec());
    // NACK type byte, two-byte varint for 300.
    assert_eq!(build_ack_frame(300, false), b"AT+SEND=1,3,\x02\xAC\x02\r\n".to_vec());
    // Largest sequence number: three varint bytes.
    assert_eq!(
        build_ack_frame(u16::MAX, true),
        b"AT+SEND=1,4,\x01\xFF\xFF\x03\r\n".to_vec()
    );
}
