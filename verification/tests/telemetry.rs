use lora_gateway::envelope::encode_envelope;
use lora_gateway::json::{format_json_telemetry, JSON_CAPACITY};
use lora_gateway::packet::{ParsedMessage, SensorData, SensorDataPacket};
use lora_gateway::scanner::{FrameScanner, RX_BUFFER_SIZE};
use lora_gateway::state::{process_byte, SharedTelemetryState, SENSOR_WARMUP_TICKS, TICK_MS};

fn sample_message() -> ParsedMessage {
    ParsedMessage {
        sensor_data: SensorData {
            temperature: 271,
            humidity: 5600,
            gas_resistance: 1000,
            packet_num: 1,
        },
        rssi: -42,
        snr: 11,
    }
}

#[test]
fn json_line_has_the_fixed_shape() {
    let line = format_json_telemetry(&sample_message(), 12000, 1, 0, None, None);
    let expected = format!(
        "{}{}",
        r#"{"ts":12000,"id":"N2","n1":{"t":27.1,"h":56.0,"g":1000},"n2":{},"#,
        r#""sig":{"rssi":-42,"snr":11},"sts":{"rx":1,"err":0}}\n"#,
    );
    assert_eq!(String::from_utf8(line).unwrap(), expected);
}

#[test]
fn json_local_fields_appear_once_available() {
    let with_both = format_json_telemetry(&sample_message(), 500, 2, 1, Some(2345), Some(4567));
    let text = String::from_utf8(with_both).unwrap();
    assert!(text.contains(r#""n2":{"t":23.5,"h":45.7}"#));

    let temp_only = format_json_telemetry(&sample_message(), 500, 2, 1, Some(-1234), None);
    let text = String::from_utf8(temp_only).unwrap();
    assert!(text.contains(r#""n2":{"t":-12.3}"#));

    let humidity_only = format_json_telemetry(&sample_message(), 500, 2, 1, None, Some(99));
    let text = String::from_utf8(humidity_only).unwrap();
    assert!(text.contains(r#""n2":{"h":1.0}"#));
}

#[test]
fn json_never_outgrows_its_buffer() {
    let worst = ParsedMessage {
        sensor_data: SensorData {
            temperature: i16::MIN,
            humidity: u16::MAX,
            gas_resistance: u32::MAX,
            packet_num: u16::MAX,
        },
        rssi: i16::MIN,
        snr: i16::MIN,
    };
    let line = format_json_telemetry(
        &worst,
        u32::MAX,
        u32::MAX,
        u32::MAX,
        Some(i32::MIN),
        Some(u16::MAX),
    );
    assert!(line.len() <= JSON_CAPACITY);
    let small = format_json_telemetry(&sample_message(), 0, 0, 0, None, None);
    assert!(small.len() <= JSON_CAPACITY);
}

#[test]
fn warmup_suppresses_the_first_ticks() {
    let mut state = SharedTelemetryState::new();
    assert_eq!(SENSOR_WARMUP_TICKS, 4);
    for tick_index in 0..10usize {
        let sampled = state.tick();
        assert_eq!(sampled, tick_index >= SENSOR_WARMUP_TICKS as usize);
    }
    assert_eq!(state.uptime_ms, 10 * TICK_MS);
}

#[test]
fn local_sample_is_stored_whole() {
    let mut state = SharedTelemetryState::new();
    state.record_local_sample(2345, 4567);
    assert_eq!(state.local_temp_centi, Some(2345));
    assert_eq!(state.local_humidity_centi, Some(4567));
    assert_eq!(state.packets_received, 0);
}

#[test]
fn scanner_signals_on_terminator_and_drops_overflow() {
    let mut scanner = FrameScanner::new();
    assert!(!scanner.push(b'+'));
    assert!(!scanner.push(b'R'));
    assert!(scanner.push(b'\n'));
    assert_eq!(scanner.bytes(), b"+R\n");
    scanner.reset();
    assert_eq!(scanner.bytes(), b"");

    // Fill past capacity: the excess is dropped, the terminator still
    // signals.
    for _ in 0..RX_BUFFER_SIZE {
        scanner.push(b'x');
    }
    assert!(!scanner.push(b'y'));
    assert_eq!(scanner.bytes().len(), RX_BUFFER_SIZE);
    assert!(scanner.push(b'\n'));
}

#[test]
fn receive_path_processes_a_frame_byte_by_byte() {
    let packet = SensorDataPacket {
        seq_num: 7,
        temperature: -15,
        humidity: 4321,
        gas_resistance: 54321,
    };
    let frame = encode_envelope(&packet, 1, -100, -3);
    let mut scanner = FrameScanner::new();
    let mut state = SharedTelemetryState::new();
    let mut outcome = None;
    for &b in &frame {
        if let Some(actions) = process_byte(&mut scanner, &mut state, b) {
            outcome = Some(actions);
        }
    }
    let actions = outcome.unwrap();
    assert_eq!(state.packets_received, 1);
    let msg = state.last_packet.unwrap();
    assert_eq!(msg.sensor_data.temperature, -15);
    assert_eq!(msg.rssi, -100);
    assert_eq!(msg.snr, -3);
    assert_eq!(scanner.bytes().len(), 0);

    let telemetry = actions.telemetry.unwrap();
    let expected = format_json_telemetry(&msg, state.uptime_ms, 1, 0, None, None);
    assert_eq!(telemetry, expected);
    assert!(actions.ack.unwrap().starts_with(b"AT+SEND=1,"));
}

#[test]
fn emitted_line_survives_host_side_extraction() {
    let line_bytes = format_json_telemetry(&sample_message(), 12000, 1, 0, Some(2345), None);
    let log_line = format!(
        "[INFO] JSON sent via VCP: {} (receiver src/main.rs:600)\n",
        String::from_utf8(line_bytes).unwrap(),
    );
    let json_text = lora_gateway::gateway::extract_json_from_log_line(&log_line).unwrap();
    let v: serde_json::Value = serde_json::from_str(&json_text).unwrap();
    assert_eq!(v["ts"], 12000);
    assert_eq!(v["id"], "N2");
    assert_eq!(v["n1"]["t"], 27.1);
    assert_eq!(v["n1"]["h"], 56.0);
    assert_eq!(v["n1"]["g"], 1000);
    assert_eq!(v["n2"]["t"], 23.5);
    assert!(v["n2"].get("h").is_none());
    assert_eq!(v["sig"]["rssi"], -42);
    assert_eq!(v["sig"]["snr"], 11);
    assert_eq!(v["sts"]["rx"], 1);
    assert_eq!(v["sts"]["err"], 0);
}

#[test]
fn uptime_wraps_at_the_counter_limit() {
    let mut state = SharedTelemetryState::new();
    state.uptime_ms = u32::MAX - 100;
    state.tick();
    assert_eq!(state.uptime_ms, TICK_MS - 101);
}
