use lora_gateway::config::{Config, GatewayConfig, InfluxDbConfig, MqttConfig};
use lora_gateway::gateway::{build_topic, extract_json_from_log_line, parse_broker_url};

#[test]
fn test_config_validation() {
    let mut config = Config {
        mqtt: MqttConfig {
            broker_url: "mqtt://localhost:1883".to_string(),
            client_id: "test".to_string(),
            topic_prefix: "iiot".to_string(),
            qos: 1,
        },
        influxdb: InfluxDbConfig {
            url: "http://localhost:8086".to_string(),
            org: "test-org".to_string(),
            bucket: "test-bucket".to_string(),
            token: "test-token".to_string(),
        },
        gateway: GatewayConfig {
            probe_id: "test-probe".to_string(),
            chip: "STM32F446RETx".to_string(),
            firmware_path: "test.bin".to_string(),
            channel_capacity: 100,
        },
    };

    // Valid config should pass
    assert!(config.validate().is_ok());

    // Invalid QoS should fail
    config.mqtt.qos = 3;
    assert!(config.validate().is_err());
    config.mqtt.qos = 1;

    // Invalid MQTT URL should fail
    config.mqtt.broker_url = "invalid://localhost".to_string();
    assert!(config.validate().is_err());
    config.mqtt.broker_url = "mqtt://localhost:1883".to_string();

    // Invalid InfluxDB URL should fail
    config.influxdb.url = "invalid://localhost".to_string();
    assert!(config.validate().is_err());
    config.influxdb.url = "http://localhost:8086".to_string();

    // Zero channel capacity should fail
    config.gateway.channel_capacity = 0;
    assert!(config.validate().is_err());
}

#[test]
fn test_extract_json_from_log_line() {
    let line = r#"[INFO] JSON sent via VCP: {"ts":12000,"id":"N2"}\n"#;
    let result = extract_json_from_log_line(line);
    assert_eq!(result, Some(r#"{"ts":12000,"id":"N2"}"#.to_string()));
}

#[test]
fn test_extract_json_no_match() {
    let line = "[INFO] Some other log message";
    let result = extract_json_from_log_line(line);
    assert_eq!(result, None);
}

#[test]
fn test_extract_json_with_location_suffix() {
    let line = "[INFO] JSON sent via VCP: {\"ts\":1}\\n (gateway src/main.rs:601)\n";
    let result = extract_json_from_log_line(line);
    assert_eq!(result, Some("{\"ts\":1}".to_string()));
}

#[test]
fn test_parse_broker_url() {
    let (host, port) = parse_broker_url("mqtt://localhost:1883").unwrap();
    assert_eq!(host, "localhost");
    assert_eq!(port, 1883);

    let (host, port) = parse_broker_url("mqtt://192.168.1.100:8883").unwrap();
    assert_eq!(host, "192.168.1.100");
    assert_eq!(port, 8883);

    // Default port
    let (host, port) = parse_broker_url("mqtt://broker.local").unwrap();
    assert_eq!(host, "broker.local");
    assert_eq!(port, 1883);

    // Invalid URL
    assert!(parse_broker_url("http://localhost:1883").is_err());
}

#[test]
fn test_parse_broker_url_bad_port() {
    assert!(parse_broker_url("mqtt://host:").is_err());
    assert!(parse_broker_url("mqtt://host:abc").is_err());
    assert!(parse_broker_url("mqtt://host:65536").is_err());
    let (host, port) = parse_broker_url("mqtt://host:65535").unwrap();
    assert_eq!(host, "host");
    assert_eq!(port, 65535);
}

#[test]
fn test_parse_broker_url_signed_port() {
    // Unsigned parsing admits one leading plus sign, nothing more.
    let (host, port) = parse_broker_url("mqtt://host:+1883").unwrap();
    assert_eq!(host, "host");
    assert_eq!(port, 1883);
    assert!(parse_broker_url("mqtt://host:+").is_err());
    assert!(parse_broker_url("mqtt://host:++1").is_err());
    assert!(parse_broker_url("mqtt://host:-1").is_err());
}

#[test]
fn test_build_topic() {
    assert_eq!(
        build_topic("iiot", "node1", "temperature"),
        "iiot/node1/temperature"
    );
    assert_eq!(build_topic("iiot", "signal", "rssi"), "iiot/signal/rssi");
}
