//! Configuration of the host-side gateway service. Loading the file and
//! reading environment overrides happen outside this crate; the shape of
//! the configuration and its validation rules live here.

use vstd::prelude::*;

verus! {

use vstd::string::StringSliceAdditionalSpecFns;
use vstd::utf8::encode_utf8;
use crate::gateway::{has_prefix, str_has_prefix};

/// Broker connection settings.
#[derive(Debug, Clone)]
pub struct MqttConfig {
    /// Broker URL, `mqtt://` or `mqtts://`.
    pub broker_url: String,
    /// Client identifier presented to the broker.
    pub client_id: String,
    /// First segment of every topic published.
    pub topic_prefix: String,
    /// Quality-of-service level: 0, 1 or 2.
    pub qos: u8,
}

/// Time-series store settings.
#[derive(Debug, Clone)]
pub struct InfluxDbConfig {
    /// Server URL, `http://` or `https://`.
    pub url: String,
    /// Organization name.
    pub org: String,
    /// Bucket the points are written to.
    pub bucket: String,
    /// Authentication token.
    pub token: String,
}

/// Settings for the probe that runs the receiver firmware.
#[derive(Debug, Clone)]
pub struct GatewayConfig {
    /// Identifier of the debug probe.
    pub probe_id: String,
    /// Target chip name.
    pub chip: String,
    /// Path of the firmware image.
    pub firmware_path: String,
    /// Capacity of the channel between the parser and the publisher;
    /// must be positive.
    pub channel_capacity: usize,
}

/// The whole gateway configuration.
#[derive(Debug, Clone)]
pub struct Config {
    pub mqtt: MqttConfig,
    pub influxdb: InfluxDbConfig,
    pub gateway: GatewayConfig,
}

/// Why a configuration was refused.
#[derive(Debug, Clone, Copy, PartialEq, Eq, Structural)]
pub enum ConfigError {
    /// The quality-of-service level is above 2.
    InvalidQos,
    /// The broker URL has no recognized scheme.
    InvalidMqttUrl,
    /// The store URL has no recognized scheme.
    InvalidInfluxDbUrl,
    /// The channel capacity is zero.
    InvalidChannelCapacity,
}

/// The first rule a configuration breaks, if any, in a fixed order:
/// quality-of-service level, broker URL scheme, store URL scheme,
/// channel capacity.
pub open spec fn spec_validate(c: Config) -> Result<(), ConfigError> {
    if c.mqtt.qos > 2 {
        Err(ConfigError::InvalidQos)
    } else if !(has_prefix(encode_utf8(c.mqtt.broker_url@), encode_utf8("mqtt://"@))
        || has_prefix(encode_utf8(c.mqtt.broker_url@), encode_utf8("mqtts://"@))) {
        Err(ConfigError::InvalidMqttUrl)
    } else if !(has_prefix(encode_utf8(c.influxdb.url@), encode_utf8("http://"@))
        || has_prefix(encode_utf8(c.influxdb.url@), encode_utf8("https://"@))) {
        Err(ConfigError::InvalidInfluxDbUrl)
    } else if c.gateway.channel_capacity == 0 {
        Err(ConfigError::InvalidChannelCapacity)
    } else {
        Ok(())
    }
}

impl Config {
    /// Checks the rules a configuration must meet: a quality-of-service
    /// level of at most 2, a broker URL with an `mqtt://` or `mqtts://`
    /// scheme, a store URL with an `http://` or `https://` scheme, and a
    /// positive channel capacity. Returns the first rule broken.
    pub fn validate(&self) -> (r: Result<(), ConfigError>)
        ensures
            r == spec_validate(*self),
    {
        if self.mqtt.qos > 2 {
            return Err(ConfigError::InvalidQos);
        }
        if !(str_has_prefix(self.mqtt.broker_url.as_str(), "mqtt://") || str_has_prefix(
            self.mqtt.broker_url.as_str(),
            "mqtts://",
        )) {
            return Err(ConfigError::InvalidMqttUrl);
        }
        if !(str_has_prefix(self.influxdb.url.as_str(), "http://") || str_has_prefix(
            self.influxdb.url.as_str(),
            "https://",
        )) {
            return Err(ConfigError::InvalidInfluxDbUrl);
        }
        if self.gateway.channel_capacity == 0 {
            return Err(ConfigError::InvalidChannelCapacity);
        }
        Ok(())
    }
}

} // verus!
