//! The binary packets carried over the radio link.
//!
//! A `SensorDataPacket` is the fixed record the remote node sends; an
//! `AckPacket` is the three-field record sent back. Both travel in the
//! varint wire format of [`crate::codec`], fields in declaration order.
//! Physical quantities are fixed-point integers: temperature in tenths of a
//! degree Celsius, humidity in hundredths of a percent.

use vstd::prelude::*;

verus! {

use crate::codec::{
    spec_uvarint, spec_zigzag, spec_take_u16, spec_take_i16, spec_take_u32, encode_uvarint,
    take_u16, take_i16, take_u32, zigzag, lemma_take_u16_roundtrip, lemma_take_i16_roundtrip,
    lemma_take_u32_roundtrip, lemma_uvarint_len, lemma_pow128_3, lemma_pow128_5,
};

/// Acknowledgment of a received record.
pub const MSG_TYPE_ACK: u8 = 1;

/// Rejection of a received record.
pub const MSG_TYPE_NACK: u8 = 2;

/// Sensor record as the remote node serializes it (field order matters).
#[derive(Debug, Clone, Copy, PartialEq, Eq, Structural)]
pub struct SensorDataPacket {
    /// Sequence number, for duplicate detection and acknowledgment.
    pub seq_num: u16,
    /// Temperature in tenths of a degree Celsius (271 is 27.1 degrees).
    pub temperature: i16,
    /// Relative humidity in hundredths of a percent (5600 is 56.00 percent).
    pub humidity: u16,
    /// Gas resistance in ohms.
    pub gas_resistance: u32,
}

/// Acknowledgment record sent back over the same link.
#[derive(Debug, Clone, Copy, PartialEq, Eq, Structural)]
pub struct AckPacket {
    /// `MSG_TYPE_ACK` or `MSG_TYPE_NACK`.
    pub msg_type: u8,
    /// Sequence number of the packet being acknowledged.
    pub seq_num: u16,
}

/// A received record in display form. The fixed-point scales of
/// [`SensorDataPacket`] are kept as they are; only the sequence number is
/// renamed.
#[derive(Debug, Clone, Copy, PartialEq, Eq, Structural)]
pub struct SensorData {
    /// Temperature in tenths of a degree Celsius.
    pub temperature: i16,
    /// Relative humidity in hundredths of a percent.
    pub humidity: u16,
    /// Gas resistance in ohms.
    pub gas_resistance: u32,
    /// Sequence number of the packet this reading came from.
    pub packet_num: u16,
}

/// Everything one valid frame yields: the sensor reading and the signal
/// quality the modem reported for it.
#[derive(Debug, Clone, Copy, PartialEq, Eq, Structural)]
pub struct ParsedMessage {
    pub sensor_data: SensorData,
    /// Received signal strength, dBm.
    pub rssi: i16,
    /// Signal-to-noise ratio, dB.
    pub snr: i16,
}

/// Wire encoding of a sensor record: the four fields as varints, in order.
pub open spec fn spec_encode_record(p: SensorDataPacket) -> Seq<u8> {
    spec_uvarint(p.seq_num as nat) + spec_uvarint(spec_zigzag(p.temperature) as nat)
        + spec_uvarint(p.humidity as nat) + spec_uvarint(p.gas_resistance as nat)
}

/// Reading a sensor record from the front of `bytes`. Bytes after the
/// record are ignored, as the sender's deserializer ignores them.
pub open spec fn spec_decode_record(bytes: Seq<u8>) -> Option<SensorDataPacket> {
    match spec_take_u16(bytes) {
        None => None,
        Some((seq_num, k1)) => match spec_take_i16(bytes.skip(k1 as int)) {
            None => None,
            Some((temperature, k2)) => match spec_take_u16(bytes.skip((k1 + k2) as int)) {
                None => None,
                Some((humidity, k3)) => match spec_take_u32(bytes.skip((k1 + k2 + k3) as int)) {
                    None => None,
                    Some((gas_resistance, _)) => Some(
                        SensorDataPacket { seq_num, temperature, humidity, gas_resistance },
                    ),
                },
            },
        },
    }
}

/// Serializes a sensor record.
pub fn encode_record(p: &SensorDataPacket) -> (out: Vec<u8>)
    ensures
        out@ == spec_encode_record(*p),
{
    let mut out: Vec<u8> = Vec::new();
    encode_uvarint(&mut out, p.seq_num as u64);
    encode_uvarint(&mut out, zigzag(p.temperature) as u64);
    encode_uvarint(&mut out, p.humidity as u64);
    encode_uvarint(&mut out, p.gas_resistance as u64);
    assert(out@ =~= spec_encode_record(*p));
    out
}

/// Deserializes a sensor record from the front of `data`; `None` when a
/// field's varint is malformed or the data runs out.
pub fn decode_record(data: &[u8]) -> (r: Option<SensorDataPacket>)
    ensures
        r == spec_decode_record(data@),
{
    let _n = data.len();
    proof {
        assert(data@.skip(0) =~= data@);
    }
    let (seq_num, p1) = match take_u16(data, 0) {
        None => {
            return None;
        },
        Some(x) => x,
    };
    let (temperature, p2) = match take_i16(data, p1) {
        None => {
            return None;
        },
        Some(x) => x,
    };
    let (humidity, p3) = match take_u16(data, p2) {
        None => {
            return None;
        },
        Some(x) => x,
    };
    let (gas_resistance, _p4) = match take_u32(data, p3) {
        None => {
            return None;
        },
        Some(x) => x,
    };
    Some(SensorDataPacket { seq_num, temperature, humidity, gas_resistance })
}

/// Round trip: a serialized record, with anything after it, deserializes to
/// the record itself.
pub proof fn lemma_record_roundtrip(p: SensorDataPacket, rest: Seq<u8>)
    ensures
        spec_decode_record(spec_encode_record(p) + rest) == Some(p),
{
    let e1 = spec_uvarint(p.seq_num as nat);
    let e2 = spec_uvarint(spec_zigzag(p.temperature) as nat);
    let e3 = spec_uvarint(p.humidity as nat);
    let e4 = spec_uvarint(p.gas_resistance as nat);
    let whole = spec_encode_record(p) + rest;
    assert(whole =~= e1 + (e2 + (e3 + (e4 + rest))));
    lemma_take_u16_roundtrip(p.seq_num, e2 + (e3 + (e4 + rest)));
    assert(whole.skip(e1.len() as int) =~= e2 + (e3 + (e4 + rest)));
    lemma_take_i16_roundtrip(p.temperature, e3 + (e4 + rest));
    assert(whole.skip((e1.len() + e2.len()) as int) =~= e3 + (e4 + rest));
    lemma_take_u16_roundtrip(p.humidity, e4 + rest);
    assert(whole.skip((e1.len() + e2.len() + e3.len()) as int) =~= e4 + rest);
    lemma_take_u32_roundtrip(p.gas_resistance, rest);
}

/// A record's wire form is four to fourteen bytes: one to three for each
/// 16-bit field, one to five for the 32-bit field.
pub proof fn lemma_encode_record_len(p: SensorDataPacket)
    ensures
        4 <= spec_encode_record(p).len() <= 14,
{
    lemma_pow128_3();
    lemma_pow128_5();
    lemma_uvarint_len(p.seq_num as nat, 3nat);
    lemma_uvarint_len(spec_zigzag(p.temperature) as nat, 3nat);
    lemma_uvarint_len(p.humidity as nat, 3nat);
    lemma_uvarint_len(p.gas_resistance as nat, 5nat);
}

/// Wire encoding of an acknowledgment: the type byte, then the sequence
/// number as a varint.
pub open spec fn spec_encode_ack(a: AckPacket) -> Seq<u8> {
    seq![a.msg_type] + spec_uvarint(a.seq_num as nat)
}

/// Serializes an acknowledgment record.
pub fn encode_ack(a: &AckPacket) -> (out: Vec<u8>)
    ensures
        out@ == spec_encode_ack(*a),
{
    let mut out: Vec<u8> = Vec::new();
    out.push(a.msg_type);
    encode_uvarint(&mut out, a.seq_num as u64);
    assert(out@ =~= spec_encode_ack(*a));
    out
}

} // verus!
