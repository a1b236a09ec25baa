//! The ASCII-framed envelope the modem delivers a record in:
//!
//! `+RCV=<addr>,<len>,<payload>,<rssi>,<snr>\r\n`
//!
//! `<payload>` is `<len>` raw bytes: the binary sensor record followed by
//! its 16-bit checksum, big-endian. `<addr>`, `<len>`, `<rssi>` and `<snr>`
//! are decimal text. The decoder locates the payload by the declared
//! length, verifies the checksum, deserializes the record, and reads the
//! two trailing signal-quality fields.

use vstd::prelude::*;

verus! {

use crate::integrity::{crc16_of, calculate_crc16};
use crate::packet::{
    SensorDataPacket, SensorData, ParsedMessage, AckPacket, MSG_TYPE_ACK, MSG_TYPE_NACK,
    spec_decode_record, spec_encode_record, spec_encode_ack, decode_record, encode_record,
    encode_ack,
};
use crate::text::{
    first_index_of, find_byte, all_digits, digits_value, check_digits, digits_value_capped,
    spec_parse_i16, parse_i16_field, trim, trim_start, trim_end, trim_start_index, trim_end_index,
    spec_dec_nat, spec_dec_int, push_dec_u64, push_dec_i64, lemma_first_index_of_skip,
    lemma_dec_nat_digits, lemma_dec_nat_value, lemma_dec_int_plain, lemma_parse_dec_i16,
    lemma_first_index_at, lemma_first_index_none, is_ws, is_digit, B_PLUS,
};
use vstd::arithmetic::div_mod::lemma_fundamental_div_mod;

/// ASCII comma, the envelope's field separator.
pub const B_COMMA: u8 = 44;

/// ASCII carriage return.
pub const B_CR: u8 = 13;

/// ASCII line feed, the frame terminator.
pub const B_LF: u8 = 10;

/// A frame shorter than this cannot carry the prefix, the separators, a
/// payload and the trailing fields.
pub const MIN_FRAME_LEN: usize = 10;

/// The literal `+RCV=` that every receive notification starts with.
pub open spec fn rcv_prefix() -> Seq<u8> {
    seq![43u8, 82u8, 67u8, 86u8, 61u8]
}

/// Why a frame was dropped.
#[derive(Debug, Clone, Copy, PartialEq, Eq, Structural)]
pub enum DecodeError {
    /// The envelope structure is wrong: prefix, separators, length field,
    /// payload bounds, a payload too short to carry a checksum, or the
    /// trailing fields. Dropped silently.
    Malformed,
    /// The carried checksum does not match the data bytes. The only error
    /// the receiver counts.
    IntegrityFailure,
    /// The checksum passed but the data bytes do not deserialize as a
    /// sensor record. Dropped silently.
    RecordInvalid,
}

/// The text after the payload: `,<rssi>,<snr>` up to the end of the frame.
/// Each field is a signed decimal — an optional sign, then digits. The SNR
/// field runs to the next comma if any, else to the end, and is trimmed of
/// ASCII whitespace (it normally carries the `\r\n` terminator; whitespace
/// beyond ASCII is not trimmed). Anything after a third comma is ignored.
pub open spec fn spec_parse_trailing(t: Seq<u8>) -> Option<(i16, i16)> {
    if t.len() == 0 || t[0] != B_COMMA {
        None
    } else {
        match first_index_of(t, 1, B_COMMA) {
            None => None,
            Some(c) => {
                let rssi = spec_parse_i16(t.subrange(1, c));
                let snr_end = match first_index_of(t, c + 1, B_COMMA) {
                    None => t.len() as int,
                    Some(e) => e,
                };
                let snr = spec_parse_i16(trim(t.subrange(c + 1, snr_end)));
                match (rssi, snr) {
                    (Some(r), Some(s)) => Some((r, s)),
                    _ => None,
                }
            },
        }
    }
}

/// What decoding a raw frame yields, step by step:
/// prefix and minimum length; the first two commas after the prefix; the
/// decimal payload length between them (an optional plus sign, then
/// digits); the payload located by that length,
/// which must fit the frame and hold at least one data byte besides its
/// two checksum bytes; the checksum over the data bytes against the carried
/// big-endian value; the sensor record; the trailing RSSI and SNR text.
pub open spec fn spec_decode_frame(frame: Seq<u8>) -> Result<ParsedMessage, DecodeError> {
    if frame.len() < MIN_FRAME_LEN || frame.subrange(0, 5) != rcv_prefix() {
        Err(DecodeError::Malformed)
    } else {
        match first_index_of(frame, 5, B_COMMA) {
            None => Err(DecodeError::Malformed),
            Some(c1) => match first_index_of(frame, c1 + 1, B_COMMA) {
                None => Err(DecodeError::Malformed),
                Some(c2) => {
                    let len_field = frame.subrange(c1 + 1, c2);
                    let len_digits = if len_field.len() > 0 && len_field[0] == B_PLUS {
                        len_field.skip(1)
                    } else {
                        len_field
                    };
                    if len_digits.len() == 0 || !all_digits(len_digits) {
                        Err(DecodeError::Malformed)
                    } else {
                        let l = digits_value(len_digits) as int;
                        let pstart = c2 + 1;
                        if pstart + l > frame.len() {
                            Err(DecodeError::Malformed)
                        } else if l < 3 {
                            Err(DecodeError::Malformed)
                        } else {
                            let data = frame.subrange(pstart, pstart + l - 2);
                            let carried = (frame[pstart + l - 2] as int) * 256 + frame[pstart + l
                                - 1];
                            if carried != crc16_of(data) as int {
                                Err(DecodeError::IntegrityFailure)
                            } else {
                                match spec_decode_record(data) {
                                    None => Err(DecodeError::RecordInvalid),
                                    Some(pkt) => match spec_parse_trailing(
                                        frame.skip(pstart + l),
                                    ) {
                                        None => Err(DecodeError::Malformed),
                                        Some((rssi, snr)) => Ok(
                                            ParsedMessage {
                                                sensor_data: SensorData {
                                                    temperature: pkt.temperature,
                                                    humidity: pkt.humidity,
                                                    gas_resistance: pkt.gas_resistance,
                                                    packet_num: pkt.seq_num,
                                                },
                                                rssi,
                                                snr,
                                            },
                                        ),
                                    },
                                }
                            }
                        }
                    }
                }
            },
        }
    }
}

/// Reads the trailing `,<rssi>,<snr>` text that starts at `tstart`.
fn parse_trailing(frame: &[u8], tstart: usize) -> (r: Option<(i16, i16)>)
    requires
        tstart <= frame@.len(),
    ensures
        r == spec_parse_trailing(frame@.skip(tstart as int)),
{
    let ghost t = frame@.skip(tstart as int);
    let n = frame.len();
    if tstart == n || frame[tstart] != B_COMMA {
        return None;
    }
    proof {
        lemma_first_index_of_skip(frame@, tstart as int, tstart as int + 1, B_COMMA);
    }
    let c = match find_byte(frame, tstart + 1, B_COMMA) {
        None => {
            return None;
        },
        Some(c) => c,
    };
    proof {
        assert(t.subrange(1, c - tstart) =~= frame@.subrange(tstart as int + 1, c as int));
    }
    let rssi = parse_i16_field(frame, tstart + 1, c);
    proof {
        lemma_first_index_of_skip(frame@, tstart as int, c as int + 1, B_COMMA);
    }
    let snr_end = match find_byte(frame, c + 1, B_COMMA) {
        None => n,
        Some(e) => e,
    };
    let j = trim_start_index(frame, c + 1, snr_end);
    let k = trim_end_index(frame, j, snr_end);
    proof {
        assert(t.subrange(c - tstart + 1, snr_end - tstart) =~= frame@.subrange(
            c as int + 1,
            snr_end as int,
        ));
        assert(t.subrange(c - tstart + 1, t.len() as int) =~= frame@.subrange(
            c as int + 1,
            n as int,
        ));
    }
    let snr = parse_i16_field(frame, j, k);
    match (rssi, snr) {
        (Some(r), Some(s)) => Some((r, s)),
        _ => None,
    }
}

/// Decodes one raw frame, telling a malformed envelope, a checksum
/// mismatch and an undecodable record apart.
pub fn decode_frame(frame: &[u8]) -> (r: Result<ParsedMessage, DecodeError>)
    ensures
        r == spec_decode_frame(frame@),
{
    let n = frame.len();
    if n < MIN_FRAME_LEN {
        return Err(DecodeError::Malformed);
    }
    if !(frame[0] == 43 && frame[1] == 82 && frame[2] == 67 && frame[3] == 86 && frame[4] == 61) {
        proof {
            assert(frame@.subrange(0, 5) != rcv_prefix()) by {
                if frame@.subrange(0, 5) == rcv_prefix() {
                    assert(frame@[0] == frame@.subrange(0, 5)[0]);
                    assert(frame@[1] == frame@.subrange(0, 5)[1]);
                    assert(frame@[2] == frame@.subrange(0, 5)[2]);
                    assert(frame@[3] == frame@.subrange(0, 5)[3]);
                    assert(frame@[4] == frame@.subrange(0, 5)[4]);
                }
            }
        }
        return Err(DecodeError::Malformed);
    }
    proof {
        assert(frame@.subrange(0, 5) =~= rcv_prefix());
    }
    let c1 = match find_byte(frame, 5, B_COMMA) {
        None => {
            return Err(DecodeError::Malformed);
        },
        Some(c) => c,
    };
    let c2 = match find_byte(frame, c1 + 1, B_COMMA) {
        None => {
            return Err(DecodeError::Malformed);
        },
        Some(c) => c,
    };
    let ghost len_field = frame@.subrange(c1 as int + 1, c2 as int);
    let dlo = if c1 + 1 < c2 && frame[c1 + 1] == B_PLUS {
        proof {
            assert(len_field.skip(1) =~= frame@.subrange(c1 as int + 2, c2 as int));
        }
        c1 + 2
    } else {
        c1 + 1
    };
    if dlo == c2 {
        return Err(DecodeError::Malformed);
    }
    if !check_digits(frame, dlo, c2) {
        return Err(DecodeError::Malformed);
    }
    let l128 = digits_value_capped(frame, dlo, c2, 0x2_0000_0000_0000_0000);
    let pstart = c2 + 1;
    if (pstart as u128) + l128 > (n as u128) {
        return Err(DecodeError::Malformed);
    }
    let l = l128 as usize;
    if l < 3 {
        return Err(DecodeError::Malformed);
    }
    let data = &frame[pstart..pstart + l - 2];
    let hi = frame[pstart + l - 2];
    let lo = frame[pstart + l - 1];
    let carried: u16 = (hi as u16) * 256 + (lo as u16);
    let calculated = calculate_crc16(data);
    if carried != calculated {
        return Err(DecodeError::IntegrityFailure);
    }
    let pkt = match decode_record(data) {
        None => {
            return Err(DecodeError::RecordInvalid);
        },
        Some(p) => p,
    };
    match parse_trailing(frame, pstart + l) {
        None => Err(DecodeError::Malformed),
        Some((rssi, snr)) => Ok(
            ParsedMessage {
                sensor_data: SensorData {
                    temperature: pkt.temperature,
                    humidity: pkt.humidity,
                    gas_resistance: pkt.gas_resistance,
                    packet_num: pkt.seq_num,
                },
                rssi,
                snr,
            },
        ),
    }
}

/// The envelope a record travels in, as the sending node builds it: the
/// record, its checksum appended big-endian, framed in the receive
/// notification syntax with the given address and signal-quality text.
pub open spec fn spec_encode_envelope(p: SensorDataPacket, addr: u32, rssi: i16, snr: i16) -> Seq<
    u8,
> {
    let record = spec_encode_record(p);
    let crc = crc16_of(record);
    rcv_prefix() + spec_dec_nat(addr as nat) + seq![B_COMMA] + spec_dec_nat(
        (record.len() + 2) as nat,
    ) + seq![B_COMMA] + record + seq![(crc / 256) as u8, (crc % 256) as u8] + seq![B_COMMA]
        + spec_dec_int(rssi as int) + seq![B_COMMA] + spec_dec_int(snr as int) + seq![B_CR, B_LF]
}

/// Builds the full receive notification for a record, checksum included —
/// what the sending node puts on the air and the decoder takes apart.
pub fn encode_envelope(packet: &SensorDataPacket, addr: u32, rssi: i16, snr: i16) -> (out: Vec<u8>)
    ensures
        out@ == spec_encode_envelope(*packet, addr, rssi, snr),
{
    proof {
        crate::packet::lemma_encode_record_len(*packet);
    }
    let mut record = encode_record(packet);
    let crc = calculate_crc16(record.as_slice());
    let payload_len = record.len() + 2;
    let mut out: Vec<u8> = Vec::new();
    out.push(43);
    out.push(82);
    out.push(67);
    out.push(86);
    out.push(61);
    push_dec_u64(&mut out, addr as u64);
    out.push(B_COMMA);
    push_dec_u64(&mut out, payload_len as u64);
    out.push(B_COMMA);
    out.append(&mut record);
    out.push((crc / 256) as u8);
    out.push((crc % 256) as u8);
    out.push(B_COMMA);
    push_dec_i64(&mut out, rssi as i64);
    out.push(B_COMMA);
    push_dec_i64(&mut out, snr as i64);
    out.push(B_CR);
    out.push(B_LF);
    assert(out@ =~= spec_encode_envelope(*packet, addr, rssi, snr));
    out
}

/// The command that acknowledges a record to the sending node (address 1):
/// `AT+SEND=1,<len>,<ack bytes>\r\n`.
pub open spec fn spec_ack_frame(seq_num: u16, is_ack: bool) -> Seq<u8> {
    let ack = spec_encode_ack(
        AckPacket {
            msg_type: if is_ack {
                MSG_TYPE_ACK
            } else {
                MSG_TYPE_NACK
            },
            seq_num,
        },
    );
    at_send_prefix() + spec_dec_nat(ack.len() as nat) + seq![B_COMMA] + ack + seq![B_CR, B_LF]
}

/// The literal `AT+SEND=1,` that opens the acknowledgment command.
pub open spec fn at_send_prefix() -> Seq<u8> {
    seq![65u8, 84u8, 43u8, 83u8, 69u8, 78u8, 68u8, 61u8, 49u8, 44u8]
}

/// Builds the acknowledgment command for a received sequence number. The
/// caller sends the bytes back over the same link, synchronously, before
/// anything else happens for the frame.
pub fn build_ack_frame(seq_num: u16, is_ack: bool) -> (out: Vec<u8>)
    ensures
        out@ == spec_ack_frame(seq_num, is_ack),
{
    let msg_type = if is_ack {
        MSG_TYPE_ACK
    } else {
        MSG_TYPE_NACK
    };
    let mut ack = encode_ack(&AckPacket { msg_type, seq_num });
    proof {
        crate::codec::lemma_pow128_3();
        crate::codec::lemma_uvarint_len(seq_num as nat, 3nat);
    }
    let ack_len = ack.len();
    let mut out: Vec<u8> = Vec::new();
    out.push(65);
    out.push(84);
    out.push(43);
    out.push(83);
    out.push(69);
    out.push(78);
    out.push(68);
    out.push(61);
    out.push(49);
    out.push(44);
    push_dec_u64(&mut out, ack_len as u64);
    out.push(B_COMMA);
    out.append(&mut ack);
    out.push(B_CR);
    out.push(B_LF);
    assert(out@ =~= spec_ack_frame(seq_num, is_ack));
    out
}

/// Round trip: an envelope built from a record with a correctly computed
/// checksum decodes to the message carrying that record's fields and the
/// given signal-quality values, whatever the address.
#[verifier::rlimit(60)]
pub proof fn lemma_envelope_roundtrip(p: SensorDataPacket, addr: u32, rssi: i16, snr: i16)
    ensures
        spec_decode_frame(spec_encode_envelope(p, addr, rssi, snr)) == Ok::<_, DecodeError>(
            ParsedMessage {
                sensor_data: SensorData {
                    temperature: p.temperature,
                    humidity: p.humidity,
                    gas_resistance: p.gas_resistance,
                    packet_num: p.seq_num,
                },
                rssi,
                snr,
            },
        ),
{
    let record = spec_encode_record(p);
    let crc = crc16_of(record);
    let payload = record + seq![(crc / 256) as u8, (crc % 256) as u8];
    let atext = spec_dec_nat(addr as nat);
    let ltext = spec_dec_nat((record.len() + 2) as nat);
    let rtext = spec_dec_int(rssi as int);
    let stext = spec_dec_int(snr as int);
    let frame = spec_encode_envelope(p, addr, rssi, snr);

    crate::packet::lemma_encode_record_len(p);
    lemma_dec_nat_digits(addr as nat);
    lemma_dec_nat_digits((record.len() + 2) as nat);
    lemma_dec_nat_value((record.len() + 2) as nat);
    lemma_dec_int_plain(rssi as int);
    lemma_dec_int_plain(snr as int);

    let alen = atext.len() as int;
    let llen = ltext.len() as int;
    let c1 = 5 + alen;
    let c2 = c1 + 1 + llen;
    let pstart = c2 + 1;
    let l = payload.len() as int;
    let tstart = pstart + l;

    assert(frame =~= rcv_prefix() + atext + seq![B_COMMA] + ltext + seq![B_COMMA] + payload
        + seq![B_COMMA] + rtext + seq![B_COMMA] + stext + seq![B_CR, B_LF]);
    assert(frame.len() == tstart + 1 + rtext.len() + 1 + stext.len() + 2);
    assert(frame.len() >= MIN_FRAME_LEN);
    assert(frame.subrange(0, 5) =~= rcv_prefix());

    // The first comma sits right after the address digits.
    assert(frame[c1] == B_COMMA);
    assert(forall|i: int| 5 <= i < c1 ==> frame[i] == atext[i - 5] && #[trigger] frame[i] != B_COMMA);
    lemma_first_index_at(frame, 5, c1, B_COMMA);

    // The second comma sits right after the length digits.
    assert(frame[c2] == B_COMMA);
    assert(forall|i: int|
        c1 + 1 <= i < c2 ==> frame[i] == ltext[i - (c1 + 1)] && #[trigger] frame[i] != B_COMMA);
    lemma_first_index_at(frame, c1 + 1, c2, B_COMMA);

    // The length field names the payload's size.
    assert(frame.subrange(c1 + 1, c2) =~= ltext);
    assert(digits_value(ltext) == record.len() + 2);
    assert(l >= 3 + 3);

    // The payload and its carried checksum.
    assert(frame.subrange(pstart, pstart + l - 2) =~= record);
    assert(frame[pstart + l - 2] == (crc / 256) as u8);
    assert(frame[pstart + l - 1] == (crc % 256) as u8);
    assert(((crc / 256) as u8 as int) * 256 + ((crc % 256) as u8 as int) == crc as int) by {
        lemma_fundamental_div_mod(crc as int, 256);
    }
    crate::packet::lemma_record_roundtrip(p, Seq::<u8>::empty());
    assert(record + Seq::<u8>::empty() =~= record);

    // The trailing `,<rssi>,<snr>\r\n`.
    let t = frame.skip(tstart);
    assert(t =~= seq![B_COMMA] + rtext + seq![B_COMMA] + stext + seq![B_CR, B_LF]);
    assert(t[0] == B_COMMA);
    let c = 1 + rtext.len() as int;
    assert(t[c] == B_COMMA);
    assert(forall|i: int| 1 <= i < c ==> t[i] == rtext[i - 1] && #[trigger] t[i] != B_COMMA);
    lemma_first_index_at(t, 1, c, B_COMMA);
    assert(t.subrange(1, c) =~= rtext);
    lemma_parse_dec_i16(rssi);

    assert(forall|i: int| c + 1 <= i < t.len() ==> #[trigger] t[i] != B_COMMA);
    lemma_first_index_none(t, c + 1, B_COMMA);
    let sub = t.subrange(c + 1, t.len() as int);
    assert(sub =~= stext + seq![B_CR, B_LF]);
    assert(trim_start(sub) == sub) by {
        assert(sub[0] == stext[0]);
        assert(!is_ws(sub[0]));
    }
    assert(trim_end(sub) == stext) by {
        let s2 = stext + seq![B_CR];
        assert(sub.last() == B_LF && is_ws(B_LF));
        assert(trim_end(sub) == trim_end(sub.drop_last()));
        assert(sub.drop_last() =~= s2);
        assert(s2.last() == B_CR && is_ws(B_CR));
        assert(trim_end(s2) == trim_end(s2.drop_last()));
        assert(s2.drop_last() =~= stext);
        assert(!is_ws(stext.last()));
        assert(trim_end(stext) == stext);
    }
    assert(trim(sub) == stext);
    lemma_parse_dec_i16(snr);
    assert(spec_parse_trailing(t) == Some((rssi, snr)));
}

/// An envelope whose declared length exceeds the bytes remaining in the
/// frame is rejected as malformed — not as an integrity failure, so the
/// error counter stays untouched.
pub proof fn lemma_truncated_length_rejected(frame: Seq<u8>, c1: int, c2: int)
    requires
        frame.len() >= MIN_FRAME_LEN,
        frame.subrange(0, 5) == rcv_prefix(),
        first_index_of(frame, 5, B_COMMA) == Some(c1),
        first_index_of(frame, c1 + 1, B_COMMA) == Some(c2),
        c2 > c1 + 1,
        all_digits(frame.subrange(c1 + 1, c2)),
        c2 + 1 + digits_value(frame.subrange(c1 + 1, c2)) > frame.len(),
    ensures
        spec_decode_frame(frame) == Err::<ParsedMessage, _>(DecodeError::Malformed),
{
}

/// A structurally sound envelope whose carried checksum differs from the
/// data bytes' checksum is rejected as an integrity failure — before the
/// record or the trailing fields are even looked at.
pub proof fn lemma_checksum_mismatch_rejected(frame: Seq<u8>, c1: int, c2: int)
    requires
        frame.len() >= MIN_FRAME_LEN,
        frame.subrange(0, 5) == rcv_prefix(),
        first_index_of(frame, 5, B_COMMA) == Some(c1),
        first_index_of(frame, c1 + 1, B_COMMA) == Some(c2),
        c2 > c1 + 1,
        all_digits(frame.subrange(c1 + 1, c2)),
        3 <= digits_value(frame.subrange(c1 + 1, c2)),
        c2 + 1 + digits_value(frame.subrange(c1 + 1, c2)) <= frame.len(),
        ({
            let l = digits_value(frame.subrange(c1 + 1, c2)) as int;
            (frame[c2 + 1 + l - 2] as int) * 256 + frame[c2 + 1 + l - 1] != crc16_of(
                frame.subrange(c2 + 1, c2 + 1 + l - 2),
            ) as int
        }),
    ensures
        spec_decode_frame(frame) == Err::<ParsedMessage, _>(DecodeError::IntegrityFailure),
{
}

/// A payload of exactly two bytes — room for the checksum and nothing
/// else — is rejected as malformed.
pub proof fn lemma_minimum_payload_rejected(frame: Seq<u8>, c1: int, c2: int)
    requires
        frame.len() >= MIN_FRAME_LEN,
        frame.subrange(0, 5) == rcv_prefix(),
        first_index_of(frame, 5, B_COMMA) == Some(c1),
        first_index_of(frame, c1 + 1, B_COMMA) == Some(c2),
        c2 > c1 + 1,
        all_digits(frame.subrange(c1 + 1, c2)),
        digits_value(frame.subrange(c1 + 1, c2)) == 2,
        c2 + 1 + 2 <= frame.len(),
    ensures
        spec_decode_frame(frame) == Err::<ParsedMessage, _>(DecodeError::Malformed),
{
}

/// Decodes one raw frame, keeping only whether a message came out — the
/// shape the receive path's caller historically saw.
pub fn parse_binary_lora_message(frame: &[u8]) -> (r: Option<ParsedMessage>)
    ensures
        r == spec_decode_frame(frame@).ok(),
{
    match decode_frame(frame) {
        Ok(msg) => Some(msg),
        Err(_) => None,
    }
}

} // verus!
