//! The telemetry line: one JSON object per frame, fixed field order and
//! fixed one-decimal precision, so the rendered size is bounded. The line
//! carries the timestamp, this node's identifier, the remote reading, the
//! local reading (fields omitted until available), signal quality and the
//! running counters, and ends with a literal `\n` escape (backslash and
//! `n`, not a newline byte). Readings held in hundredths are rounded to
//! tenths by a fixed rule — half away from zero — so every line renders
//! the same everywhere; readings already in tenths render exactly.

use vstd::prelude::*;

verus! {

use crate::packet::ParsedMessage;
use crate::text::{
    spec_dec_nat, spec_dec_int, push_dec_u64, push_dec_i64, pow10, lemma_dec_nat_len,
    lemma_pow10_10, B_ZERO, B_MINUS,
};

/// ASCII full stop, the decimal point.
pub const B_DOT: u8 = 46;

/// The output buffer's capacity: no line may render longer than this.
pub const JSON_CAPACITY: usize = 512;

/// A value held in tenths, rendered to one decimal place: sign, the whole
/// part, a dot, the tenths digit.
pub open spec fn spec_dec_1dp(deci: int) -> Seq<u8> {
    let mag = if deci < 0 {
        -deci
    } else {
        deci
    };
    let sign: Seq<u8> = if deci < 0 {
        seq![B_MINUS]
    } else {
        Seq::<u8>::empty()
    };
    sign + spec_dec_nat((mag / 10) as nat) + seq![B_DOT, (B_ZERO + mag % 10) as u8]
}

/// A value held in hundredths, rounded to tenths, half away from zero.
pub open spec fn spec_centi_to_deci(centi: int) -> int {
    if centi >= 0 {
        (centi + 5) / 10
    } else {
        -((-centi + 5) / 10)
    }
}

/// The local reading's object body: each field present only once its value
/// is, a comma between the two when both are.
pub open spec fn spec_n2_body(local_temp_centi: Option<i32>, local_humidity_centi: Option<u16>) -> Seq<
    u8,
> {
    match (local_temp_centi, local_humidity_centi) {
        (None, None) => Seq::<u8>::empty(),
        (Some(t), None) => lit_t_key() + spec_dec_1dp(spec_centi_to_deci(t as int)),
        (None, Some(h)) => lit_h_key() + spec_dec_1dp(spec_centi_to_deci(h as int)),
        (Some(t), Some(h)) => lit_t_key() + spec_dec_1dp(spec_centi_to_deci(t as int))
            + seq![44u8] + lit_h_key() + spec_dec_1dp(spec_centi_to_deci(h as int)),
    }
}

/// The whole line, piece by piece.
pub open spec fn spec_json_line(
    msg: ParsedMessage,
    timestamp_ms: u32,
    packets_received: u32,
    crc_errors: u32,
    local_temp_centi: Option<i32>,
    local_humidity_centi: Option<u16>,
) -> Seq<u8> {
    lit_obj_ts() + spec_dec_nat(timestamp_ms as nat) + lit_id_n1_t() + spec_dec_1dp(
        msg.sensor_data.temperature as int,
    ) + lit_h() + spec_dec_1dp(spec_centi_to_deci(msg.sensor_data.humidity as int)) + lit_g()
        + spec_dec_nat(msg.sensor_data.gas_resistance as nat) + lit_n2() + spec_n2_body(
        local_temp_centi,
        local_humidity_centi,
    ) + lit_sig_rssi() + spec_dec_int(msg.rssi as int) + lit_snr() + spec_dec_int(msg.snr as int)
        + lit_sts_rx() + spec_dec_nat(packets_received as nat) + lit_err() + spec_dec_nat(
        crc_errors as nat,
    ) + lit_close()
}

/// The text `{"ts":`.
pub open spec fn lit_obj_ts() -> Seq<u8> {
    seq![123u8, 34u8, 116u8, 115u8, 34u8, 58u8]
}

/// The text `,"id":"N2","n1":{"t":`.
pub open spec fn lit_id_n1_t() -> Seq<u8> {
    seq![
        44u8, 34u8, 105u8, 100u8, 34u8, 58u8, 34u8, 78u8, 50u8, 34u8, 44u8, 34u8, 110u8, 49u8,
        34u8, 58u8, 123u8, 34u8, 116u8, 34u8, 58u8,
    ]
}

/// The text `,"h":`.
pub open spec fn lit_h() -> Seq<u8> {
    seq![44u8, 34u8, 104u8, 34u8, 58u8]
}

/// The text `,"g":`.
pub open spec fn lit_g() -> Seq<u8> {
    seq![44u8, 34u8, 103u8, 34u8, 58u8]
}

/// The text `},"n2":{`.
pub open spec fn lit_n2() -> Seq<u8> {
    seq![125u8, 44u8, 34u8, 110u8, 50u8, 34u8, 58u8, 123u8]
}

/// The text `"t":`.
pub open spec fn lit_t_key() -> Seq<u8> {
    seq![34u8, 116u8, 34u8, 58u8]
}

/// The text `"h":`.
pub open spec fn lit_h_key() -> Seq<u8> {
    seq![34u8, 104u8, 34u8, 58u8]
}

/// The text `},"sig":{"rssi":`.
pub open spec fn lit_sig_rssi() -> Seq<u8> {
    seq![
        125u8, 44u8, 34u8, 115u8, 105u8, 103u8, 34u8, 58u8, 123u8, 34u8, 114u8, 115u8, 115u8,
        105u8, 34u8, 58u8,
    ]
}

/// The text `,"snr":`.
pub open spec fn lit_snr() -> Seq<u8> {
    seq![44u8, 34u8, 115u8, 110u8, 114u8, 34u8, 58u8]
}

/// The text `},"sts":{"rx":`.
pub open spec fn lit_sts_rx() -> Seq<u8> {
    seq![
        125u8, 44u8, 34u8, 115u8, 116u8, 115u8, 34u8, 58u8, 123u8, 34u8, 114u8, 120u8, 34u8, 58u8,
    ]
}

/// The text `,"err":`.
pub open spec fn lit_err() -> Seq<u8> {
    seq![44u8, 34u8, 101u8, 114u8, 114u8, 34u8, 58u8]
}

/// The closing braces and the literal `\n` escape: `}}` then backslash,
/// then `n`.
pub open spec fn lit_close() -> Seq<u8> {
    seq![125u8, 125u8, 92u8, 110u8]
}

/// Rounds a value in hundredths to tenths, half away from zero.
fn centi_to_deci(centi: i64) -> (r: i64)
    ensures
        r as int == spec_centi_to_deci(centi as int),
{
    if centi >= 0 {
        (((centi as u64) + 5) / 10) as i64
    } else {
        let mag: u64 = (-(centi as i128)) as u64;
        -(((mag + 5) / 10) as i64)
    }
}

/// Appends a value held in tenths, rendered to one decimal place.
fn push_1dp_deci(out: &mut Vec<u8>, deci: i64)
    ensures
        final(out)@ == old(out)@ + spec_dec_1dp(deci as int),
{
    let ghost pre = out@;
    let mag: u64 = if deci < 0 {
        out.push(B_MINUS);
        (-(deci as i128)) as u64
    } else {
        deci as u64
    };
    push_dec_u64(out, mag / 10);
    out.push(B_DOT);
    out.push(B_ZERO + ((mag % 10) as u8));
    assert(out@ =~= pre + spec_dec_1dp(deci as int));
}

/// Renders one telemetry line from a received message, the clock, the
/// counters, and the local reading if it exists. The result is exactly the
/// line [`spec_json_line`] describes and never outgrows the output buffer.
#[verifier::rlimit(60)]
pub fn format_json_telemetry(
    parsed: &ParsedMessage,
    timestamp_ms: u32,
    packets_received: u32,
    crc_errors: u32,
    local_temp_centi: Option<i32>,
    local_humidity_centi: Option<u16>,
) -> (r: Vec<u8>)
    ensures
        r@ == spec_json_line(
            *parsed,
            timestamp_ms,
            packets_received,
            crc_errors,
            local_temp_centi,
            local_humidity_centi,
        ),
        r@.len() <= JSON_CAPACITY,
{
    let mut out: Vec<u8> = Vec::new();
    push_lit_obj_ts(&mut out);
    push_dec_u64(&mut out, timestamp_ms as u64);
    push_lit_id_n1_t(&mut out);
    push_1dp_deci(&mut out, parsed.sensor_data.temperature as i64);
    push_lit_h(&mut out);
    push_1dp_deci(&mut out, centi_to_deci(parsed.sensor_data.humidity as i64));
    push_lit_g(&mut out);
    push_dec_u64(&mut out, parsed.sensor_data.gas_resistance as u64);
    push_lit_n2(&mut out);
    match local_temp_centi {
        Some(t) => {
            push_lit_t_key(&mut out);
            push_1dp_deci(&mut out, centi_to_deci(t as i64));
            if local_humidity_centi.is_some() {
                out.push(44);
            }
        },
        None => {},
    }
    match local_humidity_centi {
        Some(h) => {
            push_lit_h_key(&mut out);
            push_1dp_deci(&mut out, centi_to_deci(h as i64));
        },
        None => {},
    }
    push_lit_sig_rssi(&mut out);
    push_dec_i64(&mut out, parsed.rssi as i64);
    push_lit_snr(&mut out);
    push_dec_i64(&mut out, parsed.snr as i64);
    push_lit_sts_rx(&mut out);
    push_dec_u64(&mut out, packets_received as u64);
    push_lit_err(&mut out);
    push_dec_u64(&mut out, crc_errors as u64);
    push_lit_close(&mut out);
    proof {
        lemma_json_line_len(
            *parsed,
            timestamp_ms,
            packets_received,
            crc_errors,
            local_temp_centi,
            local_humidity_centi,
        );
    }
    assert(out@ =~= spec_json_line(
        *parsed,
        timestamp_ms,
        packets_received,
        crc_errors,
        local_temp_centi,
        local_humidity_centi,
    ));
    out
}

/// A one-decimal rendering of a value whose whole part stays below
/// `10^k` is at most `k + 3` bytes: sign, whole part, dot, tenths digit.
pub proof fn lemma_dec_1dp_len(deci: int, k: nat)
    requires
        k >= 1,
        (if deci < 0 {
            -deci
        } else {
            deci
        }) / 10 < pow10(k),
    ensures
        spec_dec_1dp(deci).len() <= k + 3,
{
    let mag = if deci < 0 {
        -deci
    } else {
        deci
    };
    lemma_dec_nat_len((mag / 10) as nat, k);
}

/// A signed rendering of a value whose magnitude stays below `10^k` is at
/// most `k + 1` bytes.
pub proof fn lemma_dec_int_len(v: int, k: nat)
    requires
        k >= 1,
        (if v < 0 {
            -v
        } else {
            v
        }) < pow10(k),
    ensures
        spec_dec_int(v).len() <= k + 1,
{
    if v < 0 {
        lemma_dec_nat_len((-v) as nat, k);
    } else {
        lemma_dec_nat_len(v as nat, k);
    }
}

/// For every field value the types allow, the rendered line fits the
/// output buffer.
pub proof fn lemma_json_line_len(
    msg: ParsedMessage,
    timestamp_ms: u32,
    packets_received: u32,
    crc_errors: u32,
    local_temp_centi: Option<i32>,
    local_humidity_centi: Option<u16>,
)
    ensures
        spec_json_line(
            msg,
            timestamp_ms,
            packets_received,
            crc_errors,
            local_temp_centi,
            local_humidity_centi,
        ).len() <= JSON_CAPACITY,
{
    lemma_pow10_10();
    lemma_dec_nat_len(timestamp_ms as nat, 10nat);
    lemma_dec_nat_len(msg.sensor_data.gas_resistance as nat, 10nat);
    lemma_dec_nat_len(packets_received as nat, 10nat);
    lemma_dec_nat_len(crc_errors as nat, 10nat);
    lemma_dec_1dp_len(msg.sensor_data.temperature as int, 4nat);
    lemma_dec_1dp_len(spec_centi_to_deci(msg.sensor_data.humidity as int), 4nat);
    lemma_dec_int_len(msg.rssi as int, 5nat);
    lemma_dec_int_len(msg.snr as int, 5nat);
    match local_temp_centi {
        Some(t) => {
            lemma_dec_1dp_len(spec_centi_to_deci(t as int), 8nat);
        },
        None => {},
    }
    match local_humidity_centi {
        Some(h) => {
            lemma_dec_1dp_len(spec_centi_to_deci(h as int), 4nat);
        },
        None => {},
    }
}

fn push_lit_obj_ts(out: &mut Vec<u8>)
    ensures
        final(out)@ == old(out)@ + lit_obj_ts(),
{
    out.push(123);
    out.push(34);
    out.push(116);
    out.push(115);
    out.push(34);
    out.push(58);
    assert(out@ =~= old(out)@ + lit_obj_ts());
}

fn push_lit_id_n1_t(out: &mut Vec<u8>)
    ensures
        final(out)@ == old(out)@ + lit_id_n1_t(),
{
    out.push(44);
    out.push(34);
    out.push(105);
    out.push(100);
    out.push(34);
    out.push(58);
    out.push(34);
    out.push(78);
    out.push(50);
    out.push(34);
    out.push(44);
    out.push(34);
    out.push(110);
    out.push(49);
    out.push(34);
    out.push(58);
    out.push(123);
    out.push(34);
    out.push(116);
    out.push(34);
    out.push(58);
    assert(out@ =~= old(out)@ + lit_id_n1_t());
}

fn push_lit_h(out: &mut Vec<u8>)
    ensures
        final(out)@ == old(out)@ + lit_h(),
{
    out.push(44);
    out.push(34);
    out.push(104);
    out.push(34);
    out.push(58);
    assert(out@ =~= old(out)@ + lit_h());
}

fn push_lit_g(out: &mut Vec<u8>)
    ensures
        final(out)@ == old(out)@ + lit_g(),
{
    out.push(44);
    out.push(34);
    out.push(103);
    out.push(34);
    out.push(58);
    assert(out@ =~= old(out)@ + lit_g());
}

fn push_lit_n2(out: &mut Vec<u8>)
    ensures
        final(out)@ == old(out)@ + lit_n2(),
{
    out.push(125);
    out.push(44);
    out.push(34);
    out.push(110);
    out.push(50);
    out.push(34);
    out.push(58);
    out.push(123);
    assert(out@ =~= old(out)@ + lit_n2());
}

fn push_lit_t_key(out: &mut Vec<u8>)
    ensures
        final(out)@ == old(out)@ + lit_t_key(),
{
    out.push(34);
    out.push(116);
    out.push(34);
    out.push(58);
    assert(out@ =~= old(out)@ + lit_t_key());
}

fn push_lit_h_key(out: &mut Vec<u8>)
    ensures
        final(out)@ == old(out)@ + lit_h_key(),
{
    out.push(34);
    out.push(104);
    out.push(34);
    out.push(58);
    assert(out@ =~= old(out)@ + lit_h_key());
}

fn push_lit_sig_rssi(out: &mut Vec<u8>)
    ensures
        final(out)@ == old(out)@ + lit_sig_rssi(),
{
    out.push(125);
    out.push(44);
    out.push(34);
    out.push(115);
    out.push(105);
    out.push(103);
    out.push(34);
    out.push(58);
    out.push(123);
    out.push(34);
    out.push(114);
    out.push(115);
    out.push(115);
    out.push(105);
    out.push(34);
    out.push(58);
    assert(out@ =~= old(out)@ + lit_sig_rssi());
}

fn push_lit_snr(out: &mut Vec<u8>)
    ensures
        final(out)@ == old(out)@ + lit_snr(),
{
    out.push(44);
    out.push(34);
    out.push(115);
    out.push(110);
    out.push(114);
    out.push(34);
    out.push(58);
    assert(out@ =~= old(out)@ + lit_snr());
}

fn push_lit_sts_rx(out: &mut Vec<u8>)
    ensures
        final(out)@ == old(out)@ + lit_sts_rx(),
{
    out.push(125);
    out.push(44);
    out.push(34);
    out.push(115);
    out.push(116);
    out.push(115);
    out.push(34);
    out.push(58);
    out.push(123);
    out.push(34);
    out.push(114);
    out.push(120);
    out.push(34);
    out.push(58);
    assert(out@ =~= old(out)@ + lit_sts_rx());
}

fn push_lit_err(out: &mut Vec<u8>)
    ensures
        final(out)@ == old(out)@ + lit_err(),
{
    out.push(44);
    out.push(34);
    out.push(101);
    out.push(114);
    out.push(114);
    out.push(34);
    out.push(58);
    assert(out@ =~= old(out)@ + lit_err());
}

fn push_lit_close(out: &mut Vec<u8>)
    ensures
        final(out)@ == old(out)@ + lit_close(),
{
    out.push(125);
    out.push(125);
    out.push(92);
    out.push(110);
    assert(out@ =~= old(out)@ + lit_close());
}

} // verus!
