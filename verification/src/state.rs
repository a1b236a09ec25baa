//! The one mutable state both interrupt paths touch, and what each path
//! does to it. On the device every field sits behind a priority-ceiling
//! critical section; here the state is a plain struct and each handler is
//! a function of it, so the locking shell around these calls stays thin
//! and carries no logic of its own.

use vstd::prelude::*;

verus! {

use crate::packet::ParsedMessage;
use crate::envelope::{spec_decode_frame, decode_frame, spec_ack_frame, build_ack_frame,
    DecodeError};
use crate::json::{spec_json_line, format_json_telemetry};

/// Milliseconds one timer tick stands for (the timer runs at two ticks a
/// second).
pub const TICK_MS: u32 = 500;

/// Timer ticks skipped before the first local-sensor sample, so the
/// sensor can settle after power-up.
pub const SENSOR_WARMUP_TICKS: u8 = 4;

/// Telemetry state shared between the receive path and the periodic
/// sampler.
#[derive(Debug, Clone, Copy)]
pub struct SharedTelemetryState {
    /// The last successfully decoded message, if any yet.
    pub last_packet: Option<ParsedMessage>,
    /// Frames decoded end to end. Wraps around at the type's limit.
    pub packets_received: u32,
    /// Frames dropped for a checksum mismatch — the only error that is
    /// counted; malformed envelopes and undecodable records are dropped
    /// silently. Wraps around at the type's limit.
    pub crc_errors: u32,
    /// Local temperature, hundredths of a degree Celsius, once sampled.
    pub local_temp_centi: Option<i32>,
    /// Local relative humidity, hundredths of a percent, once sampled.
    pub local_humidity_centi: Option<u16>,
    /// Ticks still to skip before local sampling starts.
    pub sensor_warmup_remaining: u8,
    /// Milliseconds since boot. Wraps around at the type's limit.
    pub uptime_ms: u32,
}

/// `x` reduced into the 32-bit counters' range.
pub open spec fn wrap_u32(x: int) -> int {
    x % 0x1_0000_0000
}

/// What one timer tick does: advance the clock, and either burn one
/// warm-up tick (no sample) or clear the sampler to run.
pub open spec fn spec_tick(s: SharedTelemetryState) -> (SharedTelemetryState, bool) {
    let up = wrap_u32(s.uptime_ms + TICK_MS) as u32;
    if s.sensor_warmup_remaining > 0 {
        (
            SharedTelemetryState {
                uptime_ms: up,
                sensor_warmup_remaining: (s.sensor_warmup_remaining - 1) as u8,
                ..s
            },
            false,
        )
    } else {
        (SharedTelemetryState { uptime_ms: up, ..s }, true)
    }
}

/// What one received frame does to the state: a decoded message replaces
/// the last one and bumps the receive counter; a checksum mismatch bumps
/// the error counter; anything else changes nothing.
pub open spec fn spec_apply_frame(s: SharedTelemetryState, frame: Seq<u8>) -> SharedTelemetryState {
    match spec_decode_frame(frame) {
        Ok(msg) => SharedTelemetryState {
            last_packet: Some(msg),
            packets_received: wrap_u32(s.packets_received + 1) as u32,
            ..s
        },
        Err(DecodeError::IntegrityFailure) => SharedTelemetryState {
            crc_errors: wrap_u32(s.crc_errors + 1) as u32,
            ..s
        },
        Err(_) => s,
    }
}

/// What the receive path puts out for one frame, beyond the state change.
pub struct FrameActions {
    /// The acknowledgment command to write back to the modem — present
    /// exactly when the frame decoded.
    pub ack: Option<Vec<u8>>,
    /// The telemetry line to emit downstream — present exactly when the
    /// frame decoded.
    pub telemetry: Option<Vec<u8>>,
}

/// The actions a frame must come with, given the state it hit: on success
/// the acknowledgment for the received sequence number and the telemetry
/// line rendered from the updated counters; on any failure, nothing.
pub open spec fn spec_frame_actions(
    s: SharedTelemetryState,
    frame: Seq<u8>,
    actions: FrameActions,
) -> bool {
    match spec_decode_frame(frame) {
        Ok(msg) => {
            &&& actions.ack matches Some(a) && a@ == spec_ack_frame(msg.sensor_data.packet_num, true)
            &&& actions.telemetry matches Some(t) && t@ == spec_json_line(
                msg,
                s.uptime_ms,
                wrap_u32(s.packets_received + 1) as u32,
                s.crc_errors,
                s.local_temp_centi,
                s.local_humidity_centi,
            )
        },
        Err(_) => actions.ack is None && actions.telemetry is None,
    }
}

impl SharedTelemetryState {
    /// The state at boot: nothing received, counters at zero, the full
    /// warm-up still ahead.
    pub fn new() -> (s: Self)
        ensures
            s.last_packet is None,
            s.packets_received == 0,
            s.crc_errors == 0,
            s.local_temp_centi is None,
            s.local_humidity_centi is None,
            s.sensor_warmup_remaining == SENSOR_WARMUP_TICKS,
            s.uptime_ms == 0,
    {
        SharedTelemetryState {
            last_packet: None,
            packets_received: 0,
            crc_errors: 0,
            local_temp_centi: None,
            local_humidity_centi: None,
            sensor_warmup_remaining: SENSOR_WARMUP_TICKS,
            uptime_ms: 0,
        }
    }

    /// One timer tick. Returns whether the local sensor should be sampled
    /// now; the slow measurement itself happens outside any lock, and its
    /// result comes back through [`Self::record_local_sample`].
    pub fn tick(&mut self) -> (sample: bool)
        ensures
            (*final(self), sample) == spec_tick(*old(self)),
    {
        self.uptime_ms = (((self.uptime_ms as u64) + (TICK_MS as u64)) % 0x1_0000_0000) as u32;
        if self.sensor_warmup_remaining > 0 {
            self.sensor_warmup_remaining = self.sensor_warmup_remaining - 1;
            false
        } else {
            true
        }
    }

    /// Stores one local measurement, both values together.
    pub fn record_local_sample(&mut self, temp_centi: i32, humidity_centi: u16)
        ensures
            *final(self) == (SharedTelemetryState {
                local_temp_centi: Some(temp_centi),
                local_humidity_centi: Some(humidity_centi),
                ..*old(self)
            }),
    {
        self.local_temp_centi = Some(temp_centi);
        self.local_humidity_centi = Some(humidity_centi);
    }

    /// The receive path for one complete frame: decode, update the state,
    /// and hand back the acknowledgment and the telemetry line to send —
    /// in that order, before the next frame is touched.
    pub fn handle_frame(&mut self, frame: &[u8]) -> (actions: FrameActions)
        ensures
            *final(self) == spec_apply_frame(*old(self), frame@),
            spec_frame_actions(*old(self), frame@, actions),
    {
        match decode_frame(frame) {
            Ok(msg) => {
                self.last_packet = Some(msg);
                self.packets_received = (((self.packets_received as u64) + 1) % 0x1_0000_0000)
                    as u32;
                let ack = build_ack_frame(msg.sensor_data.packet_num, true);
                let telemetry = format_json_telemetry(
                    &msg,
                    self.uptime_ms,
                    self.packets_received,
                    self.crc_errors,
                    self.local_temp_centi,
                    self.local_humidity_centi,
                );
                FrameActions { ack: Some(ack), telemetry: Some(telemetry) }
            },
            Err(e) => {
                if e == DecodeError::IntegrityFailure {
                    self.crc_errors = (((self.crc_errors as u64) + 1) % 0x1_0000_0000) as u32;
                }
                FrameActions { ack: None, telemetry: None }
            },
        }
    }
}

/// The receive interrupt's work for one incoming byte: feed the scanner,
/// and when the byte completes a frame, run the whole receive path on it
/// and clear the buffer for the next one. At most one frame is ever in
/// flight.
pub fn process_byte(
    scanner: &mut crate::scanner::FrameScanner,
    state: &mut SharedTelemetryState,
    byte: u8,
) -> (r: Option<FrameActions>)
    requires
        old(scanner).well_formed(),
    ensures
        final(scanner).well_formed(),
        ({
            let accumulated = if old(scanner)@.len() < crate::scanner::RX_BUFFER_SIZE {
                old(scanner)@.push(byte)
            } else {
                old(scanner)@
            };
            if byte == crate::envelope::B_LF {
                &&& *final(state) == spec_apply_frame(*old(state), accumulated)
                &&& final(scanner)@ == Seq::<u8>::empty()
                &&& r matches Some(a) && spec_frame_actions(*old(state), accumulated, a)
            } else {
                &&& *final(state) == *old(state)
                &&& final(scanner)@ == accumulated
                &&& r is None
            }
        }),
{
    let ready = scanner.push(byte);
    if ready {
        let actions = state.handle_frame(scanner.bytes());
        scanner.reset();
        Some(actions)
    } else {
        None
    }
}

/// A frame whose declared payload length exceeds the bytes remaining in
/// it leaves the state exactly as it was — in particular the error
/// counter, which only a checksum mismatch touches.
pub proof fn lemma_truncated_length_uncounted(
    s: SharedTelemetryState,
    frame: Seq<u8>,
    c1: int,
    c2: int,
)
    requires
        frame.len() >= crate::envelope::MIN_FRAME_LEN,
        frame.subrange(0, 5) == crate::envelope::rcv_prefix(),
        crate::text::first_index_of(frame, 5, crate::envelope::B_COMMA) == Some(c1),
        crate::text::first_index_of(frame, c1 + 1, crate::envelope::B_COMMA) == Some(c2),
        c2 > c1 + 1,
        crate::text::all_digits(frame.subrange(c1 + 1, c2)),
        c2 + 1 + crate::text::digits_value(frame.subrange(c1 + 1, c2)) > frame.len(),
    ensures
        spec_apply_frame(s, frame) == s,
{
    crate::envelope::lemma_truncated_length_rejected(frame, c1, c2);
}

/// A checksum mismatch bumps the error counter by exactly one and
/// changes nothing else — no message is stored, no acknowledgment owed.
pub proof fn lemma_checksum_mismatch_counted(
    s: SharedTelemetryState,
    frame: Seq<u8>,
    c1: int,
    c2: int,
)
    requires
        frame.len() >= crate::envelope::MIN_FRAME_LEN,
        frame.subrange(0, 5) == crate::envelope::rcv_prefix(),
        crate::text::first_index_of(frame, 5, crate::envelope::B_COMMA) == Some(c1),
        crate::text::first_index_of(frame, c1 + 1, crate::envelope::B_COMMA) == Some(c2),
        c2 > c1 + 1,
        crate::text::all_digits(frame.subrange(c1 + 1, c2)),
        3 <= crate::text::digits_value(frame.subrange(c1 + 1, c2)),
        c2 + 1 + crate::text::digits_value(frame.subrange(c1 + 1, c2)) <= frame.len(),
        ({
            let l = crate::text::digits_value(frame.subrange(c1 + 1, c2)) as int;
            (frame[c2 + 1 + l - 2] as int) * 256 + frame[c2 + 1 + l - 1]
                != crate::integrity::crc16_of(frame.subrange(c2 + 1, c2 + 1 + l - 2)) as int
        }),
    ensures
        spec_apply_frame(s, frame) == (SharedTelemetryState {
            crc_errors: wrap_u32(s.crc_errors + 1) as u32,
            ..s
        }),
{
    crate::envelope::lemma_checksum_mismatch_rejected(frame, c1, c2);
}

/// The state after `k` timer ticks.
pub open spec fn spec_run_ticks(s: SharedTelemetryState, k: nat) -> SharedTelemetryState
    decreases k,
{
    if k == 0 {
        s
    } else {
        spec_tick(spec_run_ticks(s, (k - 1) as nat)).0
    }
}

/// Whether the tick after the first `k` ticks samples the local sensor.
pub open spec fn spec_tick_samples(s: SharedTelemetryState, k: nat) -> bool {
    spec_tick(spec_run_ticks(s, k)).1
}

/// Warm-up suppression: starting from a warm-up count of `n`, the local
/// sensor is not sampled on any of the first `n` ticks, and is sampled on
/// every tick after that.
pub proof fn lemma_warmup_suppression(s: SharedTelemetryState, k: nat)
    ensures
        spec_run_ticks(s, k).sensor_warmup_remaining as int == if k
            >= s.sensor_warmup_remaining as nat {
            0
        } else {
            s.sensor_warmup_remaining - k
        },
        spec_tick_samples(s, k) <==> k >= s.sensor_warmup_remaining as nat,
    decreases k,
{
    if k > 0 {
        lemma_warmup_suppression(s, (k - 1) as nat);
    }
}

} // verus!
