//! Variable-length integer wire format used by the binary sensor records.
//!
//! Unsigned integers travel as little-endian base-128 varints: each byte
//! carries seven value bits, the high bit says another byte follows. Signed
//! integers are zigzag-mapped to unsigned first. A field of width `N` bits
//! may occupy at most `ceil(N / 7)` bytes on the wire, and a decoded value
//! must fit the field's type; both checks reject the same encodings as the
//! sender's serializer.

use vstd::prelude::*;

verus! {

use vstd::arithmetic::div_mod::lemma_fundamental_div_mod;

/// Zigzag map: non-negative `n` to `2n`, negative `n` to `-2n - 1`.
pub open spec fn spec_zigzag(n: i16) -> u16 {
    if n >= 0 {
        (2 * (n as int)) as u16
    } else {
        ((-2) * (n as int) - 1) as u16
    }
}

/// Inverse of the zigzag map.
pub open spec fn spec_unzigzag(z: u16) -> i16 {
    if z % 2 == 0 {
        ((z as int) / 2) as i16
    } else {
        (-(((z as int) + 1) / 2)) as i16
    }
}

pub proof fn lemma_zigzag_roundtrip(n: i16)
    ensures
        spec_unzigzag(spec_zigzag(n)) == n,
{
}

pub fn zigzag(n: i16) -> (z: u16)
    ensures
        z == spec_zigzag(n),
{
    if n >= 0 {
        (n as u16) * 2
    } else {
        let m: u32 = (-(n as i32)) as u32;
        (2 * m - 1) as u16
    }
}

pub fn unzigzag(z: u16) -> (n: i16)
    ensures
        n == spec_unzigzag(z),
{
    if z % 2 == 0 {
        (z / 2) as i16
    } else {
        let half: u32 = ((z as u32) + 1) / 2;
        (-(half as i32)) as i16
    }
}

/// Varint encoding of an unsigned value: low seven bits first, high bit set
/// on every byte but the last.
pub open spec fn spec_uvarint(n: nat) -> Seq<u8>
    decreases n,
{
    if n < 128 {
        seq![n as u8]
    } else {
        seq![((n % 128) + 128) as u8] + spec_uvarint(n / 128)
    }
}

/// `128^k`, the number of values a `k`-byte varint can hold.
pub open spec fn pow128(k: nat) -> nat
    decreases k,
{
    if k == 0 {
        1nat
    } else {
        128 * pow128((k - 1) as nat)
    }
}

pub proof fn lemma_uvarint_len(n: nat, k: nat)
    requires
        k >= 1,
        n < pow128(k),
    ensures
        1 <= spec_uvarint(n).len() <= k,
    decreases k,
{
    if n >= 128 {
        assert(n / 128 < pow128((k - 1) as nat)) by {
            lemma_fundamental_div_mod(n as int, 128);
        }
        lemma_uvarint_len(n / 128, (k - 1) as nat);
    }
}

/// Reading a varint from the front of `bytes`, consuming at most `max`
/// bytes: the value and the count of bytes consumed, or `None` when the
/// varint does not terminate within `max` bytes or the input runs out.
pub open spec fn spec_uvarint_decode(bytes: Seq<u8>, max: nat) -> Option<(nat, nat)>
    decreases max,
{
    if max == 0 || bytes.len() == 0 {
        None
    } else if bytes[0] < 128 {
        Some((bytes[0] as nat, 1nat))
    } else {
        match spec_uvarint_decode(bytes.skip(1), (max - 1) as nat) {
            None => None,
            Some((v, k)) => Some((((bytes[0] - 128) as nat + 128 * v) as nat, (k + 1) as nat)),
        }
    }
}

pub proof fn lemma_uvarint_decode_props(bytes: Seq<u8>, max: nat)
    ensures
        match spec_uvarint_decode(bytes, max) {
            None => true,
            Some((v, k)) => 1 <= k <= max && k <= bytes.len() && v < pow128(max),
        },
    decreases max,
{
    if max > 0 && bytes.len() > 0 {
        lemma_pow128_pos((max - 1) as nat);
        assert(pow128(max) == 128 * pow128((max - 1) as nat));
        if bytes[0] < 128 {
            assert(pow128(max) >= 128);
        } else {
            lemma_uvarint_decode_props(bytes.skip(1), (max - 1) as nat);
            match spec_uvarint_decode(bytes.skip(1), (max - 1) as nat) {
                None => {},
                Some((v, k)) => {
                    assert(128 * (v + 1) <= 128 * pow128((max - 1) as nat)) by (nonlinear_arith)
                        requires
                            v + 1 <= pow128((max - 1) as nat),
                    ;
                },
            }
        }
    }
}

proof fn lemma_pow128_pos(k: nat)
    ensures
        pow128(k) >= 1,
    decreases k,
{
    if k > 0 {
        lemma_pow128_pos((k - 1) as nat);
    }
}

/// Round trip: a varint followed by anything decodes to the value it
/// encodes, consuming exactly the varint's bytes, whenever the byte budget
/// `max` covers the encoding.
pub proof fn lemma_uvarint_roundtrip(n: nat, rest: Seq<u8>, max: nat)
    requires
        spec_uvarint(n).len() <= max,
    ensures
        spec_uvarint_decode(spec_uvarint(n) + rest, max) == Some((n, spec_uvarint(n).len() as nat)),
    decreases n,
{
    let enc = spec_uvarint(n);
    if n < 128 {
        assert((enc + rest)[0] == n as u8);
    } else {
        let tail_enc = spec_uvarint(n / 128);
        assert((enc + rest)[0] == ((n % 128) + 128) as u8);
        assert((enc + rest).skip(1) =~= tail_enc + rest);
        lemma_uvarint_roundtrip(n / 128, rest, (max - 1) as nat);
        lemma_fundamental_div_mod(n as int, 128);
    }
}

/// Encodes `n` as a varint, appended to `out`.
pub fn encode_uvarint(out: &mut Vec<u8>, n: u64)
    ensures
        final(out)@ == old(out)@ + spec_uvarint(n as nat),
    decreases n,
{
    if n < 128 {
        out.push(n as u8);
    } else {
        let ghost pre = out@;
        out.push(((n % 128) + 128) as u8);
        encode_uvarint(out, n / 128);
        assert(out@ =~= pre + spec_uvarint(n as nat));
    }
}

/// Decodes a varint starting at `pos`, consuming at most `max` bytes.
/// Returns the value and the position just past the varint.
pub fn decode_uvarint(bytes: &[u8], pos: usize, max: u64) -> (r: Option<(u64, usize)>)
    requires
        pos <= bytes@.len(),
        max <= 9,
    ensures
        match spec_uvarint_decode(bytes@.skip(pos as int), max as nat) {
            None => r is None,
            Some((v, k)) => v < pow128(max as nat) && r == Some(((v as u64), (pos + k) as usize)),
        },
    decreases max,
{
    proof {
        lemma_uvarint_decode_props(bytes@.skip(pos as int), max as nat);
    }
    if max == 0 || pos == bytes.len() {
        None
    } else {
        let b = bytes[pos];
        if b < 128 {
            Some((b as u64, pos + 1))
        } else {
            proof {
                assert(bytes@.skip(pos as int).skip(1) =~= bytes@.skip(pos as int + 1));
                lemma_uvarint_decode_props(bytes@.skip(pos as int + 1), (max - 1) as nat);
                lemma_pow128_value();
                lemma_pow128_le(8nat, (max - 1) as nat);
            }
            match decode_uvarint(bytes, pos + 1, max - 1) {
                None => None,
                Some((v, p)) => Some(((b - 128) as u64 + 128 * v, p)),
            }
        }
    }
}

/// Reading a `u16` field: a varint of at most three bytes whose value fits
/// the type.
pub open spec fn spec_take_u16(bytes: Seq<u8>) -> Option<(u16, nat)> {
    match spec_uvarint_decode(bytes, 3) {
        None => None,
        Some((v, k)) => if v <= 0xFFFF {
            Some(((v as u16), k))
        } else {
            None
        },
    }
}

/// Reading an `i16` field: a `u16` varint, zigzag-unmapped.
pub open spec fn spec_take_i16(bytes: Seq<u8>) -> Option<(i16, nat)> {
    match spec_take_u16(bytes) {
        None => None,
        Some((z, k)) => Some((spec_unzigzag(z), k)),
    }
}

/// Reading a `u32` field: a varint of at most five bytes whose value fits
/// the type.
pub open spec fn spec_take_u32(bytes: Seq<u8>) -> Option<(u32, nat)> {
    match spec_uvarint_decode(bytes, 5) {
        None => None,
        Some((v, k)) => if v <= 0xFFFF_FFFF {
            Some(((v as u32), k))
        } else {
            None
        },
    }
}

pub proof fn lemma_pow128_3()
    ensures
        pow128(3nat) == 0x200000,
{
    assert(pow128(1nat) == 128 * pow128(0nat));
    assert(pow128(2nat) == 128 * pow128(1nat));
    assert(pow128(3nat) == 128 * pow128(2nat));
}

pub proof fn lemma_pow128_5()
    ensures
        pow128(5nat) == 0x800000000,
{
    lemma_pow128_3();
    assert(pow128(4nat) == 128 * pow128(3nat));
    assert(pow128(5nat) == 128 * pow128(4nat));
}

pub fn take_u16(bytes: &[u8], pos: usize) -> (r: Option<(u16, usize)>)
    requires
        pos <= bytes@.len(),
    ensures
        match spec_take_u16(bytes@.skip(pos as int)) {
            None => r is None,
            Some((v, k)) => r == Some((v, (pos + k) as usize)) && pos + k <= bytes@.len(),
        },
{
    proof {
        lemma_uvarint_decode_props(bytes@.skip(pos as int), 3nat);
        lemma_pow128_3();
    }
    match decode_uvarint(bytes, pos, 3) {
        None => None,
        Some((v, p)) => if v <= 0xFFFF {
            Some((v as u16, p))
        } else {
            None
        },
    }
}

pub fn take_i16(bytes: &[u8], pos: usize) -> (r: Option<(i16, usize)>)
    requires
        pos <= bytes@.len(),
    ensures
        match spec_take_i16(bytes@.skip(pos as int)) {
            None => r is None,
            Some((v, k)) => r == Some((v, (pos + k) as usize)) && pos + k <= bytes@.len(),
        },
{
    match take_u16(bytes, pos) {
        None => None,
        Some((z, p)) => Some((unzigzag(z), p)),
    }
}

pub fn take_u32(bytes: &[u8], pos: usize) -> (r: Option<(u32, usize)>)
    requires
        pos <= bytes@.len(),
    ensures
        match spec_take_u32(bytes@.skip(pos as int)) {
            None => r is None,
            Some((v, k)) => r == Some((v, (pos + k) as usize)) && pos + k <= bytes@.len(),
        },
{
    proof {
        lemma_uvarint_decode_props(bytes@.skip(pos as int), 5nat);
        lemma_pow128_5();
    }
    match decode_uvarint(bytes, pos, 5) {
        None => None,
        Some((v, p)) => if v <= 0xFFFF_FFFF {
            Some((v as u32, p))
        } else {
            None
        },
    }
}

pub proof fn lemma_take_u16_roundtrip(v: u16, rest: Seq<u8>)
    ensures
        spec_take_u16(spec_uvarint(v as nat) + rest) == Some((
            v,
            spec_uvarint(v as nat).len() as nat,
        )),
{
    lemma_pow128_3();
    lemma_uvarint_len(v as nat, 3nat);
    lemma_uvarint_roundtrip(v as nat, rest, 3nat);
}

pub proof fn lemma_take_i16_roundtrip(v: i16, rest: Seq<u8>)
    ensures
        spec_take_i16(spec_uvarint(spec_zigzag(v) as nat) + rest) == Some((
            v,
            spec_uvarint(spec_zigzag(v) as nat).len() as nat,
        )),
{
    lemma_take_u16_roundtrip(spec_zigzag(v), rest);
    lemma_zigzag_roundtrip(v);
}

pub proof fn lemma_take_u32_roundtrip(v: u32, rest: Seq<u8>)
    ensures
        spec_take_u32(spec_uvarint(v as nat) + rest) == Some((
            v,
            spec_uvarint(v as nat).len() as nat,
        )),
{
    lemma_pow128_5();
    lemma_uvarint_len(v as nat, 5nat);
    lemma_uvarint_roundtrip(v as nat, rest, 5nat);
}

proof fn lemma_pow128_value()
    ensures
        pow128(8nat) == 0x100000000000000,
{
    assert(pow128(0nat) == 1);
    assert(pow128(1nat) == 128 * pow128(0nat));
    assert(pow128(2nat) == 128 * pow128(1nat));
    assert(pow128(3nat) == 128 * pow128(2nat));
    assert(pow128(4nat) == 128 * pow128(3nat));
    assert(pow128(5nat) == 128 * pow128(4nat));
    assert(pow128(6nat) == 128 * pow128(5nat));
    assert(pow128(7nat) == 128 * pow128(6nat));
    assert(pow128(8nat) == 128 * pow128(7nat));
}

proof fn lemma_pow128_le(hi: nat, lo: nat)
    requires
        lo <= hi,
    ensures
        pow128(lo) <= pow128(hi),
    decreases hi,
{
    if lo < hi {
        lemma_pow128_le((hi - 1) as nat, lo);
        assert(pow128(hi) == 128 * pow128((hi - 1) as nat));
    }
}

} // verus!
