//! The two payload decoders: one per vendor protocol, each a pure function
//! from a broadcast name and a raw byte buffer to an optional [`Record`].

use vstd::prelude::*;

use crate::record;
use crate::record::Record;

verus! {

// ------------------------------------------------------------------
// Govee manufacturer-data payloads
// ------------------------------------------------------------------

/// Byte `k` of the 13-byte marker (ASCII `INTELLI_ROCKS`) that some firmware
/// revisions append after the true payload.
pub open spec fn marker_byte(k: int) -> u8 {
    if k == 0 {
        73u8
    } else if k == 1 {
        78u8
    } else if k == 2 {
        84u8
    } else if k == 3 {
        69u8
    } else if k == 4 {
        76u8
    } else if k == 5 {
        76u8
    } else if k == 6 {
        73u8
    } else if k == 7 {
        95u8
    } else if k == 8 {
        82u8
    } else if k == 9 {
        79u8
    } else if k == 10 {
        67u8
    } else if k == 11 {
        75u8
    } else {
        83u8
    }
}

/// The marker sequence itself.
pub open spec fn intelli_marker() -> Seq<u8> {
    Seq::new(13, |k: int| marker_byte(k))
}

/// The marker occurs in `data` starting at index `i`.
pub open spec fn marker_at(data: Seq<u8>, i: int) -> bool {
    &&& 0 <= i
    &&& i + 13 <= data.len()
    &&& data.subrange(i, i + 13) == intelli_marker()
}

/// Index of the first marker occurrence at or after `i`, or `data.len()` if
/// there is none — the same fallback the truncation rule uses.
pub open spec fn first_marker_from(data: Seq<u8>, i: int) -> int
    decreases data.len() - i,
{
    if i + 13 > data.len() {
        data.len() as int
    } else if marker_at(data, i) {
        i
    } else {
        first_marker_from(data, i + 1)
    }
}

/// Index of the first marker occurrence, or `data.len()` if there is none.
pub open spec fn first_marker(data: Seq<u8>) -> int {
    first_marker_from(data, 0)
}

proof fn lemma_first_marker_from_bounds(data: Seq<u8>, i: int)
    requires
        0 <= i <= data.len(),
    ensures
        i <= first_marker_from(data, i) <= data.len(),
    decreases data.len() - i,
{
    if i + 13 > data.len() {
    } else if marker_at(data, i) {
    } else {
        lemma_first_marker_from_bounds(data, i + 1);
    }
}

proof fn lemma_first_marker_found(data: Seq<u8>, i: int, j: int)
    requires
        0 <= i <= j,
        marker_at(data, j),
        forall|k: int| i <= k < j ==> !marker_at(data, k),
    ensures
        first_marker_from(data, i) == j,
    decreases j - i,
{
    if i == j {
    } else {
        lemma_first_marker_found(data, i + 1, j);
    }
}

/// The payload after truncation recovery: a capture longer than 25 bytes is
/// cut at the first marker occurrence (at its full length if the marker is
/// absent); shorter captures are taken as they are.
pub open spec fn govee_payload(data: Seq<u8>) -> Seq<u8> {
    if data.len() > 25 {
        data.subrange(0, first_marker(data))
    } else {
        data
    }
}

/// Bit pattern of the big-endian 32-bit field packed from four bytes. The
/// field is signed: its value is [`signed32`] of this pattern.
pub open spec fn be_u32(b0: u8, b1: u8, b2: u8, b3: u8) -> u32 {
    (0x1000000 * (b0 as int) + 0x10000 * (b1 as int) + 0x100 * (b2 as int) + (b3 as int)) as u32
}

/// The two's-complement signed value of a 32-bit bit pattern.
pub open spec fn signed32(u: u32) -> int {
    if u >= 0x80000000 {
        u - 0x100000000
    } else {
        u as int
    }
}

/// Quotient by 1000 truncated toward zero, as a signed machine division
/// computes it.
pub open spec fn quo1000(a: int) -> int {
    if a >= 0 {
        a / 1000
    } else {
        -((-a) / 1000)
    }
}

/// Remainder by 1000 with the sign of the dividend, as a signed machine
/// remainder computes it.
pub open spec fn rem1000(a: int) -> int {
    if a >= 0 {
        a % 1000
    } else {
        -((-a) % 1000)
    }
}

/// Temperature carried by a packed Govee word, in thousandths of a degree
/// Celsius. On top of the signed 32-bit field, bit 23 is a sign bit
/// (sign-magnitude, not two's complement): it is cleared by the XOR, the
/// signed value of what remains is integer-divided by 1000 (truncating) into
/// tenths of a degree, and the result is negated when bit 23 was set.
pub open spec fn govee_temp_milli(v: u32) -> int {
    let m = if v & 0x800000 != 0 {
        v ^ 0x800000
    } else {
        v
    };
    if v & 0x800000 != 0 {
        -100 * quo1000(signed32(m))
    } else {
        100 * quo1000(signed32(m))
    }
}

/// Humidity carried by a packed Govee word, in thousandths of a percentage
/// point: the truncating remainder by 1000 of the signed field counts tenths
/// of a point, read from the word before sign correction — so it carries the
/// field's own sign.
pub open spec fn govee_humi_milli(v: u32) -> int {
    100 * rem1000(signed32(v))
}

/// What a Govee capture decodes to: nothing unless the payload is exactly 10
/// bytes after truncation recovery; otherwise temperature and humidity in
/// thousandths and the raw battery byte — the fifth byte, right after the
/// packed word; the rest of the payload is unused by this decoder.
pub open spec fn govee_fields(data: Seq<u8>) -> Option<(int, int, u8)> {
    let d = govee_payload(data);
    if d.len() == 10 {
        let v = be_u32(d[0], d[1], d[2], d[3]);
        Some((govee_temp_milli(v), govee_humi_milli(v), d[4]))
    } else {
        None
    }
}

/// True when the 13 bytes of `data` starting at `i` are the marker.
fn window_matches(data: &[u8], i: usize) -> (r: bool)
    requires
        i + 13 <= data@.len(),
    ensures
        r == marker_at(data@, i as int),
{
    let n: usize = data.len();
    let mut j: usize = 0;
    while j < 13
        invariant
            0 <= j <= 13,
            i + 13 <= n == data@.len(),
            forall|k: int| 0 <= k < j ==> data@[i + k] == intelli_marker()[k],
        decreases 13 - j,
    {
        if data[i + j] != marker_byte_at(j) {
            proof {
                assert(data@.subrange(i as int, i + 13)[j as int] != intelli_marker()[j as int]);
            }
            return false;
        }
        j = j + 1;
    }
    proof {
        assert(data@.subrange(i as int, i + 13) =~= intelli_marker());
    }
    true
}

/// Byte `j` of the marker, as an executable value.
fn marker_byte_at(j: usize) -> (b: u8)
    requires
        j < 13,
    ensures
        b == intelli_marker()[j as int],
{
    if j == 0 {
        73
    } else if j == 1 {
        78
    } else if j == 2 {
        84
    } else if j == 3 {
        69
    } else if j == 4 {
        76
    } else if j == 5 {
        76
    } else if j == 6 {
        73
    } else if j == 7 {
        95
    } else if j == 8 {
        82
    } else if j == 9 {
        79
    } else if j == 10 {
        67
    } else if j == 11 {
        75
    } else {
        83
    }
}

/// Index of the first marker occurrence in `data`, or `data.len()` if there
/// is none.
fn find_marker(data: &[u8]) -> (r: usize)
    ensures
        r as int == first_marker(data@),
        r <= data@.len(),
{
    let len: usize = data.len();
    if len < 13 {
        return len;
    }
    let mut i: usize = 0;
    while i <= len - 13
        invariant
            13 <= len == data@.len(),
            0 <= i <= len - 12,
            first_marker(data@) == first_marker_from(data@, i as int),
        decreases len - i,
    {
        if window_matches(data, i) {
            proof {
                lemma_first_marker_from_bounds(data@, i as int);
            }
            return i;
        }
        i = i + 1;
    }
    len
}

/// Sign and magnitude of the two's-complement value of a 32-bit bit pattern.
fn signed_mag(u: u32) -> (r: (bool, u32))
    ensures
        r.0 == (signed32(u) < 0),
        r.1 as int == if signed32(u) < 0 {
            -signed32(u)
        } else {
            signed32(u)
        },
{
    if u >= 0x80000000 {
        (true, (0x100000000u64 - (u as u64)) as u32)
    } else {
        (false, u)
    }
}

/// Decode a Govee manufacturer-data capture.
///
/// A capture longer than 25 bytes is first cut at the marker (truncation
/// recovery); the decoder then requires the payload to be exactly 10 bytes
/// and yields nothing otherwise — many devices of this family broadcast
/// unrelated frame shapes, so a wrong length is absence, not an error. The
/// record's timestamp is the capture time at decode.
pub fn parse_govee_data(name: String, data: &[u8]) -> (r: Option<Record>)
    ensures
        r is Some <==> govee_fields(data@) is Some,
        (match r {
            Some(rec) => {
                let f = govee_fields(data@)->Some_0;
                &&& rec.name@ == name@
                &&& rec.temp as int == f.0
                &&& rec.humi as int == f.1
                &&& rec.batt == f.2
            },
            None => govee_fields(data@) is None,
        }),
{
    let len: usize = data.len();
    let end: usize = if len > 25 {
        find_marker(data)
    } else {
        len
    };
    proof {
        if data@.len() > 25 {
            assert(govee_payload(data@) == data@.subrange(0, end as int));
        } else {
            assert(govee_payload(data@) =~= data@.subrange(0, end as int));
        }
    }
    if end != 10 {
        return None;
    }
    let ghost d = govee_payload(data@);
    proof {
        assert(d.len() == 10);
        assert(d[0] == data@[0] && d[1] == data@[1] && d[2] == data@[2] && d[3] == data@[3]
            && d[4] == data@[4]);
    }
    let v: u32 = 0x1000000 * (data[0] as u32) + 0x10000 * (data[1] as u32) + 0x100 * (data[2]
        as u32) + (data[3] as u32);
    assert(v == be_u32(d[0], d[1], d[2], d[3]));
    let neg = v & 0x800000 != 0;
    let m: u32 = if neg {
        v ^ 0x800000
    } else {
        v
    };
    let (mneg, mmag) = signed_mag(m);
    let deci_mag: u32 = mmag / 1000;
    proof {
        vstd::arithmetic::div_mod::lemma_div_is_ordered(mmag as int, u32::MAX as int, 1000);
        assert(u32::MAX as int / 1000 == 4294967);
    }
    let deci: i32 = if mneg {
        -(deci_mag as i32)
    } else {
        deci_mag as i32
    };
    assert(deci as int == quo1000(signed32(m)));
    let temp: i32 = if neg {
        -(deci * 100)
    } else {
        deci * 100
    };
    let (vneg, vmag) = signed_mag(v);
    let hmag: u32 = vmag % 1000;
    let humi: i32 = if vneg {
        -((hmag as i32) * 100)
    } else {
        (hmag as i32) * 100
    };
    assert(temp as int == govee_temp_milli(v));
    assert(humi as int == govee_humi_milli(v));
    Some(Record { name, temp, humi, batt: data[4], date: record::now() })
}

/// Truncation recovery: a 10-byte payload followed by the marker and any
/// padding long enough to trip the 25-byte threshold decodes exactly as the
/// bare payload does.
pub proof fn lemma_govee_truncation(p: Seq<u8>, q: Seq<u8>)
    requires
        p.len() == 10,
        p.len() + intelli_marker().len() + q.len() > 25,
    ensures
        govee_fields(p + intelli_marker() + q) == govee_fields(p),
{
    let m = intelli_marker();
    let d = p + m + q;
    assert(m.len() == 13);
    assert(d.len() == 23 + q.len());
    assert(d.subrange(10, 23) =~= m);
    assert(marker_at(d, 10));
    assert forall|j: int| 0 <= j < 10 implies !marker_at(d, j) by {
        if marker_at(d, j) {
            // The marker has no border: no proper suffix of it equals a
            // prefix of it, so an occurrence overlapping the one at 10 is
            // contradicted at a concrete byte.
            assert(d.subrange(j, j + 13)[10 - j] == d[10]);
            assert(d.subrange(j, j + 13)[10 - j] == m[10 - j]);
            assert(d[10] == m[0]);
            if 10 - j == 6 {
                assert(d.subrange(j, j + 13)[11 - j] == d[11]);
                assert(d.subrange(j, j + 13)[11 - j] == m[11 - j]);
                assert(d[11] == m[1]);
                assert(m[7] != m[1]);
            } else {
                assert(m[10 - j] != m[0]);
            }
        }
    }
    lemma_first_marker_found(d, 0, 10);
    assert(govee_payload(d) == d.subrange(0, 10));
    assert(d.subrange(0, 10) =~= p);
    assert(govee_payload(p) == p);
}

/// Length gate: decoding yields a result exactly when the payload is 10
/// bytes long after truncation recovery.
pub proof fn lemma_govee_length_gate(data: Seq<u8>)
    ensures
        govee_fields(data) is Some <==> govee_payload(data).len() == 10,
{
}

/// Sign handling: a packed word with bit 23 set on top of a magnitude of `t`
/// thousandths decodes to minus `t` tenths of a degree; the same magnitude
/// with bit 23 clear decodes to plus `t` tenths.
pub proof fn lemma_govee_sign(t: u32)
    requires
        1000 * t < 0x800000,
    ensures
        govee_temp_milli(0x800000u32 | ((1000 * t) as u32)) == -100 * (t as int),
        govee_temp_milli((1000 * t) as u32) == 100 * (t as int),
{
    let x: u32 = (1000 * t) as u32;
    assert(x == 1000 * t);
    assert((0x800000u32 | x) & 0x800000u32 != 0 && (0x800000u32 | x) ^ 0x800000u32 == x && x
        & 0x800000u32 == 0) by (bit_vector)
        requires
            x < 0x800000u32,
    ;
    assert(signed32(x) == x as int);
    vstd::arithmetic::div_mod::lemma_div_by_multiple(t as int, 1000);
    assert(quo1000(signed32(x)) == t as int);
}

// ------------------------------------------------------------------
// Mijia/ATC service-data payloads
// ------------------------------------------------------------------

/// Little-endian signed 16-bit value of two bytes (two's complement).
pub open spec fn le_i16(lo: u8, hi: u8) -> int {
    let u = (lo as int) + 256 * (hi as int);
    if u >= 0x8000 {
        u - 0x10000
    } else {
        u
    }
}

/// What a (at least 15-byte) ATC service payload decodes to. The layout is
/// little-endian, fixed-width: 6 bytes of device address (ignored), then
/// temperature and humidity in hundredths at bytes 6..8 and 8..10, a battery
/// voltage at bytes 10..12 (ignored), the battery byte at 12, a counter and
/// flags (ignored). Temperature and humidity are scaled to thousandths.
pub open spec fn atc_fields(data: Seq<u8>) -> (int, int, u8) {
    (10 * le_i16(data[6], data[7]), 10 * le_i16(data[8], data[9]), data[12])
}

/// Decode an ATC service-data payload.
///
/// The caller (the classifier) guarantees at least 15 bytes; once that holds
/// the decode cannot fail — fixed offsets into a sufficiently long buffer.
/// The record's timestamp is the capture time at decode.
pub fn parse_atc_data(name: String, data: &[u8]) -> (r: Option<Record>)
    requires
        data@.len() >= 15,
    ensures
        r is Some,
        (match r {
            Some(rec) => {
                &&& rec.name@ == name@
                &&& rec.temp as int == atc_fields(data@).0
                &&& rec.humi as int == atc_fields(data@).1
                &&& rec.batt == atc_fields(data@).2
            },
            None => false,
        }),
{
    let temp = le_i16_at(data, 6) * 10;
    let humi = le_i16_at(data, 8) * 10;
    Some(Record { name, temp, humi, batt: data[12], date: record::now() })
}

/// Read the little-endian signed 16-bit field at `at`, widened to `i32`.
fn le_i16_at(data: &[u8], at: usize) -> (r: i32)
    requires
        at + 2 <= data@.len(),
    ensures
        r as int == le_i16(data@[at as int], data@[at + 1]),
        -0x8000 <= r < 0x8000,
{
    let u: u32 = (data[at] as u32) + 256 * (data[at + 1] as u32);
    if u >= 0x8000 {
        (u as i32) - 0x10000
    } else {
        u as i32
    }
}

} // verus!
