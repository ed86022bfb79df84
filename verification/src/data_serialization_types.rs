//! Decoders for the scalar and collection value encodings of the CQL
//! type system.
//!
//! Each decoder takes a byte slice already isolated by an outer
//! per-column length prefix and returns a typed value or a typed
//! failure; none retains state or panics.

use crate::cursor::Cursor;
use crate::error::DecodeError;
use crate::types::{
    lossy_utf8, parse_cbytes_pairs, parse_cbytes_seq, parse_cint, read_cbytes_pairs,
    read_cbytes_seq, read_int, utf8_lossy, CBytes,
};
use crate::wire::{
    be_signed, be_unsigned, lemma_be_signed_bounds, lemma_be_unsigned_bounds, read_be_signed,
    read_be_unsigned,
};
use vstd::arithmetic::power2::lemma2_to64;
use vstd::prelude::*;
use vstd::slice::slice_subrange;

verus! {

/// Decodes `custom` data: bytes taken leniently as UTF-8 text.
pub fn decode_custom(bytes: &[u8]) -> (r: Result<String, DecodeError>)
    ensures
        r is Ok && r->Ok_0@ == lossy_utf8(bytes@),
{
    Ok(utf8_lossy(bytes))
}

/// Decodes `ascii` data: bytes taken leniently as UTF-8 text.
pub fn decode_ascii(bytes: &[u8]) -> (r: Result<String, DecodeError>)
    ensures
        r is Ok && r->Ok_0@ == lossy_utf8(bytes@),
{
    Ok(utf8_lossy(bytes))
}

/// Decodes `varchar` data: bytes taken leniently as UTF-8 text.
pub fn decode_varchar(bytes: &[u8]) -> (r: Result<String, DecodeError>)
    ensures
        r is Ok && r->Ok_0@ == lossy_utf8(bytes@),
{
    Ok(utf8_lossy(bytes))
}

/// Decodes `text` data: bytes taken leniently as UTF-8 text.
pub fn decode_text(bytes: &[u8]) -> (r: Result<String, DecodeError>)
    ensures
        r is Ok && r->Ok_0@ == lossy_utf8(bytes@),
{
    Ok(utf8_lossy(bytes))
}

/// Decodes `blob` data: an uninterpreted pass-through.
pub fn decode_blob(bytes: Vec<u8>) -> (r: Result<Vec<u8>, DecodeError>)
    ensures
        r is Ok && r->Ok_0@ == bytes@,
{
    Ok(bytes)
}

/// Decodes `boolean` data: empty input fails, else the first byte
/// nonzero means true.
pub fn decode_boolean(bytes: &[u8]) -> (r: Result<bool, DecodeError>)
    ensures
        bytes@.len() == 0 ==> r == Err::<bool, DecodeError>(DecodeError::UnexpectedEndOfBuffer),
        bytes@.len() > 0 ==> r == Ok::<bool, DecodeError>(bytes@[0] != 0),
{
    if bytes.is_empty() {
        Err(DecodeError::UnexpectedEndOfBuffer)
    } else {
        Ok(bytes[0] != 0)
    }
}

/// Decodes `bigint` data: exactly 8 bytes, big-endian two's complement.
pub fn decode_bigint(bytes: &[u8]) -> (r: Result<i64, DecodeError>)
    ensures
        bytes@.len() == 8 ==> r is Ok && r->Ok_0 as int == be_signed(bytes@),
        bytes@.len() != 8 ==> r == Err::<i64, DecodeError>(DecodeError::InvalidLength),
{
    if bytes.len() == 8 {
        Ok(read_be_signed(bytes))
    } else {
        Err(DecodeError::InvalidLength)
    }
}

/// Decodes `int` data: exactly 4 bytes, big-endian two's complement.
pub fn decode_int(bytes: &[u8]) -> (r: Result<i32, DecodeError>)
    ensures
        bytes@.len() == 4 ==> r is Ok && r->Ok_0 as int == be_signed(bytes@),
        bytes@.len() != 4 ==> r == Err::<i32, DecodeError>(DecodeError::InvalidLength),
{
    if bytes.len() == 4 {
        let v = read_be_signed(bytes);
        proof {
            lemma_be_signed_bounds(bytes@);
            lemma2_to64();
        }
        Ok(v as i32)
    } else {
        Err(DecodeError::InvalidLength)
    }
}

/// Decodes `date` data: exactly 4 bytes, big-endian two's complement.
/// The result is the raw signed 32-bit value; the epoch-biased reading
/// is the caller's interpretation.
pub fn decode_date(bytes: &[u8]) -> (r: Result<i32, DecodeError>)
    ensures
        bytes@.len() == 4 ==> r is Ok && r->Ok_0 as int == be_signed(bytes@),
        bytes@.len() != 4 ==> r == Err::<i32, DecodeError>(DecodeError::InvalidLength),
{
    decode_int(bytes)
}

/// Decodes `timestamp` data: exactly 8 bytes, a signed millisecond
/// offset from the epoch.
pub fn decode_timestamp(bytes: &[u8]) -> (r: Result<i64, DecodeError>)
    ensures
        bytes@.len() == 8 ==> r is Ok && r->Ok_0 as int == be_signed(bytes@),
        bytes@.len() != 8 ==> r == Err::<i64, DecodeError>(DecodeError::InvalidLength),
{
    decode_bigint(bytes)
}

/// Decodes `smallint` data: exactly 2 bytes, big-endian two's complement.
pub fn decode_smallint(bytes: &[u8]) -> (r: Result<i16, DecodeError>)
    ensures
        bytes@.len() == 2 ==> r is Ok && r->Ok_0 as int == be_signed(bytes@),
        bytes@.len() != 2 ==> r == Err::<i16, DecodeError>(DecodeError::InvalidLength),
{
    if bytes.len() == 2 {
        let v = read_be_signed(bytes);
        proof {
            lemma_be_signed_bounds(bytes@);
            lemma2_to64();
        }
        Ok(v as i16)
    } else {
        Err(DecodeError::InvalidLength)
    }
}

/// Decodes `tinyint` data: exactly 1 byte, two's complement.
pub fn decode_tinyint(bytes: &[u8]) -> (r: Result<i8, DecodeError>)
    ensures
        bytes@.len() == 1 ==> r is Ok && r->Ok_0 as int == be_signed(bytes@),
        bytes@.len() != 1 ==> r == Err::<i8, DecodeError>(DecodeError::InvalidLength),
{
    if bytes.len() == 1 {
        let v = read_be_signed(bytes);
        proof {
            lemma_be_signed_bounds(bytes@);
            lemma2_to64();
        }
        Ok(v as i8)
    } else {
        Err(DecodeError::InvalidLength)
    }
}

/// Decodes `time` data: one to eight bytes, big-endian two's complement
/// of whatever width arrived.
pub fn decode_time(bytes: &[u8]) -> (r: Result<i64, DecodeError>)
    ensures
        1 <= bytes@.len() <= 8 ==> r is Ok && r->Ok_0 as int == be_signed(bytes@),
        !(1 <= bytes@.len() <= 8) ==> r == Err::<i64, DecodeError>(DecodeError::InvalidLength),
{
    if 1 <= bytes.len() && bytes.len() <= 8 {
        Ok(read_be_signed(bytes))
    } else {
        Err(DecodeError::InvalidLength)
    }
}

/// Decodes `varint` data: one to eight bytes, big-endian two's
/// complement of whatever width arrived.
pub fn decode_varint(bytes: &[u8]) -> (r: Result<i64, DecodeError>)
    ensures
        1 <= bytes@.len() <= 8 ==> r is Ok && r->Ok_0 as int == be_signed(bytes@),
        !(1 <= bytes@.len() <= 8) ==> r == Err::<i64, DecodeError>(DecodeError::InvalidLength),
{
    decode_time(bytes)
}

/// Decodes the bit pattern of `double` data: exactly 8 bytes, big
/// endian. Reading the bits as an IEEE754 number is the caller's step.
pub fn decode_double_bits(bytes: &[u8]) -> (r: Result<u64, DecodeError>)
    ensures
        bytes@.len() == 8 ==> r is Ok && r->Ok_0 as int == be_unsigned(bytes@),
        bytes@.len() != 8 ==> r == Err::<u64, DecodeError>(DecodeError::InvalidLength),
{
    if bytes.len() == 8 {
        Ok(read_be_unsigned(bytes))
    } else {
        Err(DecodeError::InvalidLength)
    }
}

/// Decodes the bit pattern of `float` data: exactly 4 bytes, big endian.
/// Reading the bits as an IEEE754 number is the caller's step.
pub fn decode_float_bits(bytes: &[u8]) -> (r: Result<u32, DecodeError>)
    ensures
        bytes@.len() == 4 ==> r is Ok && r->Ok_0 as int == be_unsigned(bytes@),
        bytes@.len() != 4 ==> r == Err::<u32, DecodeError>(DecodeError::InvalidLength),
{
    if bytes.len() == 4 {
        let v = read_be_unsigned(bytes);
        proof {
            lemma_be_unsigned_bounds(bytes@);
            lemma2_to64();
        }
        Ok(v as u32)
    } else {
        Err(DecodeError::InvalidLength)
    }
}

/// The index of the first decimal separator byte (ASCII 'E') in `s`, or
/// `s.len()` when there is none.
pub open spec fn sep_index(s: Seq<u8>) -> int
    decreases s.len(),
{
    if s.len() == 0 {
        0
    } else if s[0] == 69 {
        0
    } else {
        1 + sep_index(s.skip(1))
    }
}

pub proof fn lemma_sep_index(s: Seq<u8>)
    ensures
        0 <= sep_index(s) <= s.len(),
        forall|k: int| 0 <= k < sep_index(s) ==> s[k] != 69,
        sep_index(s) < s.len() ==> s[sep_index(s)] == 69,
    decreases s.len(),
{
    if s.len() == 0 {
    } else if s[0] == 69 {
    } else {
        lemma_sep_index(s.skip(1));
        assert forall|k: int| 0 <= k < sep_index(s) implies s[k] != 69 by {
            if k > 0 {
                assert(s.skip(1)[k - 1] != 69);
            }
        }
    }
}

/// A `decimal` payload: bytes before the first separator read as the
/// unscaled value, bytes between the first and second separator (or the
/// end) read as the scale, each one to eight bytes.
pub open spec fn parse_decimal(s: Seq<u8>) -> Result<(int, int), DecodeError> {
    let i = sep_index(s);
    if i == s.len() {
        Err(DecodeError::InvalidEncoding)
    } else {
        let unscaled_part = s.take(i);
        let rest = s.skip(i + 1);
        let scale_part = rest.take(sep_index(rest));
        if unscaled_part.len() < 1 || unscaled_part.len() > 8 {
            Err(DecodeError::InvalidLength)
        } else if scale_part.len() < 1 || scale_part.len() > 8 {
            Err(DecodeError::InvalidLength)
        } else {
            Ok((be_signed(unscaled_part), be_signed(scale_part)))
        }
    }
}

/// Finds the first decimal separator byte, or the slice length when
/// there is none.
fn find_sep(bytes: &[u8]) -> (r: usize)
    ensures
        r == sep_index(bytes@),
{
    let ghost s = bytes@;
    let n = bytes.len();
    let mut i: usize = 0;
    while i < n
        invariant
            i <= n,
            n == s.len(),
            bytes@ == s,
            forall|k: int| 0 <= k < i ==> s[k] != 69,
        decreases n - i,
    {
        if bytes[i] == 69 {
            proof {
                lemma_sep_index(s);
                if sep_index(s) < i {
                    assert(s[sep_index(s)] != 69);
                } else if sep_index(s) > i {
                    assert(s[i as int] != 69);
                }
            }
            return i;
        }
        i = i + 1;
    }
    proof {
        lemma_sep_index(s);
        if sep_index(s) < n {
            assert(s[sep_index(s)] != 69);
        }
    }
    n
}

/// Decodes the two integer parts of `decimal` data: the unscaled value
/// and the scale. Combining them as `unscaled * 10^scale` is the
/// caller's step.
pub fn decode_decimal_parts(bytes: &[u8]) -> (r: Result<(i64, i64), DecodeError>)
    ensures
        match parse_decimal(bytes@) {
            Ok((unscaled, scale)) => r is Ok && r->Ok_0.0 as int == unscaled && r->Ok_0.1 as int
                == scale,
            Err(e) => r is Err && r->Err_0 == e,
        },
{
    let n = bytes.len();
    let i = find_sep(bytes);
    proof {
        lemma_sep_index(bytes@);
    }
    if i == n {
        return Err(DecodeError::InvalidEncoding);
    }
    let unscaled_part = slice_subrange(bytes, 0, i);
    proof {
        assert(unscaled_part@ =~= bytes@.take(i as int));
    }
    let rest = slice_subrange(bytes, i + 1, n);
    proof {
        assert(rest@ =~= bytes@.skip(i as int + 1));
    }
    let j = find_sep(rest);
    proof {
        lemma_sep_index(rest@);
    }
    let scale_part = slice_subrange(rest, 0, j);
    proof {
        assert(scale_part@ =~= rest@.take(j as int));
    }
    if unscaled_part.len() < 1 || unscaled_part.len() > 8 {
        return Err(DecodeError::InvalidLength);
    }
    if scale_part.len() < 1 || scale_part.len() > 8 {
        return Err(DecodeError::InvalidLength);
    }
    let unscaled = read_be_signed(unscaled_part);
    let scale = read_be_signed(scale_part);
    Ok((unscaled, scale))
}

/// A network address: the two wire widths of `inet` data.
#[derive(Clone, Copy, Debug, PartialEq, Eq, Structural)]
pub enum InetAddr {
    /// A version 4 address: the four octets, in wire order.
    V4(u8, u8, u8, u8),
    /// A version 6 address: the eight big-endian 16-bit groups, in wire
    /// order.
    V6(u16, u16, u16, u16, u16, u16, u16, u16),
}

/// The 16-bit group starting at even offset `k` of `s`.
pub open spec fn inet_group(s: Seq<u8>, k: int) -> u16
    recommends
        0 <= k,
        k + 1 < s.len(),
{
    (s[k] * 256 + s[k + 1]) as u16
}

/// Decodes `inet` data: exactly 4 bytes yield a version 4 address equal
/// to the four bytes in order; exactly 16 bytes yield a version 6
/// address from eight big-endian 16-bit groups; any other length fails.
pub fn decode_inet(bytes: &[u8]) -> (r: Result<InetAddr, DecodeError>)
    ensures
        bytes@.len() == 4 ==> r == Ok::<InetAddr, DecodeError>(
            InetAddr::V4(bytes@[0], bytes@[1], bytes@[2], bytes@[3]),
        ),
        bytes@.len() == 16 ==> r == Ok::<InetAddr, DecodeError>(
            InetAddr::V6(
                inet_group(bytes@, 0),
                inet_group(bytes@, 2),
                inet_group(bytes@, 4),
                inet_group(bytes@, 6),
                inet_group(bytes@, 8),
                inet_group(bytes@, 10),
                inet_group(bytes@, 12),
                inet_group(bytes@, 14),
            ),
        ),
        bytes@.len() != 4 && bytes@.len() != 16 ==> r == Err::<InetAddr, DecodeError>(
            DecodeError::InvalidLength,
        ),
{
    if bytes.len() == 4 {
        Ok(InetAddr::V4(bytes[0], bytes[1], bytes[2], bytes[3]))
    } else if bytes.len() == 16 {
        let a = (bytes[0] as u16) * 256 + (bytes[1] as u16);
        let b = (bytes[2] as u16) * 256 + (bytes[3] as u16);
        let c = (bytes[4] as u16) * 256 + (bytes[5] as u16);
        let d = (bytes[6] as u16) * 256 + (bytes[7] as u16);
        let e = (bytes[8] as u16) * 256 + (bytes[9] as u16);
        let f = (bytes[10] as u16) * 256 + (bytes[11] as u16);
        let g = (bytes[12] as u16) * 256 + (bytes[13] as u16);
        let h = (bytes[14] as u16) * 256 + (bytes[15] as u16);
        Ok(InetAddr::V6(a, b, c, d, e, f, g, h))
    } else {
        Err(DecodeError::InvalidLength)
    }
}

/// A `list` payload: a 4-byte count, then that many bytes fields, a
/// negative count reading as empty. Trailing bytes are ignored.
pub open spec fn parse_list(s: Seq<u8>) -> Result<Seq<Option<Seq<u8>>>, DecodeError> {
    match parse_cint(s) {
        Ok((cnt, _)) => {
            let n = if cnt < 0 {
                0
            } else {
                cnt
            };
            match parse_cbytes_seq(s.skip(4), n) {
                Ok((items, _)) => Ok(items),
                Err(e) => Err(e),
            }
        },
        Err(e) => Err(e),
    }
}

/// A `map` payload: a 4-byte count, then that many key and value bytes
/// field pairs, a negative count reading as empty. Duplicate keys are
/// preserved in wire order.
pub open spec fn parse_map(s: Seq<u8>) -> Result<
    Seq<(Option<Seq<u8>>, Option<Seq<u8>>)>,
    DecodeError,
> {
    match parse_cint(s) {
        Ok((cnt, _)) => {
            let n = if cnt < 0 {
                0
            } else {
                cnt
            };
            match parse_cbytes_pairs(s.skip(4), n) {
                Ok((items, _)) => Ok(items),
                Err(e) => Err(e),
            }
        },
        Err(e) => Err(e),
    }
}

/// Decodes `list` data: the count-prefixed elements as opaque blobs, in
/// wire order; element typing is the caller's step.
pub fn decode_list(bytes: &[u8]) -> (r: Result<Vec<CBytes>, DecodeError>)
    ensures
        match parse_list(bytes@) {
            Ok(items) => r is Ok && r->Ok_0@.map_values(|cb: CBytes| cb@) == items,
            Err(e) => r is Err && r->Err_0 == e,
        },
{
    let mut c = Cursor::new(bytes);
    let cnt = match read_int(&mut c) {
        Ok(v) => v,
        Err(e) => { return Err(e) },
    };
    let n: usize = if cnt < 0 {
        0
    } else {
        cnt as usize
    };
    match read_cbytes_seq(&mut c, n) {
        Ok(v) => Ok(v),
        Err(e) => Err(e),
    }
}

/// Decodes `set` data: the same wire shape as a list, kept in wire
/// order; deduplication is the caller's step.
pub fn decode_set(bytes: &[u8]) -> (r: Result<Vec<CBytes>, DecodeError>)
    ensures
        match parse_list(bytes@) {
            Ok(items) => r is Ok && r->Ok_0@.map_values(|cb: CBytes| cb@) == items,
            Err(e) => r is Err && r->Err_0 == e,
        },
{
    decode_list(bytes)
}

/// Decodes `map` data: the count-prefixed (key, value) blob pairs in
/// wire order, duplicate keys preserved.
pub fn decode_map(bytes: &[u8]) -> (r: Result<Vec<(CBytes, CBytes)>, DecodeError>)
    ensures
        match parse_map(bytes@) {
            Ok(items) => r is Ok && r->Ok_0@.map_values(|p: (CBytes, CBytes)| (p.0@, p.1@))
                == items,
            Err(e) => r is Err && r->Err_0 == e,
        },
{
    let mut c = Cursor::new(bytes);
    let cnt = match read_int(&mut c) {
        Ok(v) => v,
        Err(e) => { return Err(e) },
    };
    let n: usize = if cnt < 0 {
        0
    } else {
        cnt as usize
    };
    match read_cbytes_pairs(&mut c, n) {
        Ok(v) => Ok(v),
        Err(e) => Err(e),
    }
}

/// A user-defined-type payload: exactly `n` bytes fields, one per
/// declared field, with no count prefix of its own.
pub open spec fn parse_udt(s: Seq<u8>, n: int) -> Result<Seq<Option<Seq<u8>>>, DecodeError> {
    match parse_cbytes_seq(s, n) {
        Ok((items, _)) => Ok(items),
        Err(e) => Err(e),
    }
}

/// Decodes `udt` data: the caller supplies the declared field count, and
/// exactly that many blobs are read, in order.
pub fn decode_udt(bytes: &[u8], l: usize) -> (r: Result<Vec<CBytes>, DecodeError>)
    ensures
        match parse_udt(bytes@, l as int) {
            Ok(items) => r is Ok && r->Ok_0@.map_values(|cb: CBytes| cb@) == items,
            Err(e) => r is Err && r->Err_0 == e,
        },
{
    let mut c = Cursor::new(bytes);
    match read_cbytes_seq(&mut c, l) {
        Ok(v) => Ok(v),
        Err(e) => Err(e),
    }
}

#[verifier::external_type_specification]
#[verifier::external_body]
pub struct ExUuid(uuid::Uuid);

#[verifier::external_type_specification]
#[verifier::external_body]
pub struct ExUuidError(uuid::Error);

/// What a 16-byte slice reads as when taken as a 128-bit UUID.
pub uninterp spec fn uuid_of(bytes: Seq<u8>) -> uuid::Uuid;

/// Relies on uuid::Uuid::from_slice: it returns Ok exactly when the
/// slice holds 16 bytes, and the value is then built from those bytes
/// alone.
#[verifier::external_body]
fn uuid_from_slice(bytes: &[u8]) -> (r: Result<uuid::Uuid, uuid::Error>)
    ensures
        r is Ok <==> bytes@.len() == 16,
        r is Ok ==> r->Ok_0 == uuid_of(bytes@),
{
    uuid::Uuid::from_slice(bytes)
}

/// Decodes `timeuuid` data: exactly 16 bytes read as a 128-bit UUID;
/// any other length fails.
pub fn decode_timeuuid(bytes: &[u8]) -> (r: Result<uuid::Uuid, DecodeError>)
    ensures
        bytes@.len() == 16 ==> r == Ok::<uuid::Uuid, DecodeError>(uuid_of(bytes@)),
        bytes@.len() != 16 ==> r == Err::<uuid::Uuid, DecodeError>(DecodeError::InvalidEncoding),
{
    match uuid_from_slice(bytes) {
        Ok(u) => Ok(u),
        Err(_) => Err(DecodeError::InvalidEncoding),
    }
}

} // verus!
