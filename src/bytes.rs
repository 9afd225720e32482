use vstd::prelude::*;
use vstd::utf8::{decode_utf8, valid_utf8};

verus! {

/// Why a buffer could not be decoded.
#[derive(Debug, Clone, Copy, PartialEq, Eq, Structural)]
pub enum FormatError {
    /// The leading signature or type tag is not one of the known values.
    BadSignature,
    /// The signature is known but its version number is not.
    UnknownVersion,
    /// A read went past the end of the buffer, or an offset points outside it.
    Truncated,
    /// A name is not valid UTF-8.
    BadName,
    /// An entry carries a tag that the format does not define.
    BadTag,
    /// An index refers past the end of the table it points into.
    BadIndex,
    /// The offsets of a header's tables are out of order.
    BadOffset,
    /// A joint has no key for one of its channels.
    MissingTrack,
}

/// The little-endian integers that the readers return.
pub open spec fn u16_at(b: Seq<u8>, p: int) -> u16 {
    (b[p] as int + 256 * b[p + 1] as int) as u16
}

pub open spec fn u32_at(b: Seq<u8>, p: int) -> u32 {
    (b[p] as int + 256 * b[p + 1] as int + 65536 * b[p + 2] as int + 16777216 * b[p
        + 3] as int) as u32
}

pub open spec fn i16_at(b: Seq<u8>, p: int) -> i16 {
    u16_at(b, p) as i16
}

pub open spec fn i32_at(b: Seq<u8>, p: int) -> i32 {
    u32_at(b, p) as i32
}

/// A 48-bit little-endian value, widened to 64 bits.
pub open spec fn u48_at(b: Seq<u8>, p: int) -> u64 {
    (u32_at(b, p) as int + 4294967296 * u16_at(b, p + 4) as int) as u64
}

/// Whether `n` bytes can be read at position `p`.
pub open spec fn fits(b: Seq<u8>, p: int, n: int) -> bool {
    0 <= p && p + n <= b.len()
}

/// Reads an unsigned byte at `p`.
pub fn read_u8(b: &[u8], p: usize) -> (r: Result<u8, FormatError>)
    ensures
        match r {
            Ok(v) => fits(b@, p as int, 1) && v == b@[p as int],
            Err(e) => !fits(b@, p as int, 1) && e == FormatError::Truncated,
        },
{
    if p < b.len() {
        Ok(b[p])
    } else {
        Err(FormatError::Truncated)
    }
}

/// Reads a little-endian u16 at `p`.
pub fn read_u16(b: &[u8], p: usize) -> (r: Result<u16, FormatError>)
    ensures
        match r {
            Ok(v) => fits(b@, p as int, 2) && v == u16_at(b@, p as int),
            Err(e) => !fits(b@, p as int, 2) && e == FormatError::Truncated,
        },
{
    if p < b.len() && b.len() - p >= 2 {
        Ok(b[p] as u16 + 256 * (b[p + 1] as u16))
    } else {
        Err(FormatError::Truncated)
    }
}

/// Reads a little-endian i16 at `p`.
pub fn read_i16(b: &[u8], p: usize) -> (r: Result<i16, FormatError>)
    ensures
        match r {
            Ok(v) => fits(b@, p as int, 2) && v == i16_at(b@, p as int),
            Err(e) => !fits(b@, p as int, 2) && e == FormatError::Truncated,
        },
{
    let v = read_u16(b, p)?;
    Ok(v as i16)
}

/// Reads a little-endian u32 at `p`.
pub fn read_u32(b: &[u8], p: usize) -> (r: Result<u32, FormatError>)
    ensures
        match r {
            Ok(v) => fits(b@, p as int, 4) && v == u32_at(b@, p as int),
            Err(e) => !fits(b@, p as int, 4) && e == FormatError::Truncated,
        },
{
    if p < b.len() && b.len() - p >= 4 {
        Ok(b[p] as u32 + 256 * (b[p + 1] as u32) + 65536 * (b[p + 2] as u32) + 16777216 * (b[p
            + 3] as u32))
    } else {
        Err(FormatError::Truncated)
    }
}

/// Reads a little-endian i32 at `p`.
pub fn read_i32(b: &[u8], p: usize) -> (r: Result<i32, FormatError>)
    ensures
        match r {
            Ok(v) => fits(b@, p as int, 4) && v == i32_at(b@, p as int),
            Err(e) => !fits(b@, p as int, 4) && e == FormatError::Truncated,
        },
{
    let v = read_u32(b, p)?;
    Ok(v as i32)
}

/// Reads a little-endian 48-bit unsigned value at `p`.
pub fn read_u48(b: &[u8], p: usize) -> (r: Result<u64, FormatError>)
    ensures
        match r {
            Ok(v) => fits(b@, p as int, 6) && v == u48_at(b@, p as int),
            Err(e) => !fits(b@, p as int, 6) && e == FormatError::Truncated,
        },
{
    if p < b.len() && b.len() - p >= 6 {
        let lo = read_u32(b, p)?;
        let hi = read_u16(b, p + 4)?;
        Ok(lo as u64 + 4294967296 * (hi as u64))
    } else {
        Err(FormatError::Truncated)
    }
}

/// Bytes `p .. p + n`.
pub open spec fn field(b: Seq<u8>, p: int, n: int) -> Seq<u8> {
    b.subrange(p, p + n)
}

/// A byte sequence without its trailing zero bytes.
pub open spec fn trim_nul(s: Seq<u8>) -> Seq<u8>
    decreases s.len(),
{
    if s.len() > 0 && s.last() == 0 {
        trim_nul(s.drop_last())
    } else {
        s
    }
}

/// Relies on String::from_utf8: it accepts exactly the valid UTF-8 sequences and
/// keeps the characters they encode.
#[verifier::external_body]
fn string_from_utf8(v: Vec<u8>) -> (r: Option<String>)
    ensures
        r is Some <==> valid_utf8(v@),
        r is Some ==> r->0@ == decode_utf8(v@),
{
    String::from_utf8(v).ok()
}

/// Whether the fixed-width name field at `p` holds valid UTF-8 once its padding is cut.
pub open spec fn name_ok(b: Seq<u8>, p: int, n: int) -> bool {
    valid_utf8(trim_nul(field(b, p, n)))
}

/// The characters of the fixed-width name field at `p`, without its zero padding.
pub open spec fn name_at(b: Seq<u8>, p: int, n: int) -> Seq<char> {
    decode_utf8(trim_nul(field(b, p, n)))
}

/// Reads a name stored in a zero-padded field of `n` bytes.
pub fn read_fixed_name(b: &[u8], p: usize, n: usize) -> (r: Result<String, FormatError>)
    ensures
        match r {
            Ok(s) => fits(b@, p as int, n as int) && name_ok(b@, p as int, n as int) && s@
                == name_at(b@, p as int, n as int),
            Err(e) => {
                &&& !fits(b@, p as int, n as int) ==> e == FormatError::Truncated
                &&& fits(b@, p as int, n as int) ==> !name_ok(b@, p as int, n as int) && e
                    == FormatError::BadName
            },
        },
{
    if p > b.len() || b.len() - p < n {
        return Err(FormatError::Truncated);
    }
    let mut end: usize = n;
    while end > 0 && b[p + end - 1] == 0
        invariant
            p + n <= b.len(),
            end <= n,
            trim_nul(field(b@, p as int, n as int)) == trim_nul(field(b@, p as int, end as int)),
        decreases end,
    {
        assert(field(b@, p as int, end as int).drop_last() =~= field(
            b@,
            p as int,
            end - 1,
        ));
        end = end - 1;
    }
    let mut v: Vec<u8> = Vec::new();
    let mut i: usize = 0;
    while i < end
        invariant
            p + n <= b.len(),
            end <= n,
            i <= end,
            v@ =~= field(b@, p as int, i as int),
        decreases end - i,
    {
        v.push(b[p + i]);
        i = i + 1;
    }
    assert(trim_nul(v@) == v@);
    match string_from_utf8(v) {
        Some(s) => Ok(s),
        None => Err(FormatError::BadName),
    }
}

/// `e` is the first zero byte at or after `p`.
pub open spec fn cstr_end(b: Seq<u8>, p: int, e: int) -> bool {
    &&& 0 <= p <= e < b.len()
    &&& b[e] == 0
    &&& forall|k: int| p <= k < e ==> b[k] != 0
}

/// A zero byte ends the string that starts at `p`.
pub open spec fn cstr_found(b: Seq<u8>, p: int) -> bool {
    exists|e: int| cstr_end(b, p, e)
}

/// The string that starts at `p` is ended by a zero byte and is valid UTF-8.
pub open spec fn cstr_ok(b: Seq<u8>, p: int) -> bool {
    exists|e: int| cstr_end(b, p, e) && valid_utf8(b.subrange(p, e))
}

/// `s` is the string that starts at `p` and is ended by a zero byte.
pub open spec fn cstr_is(b: Seq<u8>, p: int, s: Seq<char>) -> bool {
    exists|e: int| cstr_end(b, p, e) && valid_utf8(b.subrange(p, e)) && s == decode_utf8(b.subrange(p, e))
}

/// Reads a zero-terminated UTF-8 string that starts at `p`.
pub fn read_cstring(b: &[u8], p: usize) -> (r: Result<String, FormatError>)
    ensures
        match r {
            Ok(s) => cstr_ok(b@, p as int) && cstr_is(b@, p as int, s@),
            Err(e) => {
                ||| !cstr_found(b@, p as int) && e == FormatError::Truncated
                ||| cstr_found(b@, p as int) && !cstr_ok(b@, p as int) && e == FormatError::BadName
            },
        },
{
    let mut e: usize = p;
    while e < b.len() && b[e] != 0
        invariant
            p <= e,
            forall|k: int| p <= k < e ==> b@[k] != 0,
        decreases b.len() - e,
    {
        e = e + 1;
    }
    if e >= b.len() {
        assert forall|x: int| !cstr_end(b@, p as int, x) by {
            if cstr_end(b@, p as int, x) {
                assert(b@[x] != 0);
            }
        }
        return Err(FormatError::Truncated);
    }
    assert(cstr_end(b@, p as int, e as int));
    let mut v: Vec<u8> = Vec::new();
    let mut i: usize = p;
    while i < e
        invariant
            p <= i <= e,
            e < b.len(),
            v@ =~= b@.subrange(p as int, i as int),
        decreases e - i,
    {
        v.push(b[i]);
        i = i + 1;
    }
    assert forall|x: int| cstr_end(b@, p as int, x) implies x == e by {
        if x < e {
            assert(b@[x] != 0);
        } else if x > e {
            assert(b@[e as int] != 0);
        }
    }
    match string_from_utf8(v) {
        Some(s) => Ok(s),
        None => Err(FormatError::BadName),
    }
}

} // verus!
