use vstd::prelude::*;
use crate::bytes::{fits, read_u32, read_u8, u32_at, FormatError};

verus! {

/// Four joint-influence indices of one vertex.
#[derive(Debug, Clone, Copy, PartialEq, Eq, Structural)]
pub struct U16Vec4 {
    pub x: u16,
    pub y: u16,
    pub z: u16,
    pub w: u16,
}

impl U16Vec4 {
    pub fn new(x: u16, y: u16, z: u16, w: u16) -> (r: Self)
        ensures
            r == (U16Vec4 { x, y, z, w }),
    {
        U16Vec4 { x, y, z, w }
    }

    /// The four components in order.
    pub open spec fn seq(self) -> Seq<u16> {
        seq![self.x, self.y, self.z, self.w]
    }
}

/// Four bytes at `p`, each widened to 16 bits.
pub open spec fn u8x4_at(b: Seq<u8>, p: int) -> U16Vec4 {
    U16Vec4 { x: b[p] as u16, y: b[p + 1] as u16, z: b[p + 2] as u16, w: b[p + 3] as u16 }
}

/// Reads four influence bytes at `p`, widening each to 16 bits.
pub fn vec4_u8(b: &[u8], p: usize) -> (r: Result<U16Vec4, FormatError>)
    ensures
        match r {
            Ok(v) => fits(b@, p as int, 4) && v == u8x4_at(b@, p as int),
            Err(e) => !fits(b@, p as int, 4) && e == FormatError::Truncated,
        },
{
    if p > b.len() || b.len() - p < 4 {
        return Err(FormatError::Truncated);
    }
    let x = read_u8(b, p)?;
    let y = read_u8(b, p + 1)?;
    let z = read_u8(b, p + 2)?;
    let w = read_u8(b, p + 3)?;
    Ok(U16Vec4::new(x as u16, y as u16, z as u16, w as u16))
}

/// Three single-precision floats, each kept as its IEEE-754 bit pattern.
#[derive(Debug, Clone, Copy, PartialEq, Eq, Structural)]
pub struct Vec3Bits {
    pub x: u32,
    pub y: u32,
    pub z: u32,
}

/// A quaternion (x, y, z, w) of single-precision floats, kept as bit patterns.
#[derive(Debug, Clone, Copy, PartialEq, Eq, Structural)]
pub struct QuatBits {
    pub x: u32,
    pub y: u32,
    pub z: u32,
    pub w: u32,
}

/// Two single-precision floats, kept as bit patterns.
#[derive(Debug, Clone, Copy, PartialEq, Eq, Structural)]
pub struct Vec2Bits {
    pub x: u32,
    pub y: u32,
}

/// Four single-precision floats, kept as bit patterns.
#[derive(Debug, Clone, Copy, PartialEq, Eq, Structural)]
pub struct Vec4Bits {
    pub x: u32,
    pub y: u32,
    pub z: u32,
    pub w: u32,
}

pub open spec fn vec2_at(b: Seq<u8>, p: int) -> Vec2Bits {
    Vec2Bits { x: u32_at(b, p), y: u32_at(b, p + 4) }
}

pub open spec fn vec3_at(b: Seq<u8>, p: int) -> Vec3Bits {
    Vec3Bits { x: u32_at(b, p), y: u32_at(b, p + 4), z: u32_at(b, p + 8) }
}

pub open spec fn vec4_at(b: Seq<u8>, p: int) -> Vec4Bits {
    Vec4Bits { x: u32_at(b, p), y: u32_at(b, p + 4), z: u32_at(b, p + 8), w: u32_at(b, p + 12) }
}

pub open spec fn quat_at(b: Seq<u8>, p: int) -> QuatBits {
    QuatBits { x: u32_at(b, p), y: u32_at(b, p + 4), z: u32_at(b, p + 8), w: u32_at(b, p + 12) }
}

/// Reads two little-endian single-precision floats at `p`, as bit patterns.
pub fn vec2_f32(b: &[u8], p: usize) -> (r: Result<Vec2Bits, FormatError>)
    ensures
        match r {
            Ok(v) => fits(b@, p as int, 8) && v == vec2_at(b@, p as int),
            Err(e) => !fits(b@, p as int, 8) && e == FormatError::Truncated,
        },
{
    if p > b.len() || b.len() - p < 8 {
        return Err(FormatError::Truncated);
    }
    let x = read_u32(b, p)?;
    let y = read_u32(b, p + 4)?;
    Ok(Vec2Bits { x, y })
}

/// Reads three little-endian single-precision floats at `p`, as bit patterns.
pub fn vec3_f32(b: &[u8], p: usize) -> (r: Result<Vec3Bits, FormatError>)
    ensures
        match r {
            Ok(v) => fits(b@, p as int, 12) && v == vec3_at(b@, p as int),
            Err(e) => !fits(b@, p as int, 12) && e == FormatError::Truncated,
        },
{
    if p > b.len() || b.len() - p < 12 {
        return Err(FormatError::Truncated);
    }
    let x = read_u32(b, p)?;
    let y = read_u32(b, p + 4)?;
    let z = read_u32(b, p + 8)?;
    Ok(Vec3Bits { x, y, z })
}

/// Reads four little-endian single-precision floats at `p`, as bit patterns.
pub fn vec4_f32(b: &[u8], p: usize) -> (r: Result<Vec4Bits, FormatError>)
    ensures
        match r {
            Ok(v) => fits(b@, p as int, 16) && v == vec4_at(b@, p as int),
            Err(e) => !fits(b@, p as int, 16) && e == FormatError::Truncated,
        },
{
    if p > b.len() || b.len() - p < 16 {
        return Err(FormatError::Truncated);
    }
    let x = read_u32(b, p)?;
    let y = read_u32(b, p + 4)?;
    let z = read_u32(b, p + 8)?;
    let w = read_u32(b, p + 12)?;
    Ok(Vec4Bits { x, y, z, w })
}

/// Reads a quaternion (x, y, z, w) of little-endian single-precision floats at `p`,
/// as bit patterns.
pub fn quat_f32(b: &[u8], p: usize) -> (r: Result<QuatBits, FormatError>)
    ensures
        match r {
            Ok(v) => fits(b@, p as int, 16) && v == quat_at(b@, p as int),
            Err(e) => !fits(b@, p as int, 16) && e == FormatError::Truncated,
        },
{
    let v = vec4_f32(b, p)?;
    Ok(QuatBits { x: v.x, y: v.y, z: v.z, w: v.w })
}

} // verus!
