use vstd::prelude::*;
use crate::bytes::{
    fits, i16_at, i32_at, name_at, name_ok, read_cstring, read_fixed_name, cstr_end, cstr_found, cstr_ok, cstr_is, read_i16, read_i32, read_u16,
    read_u32, u16_at, u32_at, FormatError,
};
use crate::hasher::{elf_hash_spec, string_to_hash};
use crate::values::{quat_at, quat_f32, vec3_f32, vec4_f32, vec3_at, vec4_at, QuatBits, Vec3Bits, Vec4Bits};

verus! {

/// Type tag at byte 4 of a classic skeleton ("sklt").
pub const CLASSIC_MAGIC: u32 = 0x746C6B73;

/// Type tag at byte 4 of a versioned skeleton.
pub const VERSIONED_MAGIC: u32 = 0x22FD4FC3;

/// Size of one joint record of a classic skeleton.
pub const CLASSIC_JOINT_SIZE: u64 = 88;

/// Size of one joint record of a versioned skeleton.
pub const VERSIONED_JOINT_SIZE: u64 = 100;

/// The two skeleton layouts.
#[derive(Debug, Clone, Copy, PartialEq, Eq, Structural)]
pub enum Type {
    Classic,
    Version2,
}

/// The layout that a type tag names, if any.
pub open spec fn type_of(value: u32) -> Option<Type> {
    if value == CLASSIC_MAGIC {
        Some(Type::Classic)
    } else if value == VERSIONED_MAGIC {
        Some(Type::Version2)
    } else {
        None
    }
}

impl Type {
    /// The layout that a type tag names, if any.
    pub fn from_u32(value: u32) -> (r: Option<Type>)
        ensures
            r == type_of(value),
    {
        if value == CLASSIC_MAGIC {
            Some(Type::Classic)
        } else if value == VERSIONED_MAGIC {
            Some(Type::Version2)
        } else {
            None
        }
    }
}

/// A scale, a rotation and a translation, as single-precision bit patterns.
#[derive(Debug, Clone, Copy, PartialEq, Eq, Structural)]
pub struct TrsBits {
    pub translation: Vec3Bits,
    pub scale: Vec3Bits,
    pub rotation: QuatBits,
}

/// The top three rows of an affine 4x4 matrix, row by row; the bottom row is (0, 0, 0, 1).
#[derive(Debug, Clone, Copy, PartialEq, Eq, Structural)]
pub struct Mat3x4Bits {
    pub row0: Vec4Bits,
    pub row1: Vec4Bits,
    pub row2: Vec4Bits,
}

/// The bind pose of a joint as the file stores it.
#[derive(Debug, Clone, Copy, PartialEq, Eq, Structural)]
pub enum BindPose {
    /// The global matrix; the local matrix follows from the parent's global matrix.
    Classic { global: Mat3x4Bits },
    /// The local transform and the inverse of the global transform.
    Versioned { local: TrsBits, inverse_global: TrsBits },
}

/// One joint of a skeleton.
pub struct Joint {
    pub name: String,
    pub hash: u32,
    pub id: i16,
    pub parent_id: i16,
    pub bind: BindPose,
    /// Indices of the joints whose parent is this joint, in ascending order.
    pub children: Vec<usize>,
}

/// A joint hierarchy and the table that maps skin influence indices to joint indices.
pub struct Skeleton {
    pub stype: Type,
    pub version: u32,
    pub joints: Vec<Joint>,
    pub influences: Vec<u16>,
}

/// A translation, a scale and a rotation stored one after another at `p`.
pub open spec fn trs_at(b: Seq<u8>, p: int) -> TrsBits {
    TrsBits { translation: vec3_at(b, p), scale: vec3_at(b, p + 12), rotation: quat_at(b, p + 24) }
}

/// Three rows of four floats stored at `p`.
pub open spec fn mat3x4_at(b: Seq<u8>, p: int) -> Mat3x4Bits {
    Mat3x4Bits { row0: vec4_at(b, p), row1: vec4_at(b, p + 16), row2: vec4_at(b, p + 32) }
}

fn read_trs(b: &[u8], p: usize) -> (r: Result<TrsBits, FormatError>)
    ensures
        match r {
            Ok(v) => fits(b@, p as int, 40) && v == trs_at(b@, p as int),
            Err(e) => !fits(b@, p as int, 40) && e == FormatError::Truncated,
        },
{
    if p > b.len() || b.len() - p < 40 {
        return Err(FormatError::Truncated);
    }
    let translation = vec3_f32(b, p)?;
    let scale = vec3_f32(b, p + 12)?;
    let rotation = quat_f32(b, p + 24)?;
    Ok(TrsBits { translation, scale, rotation })
}

fn read_mat3x4(b: &[u8], p: usize) -> (r: Result<Mat3x4Bits, FormatError>)
    ensures
        match r {
            Ok(v) => fits(b@, p as int, 48) && v == mat3x4_at(b@, p as int),
            Err(e) => !fits(b@, p as int, 48) && e == FormatError::Truncated,
        },
{
    if p > b.len() || b.len() - p < 48 {
        return Err(FormatError::Truncated);
    }
    let row0 = vec4_f32(b, p)?;
    let row1 = vec4_f32(b, p + 16)?;
    let row2 = vec4_f32(b, p + 32)?;
    Ok(Mat3x4Bits { row0, row1, row2 })
}

// ---- children ----

/// Indices below `n` of the joints whose parent id is `k`, in ascending order.
pub open spec fn children_upto(parents: Seq<i16>, k: int, n: int) -> Seq<usize>
    decreases n,
{
    if n <= 0 {
        Seq::empty()
    } else if parents[n - 1] as int == k {
        children_upto(parents, k, n - 1).push((n - 1) as usize)
    } else {
        children_upto(parents, k, n - 1)
    }
}

/// The parent ids of a joint table.
pub open spec fn parents_of(js: Seq<Joint>) -> Seq<i16> {
    js.map_values(|j: Joint| j.parent_id)
}

/// The children of joint `k` in a joint table.
pub open spec fn children_spec(js: Seq<Joint>, k: int) -> Seq<usize> {
    children_upto(parents_of(js), k, js.len() as int)
}

fn children_of(parents: &Vec<i16>, k: usize) -> (r: Vec<usize>)
    ensures
        r@ == children_upto(parents@, k as int, parents@.len() as int),
{
    let mut r: Vec<usize> = Vec::new();
    let mut i: usize = 0;
    while i < parents.len()
        invariant
            i <= parents@.len(),
            r@ == children_upto(parents@, k as int, i as int),
        decreases parents.len() - i,
    {
        if parents[i] >= 0 && parents[i] as usize == k {
            r.push(i);
        }
        i = i + 1;
    }
    r
}

/// Two joints agree in everything but their children lists.
pub open spec fn same_record(a: Joint, b: Joint) -> bool {
    &&& a.name == b.name
    &&& a.hash == b.hash
    &&& a.id == b.id
    &&& a.parent_id == b.parent_id
    &&& a.bind == b.bind
}

/// Fills in the children lists: each joint lists the joints whose parent id is its index.
pub fn link_children(joints: Vec<Joint>) -> (r: Vec<Joint>)
    ensures
        r.len() == joints.len(),
        forall|i: int|
            0 <= i < r.len() ==> same_record(#[trigger] r[i], joints[i]) && r[i].children@
                == children_spec(joints@, i),
{
    let mut parents: Vec<i16> = Vec::new();
    let mut i: usize = 0;
    while i < joints.len()
        invariant
            i <= joints.len(),
            parents@ =~= parents_of(joints@).take(i as int),
        decreases joints.len() - i,
    {
        parents.push(joints[i].parent_id);
        i = i + 1;
    }
    assert(parents@ =~= parents_of(joints@));
    let ghost old_joints = joints@;
    let mut rest = joints;
    let mut out: Vec<Joint> = Vec::new();
    while rest.len() > 0
        invariant
            rest.len() + out.len() == old_joints.len(),
            parents@ == parents_of(old_joints),
            rest@ == old_joints.take(rest.len() as int),
            forall|j: int|
                0 <= j < out.len() ==> same_record(#[trigger] out[j], old_joints[j + rest.len()])
                    && out[j].children@ == children_spec(old_joints, j + rest.len()),
        decreases rest.len(),
    {
        let k = rest.len() - 1;
        let j = rest.pop().unwrap();
        let children = children_of(&parents, k);
        let linked = Joint {
            name: j.name,
            hash: j.hash,
            id: j.id,
            parent_id: j.parent_id,
            bind: j.bind,
            children,
        };
        out.insert(0, linked);
        assert(rest@ =~= old_joints.take(rest.len() as int));
    }
    out
}

// ---- classic layout ----

/// The eight-byte signature of a classic skeleton, "r3d2sklt".
pub open spec fn classic_signature() -> Seq<u8> {
    seq![0x72u8, 0x33u8, 0x64u8, 0x32u8, 0x73u8, 0x6bu8, 0x6cu8, 0x74u8]
}

pub open spec fn classic_joint_count(b: Seq<u8>) -> int {
    u32_at(b, 16) as int
}

/// Start of the record of joint `i` of a classic skeleton.
pub open spec fn classic_joint_pos(i: int) -> int {
    20 + 88 * i
}

/// Start of the influence section of a classic skeleton.
pub open spec fn classic_tail(b: Seq<u8>) -> int {
    classic_joint_pos(classic_joint_count(b))
}

/// Number of entries of the explicit influence table of a classic skeleton.
pub open spec fn classic_influence_count(b: Seq<u8>) -> int {
    u32_at(b, classic_tail(b)) as int
}

/// Whether every byte that a classic skeleton of this header needs is in the buffer.
pub open spec fn classic_fits(b: Seq<u8>) -> bool {
    &&& b.len() >= 20
    &&& classic_tail(b) <= b.len()
    &&& u32_at(b, 8) == 2 ==> classic_tail(b) + 4 <= b.len() && classic_tail(b) + 4 + 4
        * classic_influence_count(b) <= b.len()
}

pub open spec fn classic_names_ok(b: Seq<u8>) -> bool {
    forall|i: int| 0 <= i < classic_joint_count(b) ==> name_ok(b, classic_joint_pos(i), 32)
}

/// Joint `i` of a classic skeleton, before its children are linked.
pub open spec fn classic_joint_matches(j: Joint, b: Seq<u8>, i: int) -> bool {
    let p = classic_joint_pos(i);
    &&& j.name@ == name_at(b, p, 32)
    &&& j.hash == elf_hash_spec(j.name@)
    &&& j.id == i as i16
    &&& j.parent_id == i32_at(b, p + 32) as i16
    &&& j.bind == (BindPose::Classic { global: mat3x4_at(b, p + 40) })
}

/// The influence table of a classic skeleton: the identity in version 1, an explicit
/// list of 32-bit entries (kept to their low 16 bits) in version 2.
pub open spec fn classic_influences(b: Seq<u8>) -> Seq<u16> {
    if u32_at(b, 8) == 1 {
        Seq::new(classic_joint_count(b) as nat, |i: int| i as u16)
    } else {
        Seq::new(
            classic_influence_count(b) as nat,
            |k: int| u32_at(b, classic_tail(b) + 4 + 4 * k) as u16,
        )
    }
}

fn read_classic_joint(b: &[u8], i: u32) -> (r: Result<Joint, FormatError>)
    requires
        classic_joint_pos(i as int) + 88 <= b@.len(),
    ensures
        match r {
            Ok(j) => name_ok(b@, classic_joint_pos(i as int), 32) && classic_joint_matches(
                j,
                b@,
                i as int,
            ) && j.children@.len() == 0,
            Err(e) => !name_ok(b@, classic_joint_pos(i as int), 32) && e == FormatError::BadName,
        },
{
    let len = b.len();
    assert(classic_joint_pos(i as int) + 88 <= len);
    let p: usize = 20 + 88 * (i as usize);
    let name = match read_fixed_name(b, p, 32) {
        Ok(n) => n,
        Err(_) => {
            return Err(FormatError::BadName);
        },
    };
    let hash = string_to_hash(name.as_str());
    let parent = read_i32(b, p + 32)?;
    let global = read_mat3x4(b, p + 40)?;
    Ok(
        Joint {
            name,
            hash,
            id: #[verifier::truncate] (i as i16),
            parent_id: #[verifier::truncate] (parent as i16),
            bind: BindPose::Classic { global },
            children: Vec::new(),
        },
    )
}

/// Decodes a classic skeleton; children are not linked yet.
fn read_classic(b: &[u8]) -> (r: Result<Skeleton, FormatError>)
    ensures
        match r {
            Ok(s) => {
                &&& b@.len() >= 8 && b@.subrange(0, 8) == classic_signature()
                &&& (u32_at(b@, 8) == 1 || u32_at(b@, 8) == 2)
                &&& classic_fits(b@)
                &&& classic_names_ok(b@)
                &&& s.stype == Type::Classic
                &&& s.version == u32_at(b@, 8)
                &&& s.joints.len() == classic_joint_count(b@)
                &&& forall|i: int|
                    0 <= i < s.joints.len() ==> classic_joint_matches(#[trigger] s.joints[i], b@, i)
                &&& s.influences@ == classic_influences(b@)
            },
            Err(e) => classic_error(b@, e),
        },
{
    if b.len() < 8 {
        return Err(FormatError::Truncated);
    }
    let mut k: usize = 0;
    while k < 8
        invariant
            b@.len() >= 8,
            k <= 8,
            forall|m: int| 0 <= m < k ==> b@[m] == classic_signature()[m],
        decreases 8 - k,
    {
        let expected: u8 = if k == 0 {
            0x72
        } else if k == 1 {
            0x33
        } else if k == 2 {
            0x64
        } else if k == 3 {
            0x32
        } else if k == 4 {
            0x73
        } else if k == 5 {
            0x6b
        } else if k == 6 {
            0x6c
        } else {
            0x74
        };
        if b[k] != expected {
            return Err(FormatError::BadSignature);
        }
        k = k + 1;
    }
    assert(b@.subrange(0, 8) =~= classic_signature());
    let version = read_u32(b, 8)?;
    if version != 1 && version != 2 {
        return Err(FormatError::UnknownVersion);
    }
    let count = read_u32(b, 16)?;
    let tail: u64 = 20 + 88 * (count as u64);
    if tail > b.len() as u64 {
        return Err(FormatError::Truncated);
    }
    let tail = tail as usize;
    let mut influences: Vec<u16> = Vec::new();
    if version == 2 {
        let n = read_u32(b, tail)?;
        if 4 * (n as u64) > (b.len() - tail - 4) as u64 {
            return Err(FormatError::Truncated);
        }
        let mut k: u32 = 0;
        while k < n
            invariant
                k <= n,
                version == 2,
                u32_at(b@, 8) == version,
                n as int == classic_influence_count(b@),
                tail == classic_tail(b@),
                tail + 4 + 4 * n <= b@.len(),
                influences@ =~= Seq::new(
                    k as nat,
                    |m: int| u32_at(b@, classic_tail(b@) + 4 + 4 * m) as u16,
                ),
            decreases n - k,
        {
            let len = b.len();
            assert(tail + 4 + 4 * k < len);
            let v = read_u32(b, tail + 4 + 4 * (k as usize))?;
            influences.push(#[verifier::truncate] (v as u16));
            k = k + 1;
        }
    } else {
        let mut k: u32 = 0;
        while k < count
            invariant
                k <= count,
                influences@ =~= Seq::new(k as nat, |m: int| m as u16),
            decreases count - k,
        {
            influences.push(#[verifier::truncate] (k as u16));
            k = k + 1;
        }
    }
    let mut joints: Vec<Joint> = Vec::new();
    let mut i: u32 = 0;
    while i < count
        invariant
            i <= count,
            count as int == classic_joint_count(b@),
            classic_tail(b@) <= b@.len(),
            b@.subrange(0, 8) == classic_signature(),
            u32_at(b@, 8) == version,
            version == 1 || version == 2,
            classic_fits(b@),
            influences@ == classic_influences(b@),
            joints.len() == i,
            forall|m: int| 0 <= m < i ==> name_ok(b@, classic_joint_pos(m), 32),
            forall|m: int| 0 <= m < i ==> classic_joint_matches(#[trigger] joints[m], b@, m),
        decreases count - i,
    {
        let j = read_classic_joint(b, i)?;
        joints.push(j);
        i = i + 1;
    }
    Ok(Skeleton { stype: Type::Classic, version, joints, influences })
}

/// The error that decoding a classic skeleton gives, stage by stage.
pub open spec fn classic_error(b: Seq<u8>, e: FormatError) -> bool {
    if b.len() < 8 {
        e == FormatError::Truncated
    } else if b.subrange(0, 8) != classic_signature() {
        e == FormatError::BadSignature
    } else if b.len() < 12 {
        e == FormatError::Truncated
    } else if u32_at(b, 8) != 1 && u32_at(b, 8) != 2 {
        e == FormatError::UnknownVersion
    } else if !classic_fits(b) {
        e == FormatError::Truncated
    } else {
        !classic_names_ok(b) && e == FormatError::BadName
    }
}

// ---- versioned layout ----

pub open spec fn versioned_joint_count(b: Seq<u8>) -> int {
    u16_at(b, 14) as int
}

pub open spec fn versioned_influence_count(b: Seq<u8>) -> int {
    u32_at(b, 16) as int
}

pub open spec fn versioned_joint_offset(b: Seq<u8>) -> int {
    u32_at(b, 20) as int
}

pub open spec fn versioned_influence_offset(b: Seq<u8>) -> int {
    u32_at(b, 28) as int
}

/// Start of the record of joint `k` of a versioned skeleton.
pub open spec fn versioned_joint_pos(b: Seq<u8>, k: int) -> int {
    versioned_joint_offset(b) + 100 * k
}

/// Where the name of joint `k` starts: the offset stored at byte 96 of its record
/// counts from that field.
pub open spec fn versioned_name_pos(b: Seq<u8>, k: int) -> int {
    versioned_joint_pos(b, k) + 96 + i32_at(b, versioned_joint_pos(b, k) + 96) as int
}

/// Whether the header, the joint block and the influence block are in the buffer.
pub open spec fn versioned_fits(b: Seq<u8>) -> bool {
    &&& b.len() >= 32
    &&& versioned_joint_pos(b, versioned_joint_count(b)) <= b.len()
    &&& versioned_influence_offset(b) + 2 * versioned_influence_count(b) <= b.len()
}

pub open spec fn versioned_names_ok(b: Seq<u8>) -> bool {
    forall|k: int| 0 <= k < versioned_joint_count(b) ==> cstr_ok(b, versioned_name_pos(b, k))
}

/// Joint `k` of a versioned skeleton, before its children are linked.
pub open spec fn versioned_joint_matches(j: Joint, b: Seq<u8>, k: int) -> bool {
    let p = versioned_joint_pos(b, k);
    &&& cstr_is(b, versioned_name_pos(b, k), j.name@)
    &&& j.id == i16_at(b, p + 2)
    &&& j.parent_id == i16_at(b, p + 4)
    &&& j.hash == u32_at(b, p + 8)
    &&& j.bind == (BindPose::Versioned {
        local: trs_at(b, p + 16),
        inverse_global: trs_at(b, p + 56),
    })
}

pub open spec fn versioned_influences(b: Seq<u8>) -> Seq<u16> {
    Seq::new(
        versioned_influence_count(b) as nat,
        |k: int| u16_at(b, versioned_influence_offset(b) + 2 * k),
    )
}

/// The error that decoding a versioned skeleton gives.
pub open spec fn versioned_error(b: Seq<u8>, e: FormatError) -> bool {
    if !versioned_fits(b) {
        e == FormatError::Truncated
    } else {
        ||| e == FormatError::Truncated && exists|k: int|
            0 <= k < versioned_joint_count(b) && !cstr_found(b, #[trigger] versioned_name_pos(b, k))
        ||| e == FormatError::BadName && exists|k: int|
            0 <= k < versioned_joint_count(b) && !cstr_ok(b, #[trigger] versioned_name_pos(b, k))
    }
}

fn read_versioned_joint(b: &[u8], joint_offset: u32, k: u16) -> (r: Result<Joint, FormatError>)
    requires
        joint_offset as int == versioned_joint_offset(b@),
        versioned_joint_pos(b@, k as int) + 100 <= b@.len(),
    ensures
        match r {
            Ok(j) => cstr_ok(b@, versioned_name_pos(b@, k as int)) && versioned_joint_matches(
                j,
                b@,
                k as int,
            ) && j.children@.len() == 0,
            Err(e) => {
                ||| !cstr_found(b@, versioned_name_pos(b@, k as int)) && e == FormatError::Truncated
                ||| !cstr_ok(b@, versioned_name_pos(b@, k as int)) && e == FormatError::BadName
            },
        },
{
    let len = b.len();
    assert(versioned_joint_pos(b@, k as int) + 100 <= len);
    let p: usize = joint_offset as usize + 100 * (k as usize);
    let id = read_i16(b, p + 2)?;
    let parent_id = read_i16(b, p + 4)?;
    let hash = read_u32(b, p + 8)?;
    let local = read_trs(b, p + 16)?;
    let inverse_global = read_trs(b, p + 56)?;
    let name_offset = read_i32(b, p + 96)?;
    let name_pos: i64 = p as i64 + 96 + name_offset as i64;
    if name_pos < 0 || name_pos as u64 >= len as u64 {
        assert(name_pos == versioned_name_pos(b@, k as int));
        assert forall|x: int| !cstr_end(b@, name_pos as int, x) by {}
        return Err(FormatError::Truncated);
    }
    let name = read_cstring(b, name_pos as usize)?;
    Ok(
        Joint {
            name,
            hash,
            id,
            parent_id,
            bind: BindPose::Versioned { local, inverse_global },
            children: Vec::new(),
        },
    )
}

/// Decodes a versioned skeleton; children are not linked yet.
fn read_new(b: &[u8]) -> (r: Result<Skeleton, FormatError>)
    ensures
        match r {
            Ok(s) => {
                &&& versioned_fits(b@)
                &&& versioned_names_ok(b@)
                &&& s.stype == Type::Version2
                &&& s.version == u32_at(b@, 8)
                &&& s.joints.len() == versioned_joint_count(b@)
                &&& forall|k: int|
                    0 <= k < s.joints.len() ==> versioned_joint_matches(
                        #[trigger] s.joints[k],
                        b@,
                        k,
                    )
                &&& s.influences@ == versioned_influences(b@)
            },
            Err(e) => versioned_error(b@, e),
        },
{
    let len = b.len();
    if len < 32 {
        return Err(FormatError::Truncated);
    }
    let version = read_u32(b, 8)?;
    let count = read_u16(b, 14)?;
    let influence_count = read_u32(b, 16)?;
    let joint_offset = read_u32(b, 20)?;
    let influence_offset = read_u32(b, 28)?;
    if joint_offset as u64 + 100 * (count as u64) > len as u64 || influence_offset as u64 + 2
        * (influence_count as u64) > len as u64 {
        return Err(FormatError::Truncated);
    }
    let mut influences: Vec<u16> = Vec::new();
    let mut k: u32 = 0;
    while k < influence_count
        invariant
            k <= influence_count,
            influence_count as int == versioned_influence_count(b@),
            influence_offset as int == versioned_influence_offset(b@),
            influence_offset + 2 * influence_count <= len,
            len == b@.len(),
            influences@ =~= versioned_influences(b@).take(k as int),
        decreases influence_count - k,
    {
        let v = read_u16(b, influence_offset as usize + 2 * (k as usize))?;
        influences.push(v);
        k = k + 1;
    }
    assert(influences@ =~= versioned_influences(b@));
    let mut joints: Vec<Joint> = Vec::new();
    let mut i: u16 = 0;
    while i < count
        invariant
            i <= count,
            count as int == versioned_joint_count(b@),
            joint_offset as int == versioned_joint_offset(b@),
            versioned_fits(b@),
            u32_at(b@, 8) == version,
            influences@ == versioned_influences(b@),
            joints.len() == i,
            forall|m: int| 0 <= m < i ==> cstr_ok(b@, versioned_name_pos(b@, m)),
            forall|m: int| 0 <= m < i ==> versioned_joint_matches(#[trigger] joints[m], b@, m),
        decreases count - i,
    {
        let j = match read_versioned_joint(b, joint_offset, i) {
            Ok(j) => j,
            Err(e) => {
                assert(versioned_fits(b@));
                assert(0 <= i < versioned_joint_count(b@));
                return Err(e);
            },
        };
        joints.push(j);
        i = i + 1;
    }
    Ok(Skeleton { stype: Type::Version2, version, joints, influences })
}

// ---- both layouts ----

/// The layout that the type tag at byte 4 names.
pub open spec fn skeleton_type(b: Seq<u8>) -> Option<Type> {
    if b.len() < 8 {
        None
    } else {
        type_of(u32_at(b, 4))
    }
}

pub open spec fn classic_valid(b: Seq<u8>) -> bool {
    &&& b.len() >= 8 && b.subrange(0, 8) == classic_signature()
    &&& (u32_at(b, 8) == 1 || u32_at(b, 8) == 2)
    &&& classic_fits(b)
    &&& classic_names_ok(b)
}

pub open spec fn versioned_valid(b: Seq<u8>) -> bool {
    versioned_fits(b) && versioned_names_ok(b)
}

/// Whether `b` holds a skeleton that decodes.
pub open spec fn skeleton_valid(b: Seq<u8>) -> bool {
    match skeleton_type(b) {
        Some(Type::Classic) => classic_valid(b),
        Some(Type::Version2) => versioned_valid(b),
        None => false,
    }
}

/// `s` holds what the valid skeleton `b` stores, children linked.
pub open spec fn skeleton_decodes(b: Seq<u8>, s: Skeleton) -> bool {
    &&& s.version == u32_at(b, 8)
    &&& s.stype == skeleton_type(b)->0
    &&& s.stype == Type::Classic ==> {
        &&& s.joints.len() == classic_joint_count(b)
        &&& forall|i: int|
            0 <= i < s.joints.len() ==> classic_joint_matches(#[trigger] s.joints[i], b, i)
        &&& s.influences@ == classic_influences(b)
    }
    &&& s.stype == Type::Version2 ==> {
        &&& s.joints.len() == versioned_joint_count(b)
        &&& forall|i: int|
            0 <= i < s.joints.len() ==> versioned_joint_matches(#[trigger] s.joints[i], b, i)
        &&& s.influences@ == versioned_influences(b)
    }
    &&& forall|i: int|
        0 <= i < s.joints.len() ==> (#[trigger] s.joints[i]).children@ == children_spec(
            s.joints@,
            i,
        )
}

/// The error that decoding `b` as a skeleton gives.
pub open spec fn skeleton_error(b: Seq<u8>, e: FormatError) -> bool {
    match skeleton_type(b) {
        Some(Type::Classic) => classic_error(b, e),
        Some(Type::Version2) => versioned_error(b, e),
        None => if b.len() < 8 {
            e == FormatError::Truncated
        } else {
            e == FormatError::BadSignature
        },
    }
}

impl Skeleton {
    /// Decodes a skeleton in either layout and links each joint to its children.
    pub fn read(contents: &Vec<u8>) -> (r: Result<Skeleton, FormatError>)
        ensures
            r is Ok <==> skeleton_valid(contents@),
            match r {
                Ok(s) => skeleton_decodes(contents@, s),
                Err(e) => skeleton_error(contents@, e),
            },
    {
        let b = contents.as_slice();
        let magic = read_u32(b, 4)?;
        let decoded = match Type::from_u32(magic) {
            Some(Type::Classic) => read_classic(b),
            Some(Type::Version2) => read_new(b),
            None => Err(FormatError::BadSignature),
        };
        match decoded {
            Ok(s) => {
                let ghost before = s.joints@;
                let joints = link_children(s.joints);
                assert forall|i: int| 0 <= i < joints.len() implies #[trigger] parents_of(joints@)[i]
                    == parents_of(before)[i] by {
                    assert(same_record(joints[i], before[i]));
                }
                assert(parents_of(joints@) =~= parents_of(before));
                let r = Skeleton { stype: s.stype, version: s.version, joints, influences: s.influences };
                assert(forall|i: int|
                    0 <= i < r.joints.len() ==> children_spec(r.joints@, i) == children_spec(before, i));
                Ok(r)
            },
            Err(e) => Err(e),
        }
    }
}

} // verus!
