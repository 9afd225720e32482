use vstd::prelude::*;
use crate::bytes::{
    fits, name_at, name_ok, read_fixed_name, read_u16, read_u32, u16_at, u32_at, FormatError,
};
use crate::hasher::{fnv1a, fnv1a_spec};
use crate::skl::Skeleton;
use crate::values::{
    vec2_f32, vec3_f32, vec4_f32, u8x4_at, vec2_at, vec3_at, vec4_at, vec4_u8, U16Vec4,
    Vec2Bits, Vec3Bits, Vec4Bits,
};

verus! {

/// A named range of the index buffer, drawn with one material.
pub struct SubMeshHeader {
    pub name: String,
    pub indices_offset: u32,
    pub indices_count: u32,
}

/// A submesh range with the hash of its name.
pub struct Mesh {
    pub hash: u32,
    pub submesh: SubMeshHeader,
}

impl Mesh {
    /// Names the range by the case-insensitive FNV-1a hash of its name.
    pub fn new(submesh: SubMeshHeader) -> (r: Mesh)
        ensures
            r.hash == fnv1a_spec(submesh.name@),
            r.submesh == submesh,
    {
        let hash = fnv1a(submesh.name.as_str());
        Mesh { hash, submesh }
    }
}

/// A box given by its two corners.
#[derive(Debug, Clone, Copy, PartialEq, Eq, Structural)]
pub struct Bounds {
    pub min: Vec3Bits,
    pub max: Vec3Bits,
}

/// A skinned mesh. Float values are kept as the bit patterns the file holds; normals
/// are as stored, not yet re-normalised.
pub struct Skin {
    pub major: u16,
    pub minor: u16,
    /// The bounding box stored in the file; absent in versions that leave it to be
    /// computed from the positions.
    pub stored_bounds: Option<Bounds>,
    pub vertices: Vec<Vec3Bits>,
    pub normals: Vec<Vec3Bits>,
    pub uvs: Vec<Vec2Bits>,
    pub bone_indices: Vec<U16Vec4>,
    pub bone_weights: Vec<Vec4Bits>,
    pub indices: Vec<u16>,
    pub meshes: Vec<Mesh>,
}

/// The four-byte signature of a skin.
pub open spec fn skin_signature() -> Seq<u8> {
    seq![0x33u8, 0x22u8, 0x11u8, 0x00u8]
}

pub open spec fn skin_major(b: Seq<u8>) -> u16 {
    u16_at(b, 4)
}

/// Number of submesh records; versions from 1 on have a table of them.
pub open spec fn submesh_count(b: Seq<u8>) -> int {
    if skin_major(b) > 0 {
        u32_at(b, 8) as int
    } else {
        0
    }
}

pub open spec fn submesh_pos(k: int) -> int {
    12 + 80 * k
}

/// Where the index and vertex counts stand.
pub open spec fn counts_pos(b: Seq<u8>) -> int {
    if skin_major(b) == 0 {
        8
    } else if skin_major(b) == 4 {
        submesh_pos(submesh_count(b)) + 4
    } else {
        submesh_pos(submesh_count(b))
    }
}

pub open spec fn index_count(b: Seq<u8>) -> int {
    u32_at(b, counts_pos(b)) as int
}

pub open spec fn vertex_count(b: Seq<u8>) -> int {
    u32_at(b, counts_pos(b) + 4) as int
}

/// Whether each vertex carries four bytes of tangent data (version 4 only).
pub open spec fn has_tangent(b: Seq<u8>) -> bool {
    skin_major(b) == 4 && u32_at(b, counts_pos(b) + 12) > 0
}

pub open spec fn index_pos(b: Seq<u8>) -> int {
    if skin_major(b) == 4 {
        counts_pos(b) + 56
    } else {
        counts_pos(b) + 8
    }
}

pub open spec fn vertex_stride(b: Seq<u8>) -> int {
    if has_tangent(b) {
        56
    } else {
        52
    }
}

pub open spec fn vertex_pos(b: Seq<u8>, v: int) -> int {
    index_pos(b) + 2 * index_count(b) + vertex_stride(b) * v
}

/// Whether every byte that a skin of this header needs is in the buffer.
pub open spec fn skin_fits(b: Seq<u8>) -> bool {
    &&& b.len() >= 8
    &&& skin_major(b) > 0 ==> b.len() >= 12
    &&& counts_pos(b) + 8 <= b.len()
    &&& skin_major(b) == 4 ==> counts_pos(b) + 56 <= b.len()
    &&& vertex_pos(b, vertex_count(b)) <= b.len()
}

pub open spec fn submesh_names_ok(b: Seq<u8>) -> bool {
    forall|k: int| 0 <= k < submesh_count(b) ==> name_ok(b, submesh_pos(k), 64)
}

pub open spec fn skin_valid(b: Seq<u8>) -> bool {
    &&& b.len() >= 4 && b.subrange(0, 4) == skin_signature()
    &&& skin_fits(b)
    &&& submesh_names_ok(b)
}

/// Submesh `k` as the file stores it.
pub open spec fn mesh_matches(m: Mesh, b: Seq<u8>, k: int) -> bool {
    let p = submesh_pos(k);
    &&& m.submesh.name@ == name_at(b, p, 64)
    &&& m.submesh.indices_offset == u32_at(b, p + 72)
    &&& m.submesh.indices_count == u32_at(b, p + 76)
    &&& m.hash == fnv1a_spec(m.submesh.name@)
}

/// `s` holds what the valid skin `b` stores.
pub open spec fn skin_decodes(b: Seq<u8>, s: Skin) -> bool {
    &&& s.major == skin_major(b)
    &&& s.minor == u16_at(b, 6)
    &&& s.stored_bounds == if skin_major(b) == 4 {
        Some(
            Bounds { min: vec3_at(b, counts_pos(b) + 16), max: vec3_at(b, counts_pos(b) + 28) },
        )
    } else {
        None
    }
    &&& s.indices@ == Seq::new(
        index_count(b) as nat,
        |i: int| u16_at(b, index_pos(b) + 2 * i),
    )
    &&& s.vertices.len() == vertex_count(b)
    &&& s.normals.len() == vertex_count(b)
    &&& s.uvs.len() == vertex_count(b)
    &&& s.bone_indices.len() == vertex_count(b)
    &&& s.bone_weights.len() == vertex_count(b)
    &&& forall|v: int|
        0 <= v < vertex_count(b) ==> #[trigger] s.vertices[v] == vec3_at(b, vertex_pos(b, v))
    &&& forall|v: int|
        0 <= v < vertex_count(b) ==> #[trigger] s.bone_indices[v] == u8x4_at(
            b,
            vertex_pos(b, v) + 12,
        )
    &&& forall|v: int|
        0 <= v < vertex_count(b) ==> #[trigger] s.bone_weights[v] == vec4_at(
            b,
            vertex_pos(b, v) + 16,
        )
    &&& forall|v: int|
        0 <= v < vertex_count(b) ==> #[trigger] s.normals[v] == vec3_at(b, vertex_pos(b, v) + 32)
    &&& forall|v: int|
        0 <= v < vertex_count(b) ==> #[trigger] s.uvs[v] == vec2_at(b, vertex_pos(b, v) + 44)
    &&& skin_major(b) > 0 ==> {
        &&& s.meshes.len() == submesh_count(b)
        &&& forall|k: int| 0 <= k < submesh_count(b) ==> mesh_matches(#[trigger] s.meshes[k], b, k)
    }
    &&& skin_major(b) == 0 ==> {
        &&& s.meshes.len() == 1
        &&& s.meshes[0].submesh.name@ == "Base"@
        &&& s.meshes[0].submesh.indices_offset == 0
        &&& s.meshes[0].submesh.indices_count == index_count(b)
        &&& s.meshes[0].hash == fnv1a_spec("Base"@)
    }
}

/// The error that decoding `b` as a skin gives.
pub open spec fn skin_error(b: Seq<u8>, e: FormatError) -> bool {
    if b.len() < 4 {
        e == FormatError::Truncated
    } else if b.subrange(0, 4) != skin_signature() {
        e == FormatError::BadSignature
    } else if !skin_fits(b) {
        e == FormatError::Truncated
    } else {
        !submesh_names_ok(b) && e == FormatError::BadName
    }
}

proof fn lemma_stride_step(s: int, i: int, n: int)
    requires
        0 <= s,
        0 <= i < n,
    ensures
        s * i + s == s * (i + 1),
        s * (i + 1) <= s * n,
        0 <= s * i,
{
    assert(s * i + s == s * (i + 1)) by (nonlinear_arith);
    assert(s * (i + 1) <= s * n) by (nonlinear_arith)
        requires
            0 <= s,
            i + 1 <= n,
    ;
    assert(0 <= s * i) by (nonlinear_arith)
        requires
            0 <= s,
            0 <= i,
    ;
}

fn read_submeshes(b: &[u8], count: u32) -> (r: Result<Vec<Mesh>, FormatError>)
    requires
        submesh_pos(count as int) <= b@.len(),
        submesh_count(b@) == count,
    ensures
        match r {
            Ok(ms) => submesh_names_ok(b@) && ms.len() == count && forall|k: int|
                0 <= k < count ==> mesh_matches(#[trigger] ms[k], b@, k),
            Err(e) => !submesh_names_ok(b@) && e == FormatError::BadName,
        },
{
    let len = b.len();
    let mut meshes: Vec<Mesh> = Vec::new();
    let mut k: u32 = 0;
    while k < count
        invariant
            k <= count,
            submesh_pos(count as int) <= len,
            len == b@.len(),
            submesh_count(b@) == count,
            meshes.len() == k,
            forall|m: int| 0 <= m < k ==> name_ok(b@, submesh_pos(m), 64),
            forall|m: int| 0 <= m < k ==> mesh_matches(#[trigger] meshes[m], b@, m),
        decreases count - k,
    {
        let p: usize = 12 + 80 * (k as usize);
        assert(fits(b@, p as int, 64));
        let name = match read_fixed_name(b, p, 64) {
            Ok(n) => n,
            Err(_) => {
                assert(!name_ok(b@, submesh_pos(k as int), 64));
                return Err(FormatError::BadName);
            },
        };
        let indices_offset = read_u32(b, p + 72)?;
        let indices_count = read_u32(b, p + 76)?;
        meshes.push(Mesh::new(SubMeshHeader { name, indices_offset, indices_count }));
        k = k + 1;
    }
    Ok(meshes)
}

/// The per-vertex arrays: positions, influence indices, weights, normals, texture
/// coordinates.
type VertexArrays = (Vec<Vec3Bits>, Vec<U16Vec4>, Vec<Vec4Bits>, Vec<Vec3Bits>, Vec<Vec2Bits>);

fn read_vertices(b: &[u8], start: usize, stride: usize, count: u32) -> (r: VertexArrays)
    requires
        stride == 52 || stride == 56,
        start + stride * count <= b@.len(),
    ensures
        r.0.len() == count && r.1.len() == count && r.2.len() == count && r.3.len() == count
            && r.4.len() == count,
        forall|v: int| 0 <= v < count ==> #[trigger] r.0[v] == vec3_at(b@, start + stride * v),
        forall|v: int| 0 <= v < count ==> #[trigger] r.1[v] == u8x4_at(b@, start + stride * v + 12),
        forall|v: int| 0 <= v < count ==> #[trigger] r.2[v] == vec4_at(b@, start + stride * v + 16),
        forall|v: int| 0 <= v < count ==> #[trigger] r.3[v] == vec3_at(b@, start + stride * v + 32),
        forall|v: int| 0 <= v < count ==> #[trigger] r.4[v] == vec2_at(b@, start + stride * v + 44),
{
    let mut positions: Vec<Vec3Bits> = Vec::new();
    let mut influences: Vec<U16Vec4> = Vec::new();
    let mut weights: Vec<Vec4Bits> = Vec::new();
    let mut normals: Vec<Vec3Bits> = Vec::new();
    let mut uvs: Vec<Vec2Bits> = Vec::new();
    let mut p: usize = start;
    let mut i: u32 = 0;
    while i < count
        invariant
            i <= count,
            stride == 52 || stride == 56,
            start + stride * count <= b@.len(),
            p == start + stride * i,
            positions.len() == i && influences.len() == i && weights.len() == i && normals.len()
                == i && uvs.len() == i,
            forall|v: int| 0 <= v < i ==> #[trigger] positions[v] == vec3_at(b@, start + stride * v),
            forall|v: int|
                0 <= v < i ==> #[trigger] influences[v] == u8x4_at(b@, start + stride * v + 12),
            forall|v: int|
                0 <= v < i ==> #[trigger] weights[v] == vec4_at(b@, start + stride * v + 16),
            forall|v: int|
                0 <= v < i ==> #[trigger] normals[v] == vec3_at(b@, start + stride * v + 32),
            forall|v: int| 0 <= v < i ==> #[trigger] uvs[v] == vec2_at(b@, start + stride * v + 44),
        decreases count - i,
    {
        proof {
            lemma_stride_step(stride as int, i as int, count as int);
        }
        let len = b.len();
        assert(p + stride <= len);
        let pos = vec3_f32(b, p).unwrap();
        let inf = vec4_u8(b, p + 12).unwrap();
        let wt = vec4_f32(b, p + 16).unwrap();
        let nm = vec3_f32(b, p + 32).unwrap();
        let uv = vec2_f32(b, p + 44).unwrap();
        positions.push(pos);
        influences.push(inf);
        weights.push(wt);
        normals.push(nm);
        uvs.push(uv);
        p = p + stride;
        i = i + 1;
    }
    (positions, influences, weights, normals, uvs)
}

impl Skin {
    /// Decodes a skin in any of its versions.
    pub fn read(contents: &Vec<u8>) -> (r: Result<Skin, FormatError>)
        ensures
            r is Ok <==> skin_valid(contents@),
            match r {
                Ok(s) => skin_decodes(contents@, s),
                Err(e) => skin_error(contents@, e),
            },
    {
        let b = contents.as_slice();
        let len = b.len();
        if len < 4 {
            return Err(FormatError::Truncated);
        }
        if b[0] != 0x33 || b[1] != 0x22 || b[2] != 0x11 || b[3] != 0 {
            assert(b@.subrange(0, 4)[0] == b@[0]);
            assert(b@.subrange(0, 4)[1] == b@[1]);
            assert(b@.subrange(0, 4)[2] == b@[2]);
            assert(b@.subrange(0, 4)[3] == b@[3]);
            return Err(FormatError::BadSignature);
        }
        assert(b@.subrange(0, 4) =~= skin_signature());
        let major = read_u16(b, 4)?;
        let minor = read_u16(b, 6)?;
        let mut count: u32 = 0;
        let mut counts_at: u64 = 8;
        if major > 0 {
            count = read_u32(b, 8)?;
            counts_at = 12 + 80 * (count as u64);
            if major == 4 {
                counts_at = counts_at + 4;
            }
        }
        assert(counts_at == counts_pos(b@));
        if counts_at + 8 > len as u64 {
            return Err(FormatError::Truncated);
        }
        let ic = read_u32(b, counts_at as usize)?;
        let vc = read_u32(b, counts_at as usize + 4)?;
        let mut index_at: u64 = counts_at + 8;
        let mut tangent = false;
        let mut stored_bounds: Option<Bounds> = None;
        if major == 4 {
            if counts_at + 56 > len as u64 {
                return Err(FormatError::Truncated);
            }
            let vertex_type = read_u32(b, counts_at as usize + 12)?;
            tangent = vertex_type > 0;
            let min = vec3_f32(b, counts_at as usize + 16)?;
            let max = vec3_f32(b, counts_at as usize + 28)?;
            stored_bounds = Some(Bounds { min, max });
            index_at = counts_at + 56;
        }
        let stride: usize = if tangent {
            56
        } else {
            52
        };
        let vertex_at: u64 = index_at + 2 * (ic as u64);
        let end: u64 = if tangent {
            vertex_at + 56 * (vc as u64)
        } else {
            vertex_at + 52 * (vc as u64)
        };
        assert(vertex_at == vertex_pos(b@, 0));
        assert(end == vertex_pos(b@, vertex_count(b@)));
        if end > len as u64 {
            return Err(FormatError::Truncated);
        }
        assert(skin_fits(b@));
        let mut meshes: Vec<Mesh> = Vec::new();
        if major > 0 {
            meshes = read_submeshes(b, count)?;
        }
        let mut indices: Vec<u16> = Vec::new();
        let mut i: u32 = 0;
        while i < ic
            invariant
                i <= ic,
                ic as int == index_count(b@),
                index_at as int == index_pos(b@),
                index_at + 2 * ic <= len,
                len == b@.len(),
                indices@ =~= Seq::new(i as nat, |k: int| u16_at(b@, index_pos(b@) + 2 * k)),
            decreases ic - i,
        {
            let v = read_u16(b, index_at as usize + 2 * (i as usize))?;
            indices.push(v);
            i = i + 1;
        }
        let (vertices, bone_indices, bone_weights, normals, uvs) = read_vertices(
            b,
            vertex_at as usize,
            stride,
            vc,
        );
        if major == 0 {
            let name = "Base".to_owned();
            meshes.push(
                Mesh::new(SubMeshHeader { name, indices_offset: 0, indices_count: ic }),
            );
        }
        let s = Skin {
                major,
                minor,
                stored_bounds,
                vertices,
                normals,
                uvs,
                bone_indices,
                bone_weights,
                indices,
                meshes,
            };
        Ok(s)
    }

    /// Rewrites each influence index through the skeleton's influence table.
    pub fn apply_skeleton(&mut self, skeleton: &Skeleton)
        requires
            forall|v: int|
                0 <= v < old(self).bone_indices.len() ==> indices_below(
                    #[trigger] old(self).bone_indices[v],
                    skeleton.influences.len() as int,
                ),
        ensures
            final(self).bone_indices.len() == old(self).bone_indices.len(),
            forall|v: int|
                0 <= v < final(self).bone_indices.len() ==> #[trigger] final(self).bone_indices[v]
                    == remap(old(self).bone_indices[v], skeleton.influences@),
            final(self).major == old(self).major,
            final(self).minor == old(self).minor,
            final(self).stored_bounds == old(self).stored_bounds,
            final(self).vertices == old(self).vertices,
            final(self).normals == old(self).normals,
            final(self).uvs == old(self).uvs,
            final(self).bone_weights == old(self).bone_weights,
            final(self).indices == old(self).indices,
            final(self).meshes == old(self).meshes,
    {
        let table = &skeleton.influences;
        let mut remapped: Vec<U16Vec4> = Vec::new();
        let mut v: usize = 0;
        while v < self.bone_indices.len()
            invariant
                v <= self.bone_indices.len(),
                self.bone_indices == old(self).bone_indices,
                forall|w: int|
                    0 <= w < self.bone_indices.len() ==> indices_below(
                        #[trigger] self.bone_indices[w],
                        table.len() as int,
                    ),
                remapped.len() == v,
                forall|w: int|
                    0 <= w < v ==> #[trigger] remapped[w] == remap(self.bone_indices[w], table@),
            decreases self.bone_indices.len() - v,
        {
            let b = self.bone_indices[v];
            assert(indices_below(self.bone_indices[v as int], table.len() as int));
            remapped.push(
                U16Vec4::new(
                    table[b.x as usize],
                    table[b.y as usize],
                    table[b.z as usize],
                    table[b.w as usize],
                ),
            );
            v = v + 1;
        }
        self.bone_indices = remapped;
    }
}

/// Once the influence indices have been rewritten through a table whose entries all
/// name joints of the skeleton, every index names a joint.
pub proof fn lemma_apply_skeleton_in_range(
    before: Seq<U16Vec4>,
    after: Seq<U16Vec4>,
    skeleton: &Skeleton,
)
    requires
        forall|v: int|
            0 <= v < before.len() ==> indices_below(
                #[trigger] before[v],
                skeleton.influences.len() as int,
            ),
        forall|k: int|
            0 <= k < skeleton.influences.len() ==> #[trigger] skeleton.influences[k]
                < skeleton.joints.len(),
        after.len() == before.len(),
        forall|v: int|
            0 <= v < after.len() ==> #[trigger] after[v] == remap(before[v], skeleton.influences@),
    ensures
        forall|v: int|
            0 <= v < after.len() ==> indices_below(#[trigger] after[v], skeleton.joints.len() as int),
{
    assert forall|v: int| 0 <= v < after.len() implies indices_below(
        #[trigger] after[v],
        skeleton.joints.len() as int,
    ) by {
        let i = before[v];
        assert(indices_below(i, skeleton.influences.len() as int));
        assert(skeleton.influences[i.x as int] < skeleton.joints.len());
        assert(skeleton.influences[i.y as int] < skeleton.joints.len());
        assert(skeleton.influences[i.z as int] < skeleton.joints.len());
        assert(skeleton.influences[i.w as int] < skeleton.joints.len());
    }
}

/// Each of the four indices is below `n`.
pub open spec fn indices_below(i: U16Vec4, n: int) -> bool {
    &&& i.x < n
    &&& i.y < n
    &&& i.z < n
    &&& i.w < n
}

/// The four indices looked up in an influence table.
pub open spec fn remap(i: U16Vec4, table: Seq<u16>) -> U16Vec4 {
    U16Vec4 { x: table[i.x as int], y: table[i.y as int], z: table[i.z as int], w: table[i.w as int] }
}

} // verus!
