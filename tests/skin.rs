use lol_assets::bytes::FormatError;
use lol_assets::hasher::fnv1a;
use lol_assets::skl::Skeleton;
use lol_assets::skn::Skin;
use lol_assets::values::U16Vec4;

fn put_u16(v: &mut Vec<u8>, x: u16) {
    v.extend_from_slice(&x.to_le_bytes());
}

fn put_u32(v: &mut Vec<u8>, x: u32) {
    v.extend_from_slice(&x.to_le_bytes());
}

fn put_f32(v: &mut Vec<u8>, x: f32) {
    v.extend_from_slice(&x.to_le_bytes());
}

fn put_vertex(v: &mut Vec<u8>, k: usize, influences: [u8; 4], tangent: bool) {
    for x in [k as f32, 2.0, 3.0] {
        put_f32(v, x);
    }
    v.extend_from_slice(&influences);
    for x in [0.5f32, 0.25, 0.25, 0.0] {
        put_f32(v, x);
    }
    for x in [0.0f32, 2.0, 0.0] {
        put_f32(v, x);
    }
    for x in [0.5f32, 0.75] {
        put_f32(v, x);
    }
    if tangent {
        put_u32(v, 0xdead_beef);
    }
}

fn skin(major: u16, submeshes: &[(&str, u32, u32)], indices: &[u16], vertices: &[[u8; 4]], tangent: bool) -> Vec<u8> {
    let mut v = vec![0x33u8, 0x22, 0x11, 0x00];
    put_u16(&mut v, major);
    put_u16(&mut v, 1);
    if major > 0 {
        put_u32(&mut v, submeshes.len() as u32);
        for (name, offset, count) in submeshes {
            let mut field = name.as_bytes().to_vec();
            field.resize(64, 0);
            v.extend_from_slice(&field);
            v.extend_from_slice(&[0u8; 8]);
            put_u32(&mut v, *offset);
            put_u32(&mut v, *count);
        }
        if major == 4 {
            put_u32(&mut v, 0);
        }
    }
    put_u32(&mut v, indices.len() as u32);
    put_u32(&mut v, vertices.len() as u32);
    if major == 4 {
        put_u32(&mut v, 0);
        put_u32(&mut v, if tangent { 1 } else { 0 });
        for x in [-1.0f32, -2.0, -3.0, 1.0, 2.0, 3.0] {
            put_f32(&mut v, x);
        }
        v.extend_from_slice(&[0u8; 16]);
    }
    for i in indices {
        put_u16(&mut v, *i);
    }
    for (k, inf) in vertices.iter().enumerate() {
        put_vertex(&mut v, k, *inf, tangent);
    }
    v
}

fn classic_skeleton(joints: usize, influences: &[u32]) -> Skeleton {
    let mut v = b"r3d2sklt".to_vec();
    put_u32(&mut v, 2);
    put_u32(&mut v, 0);
    put_u32(&mut v, joints as u32);
    for k in 0..joints {
        let mut name = format!("j{k}").into_bytes();
        name.resize(32, 0);
        v.extend_from_slice(&name);
        v.extend_from_slice(&(if k == 0 { -1i32 } else { 0 }).to_le_bytes());
        v.extend_from_slice(&[0u8; 52]);
    }
    put_u32(&mut v, influences.len() as u32);
    for i in influences {
        put_u32(&mut v, *i);
    }
    Skeleton::read(&v).unwrap()
}

#[test]
fn skin_version_one_reads_submeshes_and_vertices() {
    let bytes = skin(1, &[("Body", 0, 3), ("Sword", 3, 3)], &[0, 1, 2, 2, 1, 0], &[[0, 1, 2, 3], [3, 2, 1, 0], [1, 1, 1, 1]], false);
    let s = Skin::read(&bytes).unwrap();
    assert_eq!((s.major, s.minor), (1, 1));
    assert_eq!(s.meshes.len(), 2);
    assert_eq!(s.meshes[1].submesh.name, "Sword");
    assert_eq!(s.meshes[1].submesh.indices_offset, 3);
    assert_eq!(s.meshes[1].hash, fnv1a("sword"));
    assert_eq!(s.indices, vec![0, 1, 2, 2, 1, 0]);
    assert_eq!(s.vertices.len(), 3);
    assert_eq!(s.vertices[2].x, 2.0f32.to_bits());
    assert_eq!(s.vertices[2].z, 3.0f32.to_bits());
    assert_eq!(s.bone_indices[1], U16Vec4::new(3, 2, 1, 0));
    assert_eq!(s.bone_weights[0].x, 0.5f32.to_bits());
    assert_eq!(s.normals[0].y, 2.0f32.to_bits());
    assert_eq!(s.uvs[0].y, 0.75f32.to_bits());
    assert!(s.stored_bounds.is_none());
}

#[test]
fn skin_version_zero_has_one_base_submesh() {
    let bytes = skin(0, &[], &[0, 1, 0, 1], &[[0, 0, 0, 0], [0, 0, 0, 0]], false);
    let s = Skin::read(&bytes).unwrap();
    assert_eq!(s.meshes.len(), 1);
    assert_eq!(s.meshes[0].submesh.name, "Base");
    assert_eq!(s.meshes[0].submesh.indices_offset, 0);
    assert_eq!(s.meshes[0].submesh.indices_count, 4);
    assert_eq!(s.meshes[0].hash, fnv1a("Base"));
}

#[test]
fn skin_version_four_reads_bounds_and_skips_tangents() {
    let bytes = skin(4, &[("Body", 0, 3)], &[0, 1, 1], &[[4, 0, 0, 0], [5, 0, 0, 0]], true);
    let s = Skin::read(&bytes).unwrap();
    let b = s.stored_bounds.unwrap();
    assert_eq!(b.min.x, (-1.0f32).to_bits());
    assert_eq!(b.max.z, 3.0f32.to_bits());
    assert_eq!(s.bone_indices[1], U16Vec4::new(5, 0, 0, 0));
    assert_eq!(s.vertices[1].x, 1.0f32.to_bits());
    assert_eq!(s.uvs[1].x, 0.5f32.to_bits());
}

#[test]
fn skin_bad_signature_is_rejected() {
    let mut bytes = skin(1, &[("Body", 0, 0)], &[], &[], false);
    bytes[2] = 0;
    assert_eq!(Skin::read(&bytes).err(), Some(FormatError::BadSignature));
}

#[test]
fn skin_truncated_vertices_are_rejected() {
    let mut bytes = skin(1, &[("Body", 0, 0)], &[], &[[0, 0, 0, 0]], false);
    bytes.pop();
    assert_eq!(Skin::read(&bytes).err(), Some(FormatError::Truncated));
    assert_eq!(Skin::read(&vec![0x33, 0x22]).err(), Some(FormatError::Truncated));
}

#[test]
fn skin_invalid_submesh_name_is_rejected() {
    let mut bytes = skin(1, &[("Body", 0, 0)], &[], &[], false);
    bytes[12] = 0xc3;
    bytes[13] = 0x28;
    assert_eq!(Skin::read(&bytes).err(), Some(FormatError::BadName));
}

#[test]
fn apply_skeleton_remaps_influences() {
    let bytes = skin(1, &[("Body", 0, 0)], &[], &[[0, 1, 2, 3], [3, 3, 0, 1]], false);
    let mut s = Skin::read(&bytes).unwrap();
    let skeleton = classic_skeleton(5, &[4, 2, 0, 1]);
    s.apply_skeleton(&skeleton);
    assert_eq!(s.bone_indices[0], U16Vec4::new(4, 2, 0, 1));
    assert_eq!(s.bone_indices[1], U16Vec4::new(1, 1, 4, 2));
    for b in &s.bone_indices {
        for i in [b.x, b.y, b.z, b.w] {
            assert!((i as usize) < skeleton.joints.len());
        }
    }
}
