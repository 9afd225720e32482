use lol_assets::bytes::FormatError;
use lol_assets::hasher::string_to_hash;
use lol_assets::skl::{BindPose, Skeleton, Type};

fn put_u16(v: &mut Vec<u8>, x: u16) {
    v.extend_from_slice(&x.to_le_bytes());
}

fn put_u32(v: &mut Vec<u8>, x: u32) {
    v.extend_from_slice(&x.to_le_bytes());
}

fn put_f32(v: &mut Vec<u8>, x: f32) {
    v.extend_from_slice(&x.to_le_bytes());
}

fn put_name(v: &mut Vec<u8>, name: &str, width: usize) {
    let mut field = name.as_bytes().to_vec();
    field.resize(width, 0);
    v.extend_from_slice(&field);
}

fn classic(version: u32, joints: &[(&str, i32)], influences: &[u32]) -> Vec<u8> {
    let mut v = b"r3d2sklt".to_vec();
    put_u32(&mut v, version);
    put_u32(&mut v, 0);
    put_u32(&mut v, joints.len() as u32);
    for (k, (name, parent)) in joints.iter().enumerate() {
        put_name(&mut v, name, 32);
        v.extend_from_slice(&parent.to_le_bytes());
        put_u32(&mut v, 0);
        for row in 0..3 {
            for col in 0..4 {
                let x = if row == col {
                    1.0
                } else if col == 3 {
                    k as f32
                } else {
                    0.0
                };
                put_f32(&mut v, x);
            }
        }
    }
    if version == 2 {
        put_u32(&mut v, influences.len() as u32);
        for i in influences {
            put_u32(&mut v, *i);
        }
    }
    v
}

fn versioned(joints: &[(i16, i16, u32, &str)], influences: &[u16]) -> Vec<u8> {
    let joint_offset = 32u32;
    let names_at = joint_offset as usize + 100 * joints.len();
    let mut names: Vec<u8> = Vec::new();
    let mut name_pos: Vec<usize> = Vec::new();
    for (_, _, _, name) in joints {
        name_pos.push(names_at + names.len());
        names.extend_from_slice(name.as_bytes());
        names.push(0);
    }
    let influence_offset = (names_at + names.len()) as u32;
    let mut v = vec![0u8; 4];
    put_u32(&mut v, 0x22FD4FC3);
    put_u32(&mut v, 0);
    put_u16(&mut v, 0);
    put_u16(&mut v, joints.len() as u16);
    put_u32(&mut v, influences.len() as u32);
    put_u32(&mut v, joint_offset);
    put_u32(&mut v, 0);
    put_u32(&mut v, influence_offset);
    assert_eq!(v.len(), 32);
    for (k, (id, parent, hash, _)) in joints.iter().enumerate() {
        let start = v.len();
        put_u16(&mut v, 0);
        v.extend_from_slice(&id.to_le_bytes());
        v.extend_from_slice(&parent.to_le_bytes());
        put_u16(&mut v, 0);
        put_u32(&mut v, *hash);
        put_u32(&mut v, 0);
        for x in [k as f32, 0.0, 0.0, 1.0, 1.0, 1.0, 0.0, 0.0, 0.0, 1.0] {
            put_f32(&mut v, x);
        }
        for x in [-(k as f32), 0.0, 0.0, 1.0, 1.0, 1.0, 0.0, 0.0, 0.0, 1.0] {
            put_f32(&mut v, x);
        }
        let field = start + 96;
        let offset = name_pos[k] as i32 - field as i32;
        v.extend_from_slice(&offset.to_le_bytes());
    }
    v.extend_from_slice(&names);
    for i in influences {
        put_u16(&mut v, *i);
    }
    v
}

#[test]
fn classic_three_joint_chain_links_children() {
    let bytes = classic(1, &[("root", -1), ("mid", 0), ("tip", 1)], &[]);
    let s = Skeleton::read(&bytes).unwrap();
    assert_eq!(s.stype, Type::Classic);
    assert_eq!(s.joints.len(), 3);
    assert_eq!(s.joints[0].children, vec![1]);
    assert_eq!(s.joints[1].children, vec![2]);
    assert!(s.joints[2].children.is_empty());
    assert_eq!(s.joints[1].name, "mid");
    assert_eq!(s.joints[1].hash, string_to_hash("mid"));
    assert_eq!(s.joints[2].parent_id, 1);
    assert_eq!(s.influences, vec![0, 1, 2]);
}

#[test]
fn classic_reads_global_matrix_rows() {
    let bytes = classic(1, &[("root", -1), ("mid", 0)], &[]);
    let s = Skeleton::read(&bytes).unwrap();
    match s.joints[1].bind {
        BindPose::Classic { global } => {
            assert_eq!(global.row0.x, 1.0f32.to_bits());
            assert_eq!(global.row0.w, 1.0f32.to_bits());
            assert_eq!(global.row1.y, 1.0f32.to_bits());
            assert_eq!(global.row2.w, 1.0f32.to_bits());
            assert_eq!(global.row2.x, 0.0f32.to_bits());
        }
        _ => panic!("classic joint without a global matrix"),
    }
}

#[test]
fn classic_version_two_reads_influence_table() {
    let bytes = classic(2, &[("a", -1), ("b", 0)], &[1, 0, 0x1_0001]);
    let s = Skeleton::read(&bytes).unwrap();
    assert_eq!(s.version, 2);
    assert_eq!(s.influences, vec![1, 0, 1]);
}

#[test]
fn classic_children_listed_when_parent_comes_later() {
    let bytes = classic(1, &[("leaf", 2), ("other", 2), ("root", -1)], &[]);
    let s = Skeleton::read(&bytes).unwrap();
    assert_eq!(s.joints[2].children, vec![0, 1]);
    assert!(s.joints[0].children.is_empty());
}

#[test]
fn classic_unknown_version_is_rejected() {
    let bytes = classic(3, &[("a", -1)], &[]);
    assert_eq!(Skeleton::read(&bytes).err(), Some(FormatError::UnknownVersion));
}

#[test]
fn classic_truncated_joint_table_is_rejected() {
    let mut bytes = classic(1, &[("a", -1), ("b", 0)], &[]);
    bytes.truncate(bytes.len() - 1);
    assert_eq!(Skeleton::read(&bytes).err(), Some(FormatError::Truncated));
}

#[test]
fn classic_bad_signature_is_rejected() {
    let mut bytes = classic(1, &[("a", -1)], &[]);
    bytes[0] = b'x';
    assert_eq!(Skeleton::read(&bytes).err(), Some(FormatError::BadSignature));
}

#[test]
fn classic_invalid_name_is_rejected() {
    let mut bytes = classic(1, &[("a", -1)], &[]);
    bytes[20] = 0xff;
    assert_eq!(Skeleton::read(&bytes).err(), Some(FormatError::BadName));
}

#[test]
fn unknown_type_tag_is_rejected() {
    let bytes = vec![0u8; 64];
    assert_eq!(Skeleton::read(&bytes).err(), Some(FormatError::BadSignature));
    assert_eq!(Skeleton::read(&vec![0u8; 5]).err(), Some(FormatError::Truncated));
}

#[test]
fn versioned_reads_joints_names_and_influences() {
    let bytes = versioned(
        &[(0, -1, 0xAAAA_0001, "Root"), (1, 0, 0xAAAA_0002, "Spine"), (2, 1, 0xAAAA_0003, "Head")],
        &[2, 0, 1],
    );
    let s = Skeleton::read(&bytes).unwrap();
    assert_eq!(s.stype, Type::Version2);
    assert_eq!(s.joints.len(), 3);
    assert_eq!(s.joints[1].name, "Spine");
    assert_eq!(s.joints[2].hash, 0xAAAA_0003);
    assert_eq!(s.joints[2].id, 2);
    assert_eq!(s.joints[0].parent_id, -1);
    assert_eq!(s.joints[0].children, vec![1]);
    assert_eq!(s.joints[1].children, vec![2]);
    assert_eq!(s.influences, vec![2, 0, 1]);
    match s.joints[1].bind {
        BindPose::Versioned { local, inverse_global } => {
            assert_eq!(local.translation.x, 1.0f32.to_bits());
            assert_eq!(inverse_global.translation.x, (-1.0f32).to_bits());
            assert_eq!(local.rotation.w, 1.0f32.to_bits());
            assert_eq!(local.scale.y, 1.0f32.to_bits());
        }
        _ => panic!("versioned joint without a local transform"),
    }
}

#[test]
fn versioned_unterminated_name_is_rejected() {
    let mut bytes = versioned(&[(0, -1, 1, "Root")], &[]);
    let end = bytes.len() - 1;
    bytes[end] = b'x';
    assert_eq!(Skeleton::read(&bytes).err(), Some(FormatError::Truncated));
}

#[test]
fn versioned_influence_block_past_end_is_rejected() {
    let mut bytes = versioned(&[(0, -1, 1, "Root")], &[0, 0]);
    bytes.truncate(bytes.len() - 1);
    assert_eq!(Skeleton::read(&bytes).err(), Some(FormatError::Truncated));
}
