use lol_assets::anm::{
    find_bracket_from, find_in_nearest_time, unpack_quaternion, unpack_vec3, Animation, Bracket, PackedQuat,
    QuatValue, Timing, VecValue,
};
use lol_assets::bytes::FormatError;
use lol_assets::hasher::string_to_hash;
use lol_assets::pose::{plan_pose, JointSource, PoseCache};
use lol_assets::skl::Skeleton;

fn put_u16(v: &mut Vec<u8>, x: u16) {
    v.extend_from_slice(&x.to_le_bytes());
}

fn put_u32(v: &mut Vec<u8>, x: u32) {
    v.extend_from_slice(&x.to_le_bytes());
}

fn put_f32(v: &mut Vec<u8>, x: f32) {
    v.extend_from_slice(&x.to_le_bytes());
}

fn pad_to(v: &mut Vec<u8>, n: usize) {
    assert!(v.len() <= n);
    v.resize(n, 0);
}

fn legacy(version: u32, names: &[&str], frames: u32, fps: i32) -> Vec<u8> {
    let mut v = b"r3d2anmd".to_vec();
    put_u32(&mut v, version);
    put_u32(&mut v, 0);
    put_u32(&mut v, names.len() as u32);
    put_u32(&mut v, frames);
    v.extend_from_slice(&fps.to_le_bytes());
    for (k, name) in names.iter().enumerate() {
        let mut field = name.as_bytes().to_vec();
        field.resize(32, 0);
        v.extend_from_slice(&field);
        put_u32(&mut v, 0);
        for f in 0..frames {
            for x in [0.0f32, 0.0, 0.0, 1.0] {
                put_f32(&mut v, x);
            }
            for x in [k as f32, f as f32, 0.0] {
                put_f32(&mut v, x);
            }
        }
    }
    v
}

/// Version 5: `joints` hashes, two frames, vectors [0,0,0], [1,1,1], [2,2,2].
fn v5(hashes: &[u32], records: &[[u16; 3]]) -> Vec<u8> {
    let joints = hashes.len() as u32;
    let frames = records.len() as u32 / joints;
    let mut v = b"r3d2anmd".to_vec();
    put_u32(&mut v, 5);
    pad_to(&mut v, 28);
    put_u32(&mut v, joints);
    put_u32(&mut v, frames);
    put_f32(&mut v, 0.5);
    let vectors_offset = 64 - 12;
    let rotations_offset = vectors_offset + 36;
    let hashes_offset = rotations_offset + 12;
    let frames_offset = hashes_offset + 4 * joints;
    put_u32(&mut v, hashes_offset);
    pad_to(&mut v, 52);
    put_u32(&mut v, vectors_offset);
    put_u32(&mut v, rotations_offset);
    put_u32(&mut v, frames_offset);
    assert_eq!(v.len(), 64);
    for k in 0..3 {
        for _ in 0..3 {
            put_f32(&mut v, k as f32);
        }
    }
    for packed in [0x1234_5678_9abcu64, 0x0000_0000_0001u64] {
        v.extend_from_slice(&packed.to_le_bytes()[..6]);
    }
    for h in hashes {
        put_u32(&mut v, *h);
    }
    for r in records {
        for i in r {
            put_u16(&mut v, *i);
        }
    }
    v
}

/// Version 4: records of (hash, translation, scale, rotation) with vectors [k,k,k]
/// for k < 3 and rotations whose x is the rotation index.
fn v4(joints: u32, frames: u32, records: &[(u32, u16, u16, u16)]) -> Vec<u8> {
    let mut v = b"r3d2anmd".to_vec();
    put_u32(&mut v, 4);
    pad_to(&mut v, 28);
    put_u32(&mut v, joints);
    put_u32(&mut v, frames);
    put_f32(&mut v, 0.25);
    pad_to(&mut v, 52);
    let vectors_offset = 64 - 12;
    let rotations_offset = vectors_offset + 36;
    let frames_offset = rotations_offset + 32;
    put_u32(&mut v, vectors_offset);
    put_u32(&mut v, rotations_offset);
    put_u32(&mut v, frames_offset);
    for k in 0..3 {
        for _ in 0..3 {
            put_f32(&mut v, k as f32);
        }
    }
    for k in 0..2 {
        for x in [k as f32, 0.0, 0.0, 1.0] {
            put_f32(&mut v, x);
        }
    }
    for (h, t, s, r) in records {
        put_u32(&mut v, *h);
        put_u16(&mut v, *t);
        put_u16(&mut v, *s);
        put_u16(&mut v, *r);
        put_u16(&mut v, 0);
    }
    v
}

/// The compressed layout: `hashes` joints, entries of (tick, joint, tag, data).
fn compressed(hashes: &[u32], duration: f32, entries: &[(u16, u8, u8, u64)]) -> Vec<u8> {
    let mut v = b"r3d2canm".to_vec();
    put_u32(&mut v, 1);
    pad_to(&mut v, 24);
    put_u32(&mut v, hashes.len() as u32);
    v.extend_from_slice(&(entries.len() as i32).to_le_bytes());
    put_u32(&mut v, 0);
    put_f32(&mut v, duration);
    put_f32(&mut v, 30.0);
    pad_to(&mut v, 68);
    for x in [-1.0f32, -1.0, -1.0, 1.0, 1.0, 1.0, 0.0, 0.0, 0.0, 2.0, 2.0, 2.0] {
        put_f32(&mut v, x);
    }
    let hashes_at = 128u32;
    let entries_at = hashes_at + 4 * hashes.len() as u32;
    put_u32(&mut v, entries_at - 12);
    put_u32(&mut v, 0);
    put_u32(&mut v, hashes_at - 12);
    assert_eq!(v.len(), 128);
    for h in hashes {
        put_u32(&mut v, *h);
    }
    for (tick, joint, tag, data) in entries {
        put_u16(&mut v, *tick);
        v.push(*joint);
        v.push(*tag);
        v.extend_from_slice(&data.to_le_bytes()[..6]);
    }
    v
}

fn full_compressed_joint(joint: u8, tick: u16) -> Vec<(u16, u8, u8, u64)> {
    vec![(tick, joint, 64, 0xffff), (tick, joint, 0, 7), (tick, joint, 128, 0)]
}

#[test]
fn legacy_reads_frames_with_unit_scale() {
    let bytes = legacy(3, &["Root", "Arm"], 3, 30);
    let a = Animation::read(&bytes).unwrap();
    assert_eq!(a.timing, Timing::LegacyFrames { frames_per_second: 30, frame_count: 3 });
    assert_eq!(a.joints.len(), 2);
    let arm = &a.joints[1];
    assert_eq!(arm.hash, string_to_hash("arm"));
    assert_eq!(arm.translations.len(), 3);
    assert_eq!(arm.translations[2].0, 2);
    match arm.translations[2].1 {
        VecValue::Plain(t) => {
            assert_eq!(t.x, 1.0f32.to_bits());
            assert_eq!(t.y, 2.0f32.to_bits());
        }
        _ => panic!("legacy translation is not plain"),
    }
    match arm.rotations[0].1 {
        QuatValue::Plain(q) => assert_eq!(q.w, 1.0f32.to_bits()),
        _ => panic!("legacy rotation is not plain"),
    }
    match arm.scales[1].1 {
        VecValue::Plain(s) => assert_eq!((s.x, s.y, s.z), (1.0f32.to_bits(), 1.0f32.to_bits(), 1.0f32.to_bits())),
        _ => panic!("legacy scale is not plain"),
    }
    assert!(arm.sorted);
}

#[test]
fn dense_unknown_version_is_rejected() {
    let bytes = legacy(7, &["Root"], 1, 30);
    assert_eq!(Animation::read(&bytes).err(), Some(FormatError::UnknownVersion));
}

#[test]
fn unknown_animation_signature_is_rejected() {
    let mut bytes = legacy(3, &["Root"], 1, 30);
    bytes[7] = b'x';
    assert_eq!(Animation::read(&bytes).err(), Some(FormatError::BadSignature));
    assert_eq!(Animation::read(&b"r3d2".to_vec()).err(), Some(FormatError::Truncated));
}

#[test]
fn legacy_truncated_frames_are_rejected() {
    let mut bytes = legacy(3, &["Root"], 2, 30);
    bytes.pop();
    assert_eq!(Animation::read(&bytes).err(), Some(FormatError::Truncated));
}

#[test]
fn version5_replays_frame_table_per_joint() {
    let bytes = v5(&[0x10, 0x20], &[[0, 1, 0], [1, 2, 1], [2, 0, 1], [0, 0, 0]]);
    let a = Animation::read(&bytes).unwrap();
    assert_eq!(a.timing, Timing::Frames { frame_delay: 0.5f32.to_bits(), frame_count: 2 });
    assert_eq!(a.joints.len(), 2);
    let j1 = &a.joints[1];
    assert_eq!(j1.hash, 0x20);
    assert_eq!(j1.translations[0].0, 0);
    assert_eq!(j1.translations[1].0, 1);
    match (j1.translations[0].1, j1.scales[0].1) {
        (VecValue::Plain(t), VecValue::Plain(s)) => {
            assert_eq!(t.x, 1.0f32.to_bits());
            assert_eq!(s.x, 2.0f32.to_bits());
        }
        _ => panic!("version 5 vectors are not plain"),
    }
    assert_eq!(j1.rotations[0].1, QuatValue::Packed(0x0000_0000_0001));
    assert_eq!(a.joints[0].rotations[0].1, QuatValue::Packed(0x1234_5678_9abc));
}

#[test]
fn version5_bad_pool_index_is_rejected() {
    let bytes = v5(&[0x10], &[[3, 0, 0]]);
    assert_eq!(Animation::read(&bytes).err(), Some(FormatError::BadIndex));
}

#[test]
fn version5_offsets_out_of_order_are_rejected() {
    let mut bytes = v5(&[0x10], &[[0, 0, 0]]);
    bytes[52..56].copy_from_slice(&1000u32.to_le_bytes());
    assert_eq!(Animation::read(&bytes).err(), Some(FormatError::BadOffset));
}

#[test]
fn version4_groups_records_by_ascending_hash() {
    let records = [(0x30, 1, 0, 1), (0x10, 2, 1, 0), (0x30, 0, 0, 0), (0x10, 1, 1, 1)];
    let bytes = v4(2, 2, &records);
    let a = Animation::read(&bytes).unwrap();
    assert_eq!(a.joints.len(), 2);
    assert_eq!(a.joints[0].hash, 0x10);
    assert_eq!(a.joints[1].hash, 0x30);
    let j = &a.joints[0];
    assert_eq!(j.translations.len(), 2);
    assert_eq!((j.translations[0].0, j.translations[1].0), (0, 1));
    match j.translations[0].1 {
        VecValue::Plain(t) => assert_eq!(t.x, 2.0f32.to_bits()),
        _ => panic!("version 4 translation is not plain"),
    }
    match a.joints[1].rotations[0].1 {
        QuatValue::Plain(q) => assert_eq!(q.x, 1.0f32.to_bits()),
        _ => panic!("version 4 rotation is not plain"),
    }
    assert!(a.joints[1].sorted);
}

#[test]
fn version4_bad_rotation_index_is_rejected() {
    let bytes = v4(1, 1, &[(0x30, 0, 0, 2)]);
    assert_eq!(Animation::read(&bytes).err(), Some(FormatError::BadIndex));
}

#[test]
fn compressed_full_tick_is_full_duration() {
    let bytes = compressed(&[0xabc], 2.0, &full_compressed_joint(0, 0xffff));
    let a = Animation::read(&bytes).unwrap();
    let duration = match a.timing {
        Timing::Fraction { duration, .. } => f32::from_bits(duration),
        _ => panic!("compressed animation without a fractional timing"),
    };
    assert_eq!(duration, 2.0);
    let tick = a.joints[0].translations[0].0;
    assert_eq!(tick, 0xffff);
    assert_eq!((tick as f32 / 65535.0) * duration, 2.0);
}

#[test]
fn compressed_partitions_entries_by_joint_and_channel() {
    let mut entries = full_compressed_joint(1, 10);
    entries.extend(full_compressed_joint(0, 20));
    entries.push((30, 1, 64, 0x1_0002_0003));
    let bytes = compressed(&[0xa, 0xb], 1.0, &entries);
    let a = Animation::read(&bytes).unwrap();
    assert_eq!(a.joints.len(), 2);
    assert_eq!(a.joints[1].hash, 0xb);
    assert_eq!(a.joints[1].translations.len(), 2);
    assert_eq!(a.joints[1].translations[1], (30, VecValue::Quantized(0x1_0002_0003)));
    assert_eq!(a.joints[1].rotations[0], (10, QuatValue::Packed(7)));
    assert_eq!(a.joints[0].scales[0].0, 20);
    match a.timing {
        Timing::Fraction { ranges, .. } => assert_eq!(ranges.scale_max.y, 2.0f32.to_bits()),
        _ => panic!("compressed animation without ranges"),
    }
}

#[test]
fn compressed_unknown_tag_is_rejected() {
    let mut entries = full_compressed_joint(0, 1);
    entries.push((2, 0, 99, 0));
    let bytes = compressed(&[0xa], 1.0, &entries);
    assert_eq!(Animation::read(&bytes).err(), Some(FormatError::BadTag));
}

#[test]
fn compressed_missing_channel_is_rejected() {
    let bytes = compressed(&[0xa], 1.0, &[(0, 0, 64, 0), (0, 0, 0, 0)]);
    assert_eq!(Animation::read(&bytes).err(), Some(FormatError::MissingTrack));
}

#[test]
fn compressed_out_of_order_ticks_are_flagged() {
    let mut entries = full_compressed_joint(0, 50);
    entries.extend(full_compressed_joint(0, 10));
    let bytes = compressed(&[0xa], 1.0, &entries);
    let a = Animation::read(&bytes).unwrap();
    assert_eq!(a.joints[0].translations[1].0, 10);
    assert!(!a.joints[0].sorted);
}

fn keys(ticks: &[u32]) -> Vec<(u32, ())> {
    ticks.iter().map(|t| (*t, ())).collect()
}

#[test]
fn nearest_time_brackets() {
    let k = keys(&[0, 10, 20, 30]);
    assert_eq!(find_in_nearest_time(&k, 15), Bracket::Between { lo: 1, hi: 2 });
    assert_eq!(find_in_nearest_time(&k, 10), Bracket::Between { lo: 1, hi: 2 });
    assert_eq!(find_in_nearest_time(&k, -1), Bracket::Between { lo: 0, hi: 0 });
    assert_eq!(find_in_nearest_time(&k, 30), Bracket::Between { lo: 3, hi: 3 });
    assert_eq!(find_in_nearest_time(&k, 99), Bracket::Between { lo: 3, hi: 3 });
    assert_eq!(find_in_nearest_time(&keys(&[5]), 0), Bracket::Single);
    assert_eq!(find_in_nearest_time(&keys(&[]), 0), Bracket::Empty);
}

#[test]
fn cached_search_matches_full_scan() {
    let k = keys(&[0, 2, 2, 5, 9, 9, 14, 20]);
    let mut cache: usize = 0;
    for q in -2i64..25 {
        assert_eq!(find_bracket_from(&k, q, &mut cache), find_in_nearest_time(&k, q));
    }
    for q in [3i64, 1, 19, 0, 12] {
        assert_eq!(find_bracket_from(&k, q, &mut cache), find_in_nearest_time(&k, q));
    }
}

fn chain_skeleton(names: &[&str]) -> Skeleton {
    let mut v = b"r3d2sklt".to_vec();
    put_u32(&mut v, 1);
    put_u32(&mut v, 0);
    put_u32(&mut v, names.len() as u32);
    for (k, name) in names.iter().enumerate() {
        let mut field = name.as_bytes().to_vec();
        field.resize(32, 0);
        v.extend_from_slice(&field);
        v.extend_from_slice(&(k as i32 - 1).to_le_bytes());
        v.extend_from_slice(&[0u8; 52]);
    }
    Skeleton::read(&v).unwrap()
}

#[test]
fn joint_without_track_keeps_bind_pose() {
    let skeleton = chain_skeleton(&["Root", "Arm", "Hand"]);
    let animation = Animation::read(&legacy(3, &["Hand", "Root"], 4, 30)).unwrap();
    let mut cache = PoseCache::new();
    let steps = plan_pose(&skeleton, &animation, 1, &mut cache);
    assert_eq!(steps.len(), 3);
    assert_eq!(steps[0].parent, None);
    assert_eq!(steps[1].parent, Some(0));
    assert_eq!(steps[1].source, JointSource::BindPose);
    assert_eq!(
        steps[0].source,
        JointSource::Animated {
            track: 1,
            translation: Bracket::Between { lo: 1, hi: 2 },
            rotation: Bracket::Between { lo: 1, hi: 2 },
            scale: Bracket::Between { lo: 1, hi: 2 },
        }
    );
    match steps[2].source {
        JointSource::Animated { track, .. } => assert_eq!(track, 0),
        _ => panic!("hand has a track"),
    }
    let again = plan_pose(&skeleton, &animation, 3, &mut cache);
    assert_eq!(
        again[2].source,
        JointSource::Animated {
            track: 0,
            translation: Bracket::Between { lo: 3, hi: 3 },
            rotation: Bracket::Between { lo: 3, hi: 3 },
            scale: Bracket::Between { lo: 3, hi: 3 },
        }
    );
}

#[test]
fn unpack_quaternion_fields() {
    let data: u64 = (2u64 << 45) | (0x7fffu64 << 30) | (0x1234u64 << 15) | 0x0001;
    let p = unpack_quaternion(data);
    assert_eq!(p, PackedQuat { dropped: 2, a: 0x7fff, b: 0x1234, c: 1 });
    assert_eq!(unpack_quaternion(0).dropped, 0);
}

#[test]
fn unpack_vec3_fields() {
    assert_eq!(unpack_vec3(0x0003_0002_0001), (1, 2, 3));
    assert_eq!(unpack_vec3(0xffff_ffff_ffff), (0xffff, 0xffff, 0xffff));
}

#[test]
fn dense_tracks_are_sorted() {
    let a = Animation::read(&v5(&[0x10, 0x20], &[[0, 1, 0], [1, 2, 1], [2, 0, 1], [0, 0, 0]])).unwrap();
    for j in &a.joints {
        assert!(j.sorted);
        for w in j.rotations.windows(2) {
            assert!(w[0].0 <= w[1].0);
        }
    }
}
