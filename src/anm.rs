use vstd::prelude::*;
use crate::bytes::{
    i32_at, name_at, name_ok, read_fixed_name, read_i32, read_u16, read_u32, read_u48,
    u16_at, u32_at, u48_at, FormatError,
};
use crate::hasher::{elf_hash_spec, string_to_hash};
use crate::values::{quat_at, quat_f32, vec3_f32, vec3_at, QuatBits, Vec3Bits};

verus! {

/// A translation or scale key value.
#[derive(Debug, Clone, Copy, PartialEq, Eq, Structural)]
pub enum VecValue {
    /// Three single-precision floats, as bit patterns.
    Plain(Vec3Bits),
    /// Three 16-bit fractions (x in the low bits) of the animation's stored range.
    Quantized(u64),
}

/// A rotation key value.
#[derive(Debug, Clone, Copy, PartialEq, Eq, Structural)]
pub enum QuatValue {
    /// A quaternion (x, y, z, w) of single-precision floats, as bit patterns.
    Plain(QuatBits),
    /// A 48-bit "smallest three" packed quaternion.
    Packed(u64),
}

/// The keyframe tracks of one joint, keyed by the joint's hash. A key is a tick and a
/// value; the animation's `timing` says what a tick is in seconds.
pub struct JointAnm {
    pub hash: u32,
    pub translations: Vec<(u32, VecValue)>,
    pub rotations: Vec<(u32, QuatValue)>,
    pub scales: Vec<(u32, VecValue)>,
    /// Whether the ticks of each of the three tracks are non-decreasing.
    pub sorted: bool,
}

/// The minimum and maximum that quantized translations and scales are fractions of.
#[derive(Debug, Clone, Copy, PartialEq, Eq, Structural)]
pub struct QuantRanges {
    pub translation_min: Vec3Bits,
    pub translation_max: Vec3Bits,
    pub scale_min: Vec3Bits,
    pub scale_max: Vec3Bits,
}

/// How ticks map to seconds, and the playback figures the file gives.
#[derive(Debug, Clone, Copy, PartialEq, Eq, Structural)]
pub enum Timing {
    /// Tick `k` is frame `k`, at `1 / fps` seconds each (the legacy layout).
    LegacyFrames { frames_per_second: i32, frame_count: u32 },
    /// Tick `k` is frame `k`, `frame_delay` seconds apart (versions 4 and 5).
    Frames { frame_delay: u32, frame_count: u32 },
    /// Tick `k` is `k / 65535` of `duration` (the compressed layout).
    Fraction { duration: u32, fps: u32, ranges: QuantRanges },
}

/// A decoded animation.
pub struct Animation {
    pub timing: Timing,
    pub joints: Vec<JointAnm>,
}

// ---- nearest-time search ----

/// Where a play-head falls in a track.
#[derive(Debug, Clone, Copy, PartialEq, Eq, Structural)]
pub enum Bracket {
    /// The track has no key.
    Empty,
    /// The track has one key, which holds for all time.
    Single,
    /// Interpolate from key `lo` to key `hi`.
    Between { lo: usize, hi: usize },
}

/// The ticks of a track.
pub open spec fn ticks<T>(keys: Seq<(u32, T)>) -> Seq<u32> {
    keys.map_values(|k: (u32, T)| k.0)
}

/// The ticks never decrease.
pub open spec fn ticks_sorted(t: Seq<u32>) -> bool {
    forall|i: int, j: int| 0 <= i <= j < t.len() ==> t[i] <= t[j]
}

/// The from_start index at or after `from` whose tick lies after `q`, or the length.
pub open spec fn first_after(t: Seq<u32>, q: i64, from: int) -> int
    decreases t.len() - from,
{
    if from >= t.len() || from < 0 {
        t.len() as int
    } else if t[from] as int > q as int {
        from
    } else {
        first_after(t, q, from + 1)
    }
}

/// The keys that a linear scan picks around play-head tick `q`: the last key at or
/// before `q` and the from_start key after it; at either end, the end key twice.
pub open spec fn bracket_spec(t: Seq<u32>, q: i64) -> Bracket {
    if t.len() == 0 {
        Bracket::Empty
    } else if t.len() == 1 {
        Bracket::Single
    } else {
        let f = first_after(t, q, 0);
        if f == 0 {
            Bracket::Between { lo: 0, hi: 0 }
        } else if f == t.len() {
            Bracket::Between { lo: (t.len() - 1) as usize, hi: (t.len() - 1) as usize }
        } else {
            Bracket::Between { lo: (f - 1) as usize, hi: f as usize }
        }
    }
}

proof fn lemma_first_after_bounds(t: Seq<u32>, q: i64, from: int)
    requires
        0 <= from <= t.len(),
    ensures
        from <= first_after(t, q, from) <= t.len(),
        first_after(t, q, from) < t.len() ==> t[first_after(t, q, from)] as int > q as int,
        forall|k: int| from <= k < first_after(t, q, from) ==> t[k] as int <= q as int,
    decreases t.len() - from,
{
    if from < t.len() && t[from] as int <= q as int {
        lemma_first_after_bounds(t, q, from + 1);
    }
}

/// Whatever index the scan starts from, if every tick before it is at or before `q`,
/// it finds the same key as a scan from the start.
proof fn lemma_first_after_skip(t: Seq<u32>, q: i64, from: int)
    requires
        0 <= from <= t.len(),
        forall|k: int| 0 <= k < from ==> t[k] as int <= q as int,
    ensures
        first_after(t, q, 0) == first_after(t, q, from),
    decreases from,
{
    if from > 0 {
        lemma_first_after_skip_one(t, q, from - 1);
        lemma_first_after_skip(t, q, from - 1);
    }
}

proof fn lemma_first_after_skip_one(t: Seq<u32>, q: i64, k: int)
    requires
        0 <= k < t.len(),
        t[k] as int <= q as int,
    ensures
        first_after(t, q, k) == first_after(t, q, k + 1),
{
}

fn scan_from<T>(keys: &Vec<(u32, T)>, q: i64, from: usize) -> (r: usize)
    requires
        from <= keys.len(),
    ensures
        r == first_after(ticks(keys@), q, from as int),
{
    proof {
        lemma_first_after_bounds(ticks(keys@), q, from as int);
    }
    let mut i = from;
    while i < keys.len() && keys[i].0 as i64 <= q
        invariant
            from <= i <= keys.len(),
            first_after(ticks(keys@), q, i as int) == first_after(ticks(keys@), q, from as int),
        decreases keys.len() - i,
    {
        proof {
            assert(ticks(keys@)[i as int] == keys@[i as int].0);
            lemma_first_after_skip_one(ticks(keys@), q, i as int);
        }
        i = i + 1;
    }
    if i < keys.len() {
        assert(ticks(keys@)[i as int] == keys@[i as int].0);
    }
    i
}

fn bracket_of(len: usize, f: usize) -> (r: Bracket)
    requires
        len >= 2,
        f <= len,
    ensures
        r == (if f == 0 {
            Bracket::Between { lo: 0, hi: 0 }
        } else if f == len {
            Bracket::Between { lo: (len - 1) as usize, hi: (len - 1) as usize }
        } else {
            Bracket::Between { lo: (f - 1) as usize, hi: f }
        }),
{
    if f == 0 {
        Bracket::Between { lo: 0, hi: 0 }
    } else if f == len {
        Bracket::Between { lo: len - 1, hi: len - 1 }
    } else {
        Bracket::Between { lo: f - 1, hi: f }
    }
}

/// Finds, by a scan from the from_start key, the keys around play-head tick `q`.
pub fn find_in_nearest_time<T>(keys: &Vec<(u32, T)>, q: i64) -> (r: Bracket)
    ensures
        r == bracket_spec(ticks(keys@), q),
{
    if keys.len() == 0 {
        return Bracket::Empty;
    }
    if keys.len() == 1 {
        return Bracket::Single;
    }
    let f = scan_from(keys, q, 0);
    proof {
        lemma_first_after_bounds(ticks(keys@), q, 0);
    }
    bracket_of(keys.len(), f)
}

/// Finds the keys around play-head tick `q`, scanning from where the previous search
/// of this track stopped (`*cache`) unless the play-head went back before it. On a
/// track whose ticks never decrease the result is that of a scan from the from_start key.
pub fn find_bracket_from<T>(keys: &Vec<(u32, T)>, q: i64, cache: &mut usize) -> (r: Bracket)
    requires
        ticks_sorted(ticks(keys@)),
    ensures
        r == bracket_spec(ticks(keys@), q),
        keys.len() >= 2 ==> *final(cache) == first_after(ticks(keys@), q, 0),
{
    if keys.len() == 0 {
        return Bracket::Empty;
    }
    if keys.len() == 1 {
        return Bracket::Single;
    }
    let mut start = *cache;
    if start > keys.len() || (start > 0 && keys[start - 1].0 as i64 > q) {
        start = 0;
    }
    proof {
        let t = ticks(keys@);
        if start > 0 {
            assert(t[start - 1] == keys@[start - 1].0);
            assert forall|k: int| 0 <= k < start implies t[k] as int <= q as int by {
                assert(t[k] <= t[start - 1]);
            }
        }
        lemma_first_after_skip(t, q, start as int);
        lemma_first_after_bounds(t, q, 0);
    }
    let f = scan_from(keys, q, start);
    *cache = f;
    bracket_of(keys.len(), f)
}

/// The keys that the search picks enclose the play-head: the lower one is at or before
/// it unless the play-head comes before the whole track, the upper one after it unless
/// the play-head comes after the whole track.
pub proof fn lemma_bracket_encloses(t: Seq<u32>, q: i64)
    requires
        2 <= t.len() <= usize::MAX,
    ensures
        match bracket_spec(t, q) {
            Bracket::Between { lo, hi } => {
                &&& lo <= hi < t.len()
                &&& t[0] as int <= q as int ==> t[lo as int] as int <= q as int
                &&& (q as int) < t[t.len() - 1] as int ==> (q as int) < t[hi as int] as int
                &&& lo < hi ==> t[lo as int] as int <= q as int && (q as int) < t[hi as int] as int
            },
            _ => false,
        },
{
    lemma_first_after_bounds(t, q, 0);
    let f = first_after(t, q, 0);
    if f == t.len() {
        assert(t[t.len() - 1] as int <= q as int);
    } else if f > 0 {
        assert(t[f - 1] as int <= q as int);
    }
}

/// Whether the ticks of a track never decrease.
pub fn keys_sorted<T>(keys: &Vec<(u32, T)>) -> (r: bool)
    ensures
        r == ticks_sorted(ticks(keys@)),
{
    if keys.len() < 2 {
        return true;
    }
    let ghost t = ticks(keys@);
    let mut i: usize = 1;
    while i < keys.len()
        invariant
            1 <= i <= keys.len(),
            t == ticks(keys@),
            forall|a: int, c: int| 0 <= a <= c < i ==> #[trigger] t[a] <= #[trigger] t[c],
        decreases keys.len() - i,
    {
        assert(t[i - 1] == keys@[i - 1].0 && t[i as int] == keys@[i as int].0);
        if keys[i - 1].0 > keys[i].0 {
            return false;
        }
        assert forall|a: int, c: int| 0 <= a <= c < i + 1 implies #[trigger] t[a] <= #[trigger] t[c] by {
            if c == i && a < i {
                assert(t[a] <= t[i - 1]);
            }
        }
        i = i + 1;
    }
    true
}

/// The ticks of each of the three channels of `j` never decrease.
pub open spec fn tracks_sorted(j: JointAnm) -> bool {
    &&& ticks_sorted(ticks(j.translations@))
    &&& ticks_sorted(ticks(j.rotations@))
    &&& ticks_sorted(ticks(j.scales@))
}

fn make_joint(
    hash: u32,
    translations: Vec<(u32, VecValue)>,
    rotations: Vec<(u32, QuatValue)>,
    scales: Vec<(u32, VecValue)>,
) -> (r: JointAnm)
    ensures
        r.hash == hash,
        r.translations == translations,
        r.rotations == rotations,
        r.scales == scales,
        r.sorted == tracks_sorted(r),
{
    let sorted = keys_sorted(&translations) && keys_sorted(&rotations) && keys_sorted(&scales);
    JointAnm { hash, translations, rotations, scales, sorted }
}

// ---- signatures ----

/// "r3d2canm": the compressed layout.
pub open spec fn compressed_signature() -> Seq<u8> {
    seq![0x72u8, 0x33u8, 0x64u8, 0x32u8, 0x63u8, 0x61u8, 0x6eu8, 0x6du8]
}

/// "r3d2anmd": the dense layouts, told apart by a version number.
pub open spec fn dense_signature() -> Seq<u8> {
    seq![0x72u8, 0x33u8, 0x64u8, 0x32u8, 0x61u8, 0x6eu8, 0x6du8, 0x64u8]
}

/// Whether the from_start eight bytes of `b` are `sig`.
fn has_signature(b: &[u8], sig: &[u8; 8]) -> (r: bool)
    requires
        b@.len() >= 8,
    ensures
        r == (b@.subrange(0, 8) == sig@),
{
    let mut k: usize = 0;
    while k < 8
        invariant
            b@.len() >= 8,
            sig@.len() == 8,
            k <= 8,
            forall|m: int| 0 <= m < k ==> b@[m] == sig@[m],
        decreases 8 - k,
    {
        if b[k] != sig[k] {
            assert(b@.subrange(0, 8)[k as int] != sig@[k as int]);
            return false;
        }
        k = k + 1;
    }
    assert(b@.subrange(0, 8) =~= sig@);
    true
}

// ---- quantized values ----

/// The fields of a "smallest three" packed rotation: which component was dropped
/// (bits 45..47) and the three kept ones as 15-bit fractions (bits 30..45, 15..30, 0..15).
#[derive(Debug, Clone, Copy, PartialEq, Eq, Structural)]
pub struct PackedQuat {
    pub dropped: u16,
    pub a: u16,
    pub b: u16,
    pub c: u16,
}

/// Splits a packed rotation into its fields.
pub fn unpack_quaternion(data: u64) -> (r: PackedQuat)
    ensures
        r.dropped as int == (data as int / 0x2000_0000_0000) % 4,
        r.a as int == (data as int / 0x4000_0000) % 0x8000,
        r.b as int == (data as int / 0x8000) % 0x8000,
        r.c as int == data as int % 0x8000,
{
    let dropped = ((data >> 45u64) & 0x3) as u16;
    let a = ((data >> 30u64) & 0x7fff) as u16;
    let b = ((data >> 15u64) & 0x7fff) as u16;
    let c = (data & 0x7fff) as u16;
    assert((data >> 45u64) & 0x3 == (data / 0x2000_0000_0000) % 4) by (bit_vector);
    assert((data >> 30u64) & 0x7fff == (data / 0x4000_0000) % 0x8000) by (bit_vector);
    assert((data >> 15u64) & 0x7fff == (data / 0x8000) % 0x8000) by (bit_vector);
    assert(data & 0x7fff == data % 0x8000) by (bit_vector);
    PackedQuat { dropped, a, b, c }
}

/// Splits a quantized vector into its three 16-bit fractions (x in the low bits).
pub fn unpack_vec3(data: u64) -> (r: (u16, u16, u16))
    ensures
        r.0 as int == data as int % 0x1_0000,
        r.1 as int == (data as int / 0x1_0000) % 0x1_0000,
        r.2 as int == (data as int / 0x1_0000_0000) % 0x1_0000,
{
    let x = (data & 0xffff) as u16;
    let y = ((data >> 16u64) & 0xffff) as u16;
    let z = ((data >> 32u64) & 0xffff) as u16;
    assert(data & 0xffff == data % 0x1_0000) by (bit_vector);
    assert((data >> 16u64) & 0xffff == (data / 0x1_0000) % 0x1_0000) by (bit_vector);
    assert((data >> 32u64) & 0xffff == (data / 0x1_0000_0000) % 0x1_0000) by (bit_vector);
    (x, y, z)
}

// ---- compressed layout ----

/// Rotation entries carry this tag.
pub const TAG_ROTATION: u8 = 0;

/// Translation entries carry this tag.
pub const TAG_TRANSLATION: u8 = 64;

/// Scale entries carry this tag.
pub const TAG_SCALE: u8 = 128;

/// The channel that an entry's tag names.
#[derive(Debug, Clone, Copy, PartialEq, Eq, Structural)]
pub enum FrameDataType {
    Rotation,
    Translation,
    Scale,
}

/// The channel that an entry tag names, if any.
pub open spec fn frame_data_type(value: u8) -> Option<FrameDataType> {
    if value == TAG_ROTATION {
        Some(FrameDataType::Rotation)
    } else if value == TAG_TRANSLATION {
        Some(FrameDataType::Translation)
    } else if value == TAG_SCALE {
        Some(FrameDataType::Scale)
    } else {
        None
    }
}

impl FrameDataType {
    pub fn from_u8(value: u8) -> (r: Option<FrameDataType>)
        ensures
            r == frame_data_type(value),
    {
        if value == TAG_ROTATION {
            Some(FrameDataType::Rotation)
        } else if value == TAG_TRANSLATION {
            Some(FrameDataType::Translation)
        } else if value == TAG_SCALE {
            Some(FrameDataType::Scale)
        } else {
            None
        }
    }
}

pub open spec fn c_joint_count(b: Seq<u8>) -> int {
    u32_at(b, 24) as int
}

/// The entry count; a negative count stands for no entries.
pub open spec fn c_entry_count(b: Seq<u8>) -> int {
    if i32_at(b, 28) < 0 {
        0
    } else {
        i32_at(b, 28) as int
    }
}

pub open spec fn c_hashes_pos(b: Seq<u8>) -> int {
    u32_at(b, 124) as int + 12
}

pub open spec fn c_entries_pos(b: Seq<u8>) -> int {
    u32_at(b, 116) as int + 12
}

/// Start of entry `e` (ten bytes): a 16-bit tick, a joint index byte, a tag byte, 48
/// bits of data.
pub open spec fn c_entry_pos(b: Seq<u8>, e: int) -> int {
    c_entries_pos(b) + 10 * e
}

/// Whether the header, the hash list and the entry stream are in the buffer.
pub open spec fn c_fits(b: Seq<u8>) -> bool {
    &&& b.len() >= 128
    &&& c_hashes_pos(b) + 4 * c_joint_count(b) <= b.len()
    &&& c_entry_pos(b, c_entry_count(b)) <= b.len()
}

/// Every entry carries one of the three channel tags.
pub open spec fn c_tags_ok(b: Seq<u8>) -> bool {
    forall|e: int|
        0 <= e < c_entry_count(b) ==> (#[trigger] frame_data_type(b[c_entry_pos(b, e) + 3])) is Some
}

/// The translation or scale keys, in stream order, among the from_start `n` entries of the
/// joint with index byte `k`.
pub open spec fn c_vec_keys(b: Seq<u8>, k: u8, tag: u8, n: int) -> Seq<(u32, VecValue)>
    decreases n,
{
    if n <= 0 {
        Seq::empty()
    } else {
        let p = c_entry_pos(b, n - 1);
        if b[p + 2] == k && b[p + 3] == tag {
            c_vec_keys(b, k, tag, n - 1).push(
                (u16_at(b, p) as u32, VecValue::Quantized(u48_at(b, p + 4))),
            )
        } else {
            c_vec_keys(b, k, tag, n - 1)
        }
    }
}

/// The rotation keys, in stream order, among the from_start `n` entries of the joint with
/// index byte `k`.
pub open spec fn c_rot_keys(b: Seq<u8>, k: u8, n: int) -> Seq<(u32, QuatValue)>
    decreases n,
{
    if n <= 0 {
        Seq::empty()
    } else {
        let p = c_entry_pos(b, n - 1);
        if b[p + 2] == k && b[p + 3] == TAG_ROTATION {
            c_rot_keys(b, k, n - 1).push(
                (u16_at(b, p) as u32, QuatValue::Packed(u48_at(b, p + 4))),
            )
        } else {
            c_rot_keys(b, k, n - 1)
        }
    }
}

/// Every joint has at least one key in each channel.
pub open spec fn c_tracks_present(b: Seq<u8>) -> bool {
    forall|j: int|
        0 <= j < c_joint_count(b) ==> {
            &&& (#[trigger] c_vec_keys(b, j as u8, TAG_TRANSLATION, c_entry_count(b))).len() > 0
            &&& c_vec_keys(b, j as u8, TAG_SCALE, c_entry_count(b)).len() > 0
            &&& c_rot_keys(b, j as u8, c_entry_count(b)).len() > 0
        }
}

/// The ranges that quantized translations and scales are fractions of.
pub open spec fn c_ranges(b: Seq<u8>) -> QuantRanges {
    QuantRanges {
        translation_min: vec3_at(b, 68),
        translation_max: vec3_at(b, 80),
        scale_min: vec3_at(b, 92),
        scale_max: vec3_at(b, 104),
    }
}

/// Joint `j` of a compressed animation.
pub open spec fn c_joint_matches(a: JointAnm, b: Seq<u8>, j: int) -> bool {
    &&& a.hash == u32_at(b, c_hashes_pos(b) + 4 * j)
    &&& a.translations@ == c_vec_keys(b, j as u8, TAG_TRANSLATION, c_entry_count(b))
    &&& a.scales@ == c_vec_keys(b, j as u8, TAG_SCALE, c_entry_count(b))
    &&& a.rotations@ == c_rot_keys(b, j as u8, c_entry_count(b))
    &&& a.sorted == tracks_sorted(a)
}

/// The error that decoding a compressed animation gives.
pub open spec fn c_error(b: Seq<u8>, e: FormatError) -> bool {
    if !c_fits(b) {
        e == FormatError::Truncated
    } else if !c_tags_ok(b) {
        e == FormatError::BadTag
    } else {
        !c_tracks_present(b) && e == FormatError::MissingTrack
    }
}

fn collect_vec_keys(b: &[u8], base: usize, count: u32, k: u8, tag: u8) -> (r: Vec<(u32, VecValue)>)
    requires
        c_fits(b@),
        base as int == c_entries_pos(b@),
        count as int == c_entry_count(b@),
    ensures
        r@ == c_vec_keys(b@, k, tag, count as int),
{
    let mut r: Vec<(u32, VecValue)> = Vec::new();
    let mut e: u32 = 0;
    while e < count
        invariant
            e <= count,
            c_fits(b@),
            base as int == c_entries_pos(b@),
            count as int == c_entry_count(b@),
            r@ == c_vec_keys(b@, k, tag, e as int),
        decreases count - e,
    {
        let len = b.len();
        assert(c_entry_pos(b@, e as int) + 10 <= len);
        let p: usize = base + 10 * (e as usize);
        if b[p + 2] == k && b[p + 3] == tag {
            let tick = read_u16(b, p).unwrap();
            let data = read_u48(b, p + 4).unwrap();
            r.push((tick as u32, VecValue::Quantized(data)));
        }
        e = e + 1;
    }
    r
}

fn collect_rot_keys(b: &[u8], base: usize, count: u32, k: u8) -> (r: Vec<(u32, QuatValue)>)
    requires
        c_fits(b@),
        base as int == c_entries_pos(b@),
        count as int == c_entry_count(b@),
    ensures
        r@ == c_rot_keys(b@, k, count as int),
{
    let mut r: Vec<(u32, QuatValue)> = Vec::new();
    let mut e: u32 = 0;
    while e < count
        invariant
            e <= count,
            c_fits(b@),
            base as int == c_entries_pos(b@),
            count as int == c_entry_count(b@),
            r@ == c_rot_keys(b@, k, e as int),
        decreases count - e,
    {
        let len = b.len();
        assert(c_entry_pos(b@, e as int) + 10 <= len);
        let p: usize = base + 10 * (e as usize);
        if b[p + 2] == k && b[p + 3] == TAG_ROTATION {
            let tick = read_u16(b, p).unwrap();
            let data = read_u48(b, p + 4).unwrap();
            r.push((tick as u32, QuatValue::Packed(data)));
        }
        e = e + 1;
    }
    r
}

/// Whether a compressed animation decodes.
pub open spec fn c_valid(b: Seq<u8>) -> bool {
    c_fits(b) && c_tags_ok(b) && c_tracks_present(b)
}

/// `a` holds what the valid compressed animation `b` stores.
pub open spec fn c_decodes(b: Seq<u8>, a: Animation) -> bool {
    &&& a.timing == (Timing::Fraction {
        duration: u32_at(b, 36),
        fps: u32_at(b, 40),
        ranges: c_ranges(b),
    })
    &&& a.joints.len() == c_joint_count(b)
    &&& forall|j: int| 0 <= j < a.joints.len() ==> c_joint_matches(#[trigger] a.joints[j], b, j)
}

/// Decodes the compressed layout (the signature has been checked).
fn read_compressed(b: &[u8]) -> (r: Result<Animation, FormatError>)
    ensures
        match r {
            Ok(a) => c_valid(b@) && c_decodes(b@, a),
            Err(e) => c_error(b@, e),
        },
{
    let len = b.len();
    if len < 128 {
        return Err(FormatError::Truncated);
    }
    let joint_count = read_u32(b, 24)?;
    let entry_count = read_i32(b, 28)?;
    let duration = read_u32(b, 36)?;
    let fps = read_u32(b, 40)?;
    let translation_min = vec3_f32(b, 68)?;
    let translation_max = vec3_f32(b, 80)?;
    let scale_min = vec3_f32(b, 92)?;
    let scale_max = vec3_f32(b, 104)?;
    let entries_offset = read_u32(b, 116)?;
    let hashes_offset = read_u32(b, 124)?;
    let count: u32 = if entry_count < 0 {
        0
    } else {
        entry_count as u32
    };
    let hashes_at: u64 = hashes_offset as u64 + 12;
    let entries_at: u64 = entries_offset as u64 + 12;
    if hashes_at + 4 * (joint_count as u64) > len as u64 || entries_at + 10 * (count as u64)
        > len as u64 {
        return Err(FormatError::Truncated);
    }
    assert(c_fits(b@));
    let base = entries_at as usize;
    let mut e: u32 = 0;
    while e < count
        invariant
            e <= count,
            c_fits(b@),
            base as int == c_entries_pos(b@),
            count as int == c_entry_count(b@),
            len == b@.len(),
            forall|m: int|
                0 <= m < e ==> (#[trigger] frame_data_type(b@[c_entry_pos(b@, m) + 3])) is Some,
        decreases count - e,
    {
        assert(c_entry_pos(b@, e as int) + 10 <= len);
        let tag = b[base + 10 * (e as usize) + 3];
        if FrameDataType::from_u8(tag).is_none() {
            return Err(FormatError::BadTag);
        }
        e = e + 1;
    }
    let mut joints: Vec<JointAnm> = Vec::new();
    let mut j: u32 = 0;
    while j < joint_count
        invariant
            j <= joint_count,
            joint_count as int == c_joint_count(b@),
            c_fits(b@),
            c_tags_ok(b@),
            base as int == c_entries_pos(b@),
            hashes_at as int == c_hashes_pos(b@),
            count as int == c_entry_count(b@),
            len == b@.len(),
            joints.len() == j,
            forall|m: int|
                0 <= m < j ==> {
                    &&& (#[trigger] c_vec_keys(b@, m as u8, TAG_TRANSLATION, c_entry_count(b@))).len() > 0
                    &&& c_vec_keys(b@, m as u8, TAG_SCALE, c_entry_count(b@)).len() > 0
                    &&& c_rot_keys(b@, m as u8, c_entry_count(b@)).len() > 0
                },
            forall|m: int| 0 <= m < j ==> c_joint_matches(#[trigger] joints[m], b@, m),
        decreases joint_count - j,
    {
        let k: u8 = #[verifier::truncate] (j as u8);
        let translations = collect_vec_keys(b, base, count, k, TAG_TRANSLATION);
        let scales = collect_vec_keys(b, base, count, k, TAG_SCALE);
        let rotations = collect_rot_keys(b, base, count, k);
        if translations.len() == 0 || scales.len() == 0 || rotations.len() == 0 {
            assert(!c_tracks_present(b@)) by {
                let ghost jj = j as int;
                assert(c_vec_keys(b@, jj as u8, TAG_TRANSLATION, c_entry_count(b@)) == translations@);
            }
            return Err(FormatError::MissingTrack);
        }
        let hash = read_u32(b, hashes_at as usize + 4 * (j as usize))?;
        let ghost jj = j as int;
        assert(k == jj as u8);
        assert(c_vec_keys(b@, jj as u8, TAG_TRANSLATION, c_entry_count(b@)).len() > 0);
        assert(c_vec_keys(b@, jj as u8, TAG_SCALE, c_entry_count(b@)).len() > 0);
        assert(c_rot_keys(b@, jj as u8, c_entry_count(b@)).len() > 0);
        joints.push(make_joint(hash, translations, rotations, scales));
        j = j + 1;
    }
    let ranges = QuantRanges { translation_min, translation_max, scale_min, scale_max };
    Ok(Animation { timing: Timing::Fraction { duration, fps, ranges }, joints })
}

// ---- dense layouts: shared ----

proof fn lemma_grid_index(f: int, j: int, frames: int, joints: int)
    requires
        0 <= f < frames,
        0 <= j < joints,
    ensures
        0 <= f * joints + j,
        f * joints + j + 1 <= frames * joints,
{
    assert(0 <= f * joints) by (nonlinear_arith)
        requires
            0 <= f,
            0 <= j < joints,
    ;
    assert(f * joints + joints <= frames * joints) by (nonlinear_arith)
        requires
            0 <= f < frames,
            0 <= j < joints,
    ;
}

proof fn lemma_product_bound(a: u32, c: u32)
    ensures
        (a as int) * (c as int) <= 0xffff_ffff * 0xffff_ffff,
        0 <= (a as int) * (c as int),
{
    assert((a as int) * (c as int) <= 0xffff_ffff * 0xffff_ffff) by (nonlinear_arith)
        requires
            a <= 0xffff_ffff,
            c <= 0xffff_ffff,
    ;
    assert(0 <= (a as int) * (c as int)) by (nonlinear_arith)
        requires
            0 <= a,
            0 <= c,
    ;
}

// ---- version 5 ----

pub open spec fn v5_joint_count(b: Seq<u8>) -> int {
    u32_at(b, 28) as int
}

pub open spec fn v5_frame_count(b: Seq<u8>) -> int {
    u32_at(b, 32) as int
}

pub open spec fn v5_hashes_offset(b: Seq<u8>) -> int {
    u32_at(b, 40) as int
}

pub open spec fn v5_vectors_offset(b: Seq<u8>) -> int {
    u32_at(b, 52) as int
}

pub open spec fn v5_rotations_offset(b: Seq<u8>) -> int {
    u32_at(b, 56) as int
}

pub open spec fn v5_frames_offset(b: Seq<u8>) -> int {
    u32_at(b, 60) as int
}

/// The pools follow one another: vectors, packed rotations, hashes, then frames.
pub open spec fn v5_offsets_ordered(b: Seq<u8>) -> bool {
    &&& v5_vectors_offset(b) <= v5_rotations_offset(b)
    &&& v5_rotations_offset(b) <= v5_hashes_offset(b)
    &&& v5_hashes_offset(b) <= v5_frames_offset(b)
}

pub open spec fn v5_hash_count(b: Seq<u8>) -> int {
    (v5_frames_offset(b) - v5_hashes_offset(b)) / 4
}

pub open spec fn v5_vector_count(b: Seq<u8>) -> int {
    (v5_rotations_offset(b) - v5_vectors_offset(b)) / 12
}

pub open spec fn v5_rotation_count(b: Seq<u8>) -> int {
    (v5_hashes_offset(b) - v5_rotations_offset(b)) / 6
}

/// Start of the (translation, scale, rotation) index triple of joint `j` in frame `f`.
pub open spec fn v5_record_pos(b: Seq<u8>, f: int, j: int) -> int {
    v5_frames_offset(b) + 12 + 6 * (f * v5_joint_count(b) + j)
}

/// Whether the pools and the frame table are in the buffer.
pub open spec fn v5_fits(b: Seq<u8>) -> bool {
    &&& v5_hashes_offset(b) + 12 + 4 * v5_hash_count(b) <= b.len()
    &&& v5_vectors_offset(b) + 12 + 12 * v5_vector_count(b) <= b.len()
    &&& v5_rotations_offset(b) + 12 + 6 * v5_rotation_count(b) <= b.len()
    &&& v5_frames_offset(b) + 12 + 6 * (v5_frame_count(b) * v5_joint_count(b)) <= b.len()
}

/// The indices of joint `j` in frame `f` point into their pools.
pub open spec fn v5_record_ok(b: Seq<u8>, f: int, j: int) -> bool {
    let p = v5_record_pos(b, f, j);
    &&& (u16_at(b, p) as int) < v5_vector_count(b)
    &&& (u16_at(b, p + 2) as int) < v5_vector_count(b)
    &&& (u16_at(b, p + 4) as int) < v5_rotation_count(b)
}

/// Every joint has a hash, and every index of the frame table points into its pool.
pub open spec fn v5_indices_ok(b: Seq<u8>) -> bool {
    &&& v5_joint_count(b) <= v5_hash_count(b)
    &&& forall|f: int, j: int|
        0 <= f < v5_frame_count(b) && 0 <= j < v5_joint_count(b) ==> #[trigger] v5_record_ok(
            b,
            f,
            j,
        )
}

pub open spec fn v5_vector(b: Seq<u8>, i: int) -> Vec3Bits {
    vec3_at(b, v5_vectors_offset(b) + 12 + 12 * i)
}

pub open spec fn v5_rotation(b: Seq<u8>, i: int) -> u64 {
    u48_at(b, v5_rotations_offset(b) + 12 + 6 * i)
}

/// Joint `j` of a version 5 animation: one key per frame, the frame number as tick.
pub open spec fn v5_joint_matches(a: JointAnm, b: Seq<u8>, j: int) -> bool {
    let n = v5_frame_count(b) as nat;
    &&& a.hash == u32_at(b, v5_hashes_offset(b) + 12 + 4 * j)
    &&& a.translations@ == Seq::new(
        n,
        |f: int| (f as u32, VecValue::Plain(v5_vector(b, u16_at(b, v5_record_pos(b, f, j)) as int))),
    )
    &&& a.scales@ == Seq::new(
        n,
        |f: int|
            (f as u32, VecValue::Plain(v5_vector(b, u16_at(b, v5_record_pos(b, f, j) + 2) as int))),
    )
    &&& a.rotations@ == Seq::new(
        n,
        |f: int|
            (
                f as u32,
                QuatValue::Packed(v5_rotation(b, u16_at(b, v5_record_pos(b, f, j) + 4) as int)),
            ),
    )
    &&& a.sorted == tracks_sorted(a)
}

/// The error that decoding a version 5 animation gives.
pub open spec fn v5_error(b: Seq<u8>, e: FormatError) -> bool {
    if b.len() < 64 {
        e == FormatError::Truncated
    } else if !v5_offsets_ordered(b) {
        e == FormatError::BadOffset
    } else if !v5_fits(b) {
        e == FormatError::Truncated
    } else {
        !v5_indices_ok(b) && e == FormatError::BadIndex
    }
}

/// The keys of joint `j` of a version 5 animation.
fn v5_joint(
    b: &[u8],
    j: u32,
    joint_count: u32,
    frame_count: u32,
    frames_at: usize,
    vectors_at: usize,
    vector_count: u32,
    rotations_at: usize,
    rotation_count: u32,
    hashes_at: usize,
) -> (r: Result<JointAnm, FormatError>)
    requires
        b@.len() >= 64,
        v5_offsets_ordered(b@),
        v5_fits(b@),
        j < joint_count,
        joint_count as int == v5_joint_count(b@),
        joint_count as int <= v5_hash_count(b@),
        frame_count as int == v5_frame_count(b@),
        frames_at as int == v5_frames_offset(b@) + 12,
        vectors_at as int == v5_vectors_offset(b@) + 12,
        vector_count as int == v5_vector_count(b@),
        rotations_at as int == v5_rotations_offset(b@) + 12,
        rotation_count as int == v5_rotation_count(b@),
        hashes_at as int == v5_hashes_offset(b@) + 12,
    ensures
        match r {
            Ok(a) => v5_joint_matches(a, b@, j as int) && forall|f: int|
                0 <= f < frame_count ==> #[trigger] v5_record_ok(b@, f, j as int),
            Err(e) => e == FormatError::BadIndex && exists|f: int|
                0 <= f < frame_count && !#[trigger] v5_record_ok(b@, f, j as int),
        },
{
    let len = b.len();
    let mut translations: Vec<(u32, VecValue)> = Vec::new();
    let mut scales: Vec<(u32, VecValue)> = Vec::new();
    let mut rotations: Vec<(u32, QuatValue)> = Vec::new();
    let mut f: u32 = 0;
    while f < frame_count
        invariant
            f <= frame_count,
            len == b@.len(),
            b@.len() >= 64,
            v5_offsets_ordered(b@),
            v5_fits(b@),
            j < joint_count,
            joint_count as int == v5_joint_count(b@),
            frame_count as int == v5_frame_count(b@),
            frames_at as int == v5_frames_offset(b@) + 12,
            vectors_at as int == v5_vectors_offset(b@) + 12,
            vector_count as int == v5_vector_count(b@),
            rotations_at as int == v5_rotations_offset(b@) + 12,
            rotation_count as int == v5_rotation_count(b@),
            translations@ =~= Seq::new(
                f as nat,
                |m: int|
                    (m as u32, VecValue::Plain(v5_vector(b@, u16_at(b@, v5_record_pos(b@, m, j as int)) as int))),
            ),
            scales@ =~= Seq::new(
                f as nat,
                |m: int|
                    (
                        m as u32,
                        VecValue::Plain(v5_vector(b@, u16_at(b@, v5_record_pos(b@, m, j as int) + 2) as int)),
                    ),
            ),
            rotations@ =~= Seq::new(
                f as nat,
                |m: int|
                    (
                        m as u32,
                        QuatValue::Packed(v5_rotation(b@, u16_at(b@, v5_record_pos(b@, m, j as int) + 4) as int)),
                    ),
            ),
            forall|m: int| 0 <= m < f ==> #[trigger] v5_record_ok(b@, m, j as int),
        decreases frame_count - f,
    {
        proof {
            lemma_grid_index(f as int, j as int, frame_count as int, joint_count as int);
            lemma_product_bound(f, joint_count);
        }
        let p: usize = frames_at + 6 * ((f as usize) * (joint_count as usize) + (j as usize));
        assert(p == v5_record_pos(b@, f as int, j as int));
        let ti = read_u16(b, p)?;
        let si = read_u16(b, p + 2)?;
        let ri = read_u16(b, p + 4)?;
        if ti as u32 >= vector_count || si as u32 >= vector_count || ri as u32 >= rotation_count {
            assert(!v5_record_ok(b@, f as int, j as int));
            return Err(FormatError::BadIndex);
        }
        let t = vec3_f32(b, vectors_at + 12 * (ti as usize))?;
        let s = vec3_f32(b, vectors_at + 12 * (si as usize))?;
        let r = read_u48(b, rotations_at + 6 * (ri as usize))?;
        translations.push((f, VecValue::Plain(t)));
        scales.push((f, VecValue::Plain(s)));
        rotations.push((f, QuatValue::Packed(r)));
        f = f + 1;
    }
    let hash = read_u32(b, hashes_at + 4 * (j as usize))?;
    Ok(make_joint(hash, translations, rotations, scales))
}

/// Whether a version 5 animation decodes.
pub open spec fn v5_valid(b: Seq<u8>) -> bool {
    b.len() >= 64 && v5_offsets_ordered(b) && v5_fits(b) && v5_indices_ok(b)
}

/// `a` holds what the valid version 5 animation `b` stores.
pub open spec fn v5_decodes(b: Seq<u8>, a: Animation) -> bool {
    &&& a.timing == (Timing::Frames { frame_delay: u32_at(b, 36), frame_count: u32_at(b, 32) })
    &&& a.joints.len() == v5_joint_count(b)
    &&& forall|j: int| 0 <= j < a.joints.len() ==> v5_joint_matches(#[trigger] a.joints[j], b, j)
}

/// Decodes version 5 of the dense layout.
fn read_v5(b: &[u8]) -> (r: Result<Animation, FormatError>)
    ensures
        match r {
            Ok(a) => v5_valid(b@) && v5_decodes(b@, a),
            Err(e) => v5_error(b@, e),
        },
{
    let len = b.len();
    if len < 64 {
        return Err(FormatError::Truncated);
    }
    let joint_count = read_u32(b, 28)?;
    let frame_count = read_u32(b, 32)?;
    let frame_delay = read_u32(b, 36)?;
    let hashes_offset = read_u32(b, 40)?;
    let vectors_offset = read_u32(b, 52)?;
    let rotations_offset = read_u32(b, 56)?;
    let frames_offset = read_u32(b, 60)?;
    if vectors_offset > rotations_offset || rotations_offset > hashes_offset || hashes_offset
        > frames_offset {
        return Err(FormatError::BadOffset);
    }
    let hash_count = (frames_offset - hashes_offset) / 4;
    let vector_count = (rotations_offset - vectors_offset) / 12;
    let rotation_count = (hashes_offset - rotations_offset) / 6;
    proof {
        lemma_product_bound(frame_count, joint_count);
    }
    let cells: u128 = (frame_count as u128) * (joint_count as u128);
    if hashes_offset as u128 + 12 + 4 * (hash_count as u128) > len as u128 || vectors_offset as u128
        + 12 + 12 * (vector_count as u128) > len as u128 || rotations_offset as u128 + 12 + 6 * (
    rotation_count as u128) > len as u128 || frames_offset as u128 + 12 + 6 * cells > len as u128 {
        return Err(FormatError::Truncated);
    }
    assert(v5_fits(b@));
    if joint_count > hash_count {
        return Err(FormatError::BadIndex);
    }
    let mut joints: Vec<JointAnm> = Vec::new();
    let mut j: u32 = 0;
    while j < joint_count
        invariant
            j <= joint_count,
            len == b@.len(),
            b@.len() >= 64,
            v5_offsets_ordered(b@),
            v5_fits(b@),
            joint_count as int == v5_joint_count(b@),
            joint_count as int <= v5_hash_count(b@),
            frame_count as int == v5_frame_count(b@),
            frames_offset as int == v5_frames_offset(b@),
            vectors_offset as int == v5_vectors_offset(b@),
            vector_count as int == v5_vector_count(b@),
            rotations_offset as int == v5_rotations_offset(b@),
            rotation_count as int == v5_rotation_count(b@),
            hashes_offset as int == v5_hashes_offset(b@),
            joints.len() == j,
            forall|m: int| 0 <= m < j ==> v5_joint_matches(#[trigger] joints[m], b@, m),
            forall|f: int, m: int|
                0 <= f < frame_count && 0 <= m < j ==> #[trigger] v5_record_ok(b@, f, m),
        decreases joint_count - j,
    {
        let a = v5_joint(
            b,
            j,
            joint_count,
            frame_count,
            frames_offset as usize + 12,
            vectors_offset as usize + 12,
            vector_count,
            rotations_offset as usize + 12,
            rotation_count,
            hashes_offset as usize + 12,
        )?;
        joints.push(a);
        j = j + 1;
    }
    Ok(Animation { timing: Timing::Frames { frame_delay, frame_count }, joints })
}

// ---- version 4 ----

pub open spec fn v4_joint_count(b: Seq<u8>) -> int {
    u32_at(b, 28) as int
}

pub open spec fn v4_frame_count(b: Seq<u8>) -> int {
    u32_at(b, 32) as int
}

pub open spec fn v4_vectors_offset(b: Seq<u8>) -> int {
    u32_at(b, 52) as int
}

pub open spec fn v4_rotations_offset(b: Seq<u8>) -> int {
    u32_at(b, 56) as int
}

pub open spec fn v4_frames_offset(b: Seq<u8>) -> int {
    u32_at(b, 60) as int
}

/// The pools follow one another: vectors, rotations, then frame records.
pub open spec fn v4_offsets_ordered(b: Seq<u8>) -> bool {
    v4_vectors_offset(b) <= v4_rotations_offset(b) && v4_rotations_offset(b) <= v4_frames_offset(b)
}

pub open spec fn v4_vector_count(b: Seq<u8>) -> int {
    (v4_rotations_offset(b) - v4_vectors_offset(b)) / 12
}

pub open spec fn v4_rotation_count(b: Seq<u8>) -> int {
    (v4_frames_offset(b) - v4_rotations_offset(b)) / 16
}

/// Number of frame records: one per joint and frame.
#[verifier::opaque]
pub open spec fn v4_record_count(b: Seq<u8>) -> int {
    v4_joint_count(b) * v4_frame_count(b)
}

/// Start of frame record `i` (twelve bytes): a joint hash, then translation, scale and
/// rotation indices, then two unused bytes.
pub open spec fn v4_record_pos(b: Seq<u8>, i: int) -> int {
    v4_frames_offset(b) + 12 + 12 * i
}

/// The joint hash of frame record `i`.
pub open spec fn v4_hash(b: Seq<u8>, i: int) -> u32 {
    u32_at(b, v4_record_pos(b, i))
}

/// Whether the pools and the frame records are in the buffer.
pub open spec fn v4_fits(b: Seq<u8>) -> bool {
    &&& v4_vectors_offset(b) + 12 + 12 * v4_vector_count(b) <= b.len()
    &&& v4_rotations_offset(b) + 12 + 16 * v4_rotation_count(b) <= b.len()
    &&& v4_record_pos(b, v4_record_count(b)) <= b.len()
}

/// The indices of frame record `i` point into their pools.
pub open spec fn v4_record_ok(b: Seq<u8>, i: int) -> bool {
    let p = v4_record_pos(b, i);
    &&& (u16_at(b, p + 4) as int) < v4_vector_count(b)
    &&& (u16_at(b, p + 6) as int) < v4_vector_count(b)
    &&& (u16_at(b, p + 8) as int) < v4_rotation_count(b)
}

/// Every index of every frame record points into its pool.
pub open spec fn v4_indices_ok(b: Seq<u8>) -> bool {
    forall|i: int| 0 <= i < v4_record_count(b) ==> #[trigger] v4_record_ok(b, i)
}

pub open spec fn v4_vector(b: Seq<u8>, i: int) -> Vec3Bits {
    vec3_at(b, v4_vectors_offset(b) + 12 + 12 * i)
}

pub open spec fn v4_rotation(b: Seq<u8>, i: int) -> QuatBits {
    quat_at(b, v4_rotations_offset(b) + 12 + 16 * i)
}

/// The indices, in stream order, of the records among the from_start `n` that carry hash `h`.
pub open spec fn v4_group(b: Seq<u8>, h: u32, n: int) -> Seq<int>
    decreases n,
{
    if n <= 0 {
        Seq::empty()
    } else if v4_hash(b, n - 1) == h {
        v4_group(b, h, n - 1).push(n - 1)
    } else {
        v4_group(b, h, n - 1)
    }
}

pub open spec fn v4_translation_keys(b: Seq<u8>, g: Seq<int>) -> Seq<(u32, VecValue)> {
    Seq::new(
        g.len(),
        |m: int| (m as u32, VecValue::Plain(v4_vector(b, u16_at(b, v4_record_pos(b, g[m]) + 4) as int))),
    )
}

pub open spec fn v4_scale_keys(b: Seq<u8>, g: Seq<int>) -> Seq<(u32, VecValue)> {
    Seq::new(
        g.len(),
        |m: int| (m as u32, VecValue::Plain(v4_vector(b, u16_at(b, v4_record_pos(b, g[m]) + 6) as int))),
    )
}

pub open spec fn v4_rotation_keys(b: Seq<u8>, g: Seq<int>) -> Seq<(u32, QuatValue)> {
    Seq::new(
        g.len(),
        |m: int| (m as u32, QuatValue::Plain(v4_rotation(b, u16_at(b, v4_record_pos(b, g[m]) + 8) as int))),
    )
}

/// The track of the joint with hash `a.hash`: its records in stream order, the n-th
/// one at tick n.
#[verifier::opaque]
pub open spec fn v4_joint_matches(a: JointAnm, b: Seq<u8>) -> bool {
    let g = v4_group(b, a.hash, v4_record_count(b));
    &&& a.translations@ == v4_translation_keys(b, g)
    &&& a.scales@ == v4_scale_keys(b, g)
    &&& a.rotations@ == v4_rotation_keys(b, g)
    &&& a.sorted == tracks_sorted(a)
}

/// Some joint of `js` has hash `h`.
pub open spec fn hash_listed(js: Seq<JointAnm>, h: u32) -> bool {
    exists|j: int| 0 <= j < js.len() && js[j].hash == h
}

/// One joint per hash that the records carry, in ascending order of hash.
pub open spec fn v4_joints_match(js: Seq<JointAnm>, b: Seq<u8>) -> bool {
    &&& forall|j: int, k: int| 0 <= j < k < js.len() ==> #[trigger] js[j].hash < #[trigger] js[k].hash
    &&& forall|j: int|
        0 <= j < js.len() ==> v4_group(b, (#[trigger] js[j]).hash, v4_record_count(b)).len() > 0
    &&& forall|i: int| 0 <= i < v4_record_count(b) ==> hash_listed(js, #[trigger] v4_hash(b, i))
    &&& forall|j: int| 0 <= j < js.len() ==> v4_joint_matches(#[trigger] js[j], b)
}

/// The error that decoding a version 4 animation gives.
pub open spec fn v4_error(b: Seq<u8>, e: FormatError) -> bool {
    if b.len() < 64 {
        e == FormatError::Truncated
    } else if !v4_offsets_ordered(b) {
        e == FormatError::BadOffset
    } else if !v4_fits(b) {
        e == FormatError::Truncated
    } else {
        !v4_indices_ok(b) && e == FormatError::BadIndex
    }
}

/// `r` is the least hash among the from_start `n` records that lies above `prev` (above
/// nothing when `from_start`), or `None` if there is none.
pub open spec fn least_hash_above(b: Seq<u8>, n: int, from_start: bool, prev: u32, r: Option<u32>) -> bool {
    &&& r is Some ==> {
        &&& (from_start || r->0 > prev)
        &&& exists|k: int| 0 <= k < n && v4_hash(b, k) == r->0
        &&& forall|k: int|
            0 <= k < n && (from_start || (#[trigger] v4_hash(b, k)) > prev) ==> v4_hash(b, k) >= r->0
    }
    &&& r is None ==> forall|k: int| 0 <= k < n ==> !from_start && (#[trigger] v4_hash(b, k)) <= prev
}

fn v4_least_hash_above(b: &[u8], base: usize, count: usize, from_start: bool, prev: u32) -> (r: Option<u32>)
    requires
        b@.len() >= 64,
        v4_fits(b@),
        base as int == v4_frames_offset(b@) + 12,
        count as int == v4_record_count(b@),
    ensures
        least_hash_above(b@, count as int, from_start, prev, r),
{
    let len = b.len();
    let mut best: Option<u32> = None;
    let mut i: usize = 0;
    while i < count
        invariant
            i <= count,
            len == b@.len(),
            b@.len() >= 64,
            v4_fits(b@),
            base as int == v4_frames_offset(b@) + 12,
            count as int == v4_record_count(b@),
            least_hash_above(b@, i as int, from_start, prev, best),
        decreases count - i,
    {
        assert(v4_record_pos(b@, i as int) + 12 <= len);
        let h = read_u32(b, base + 12 * i).unwrap();
        assert(h == v4_hash(b@, i as int));
        if from_start || h > prev {
            match best {
                Some(m) => {
                    if h < m {
                        best = Some(h);
                    }
                },
                None => {
                    best = Some(h);
                },
            }
        }
        i = i + 1;
    }
    best
}

proof fn lemma_v4_keys_push(b: Seq<u8>, g: Seq<int>, i: int)
    ensures
        v4_translation_keys(b, g.push(i)) =~= v4_translation_keys(b, g).push(
            (g.len() as u32, VecValue::Plain(v4_vector(b, u16_at(b, v4_record_pos(b, i) + 4) as int))),
        ),
        v4_scale_keys(b, g.push(i)) =~= v4_scale_keys(b, g).push(
            (g.len() as u32, VecValue::Plain(v4_vector(b, u16_at(b, v4_record_pos(b, i) + 6) as int))),
        ),
        v4_rotation_keys(b, g.push(i)) =~= v4_rotation_keys(b, g).push(
            (g.len() as u32, QuatValue::Plain(v4_rotation(b, u16_at(b, v4_record_pos(b, i) + 8) as int))),
        ),
{
}

/// The keys of the joint with hash `h` in a version 4 animation.
fn v4_joint(
    b: &[u8],
    h: u32,
    count: usize,
    frames_at: usize,
    vectors_at: usize,
    vector_count: u32,
    rotations_at: usize,
    rotation_count: u32,
) -> (r: JointAnm)
    requires
        count as int == v4_record_count(b@),
        frames_at as int == v4_frames_offset(b@) + 12,
        vectors_at as int == v4_vectors_offset(b@) + 12,
        rotations_at as int == v4_rotations_offset(b@) + 12,
        vector_count as int == v4_vector_count(b@),
        rotation_count as int == v4_rotation_count(b@),
        frames_at + 12 * count <= b@.len(),
        vectors_at + 12 * vector_count <= b@.len(),
        rotations_at + 16 * rotation_count <= b@.len(),
        forall|k: int| 0 <= k < count ==> #[trigger] v4_record_ok(b@, k),
    ensures
        r.hash == h,
        v4_joint_matches(r, b@),
{
    let len = b.len();
    let mut translations: Vec<(u32, VecValue)> = Vec::new();
    let mut scales: Vec<(u32, VecValue)> = Vec::new();
    let mut rotations: Vec<(u32, QuatValue)> = Vec::new();
    let mut n: usize = 0;
    let mut i: usize = 0;
    while i < count
        invariant
            i <= count,
            len == b@.len(),
            count as int == v4_record_count(b@),
            frames_at as int == v4_frames_offset(b@) + 12,
            vectors_at as int == v4_vectors_offset(b@) + 12,
            rotations_at as int == v4_rotations_offset(b@) + 12,
            vector_count as int == v4_vector_count(b@),
            rotation_count as int == v4_rotation_count(b@),
            frames_at + 12 * count <= len,
            vectors_at + 12 * vector_count <= len,
            rotations_at + 16 * rotation_count <= len,
            forall|k: int| 0 <= k < count ==> #[trigger] v4_record_ok(b@, k),
            n == v4_group(b@, h, i as int).len(),
            n <= i,
            translations@ == v4_translation_keys(b@, v4_group(b@, h, i as int)),
            scales@ == v4_scale_keys(b@, v4_group(b@, h, i as int)),
            rotations@ == v4_rotation_keys(b@, v4_group(b@, h, i as int)),
        decreases count - i,
    {
        let p: usize = frames_at + 12 * i;
        assert(p == v4_record_pos(b@, i as int));
        let rh = read_u32(b, p).unwrap();
        if rh == h {
            assert(v4_record_ok(b@, i as int));
            let ti = read_u16(b, p + 4).unwrap();
            let si = read_u16(b, p + 6).unwrap();
            let ri = read_u16(b, p + 8).unwrap();
            let t = vec3_f32(b, vectors_at + 12 * (ti as usize)).unwrap();
            let s = vec3_f32(b, vectors_at + 12 * (si as usize)).unwrap();
            let r = quat_f32(b, rotations_at + 16 * (ri as usize)).unwrap();
            proof {
                lemma_v4_keys_push(b@, v4_group(b@, h, i as int), i as int);
                assert(v4_group(b@, h, i + 1) == v4_group(b@, h, i as int).push(i as int));
            }
            let tick: u32 = #[verifier::truncate] (n as u32);
            translations.push((tick, VecValue::Plain(t)));
            scales.push((tick, VecValue::Plain(s)));
            rotations.push((tick, QuatValue::Plain(r)));
            n = n + 1;
        } else {
            assert(v4_group(b@, h, i + 1) == v4_group(b@, h, i as int));
        }
        i = i + 1;
    }
    let r = make_joint(h, translations, rotations, scales);
    proof {
        reveal(v4_joint_matches);
    }
    r
}

/// The joints found so far: those of the hashes up to `prev` (none when `from_start`).
pub open spec fn v4_partial(b: Seq<u8>, js: Seq<JointAnm>, from_start: bool, prev: u32) -> bool {
    &&& from_start <==> js.len() == 0
    &&& !from_start ==> js[js.len() - 1].hash == prev
    &&& forall|j: int, k: int| 0 <= j < k < js.len() ==> #[trigger] js[j].hash < #[trigger] js[k].hash
    &&& forall|j: int|
        0 <= j < js.len() ==> v4_group(b, (#[trigger] js[j]).hash, v4_record_count(b)).len() > 0
    &&& forall|i: int|
        0 <= i < v4_record_count(b) && !from_start && (#[trigger] v4_hash(b, i)) <= prev
            ==> hash_listed(js, v4_hash(b, i))
    &&& forall|j: int| 0 <= j < js.len() ==> v4_joint_matches(#[trigger] js[j], b)
}

proof fn lemma_v4_group_nonempty(b: Seq<u8>, h: u32, i: int, n: int)
    requires
        0 <= i < n,
        v4_hash(b, i) == h,
    ensures
        v4_group(b, h, n).len() > 0,
    decreases n,
{
    if i < n - 1 {
        lemma_v4_group_nonempty(b, h, i, n - 1);
    }
}

proof fn lemma_v4_partial_extend(b: Seq<u8>, js: Seq<JointAnm>, from_start: bool, prev: u32, a: JointAnm)
    requires
        v4_partial(b, js, from_start, prev),
        least_hash_above(b, v4_record_count(b), from_start, prev, Some(a.hash)),
        v4_joint_matches(a, b),
    ensures
        v4_partial(b, js.push(a), false, a.hash),
{
    let h = a.hash;
    let js2 = js.push(a);
    assert forall|i: int|
        0 <= i < v4_record_count(b) && (#[trigger] v4_hash(b, i)) <= h implies hash_listed(
        js2,
        v4_hash(b, i),
    ) by {
        if v4_hash(b, i) == h {
            assert(js2[js2.len() - 1].hash == h);
        } else {
            assert(!from_start && v4_hash(b, i) <= prev);
            assert(hash_listed(js, v4_hash(b, i)));
            let j = choose|j: int| 0 <= j < js.len() && js[j].hash == v4_hash(b, i);
            assert(js2[j] == js[j]);
        }
    }
    assert forall|j: int, k: int| 0 <= j < k < js2.len() implies #[trigger] js2[j].hash
        < #[trigger] js2[k].hash by {
        if k == js2.len() - 1 {
            assert(js[j].hash <= prev);
            if j < js.len() - 1 {
                assert(js[j].hash < js[js.len() - 1].hash);
            }
        } else {
            assert(js2[j] == js[j] && js2[k] == js[k]);
        }
    }
    assert forall|j: int| 0 <= j < js2.len() implies v4_group(
        b,
        (#[trigger] js2[j]).hash,
        v4_record_count(b),
    ).len() > 0 by {
        if j < js.len() {
            assert(js2[j] == js[j]);
        } else {
            let i = choose|i: int| 0 <= i < v4_record_count(b) && v4_hash(b, i) == h;
            lemma_v4_group_nonempty(b, h, i, v4_record_count(b));
        }
    }
    assert forall|j: int| 0 <= j < js2.len() implies v4_joint_matches(#[trigger] js2[j], b) by {
        if j < js.len() {
            assert(js2[j] == js[j]);
        }
    }
}

proof fn lemma_least_none(b: Seq<u8>, n: int, from_start: bool, prev: u32, x: int)
    requires
        least_hash_above(b, n, from_start, prev, None),
        0 <= x < n,
    ensures
        !from_start && v4_hash(b, x) <= prev,
{
    let h = v4_hash(b, x);
    assert(h <= prev);
}

proof fn lemma_v4_partial_done(b: Seq<u8>, js: Seq<JointAnm>, from_start: bool, prev: u32)
    requires
        v4_partial(b, js, from_start, prev),
        least_hash_above(b, v4_record_count(b), from_start, prev, None),
    ensures
        v4_joints_match(js, b),
{
    let n = v4_record_count(b);
    assert forall|i: int| 0 <= i < n implies hash_listed(js, #[trigger] v4_hash(b, i)) by {
        lemma_least_none(b, n, from_start, prev, i);
    }
}

/// One joint per distinct record hash, in ascending order of hash.
fn v4_joints(
    b: &[u8],
    count: usize,
    frames_at: usize,
    vectors_at: usize,
    vector_count: u32,
    rotations_at: usize,
    rotation_count: u32,
) -> (r: Vec<JointAnm>)
    requires
        b@.len() >= 64,
        v4_fits(b@),
        count as int == v4_record_count(b@),
        frames_at as int == v4_frames_offset(b@) + 12,
        vectors_at as int == v4_vectors_offset(b@) + 12,
        rotations_at as int == v4_rotations_offset(b@) + 12,
        vector_count as int == v4_vector_count(b@),
        rotation_count as int == v4_rotation_count(b@),
        frames_at + 12 * count <= b@.len(),
        vectors_at + 12 * vector_count <= b@.len(),
        rotations_at + 16 * rotation_count <= b@.len(),
        forall|k: int| 0 <= k < count ==> #[trigger] v4_record_ok(b@, k),
    ensures
        v4_joints_match(r@, b@),
{
    let mut joints: Vec<JointAnm> = Vec::new();
    let mut from_start = true;
    let mut prev: u32 = 0;
    loop
        invariant
            b@.len() >= 64,
            v4_fits(b@),
            count as int == v4_record_count(b@),
            frames_at as int == v4_frames_offset(b@) + 12,
            vectors_at as int == v4_vectors_offset(b@) + 12,
            rotations_at as int == v4_rotations_offset(b@) + 12,
            vector_count as int == v4_vector_count(b@),
            rotation_count as int == v4_rotation_count(b@),
            frames_at + 12 * count <= b@.len(),
            vectors_at + 12 * vector_count <= b@.len(),
            rotations_at + 16 * rotation_count <= b@.len(),
            forall|k: int| 0 <= k < count ==> #[trigger] v4_record_ok(b@, k),
            v4_partial(b@, joints@, from_start, prev),
        ensures
            v4_joints_match(joints@, b@),
        decreases 0x1_0000_0000 - (if from_start {
            0
        } else {
            prev as int + 1
        }),
    {
        let next = v4_least_hash_above(b, frames_at, count, from_start, prev);
        match next {
            None => {
                proof {
                    lemma_v4_partial_done(b@, joints@, from_start, prev);
                }
                break;
            },
            Some(h) => {
                let a = v4_joint(
                    b,
                    h,
                    count,
                    frames_at,
                    vectors_at,
                    vector_count,
                    rotations_at,
                    rotation_count,
                );
                proof {
                    lemma_v4_partial_extend(b@, joints@, from_start, prev, a);
                }
                joints.push(a);
                from_start = false;
                prev = h;
            },
        }
    }
    joints
}

/// Whether a version 4 animation decodes.
pub open spec fn v4_valid(b: Seq<u8>) -> bool {
    b.len() >= 64 && v4_offsets_ordered(b) && v4_fits(b) && v4_indices_ok(b)
}

/// `a` holds what the valid version 4 animation `b` stores.
pub open spec fn v4_decodes(b: Seq<u8>, a: Animation) -> bool {
    &&& a.timing == (Timing::Frames { frame_delay: u32_at(b, 36), frame_count: u32_at(b, 32) })
    &&& v4_joints_match(a.joints@, b)
}

#[verifier::rlimit(40)]
/// Decodes version 4 of the dense layout: frame records are grouped by joint hash, and
/// the joints come out in ascending order of hash.
fn read_v4(b: &[u8]) -> (r: Result<Animation, FormatError>)
    ensures
        match r {
            Ok(a) => v4_valid(b@) && v4_decodes(b@, a),
            Err(e) => v4_error(b@, e),
        },
{
    let len = b.len();
    if len < 64 {
        return Err(FormatError::Truncated);
    }
    let joint_count = read_u32(b, 28)?;
    let frame_count = read_u32(b, 32)?;
    let frame_delay = read_u32(b, 36)?;
    let vectors_offset = read_u32(b, 52)?;
    let rotations_offset = read_u32(b, 56)?;
    let frames_offset = read_u32(b, 60)?;
    if vectors_offset > rotations_offset || rotations_offset > frames_offset {
        return Err(FormatError::BadOffset);
    }
    let vector_count = (rotations_offset - vectors_offset) / 12;
    let rotation_count = (frames_offset - rotations_offset) / 16;
    proof {
        lemma_product_bound(joint_count, frame_count);
    }
    let cells: u128 = (joint_count as u128) * (frame_count as u128);
    assert(cells == v4_record_count(b@)) by {
        reveal(v4_record_count);
    }
    if vectors_offset as u128 + 12 + 12 * (vector_count as u128) > len as u128 || rotations_offset
        as u128 + 12 + 16 * (rotation_count as u128) > len as u128 || frames_offset as u128 + 12
        + 12 * cells > len as u128 {
        return Err(FormatError::Truncated);
    }
    assert(v4_fits(b@));
    let count = cells as usize;
    let frames_at = frames_offset as usize + 12;
    let vectors_at = vectors_offset as usize + 12;
    let rotations_at = rotations_offset as usize + 12;
    let mut i: usize = 0;
    while i < count
        invariant
            i <= count,
            len == b@.len(),
            b@.len() >= 64,
            v4_offsets_ordered(b@),
            v4_fits(b@),
            count as int == v4_record_count(b@),
            frames_at as int == v4_frames_offset(b@) + 12,
            vector_count as int == v4_vector_count(b@),
            rotation_count as int == v4_rotation_count(b@),
            forall|k: int| 0 <= k < i ==> #[trigger] v4_record_ok(b@, k),
        decreases count - i,
    {
        assert(v4_record_pos(b@, i as int) + 12 <= len);
        let p: usize = frames_at + 12 * i;
        let ti = read_u16(b, p + 4)?;
        let si = read_u16(b, p + 6)?;
        let ri = read_u16(b, p + 8)?;
        if ti as u32 >= vector_count || si as u32 >= vector_count || ri as u32 >= rotation_count {
            assert(!v4_record_ok(b@, i as int));
            return Err(FormatError::BadIndex);
        }
        i = i + 1;
    }
    assert(v4_indices_ok(b@));
    assert(v4_indices_ok(b@));
    let joints = v4_joints(b, count, frames_at, vectors_at, vector_count, rotations_at, rotation_count);
    Ok(Animation { timing: Timing::Frames { frame_delay, frame_count }, joints })
}

// ---- legacy layout ----

/// The bit pattern of 1.0 in single precision.
pub const ONE_BITS: u32 = 0x3f80_0000;

/// A unit scale.
pub open spec fn unit_scale() -> Vec3Bits {
    Vec3Bits { x: ONE_BITS, y: ONE_BITS, z: ONE_BITS }
}

pub open spec fn lg_joint_count(b: Seq<u8>) -> int {
    u32_at(b, 16) as int
}

pub open spec fn lg_frame_count(b: Seq<u8>) -> int {
    u32_at(b, 20) as int
}

/// Size of one joint: a 32-byte name, 4 unused bytes, then per frame a rotation and
/// a translation.
pub open spec fn lg_stride(b: Seq<u8>) -> int {
    36 + 28 * lg_frame_count(b)
}

pub open spec fn lg_joint_pos(b: Seq<u8>, k: int) -> int {
    28 + k * lg_stride(b)
}

/// Whether every joint record is in the buffer.
pub open spec fn lg_fits(b: Seq<u8>) -> bool {
    b.len() >= 28 && lg_joint_pos(b, lg_joint_count(b)) <= b.len()
}

/// Every joint name is valid UTF-8.
pub open spec fn lg_names_ok(b: Seq<u8>) -> bool {
    forall|k: int| 0 <= k < lg_joint_count(b) ==> #[trigger] name_ok(b, lg_joint_pos(b, k), 32)
}

/// The keys of a legacy joint stored at `p`: one per frame, the frame number as tick,
/// with a unit scale throughout.
pub open spec fn lg_joint_at(a: JointAnm, b: Seq<u8>, p: int) -> bool {
    let n = lg_frame_count(b) as nat;
    &&& a.hash == elf_hash_spec(name_at(b, p, 32))
    &&& a.rotations@ == Seq::new(n, |f: int| (f as u32, QuatValue::Plain(quat_at(b, p + 36 + 28 * f))))
    &&& a.translations@ == Seq::new(
        n,
        |f: int| (f as u32, VecValue::Plain(vec3_at(b, p + 52 + 28 * f))),
    )
    &&& a.scales@ == Seq::new(n, |f: int| (f as u32, VecValue::Plain(unit_scale())))
    &&& a.sorted == tracks_sorted(a)
}

/// The error that decoding a legacy animation gives.
pub open spec fn lg_error(b: Seq<u8>, e: FormatError) -> bool {
    if !lg_fits(b) {
        e == FormatError::Truncated
    } else {
        !lg_names_ok(b) && e == FormatError::BadName
    }
}

fn lg_joint(b: &[u8], p: usize, frame_count: u32) -> (r: Result<JointAnm, FormatError>)
    requires
        frame_count as int == lg_frame_count(b@),
        p + lg_stride(b@) <= b@.len(),
    ensures
        match r {
            Ok(a) => name_ok(b@, p as int, 32) && lg_joint_at(a, b@, p as int),
            Err(e) => !name_ok(b@, p as int, 32) && e == FormatError::BadName,
        },
{
    let len = b.len();
    let name = match read_fixed_name(b, p, 32) {
        Ok(n) => n,
        Err(_) => {
            return Err(FormatError::BadName);
        },
    };
    let hash = string_to_hash(name.as_str());
    let mut translations: Vec<(u32, VecValue)> = Vec::new();
    let mut rotations: Vec<(u32, QuatValue)> = Vec::new();
    let mut scales: Vec<(u32, VecValue)> = Vec::new();
    let one = Vec3Bits { x: ONE_BITS, y: ONE_BITS, z: ONE_BITS };
    let mut f: u32 = 0;
    while f < frame_count
        invariant
            f <= frame_count,
            len == b@.len(),
            frame_count as int == lg_frame_count(b@),
            p + 36 + 28 * frame_count <= len,
            one == unit_scale(),
            rotations@ =~= Seq::new(
                f as nat,
                |m: int| (m as u32, QuatValue::Plain(quat_at(b@, p + 36 + 28 * m))),
            ),
            translations@ =~= Seq::new(
                f as nat,
                |m: int| (m as u32, VecValue::Plain(vec3_at(b@, p + 52 + 28 * m))),
            ),
            scales@ =~= Seq::new(f as nat, |m: int| (m as u32, VecValue::Plain(unit_scale()))),
        decreases frame_count - f,
    {
        let q: usize = p + 36 + 28 * (f as usize);
        let r = quat_f32(b, q).unwrap();
        let t = vec3_f32(b, q + 16).unwrap();
        rotations.push((f, QuatValue::Plain(r)));
        translations.push((f, VecValue::Plain(t)));
        scales.push((f, VecValue::Plain(one)));
        f = f + 1;
    }
    Ok(make_joint(hash, translations, rotations, scales))
}

proof fn lemma_lg_step(k: int, n: int, s: int)
    requires
        0 <= k < n,
        0 <= s,
    ensures
        (k + 1) * s == k * s + s,
        (k + 1) * s <= n * s,
        0 <= k * s,
{
    assert((k + 1) * s == k * s + s) by (nonlinear_arith);
    assert((k + 1) * s <= n * s) by (nonlinear_arith)
        requires
            k + 1 <= n,
            0 <= s,
    ;
    assert(0 <= k * s) by (nonlinear_arith)
        requires
            0 <= k,
            0 <= s,
    ;
}

/// Whether a legacy animation decodes.
pub open spec fn lg_valid(b: Seq<u8>) -> bool {
    lg_fits(b) && lg_names_ok(b)
}

/// `a` holds what the valid legacy animation `b` stores.
pub open spec fn lg_decodes(b: Seq<u8>, a: Animation) -> bool {
    &&& a.timing == (Timing::LegacyFrames {
        frames_per_second: i32_at(b, 24),
        frame_count: u32_at(b, 20),
    })
    &&& a.joints.len() == lg_joint_count(b)
    &&& forall|k: int|
        0 <= k < a.joints.len() ==> lg_joint_at(#[trigger] a.joints[k], b, lg_joint_pos(b, k))
}

/// Decodes the legacy dense layout.
fn read_legacy(b: &[u8]) -> (r: Result<Animation, FormatError>)
    ensures
        match r {
            Ok(a) => lg_valid(b@) && lg_decodes(b@, a),
            Err(e) => lg_error(b@, e),
        },
{
    let len = b.len();
    if len < 28 {
        return Err(FormatError::Truncated);
    }
    let joint_count = read_u32(b, 16)?;
    let frame_count = read_u32(b, 20)?;
    let fps = read_i32(b, 24)?;
    let stride: u64 = 36 + 28 * (frame_count as u64);
    proof {
        assert((joint_count as int) * (stride as int) <= 0xffff_ffff * 0xfff_ffff_ffff) by (nonlinear_arith)
            requires
                joint_count <= 0xffff_ffff,
                stride <= 0xfff_ffff_ffff,
        ;
        assert(0 <= (joint_count as int) * (stride as int)) by (nonlinear_arith)
            requires
                0 <= joint_count,
                0 <= stride,
        ;
    }
    if 28 + (joint_count as u128) * (stride as u128) > len as u128 {
        return Err(FormatError::Truncated);
    }
    assert(lg_fits(b@));
    let mut joints: Vec<JointAnm> = Vec::new();
    let mut p: usize = 28;
    let mut k: u32 = 0;
    while k < joint_count
        invariant
            k <= joint_count,
            len == b@.len(),
            lg_fits(b@),
            joint_count as int == lg_joint_count(b@),
            frame_count as int == lg_frame_count(b@),
            stride as int == lg_stride(b@),
            p as int == lg_joint_pos(b@, k as int),
            joints.len() == k,
            forall|m: int| 0 <= m < k ==> #[trigger] name_ok(b@, lg_joint_pos(b@, m), 32),
            forall|m: int| 0 <= m < k ==> lg_joint_at(#[trigger] joints[m], b@, lg_joint_pos(b@, m)),
        decreases joint_count - k,
    {
        proof {
            lemma_lg_step(k as int, joint_count as int, stride as int);
        }
        let a = lg_joint(b, p, frame_count)?;
        joints.push(a);
        p = p + stride as usize;
        k = k + 1;
    }
    Ok(Animation { timing: Timing::LegacyFrames { frames_per_second: fps, frame_count }, joints })
}

// ---- dispatch ----

/// The four animation layouts.
#[derive(Debug, Clone, Copy, PartialEq, Eq, Structural)]
pub enum AnmLayout {
    Compressed,
    Version5,
    Version4,
    Legacy,
}

/// The version field of the dense layout.
pub open spec fn dense_version(b: Seq<u8>) -> u32 {
    u32_at(b, 8)
}

/// The legacy versions of the dense layout.
pub open spec fn is_legacy_version(v: u32) -> bool {
    1 <= v && v <= 3
}

/// The layout that the signature and, for the dense signature, the version select.
pub open spec fn anm_layout(b: Seq<u8>) -> Option<AnmLayout> {
    if b.len() < 8 {
        None
    } else if b.subrange(0, 8) == compressed_signature() {
        Some(AnmLayout::Compressed)
    } else if b.subrange(0, 8) == dense_signature() && b.len() >= 12 {
        if dense_version(b) == 5 {
            Some(AnmLayout::Version5)
        } else if dense_version(b) == 4 {
            Some(AnmLayout::Version4)
        } else if is_legacy_version(dense_version(b)) {
            Some(AnmLayout::Legacy)
        } else {
            None
        }
    } else {
        None
    }
}

/// Whether `b` holds an animation that decodes.
pub open spec fn animation_valid(b: Seq<u8>) -> bool {
    match anm_layout(b) {
        Some(AnmLayout::Compressed) => c_valid(b),
        Some(AnmLayout::Version5) => v5_valid(b),
        Some(AnmLayout::Version4) => v4_valid(b),
        Some(AnmLayout::Legacy) => lg_valid(b),
        None => false,
    }
}

/// `a` holds what the valid animation `b` stores.
pub open spec fn animation_decodes(b: Seq<u8>, a: Animation) -> bool {
    match anm_layout(b) {
        Some(AnmLayout::Compressed) => c_decodes(b, a),
        Some(AnmLayout::Version5) => v5_decodes(b, a),
        Some(AnmLayout::Version4) => v4_decodes(b, a),
        Some(AnmLayout::Legacy) => lg_decodes(b, a),
        None => false,
    }
}

/// The error that decoding `b` as an animation gives.
pub open spec fn animation_error(b: Seq<u8>, e: FormatError) -> bool {
    match anm_layout(b) {
        Some(AnmLayout::Compressed) => c_error(b, e),
        Some(AnmLayout::Version5) => v5_error(b, e),
        Some(AnmLayout::Version4) => v4_error(b, e),
        Some(AnmLayout::Legacy) => lg_error(b, e),
        None => if b.len() < 8 {
            e == FormatError::Truncated
        } else if b.subrange(0, 8) == dense_signature() {
            if b.len() < 12 {
                e == FormatError::Truncated
            } else {
                e == FormatError::UnknownVersion
            }
        } else {
            e == FormatError::BadSignature
        },
    }
}

proof fn lemma_frame_ticks_sorted<T>(keys: Seq<(u32, T)>)
    requires
        keys.len() <= 0x1_0000_0000,
        forall|f: int| 0 <= f < keys.len() ==> (#[trigger] keys[f]).0 == f as u32,
    ensures
        ticks_sorted(ticks(keys)),
{
    assert forall|i: int, j: int| 0 <= i <= j < ticks(keys).len() implies ticks(keys)[i] <= ticks(
        keys,
    )[j] by {
        assert(keys[i].0 == i as u32 && keys[j].0 == j as u32);
    }
}

proof fn lemma_v4_group_len(b: Seq<u8>, h: u32, n: int)
    requires
        0 <= n,
    ensures
        v4_group(b, h, n).len() <= n,
    decreases n,
{
    if n > 0 {
        lemma_v4_group_len(b, h, n - 1);
    }
}

/// In the three dense layouts every track is keyed by frame number, so the ticks of
/// every channel of every joint never decrease (for version 4, as long as a joint has
/// no more frame records than ticks can count).
pub proof fn lemma_dense_tracks_monotonic(b: Seq<u8>, a: Animation)
    requires
        animation_valid(b),
        animation_decodes(b, a),
        anm_layout(b) != Some(AnmLayout::Compressed),
        anm_layout(b) == Some(AnmLayout::Version4) ==> v4_record_count(b) <= 0x1_0000_0000,
    ensures
        forall|j: int| 0 <= j < a.joints.len() ==> #[trigger] tracks_sorted(a.joints[j]),
{
    assert forall|j: int| 0 <= j < a.joints.len() implies #[trigger] tracks_sorted(a.joints[j]) by {
        let t = a.joints[j];
        if anm_layout(b) == Some(AnmLayout::Version5) {
            assert(v5_joint_matches(t, b, j));
            assert(u32_at(b, 32) as int <= 0xffff_ffff);
        } else if anm_layout(b) == Some(AnmLayout::Legacy) {
            assert(lg_joint_at(t, b, lg_joint_pos(b, j)));
            assert(u32_at(b, 20) as int <= 0xffff_ffff);
        } else {
            assert(v4_joint_matches(t, b)) by {
                reveal(v4_joint_matches);
            }
            reveal(v4_joint_matches);
            lemma_v4_group_len(b, t.hash, v4_record_count(b));
        }
        lemma_frame_ticks_sorted(t.translations@);
        lemma_frame_ticks_sorted(t.rotations@);
        lemma_frame_ticks_sorted(t.scales@);
    }
}

/// Every track's `sorted` flag tells whether its ticks never decrease, as the
/// decoders set it.
pub open spec fn animation_wf(a: &Animation) -> bool {
    forall|t: int| 0 <= t < a.joints.len() ==> (#[trigger] a.joints[t]).sorted == tracks_sorted(a.joints[t])
}

impl Animation {
    /// Decodes an animation in any of its four layouts.
    pub fn read(contents: &Vec<u8>) -> (r: Result<Animation, FormatError>)
        ensures
            r is Ok <==> animation_valid(contents@),
            match r {
                Ok(a) => animation_decodes(contents@, a) && animation_wf(&a),
                Err(e) => animation_error(contents@, e),
            },
    {
        let b = contents.as_slice();
        if b.len() < 8 {
            return Err(FormatError::Truncated);
        }
        let compressed: [u8; 8] = [0x72, 0x33, 0x64, 0x32, 0x63, 0x61, 0x6e, 0x6d];
        let dense: [u8; 8] = [0x72, 0x33, 0x64, 0x32, 0x61, 0x6e, 0x6d, 0x64];
        assert(compressed@ =~= compressed_signature());
        assert(dense@ =~= dense_signature());
        if has_signature(b, &compressed) {
            read_compressed(b)
        } else if has_signature(b, &dense) {
            let version = read_u32(b, 8)?;
            if version == 5 {
                read_v5(b)
            } else if version == 4 {
                let r = read_v4(b);
                proof {
                    reveal(v4_joint_matches);
                }
                r
            } else if 1 <= version && version <= 3 {
                read_legacy(b)
            } else {
                Err(FormatError::UnknownVersion)
            }
        } else {
            assert(compressed_signature() != dense_signature()) by {
                assert(compressed_signature()[4] != dense_signature()[4]);
            }
            Err(FormatError::BadSignature)
        }
    }
}

} // verus!
