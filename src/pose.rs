use vstd::prelude::*;
use crate::anm::{
    animation_wf, bracket_spec, find_bracket_from, find_in_nearest_time, ticks, ticks_sorted, tracks_sorted, Animation,
    Bracket, JointAnm,
};
use crate::skl::{Joint, Skeleton};

verus! {

/// What drives one joint's transform in a pose.
#[derive(Debug, Clone, Copy, PartialEq, Eq, Structural)]
pub enum JointSource {
    /// No track carries the joint's hash: the joint keeps its bind-pose local matrix.
    BindPose,
    /// Track `track` drives the joint; each channel interpolates between its bracket's keys.
    Animated { track: usize, translation: Bracket, rotation: Bracket, scale: Bracket },
}

/// One joint of a pose: the joint whose global transform it starts from, if any, and
/// what it composes onto it.
#[derive(Debug, Clone, Copy, PartialEq, Eq, Structural)]
pub struct PoseStep {
    pub parent: Option<usize>,
    pub source: JointSource,
}

/// The first track that carries hash `h`, if any.
pub open spec fn track_for(tracks: Seq<JointAnm>, h: u32) -> Option<usize>
    decreases tracks.len(),
{
    if tracks.len() == 0 {
        None
    } else {
        match track_for(tracks.drop_last(), h) {
            Some(i) => Some(i),
            None => if tracks.last().hash == h {
                Some((tracks.len() - 1) as usize)
            } else {
                None
            },
        }
    }
}

/// The parent to start from: a parent id that names a joint of the table.
pub open spec fn parent_of(j: Joint, n: int) -> Option<usize> {
    if 0 <= j.parent_id && (j.parent_id as int) < n {
        Some(j.parent_id as usize)
    } else {
        None
    }
}

/// The pose step of joint `i` at play-head tick `q`.
pub open spec fn step_spec(joints: Seq<Joint>, i: int, tracks: Seq<JointAnm>, q: i64) -> PoseStep {
    PoseStep {
        parent: parent_of(joints[i], joints.len() as int),
        source: match track_for(tracks, joints[i].hash) {
            None => JointSource::BindPose,
            Some(t) => JointSource::Animated {
                track: t,
                translation: bracket_spec(ticks(tracks[t as int].translations@), q),
                rotation: bracket_spec(ticks(tracks[t as int].rotations@), q),
                scale: bracket_spec(ticks(tracks[t as int].scales@), q),
            },
        },
    }
}

proof fn lemma_track_for_prefix(tracks: Seq<JointAnm>, h: u32, n: int)
    requires
        0 <= n < tracks.len(),
    ensures
        track_for(tracks.take(n + 1), h) == match track_for(tracks.take(n), h) {
            Some(i) => Some(i),
            None => if tracks[n].hash == h {
                Some(n as usize)
            } else {
                None
            },
        },
{
    assert(tracks.take(n + 1).drop_last() =~= tracks.take(n));
}

/// The first track of the animation whose hash is `hash`.
pub fn find_track(animation: &Animation, hash: u32) -> (r: Option<usize>)
    ensures
        r == track_for(animation.joints@, hash),
        match r {
            Some(i) => i < animation.joints.len() && animation.joints[i as int].hash == hash,
            None => forall|k: int|
                0 <= k < animation.joints.len() ==> #[trigger] animation.joints[k].hash != hash,
        },
{
    let tracks = &animation.joints;
    let mut i: usize = 0;
    while i < tracks.len()
        invariant
            tracks@ == animation.joints@,
            i <= tracks.len(),
            track_for(tracks@.take(i as int), hash) is None,
            forall|k: int| 0 <= k < i ==> #[trigger] tracks[k].hash != hash,
        decreases tracks.len() - i,
    {
        proof {
            lemma_track_for_prefix(tracks@, hash, i as int);
        }
        if tracks[i].hash == hash {
            proof {
                assert(track_for(tracks@.take(i + 1), hash) == Some(i));
                lemma_track_for_found(tracks@, hash, i as int, tracks.len() as int);
                assert(tracks@.take(tracks.len() as int) =~= tracks@);
            }
            return Some(i);
        }
        i = i + 1;
    }
    assert(tracks@.take(tracks.len() as int) =~= tracks@);
    None
}

proof fn lemma_track_for_found(tracks: Seq<JointAnm>, h: u32, i: int, n: int)
    requires
        0 <= i < n <= tracks.len(),
        track_for(tracks.take(i + 1), h) == Some(i as usize),
    ensures
        track_for(tracks.take(n), h) == Some(i as usize),
    decreases n - i,
{
    if n > i + 1 {
        lemma_track_for_found(tracks, h, i, n - 1);
        lemma_track_for_prefix(tracks, h, n - 1);
    }
}

/// Where each channel's previous search stopped, kept between evaluations of one
/// model: one entry per skeleton joint, for its translation, rotation and scale.
pub struct PoseCache {
    pub next: Vec<(usize, usize, usize)>,
}

impl PoseCache {
    pub fn new() -> (r: PoseCache)
        ensures
            r.next@.len() == 0,
    {
        PoseCache { next: Vec::new() }
    }
}

fn channel_bracket<T>(keys: &Vec<(u32, T)>, q: i64, sorted: bool, start: usize) -> (r: (Bracket, usize))
    requires
        sorted ==> ticks_sorted(ticks(keys@)),
    ensures
        r.0 == bracket_spec(ticks(keys@), q),
{
    if sorted {
        let mut next = start;
        let b = find_bracket_from(keys, q, &mut next);
        (b, next)
    } else {
        (find_in_nearest_time(keys, q), 0)
    }
}

fn cached(cache: &Vec<(usize, usize, usize)>, k: usize) -> (usize, usize, usize) {
    if k < cache.len() {
        cache[k]
    } else {
        (0, 0, 0)
    }
}

/// Decides, joint by joint in skeleton order, what each joint's transform at play-head
/// tick `q` is built from: the parent to start from, and either the bind pose (no track
/// carries the joint's hash) or the first matching track with the bracketing keys of
/// each channel. The searches resume where the previous call on the same cache stopped;
/// the result is that of a full scan of every track.
pub fn plan_pose(skeleton: &Skeleton, animation: &Animation, q: i64, cache: &mut PoseCache) -> (r: Vec<PoseStep>)
    requires
        animation_wf(animation),
    ensures
        r.len() == skeleton.joints.len(),
        forall|i: int|
            0 <= i < r.len() ==> #[trigger] r[i] == step_spec(skeleton.joints@, i, animation.joints@, q),
{
    let n = skeleton.joints.len();
    let mut steps: Vec<PoseStep> = Vec::new();
    let mut next: Vec<(usize, usize, usize)> = Vec::new();
    let mut i: usize = 0;
    while i < n
        invariant
            n == skeleton.joints.len(),
            animation_wf(animation),
            i <= n,
            steps.len() == i,
            forall|k: int|
                0 <= k < i ==> #[trigger] steps[k] == step_spec(skeleton.joints@, k, animation.joints@, q),
        decreases n - i,
    {
        let joint = &skeleton.joints[i];
        let parent = if joint.parent_id >= 0 && (joint.parent_id as usize) < n {
            Some(joint.parent_id as usize)
        } else {
            None
        };
        let source = match find_track(animation, joint.hash) {
            None => {
                next.push((0, 0, 0));
                JointSource::BindPose
            },
            Some(t) => {
                let track = &animation.joints[t];
                assert(track.sorted == tracks_sorted(animation.joints[t as int]));
                let (ct, cr, cs) = cached(&cache.next, i);
                let (translation, nt) = channel_bracket(&track.translations, q, track.sorted, ct);
                let (rotation, nr) = channel_bracket(&track.rotations, q, track.sorted, cr);
                let (scale, ns) = channel_bracket(&track.scales, q, track.sorted, cs);
                next.push((nt, nr, ns));
                JointSource::Animated { track: t, translation, rotation, scale }
            },
        };
        steps.push(PoseStep { parent, source });
        i = i + 1;
    }
    cache.next = next;
    steps
}

} // verus!
