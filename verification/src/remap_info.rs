//! Metadata of an OpenVAT bake: the bounding box, the frame count and the
//! named animation clips.
use vstd::prelude::*;

verus! {

/// A single named animation clip: frames `start_frame..end_frame` of the
/// bake. `framerate_bits` is the clip's frame rate as the bit pattern of an
/// `f32`; it is carried, never computed on.
#[derive(Clone, Copy, Debug, PartialEq, Eq, Structural)]
pub struct AnimationClip {
    pub start_frame: u32,
    pub end_frame: u32,
    pub framerate_bits: u32,
    pub looping: bool,
}

impl AnimationClip {
    /// The number of frames of a clip whose end does not precede its start.
    pub open spec fn spec_frame_count(self) -> int {
        self.end_frame - self.start_frame
    }

    /// Number of frames in the clip (`end_frame - start_frame`).
    pub fn frame_count(&self) -> (r: u32)
        requires
            self.start_frame <= self.end_frame,
        ensures
            r == self.spec_frame_count(),
            self.start_frame + r == self.end_frame,
    {
        proof {
            lemma_frame_count_spans_clip(*self);
        }
        self.end_frame - self.start_frame
    }
}

/// A clip's frame count is its length: starting at `start_frame` and
/// counting that many frames ends exactly at `end_frame`, whatever the
/// clip's frame rate and looping flag.
pub proof fn lemma_frame_count_spans_clip(clip: AnimationClip)
    requires
        clip.start_frame <= clip.end_frame,
    ensures
        0 <= clip.spec_frame_count() <= clip.end_frame,
        clip.start_frame + clip.spec_frame_count() == clip.end_frame,
{
}

/// The `os-remap` block: the bounding box (each coordinate the bit pattern
/// of an `f32`) and the total number of baked frames.
#[derive(Clone, Copy, Debug)]
pub struct OsRemap {
    pub min_bits: [u32; 3],
    pub max_bits: [u32; 3],
    pub frames: u32,
}

/// Everything a `*-remap_info.json` file says: the `os-remap` block and the
/// animation clips, each with its name. Names are keys: a well-formed value
/// (`wf`) holds no name twice.
#[derive(Debug)]
pub struct RemapInfo {
    pub os_remap: OsRemap,
    pub animations: Vec<(String, AnimationClip)>,
}

/// `clips` lists clips by ascending start frame (ties in any order).
pub open spec fn sorted_by_start_frame(clips: Seq<(String, AnimationClip)>) -> bool {
    forall|i: int, j: int|
        0 <= i < j < clips.len() ==> #[trigger] clips[i].1.start_frame <= #[trigger] clips[j].1.start_frame
}

/// No two entries of `clips` share a name.
pub open spec fn names_distinct(clips: Seq<(String, AnimationClip)>) -> bool {
    forall|i: int, j: int|
        0 <= i < j < clips.len() ==> (#[trigger] clips[i]).0@ != (#[trigger] clips[j]).0@
}

/// Some entry of `clips` is named `name`.
pub open spec fn has_name(clips: Seq<(String, AnimationClip)>, name: Seq<char>) -> bool {
    exists|i: int| 0 <= i < clips.len() && (#[trigger] clips[i]).0@ == name
}

fn copy_entry(e: &(String, AnimationClip)) -> (r: (String, AnimationClip))
    ensures
        r == *e,
{
    (e.0.clone(), e.1)
}

impl RemapInfo {
    /// Clip names are keys: none occurs twice.
    pub open spec fn wf(&self) -> bool {
        names_distinct(self.animations@)
    }

    /// Whether no clip name occurs twice.
    pub fn has_distinct_names(&self) -> (r: bool)
        ensures
            r == self.wf(),
    {
        let n = self.animations.len();
        let mut i: usize = 0;
        while i < n
            invariant
                n == self.animations@.len(),
                0 <= i <= n,
                forall|a: int, b: int|
                    0 <= a < b < n && a < i ==> (#[trigger] self.animations@[a]).0@
                        != (#[trigger] self.animations@[b]).0@,
            decreases n - i,
        {
            let mut j: usize = i + 1;
            while j < n
                invariant
                    n == self.animations@.len(),
                    0 <= i < n,
                    i + 1 <= j <= n,
                    forall|a: int, b: int|
                        0 <= a < b < n && a < i ==> (#[trigger] self.animations@[a]).0@
                            != (#[trigger] self.animations@[b]).0@,
                    forall|b: int| i < b < j ==> self.animations@[i as int].0@ != (#[trigger] self.animations@[b]).0@,
                decreases n - j,
            {
                if self.animations[i].0 == self.animations[j].0 {
                    return false;
                }
                j = j + 1;
            }
            i = i + 1;
        }
        true
    }

    /// Look up a clip by name: the clip of the entry with that name.
    pub fn clip(&self, name: &str) -> (r: Option<&AnimationClip>)
        requires
            self.wf(),
        ensures
            r.is_none() <==> !has_name(self.animations@, name@),
            r matches Some(c) ==> exists|i: int|
                0 <= i < self.animations@.len() && (#[trigger] self.animations@[i]).0@ == name@
                    && *c == self.animations@[i].1,
    {
        let key = name.to_owned();
        let n = self.animations.len();
        let mut i: usize = 0;
        while i < n
            invariant
                n == self.animations@.len(),
                0 <= i <= n,
                key@ == name@,
                forall|j: int| 0 <= j < i ==> (#[trigger] self.animations@[j]).0@ != name@,
            decreases n - i,
        {
            if self.animations[i].0 == key {
                assert(self.animations@[i as int].0@ == name@);
                return Some(&self.animations[i].1);
            }
            i = i + 1;
        }
        None
    }

    /// All clips as a sorted `Vec` of `(name, clip)` pairs, ordered by
    /// `start_frame`.
    pub fn clips_ordered(&self) -> (r: Vec<(String, AnimationClip)>)
        requires
            self.wf(),
        ensures
            sorted_by_start_frame(r@),
            r@.to_multiset() == self.animations@.to_multiset(),
    {
        let ghost all = self.animations@;
        let mut out: Vec<(String, AnimationClip)> = Vec::new();
        let n = self.animations.len();
        let mut i: usize = 0;
        assert(all.take(0) =~= Seq::<(String, AnimationClip)>::empty());
        assert(out@ =~= Seq::<(String, AnimationClip)>::empty());
        while i < n
            invariant
                all == self.animations@,
                n == all.len(),
                0 <= i <= n,
                sorted_by_start_frame(out@),
                out@.to_multiset() == all.take(i as int).to_multiset(),
            decreases n - i,
        {
            let item = copy_entry(&self.animations[i]);
            let key = item.1.start_frame;
            let mut pos = out.len();
            while pos > 0 && out[pos - 1].1.start_frame > key
                invariant
                    pos <= out@.len(),
                    sorted_by_start_frame(out@),
                    forall|k: int| pos <= k < out@.len() ==> (#[trigger] out@[k]).1.start_frame > key,
                decreases pos,
            {
                pos = pos - 1;
            }
            let ghost before = out@;
            proof {
                vstd::seq_lib::to_multiset_insert(before, pos as int, item);
                vstd::seq_lib::to_multiset_build(all.take(i as int), item);
                assert(all.take(i as int + 1) =~= all.take(i as int).push(item));
                assert forall|k: int| 0 <= k < pos implies (#[trigger] before[k]).1.start_frame <= key by {
                    if pos > 0 {
                        assert(before[k].1.start_frame <= before[pos - 1].1.start_frame);
                    }
                }
            }
            out.insert(pos, item);
            proof {
                let s = out@;
                assert(s =~= before.insert(pos as int, item));
                assert forall|a: int, b: int| 0 <= a < b < s.len() implies
                    #[trigger] s[a].1.start_frame <= #[trigger] s[b].1.start_frame by {
                    let p = pos as int;
                    if a < p && b < p {
                        assert(s[a] == before[a] && s[b] == before[b]);
                    } else if a < p && b == p {
                        assert(s[a] == before[a]);
                    } else if a < p && b > p {
                        assert(s[a] == before[a] && s[b] == before[b - 1]);
                    } else if a == p {
                        assert(s[b] == before[b - 1]);
                    } else {
                        assert(s[a] == before[a - 1] && s[b] == before[b - 1]);
                    }
                }
            }
            i = i + 1;
        }
        assert(all.take(n as int) =~= all);
        out
    }
}

} // verus!
