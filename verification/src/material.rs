//! The per-material uniform settings that the VAT vertex shader reads.
use vstd::prelude::*;

use crate::remap_info::{sorted_by_start_frame, AnimationClip, RemapInfo};

verus! {

/// The material's shader settings, as plain values: float fields are bit
/// patterns of `f32`, and the texture height `y_resolution` is an integer
/// pixel count.
#[derive(Clone, Copy, Debug)]
pub struct VatSettings {
    pub bounds_min_bits: [u32; 3],
    /// Total animation frames from remap_info "Frames" field.
    pub frame_count: u32,
    pub bounds_max_bits: [u32; 3],
    /// Texture pixel height: positions and normals share one texture, so
    /// twice the frame count.
    pub y_resolution: u64,
    pub fps_bits: u32,
    /// Global time when the current clip started.
    pub time_offset_bits: u32,
    pub clip_start_frame: u32,
    pub clip_frame_count: u32,
}

/// `clips[i]` starts no later than any clip of `clips`.
pub open spec fn starts_first(clips: Seq<(String, AnimationClip)>, i: int) -> bool {
    &&& 0 <= i < clips.len()
    &&& forall|j: int| 0 <= j < clips.len() ==> clips[i].1.start_frame <= (#[trigger] clips[j]).1.start_frame
}

impl VatSettings {
    /// Settings for a whole bake: its bounds and frame count, the frame
    /// rate of the clip that starts first, no time offset, and the whole
    /// frame range as the current clip.
    pub fn from_remap_info(info: &RemapInfo) -> (r: VatSettings)
        requires
            info.wf(),
            info.animations@.len() > 0,
        ensures
            r.bounds_min_bits == info.os_remap.min_bits,
            r.bounds_max_bits == info.os_remap.max_bits,
            r.frame_count == info.os_remap.frames,
            r.y_resolution == 2 * info.os_remap.frames,
            exists|i: int|
                starts_first(info.animations@, i) && r.fps_bits
                    == (#[trigger] info.animations@[i]).1.framerate_bits,
            r.time_offset_bits == 0,
            r.clip_start_frame == 0,
            r.clip_frame_count == info.os_remap.frames,
    {
        let os = &info.os_remap;
        let ordered = info.clips_ordered();
        proof {
            let all = info.animations@;
            let o = ordered@;
            all.to_multiset_ensures();
            o.to_multiset_ensures();
            assert(o.len() > 0);
            assert(o.contains(o[0]));
            assert(o.to_multiset().count(o[0]) > 0);
            assert(all.to_multiset().count(o[0]) > 0);
            assert(all.contains(o[0]));
            let i = choose|i: int| 0 <= i < all.len() && all[i] == o[0];
            assert forall|j: int| 0 <= j < all.len() implies all[i].1.start_frame <= (#[trigger] all[j]).1.start_frame by {
                assert(all.contains(all[j]));
                assert(all.to_multiset().count(all[j]) > 0);
                assert(o.to_multiset().count(all[j]) > 0);
                assert(o.contains(all[j]));
                let p = choose|p: int| 0 <= p < o.len() && o[p] == all[j];
                if p > 0 {
                    assert(sorted_by_start_frame(o));
                    assert(o[0].1.start_frame <= o[p].1.start_frame);
                }
            }
            assert(starts_first(all, i));
        }
        let fps_bits = ordered[0].1.framerate_bits;
        VatSettings {
            bounds_min_bits: os.min_bits,
            bounds_max_bits: os.max_bits,
            frame_count: os.frames,
            y_resolution: 2 * (os.frames as u64),
            fps_bits,
            time_offset_bits: 0,
            clip_start_frame: 0,
            clip_frame_count: os.frames,
        }
    }
}

} // verus!
