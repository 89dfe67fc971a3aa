//! Media metadata from a probe: what the daemon learns of a wallpaper
//! file's dimensions, and how the first video stream supplies them.

use vstd::prelude::*;

verus! {

/// `AVMEDIA_TYPE_VIDEO`: the media type of a video stream.
pub const AVMEDIA_TYPE_VIDEO: i32 = 0;

/// What a probe found; `None` is "unknown".
#[derive(Debug, Clone, Default, PartialEq, Eq)]
pub struct MediaMeta {
    pub width: Option<u32>,
    pub height: Option<u32>,
}

/// A media probe; implementations are shared across threads.
pub trait MediaProbe: Send + Sync {
    fn probe_media(&self, path: &str) -> MediaMeta;
}

/// The codec parameters a probe reads from one stream.
#[derive(Debug, Clone, Copy, PartialEq, Eq, Structural)]
pub struct StreamParams {
    pub codec_type: i32,
    pub width: i32,
    pub height: i32,
}

/// A positive dimension, or unknown.
pub open spec fn positive_dim(v: i32) -> Option<u32> {
    if v > 0 {
        Some(v as u32)
    } else {
        None
    }
}

/// Index of the first readable video stream, if any.
pub open spec fn first_video(streams: Seq<Option<StreamParams>>) -> Option<int>
    decreases streams.len(),
{
    if streams.len() == 0 {
        None
    } else {
        match first_video(streams.drop_last()) {
            Some(i) => Some(i),
            None => if streams.last() matches Some(p) && p.codec_type == AVMEDIA_TYPE_VIDEO {
                Some(streams.len() - 1)
            } else {
                None
            },
        }
    }
}

/// The dimensions of the first video stream (`None` stands for a stream
/// whose parameters could not be read); each is known only when positive.
pub fn first_video_dimensions(streams: &[Option<StreamParams>]) -> (r: MediaMeta)
    ensures
        match first_video(streams@) {
            Some(i) => r.width == positive_dim(streams@[i].unwrap().width) && r.height == positive_dim(
                streams@[i].unwrap().height,
            ),
            None => r.width is None && r.height is None,
        },
{
    let mut i: usize = 0;
    while i < streams.len()
        invariant
            0 <= i <= streams@.len(),
            first_video(streams@.take(i as int)) is None,
        decreases streams@.len() - i,
    {
        proof {
            assert(streams@.take(i + 1).drop_last() =~= streams@.take(i as int));
        }
        match streams[i] {
            Some(p) => {
                if p.codec_type == AVMEDIA_TYPE_VIDEO {
                    proof {
                        lemma_first_video_stays(streams@, i as int + 1);
                    }
                    let width = if p.width > 0 { Some(p.width as u32) } else { None };
                    let height = if p.height > 0 { Some(p.height as u32) } else { None };
                    return MediaMeta { width, height };
                }
            },
            None => {},
        }
        i = i + 1;
    }
    proof {
        assert(streams@.take(streams@.len() as int) =~= streams@);
    }
    MediaMeta { width: None, height: None }
}

/// Once a prefix has a video stream, every longer prefix finds the same.
proof fn lemma_first_video_stays(s: Seq<Option<StreamParams>>, n: int)
    requires
        0 < n <= s.len(),
        first_video(s.take(n)) is Some,
    ensures
        first_video(s) == first_video(s.take(n)),
    decreases s.len() - n,
{
    if n < s.len() {
        assert(s.take(n + 1).drop_last() =~= s.take(n));
        lemma_first_video_stays(s, n + 1);
    } else {
        assert(s.take(n) =~= s);
    }
}

} // verus!
