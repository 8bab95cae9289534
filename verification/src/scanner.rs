//! Recent-media selection: order scanned descriptors newest first and keep
//! at most twenty.
//!
//! The shell walks the well-known directories and builds one descriptor per
//! video file it sees; the ordering and the cap are decided here.

use vstd::prelude::*;
use vstd::multiset::Multiset;

verus! {

broadcast use vstd::seq_lib::group_to_multiset_ensures;

/// A scanned video file. Times are Unix seconds; the optional probed
/// duration is carried as the shell's raw 64-bit encoding of its
/// floating-point seconds, which the core stores but never interprets.
pub struct VideoFile {
    pub path: String,
    pub name: String,
    pub size_bytes: u64,
    pub modified: u64,
    pub duration_bits: Option<u64>,
}

/// Newest first: modification times never increase along the sequence.
pub open spec fn sorted_desc(s: Seq<VideoFile>) -> bool {
    forall|i: int, j: int| 0 <= i < j < s.len() ==> s[i].modified >= s[j].modified
}

/// The cap on how many recent videos are reported.
pub const RECENT_VIDEOS_CAP: usize = 20;

/// Index of a file with the newest modification time.
fn index_of_newest(src: &Vec<VideoFile>) -> (r: usize)
    requires
        src@.len() > 0,
    ensures
        0 <= r < src@.len(),
        forall|k: int| 0 <= k < src@.len() ==> src@[r as int].modified >= #[trigger] src@[k].modified,
{
    let mut best: usize = 0;
    let mut j: usize = 1;
    while j < src.len()
        invariant
            0 <= best < j <= src@.len(),
            forall|k: int| 0 <= k < j ==> src@[best as int].modified >= #[trigger] src@[k].modified,
        decreases src@.len() - j,
    {
        if src[j].modified > src[best].modified {
            best = j;
        }
        j = j + 1;
    }
    best
}

/// Arrange the files newest first. The result is a permutation of the
/// input.
pub fn sort_by_modified_desc(videos: Vec<VideoFile>) -> (r: Vec<VideoFile>)
    ensures
        r@.len() == videos@.len(),
        sorted_desc(r@),
        r@.to_multiset() == videos@.to_multiset(),
{
    let ghost orig = videos@;
    let mut src = videos;
    let mut out: Vec<VideoFile> = Vec::new();
    proof {
        assert(out@.to_multiset().add(src@.to_multiset()) =~= orig.to_multiset());
    }
    while src.len() > 0
        invariant
            sorted_desc(out@),
            out@.to_multiset().add(src@.to_multiset()) == orig.to_multiset(),
            out@.len() + src@.len() == orig.len(),
            forall|k: int|
                0 <= k < src@.len() && out@.len() > 0 ==> out@.last().modified
                    >= #[trigger] src@[k].modified,
        decreases src@.len(),
    {
        let idx = index_of_newest(&src);
        let ghost out_before = out@;
        let ghost src_before = src@;
        let picked = src.remove(idx);
        out.push(picked);
        proof {
            assert(src@.to_multiset() =~= src_before.to_multiset().remove(src_before[idx as int]));
            assert(out@.to_multiset() =~= out_before.to_multiset().insert(picked));
            assert(src_before.to_multiset().count(picked) > 0) by {
                assert(src_before[idx as int] == picked);
                assert(src_before.contains(picked));
            }
            assert(out@.to_multiset().add(src@.to_multiset()) =~= orig.to_multiset());
            assert(sorted_desc(out@)) by {
                assert forall|i: int, j: int| 0 <= i < j < out@.len() implies out@[i].modified
                    >= out@[j].modified by {
                    if j < out@.len() - 1 {
                        assert(out_before[i].modified >= out_before[j].modified);
                    } else if i < out@.len() - 1 {
                        if out_before.len() > 0 {
                            assert(out_before[i].modified >= out_before.last().modified);
                            assert(out_before.last().modified >= src_before[idx as int].modified);
                        }
                    }
                }
            }
            assert forall|k: int| 0 <= k < src@.len() && out@.len() > 0 implies out@.last().modified
                >= #[trigger] src@[k].modified by {
                assert(src@[k] == src_before.remove(idx as int)[k]);
                if k < idx {
                    assert(src@[k] == src_before[k]);
                } else {
                    assert(src@[k] == src_before[k + 1]);
                }
                assert(out@.last() == picked);
            }
        }
    }
    proof {
        assert(src@.to_multiset() =~= Multiset::<VideoFile>::empty());
        assert(out@.to_multiset().add(Multiset::<VideoFile>::empty()) =~= out@.to_multiset());
    }
    out
}

/// The recent-videos answer: the scanned files newest first, capped at
/// twenty. The result is a prefix of a full newest-first arrangement of
/// the input, so nothing kept is older than anything dropped.
pub fn select_recent_videos(videos: Vec<VideoFile>) -> (r: Vec<VideoFile>)
    ensures
        r@.len() == if videos@.len() < 20 { videos@.len() as int } else { 20int },
        sorted_desc(r@),
        exists|full: Seq<VideoFile>|
            {
                &&& full.to_multiset() == videos@.to_multiset()
                &&& sorted_desc(full)
                &&& r@ == full.take(r@.len() as int)
            },
{
    let ghost orig = videos@;
    let mut sorted = sort_by_modified_desc(videos);
    let ghost full = sorted@;
    sorted.truncate(RECENT_VIDEOS_CAP);
    proof {
        assert(sorted@ =~= full.take(sorted@.len() as int));
        assert(sorted_desc(sorted@));
        assert({
            &&& full.to_multiset() == orig.to_multiset()
            &&& sorted_desc(full)
            &&& sorted@ == full.take(sorted@.len() as int)
        });
    }
    sorted
}

} // verus!
