//! A plain model of file paths: the directory part, the file name, its
//! stem and extension, and sibling-file construction.
//!
//! Both `/` and `\` separate components. The directory part keeps its
//! trailing separator, so a sibling path is the directory part with a new
//! name appended — nothing is ever re-inserted.

use vstd::prelude::*;
use crate::media::{is_subtitle_ext_folded, subtitle_ext_matches};
use crate::text::{fold_lower, lower_of};
use vstd::string::StrSliceExecFns;
use vstd::string::StringExecFns;

verus! {

/// A path-component separator.
pub open spec fn is_sep(c: char) -> bool {
    c == '/' || c == '\\'
}

/// Index of the last separator, or `-1` when there is none.
pub open spec fn last_sep_idx(p: Seq<char>) -> int
    decreases p.len(),
{
    if p.len() == 0 {
        -1
    } else if is_sep(p.last()) {
        p.len() - 1
    } else {
        last_sep_idx(p.drop_last())
    }
}

/// The directory part, trailing separator kept; empty for a bare name.
pub open spec fn dir_part(p: Seq<char>) -> Seq<char> {
    p.take(last_sep_idx(p) + 1)
}

/// The file name: everything after the last separator.
pub open spec fn file_name(p: Seq<char>) -> Seq<char> {
    p.skip(last_sep_idx(p) + 1)
}

/// Index of the last dot of a name, or `-1` when there is none.
pub open spec fn last_dot_idx(n: Seq<char>) -> int
    decreases n.len(),
{
    if n.len() == 0 {
        -1
    } else if n.last() == '.' {
        n.len() - 1
    } else {
        last_dot_idx(n.drop_last())
    }
}

/// The stem of a file name: up to its last dot, except that a leading dot
/// (a dotfile) belongs to the stem.
pub open spec fn stem_of_name(n: Seq<char>) -> Seq<char> {
    if last_dot_idx(n) <= 0 {
        n
    } else {
        n.take(last_dot_idx(n))
    }
}

/// The extension of a file name: after its last dot, absent for a bare or
/// dotfile name.
pub open spec fn ext_of_name(n: Seq<char>) -> Option<Seq<char>> {
    if last_dot_idx(n) <= 0 {
        None
    } else {
        Some(n.skip(last_dot_idx(n) + 1))
    }
}

/// Split a path into its directory part (trailing separator kept) and its
/// file name.
pub fn split_dir_name(p: &str) -> (r: (String, String))
    ensures
        r.0@ == dir_part(p@),
        r.1@ == file_name(p@),
{
    let n = p.unicode_len();
    let mut i: usize = n;
    while i > 0
        invariant
            0 <= i <= n,
            n == p@.len(),
            forall|k: int| i <= k < n ==> !is_sep(p@[k]),
        decreases i,
    {
        let c = p.get_char(i - 1);
        if c == '/' || c == '\\' {
            proof {
                lemma_last_sep_at(p@, i - 1);
            }
            let d = p.substring_char(0, i);
            let f = p.substring_char(i, n);
            return (d.to_owned(), f.to_owned());
        }
        i = i - 1;
    }
    proof {
        lemma_last_sep_none(p@);
        assert(p@.take(0) =~= Seq::<char>::empty());
        assert(p@.skip(0) =~= p@);
    }
    (String::new(), p.to_owned())
}

/// If position `i` holds a separator and nothing after it does, it is the
/// last one.
proof fn lemma_last_sep_at(p: Seq<char>, i: int)
    requires
        0 <= i < p.len(),
        is_sep(p[i]),
        forall|k: int| i < k < p.len() ==> !is_sep(p[k]),
    ensures
        last_sep_idx(p) == i,
    decreases p.len(),
{
    if i == p.len() - 1 {
    } else {
        assert(!is_sep(p.last()));
        assert forall|k: int| i < k < p.drop_last().len() implies !is_sep(p.drop_last()[k]) by {
            assert(p.drop_last()[k] == p[k]);
        }
        assert(p.drop_last()[i] == p[i]);
        lemma_last_sep_at(p.drop_last(), i);
    }
}

/// With no separator anywhere, there is no last one.
proof fn lemma_last_sep_none(p: Seq<char>)
    requires
        forall|k: int| 0 <= k < p.len() ==> !is_sep(p[k]),
    ensures
        last_sep_idx(p) == -1,
    decreases p.len(),
{
    if p.len() > 0 {
        assert forall|k: int| 0 <= k < p.drop_last().len() implies !is_sep(p.drop_last()[k]) by {
            assert(p.drop_last()[k] == p[k]);
        }
        lemma_last_sep_none(p.drop_last());
    }
}

proof fn lemma_last_dot_at(n: Seq<char>, i: int)
    requires
        0 <= i < n.len(),
        n[i] == '.',
        forall|k: int| i < k < n.len() ==> n[k] != '.',
    ensures
        last_dot_idx(n) == i,
    decreases n.len(),
{
    if i == n.len() - 1 {
    } else {
        assert(n.last() != '.');
        assert forall|k: int| i < k < n.drop_last().len() implies n.drop_last()[k] != '.' by {
            assert(n.drop_last()[k] == n[k]);
        }
        assert(n.drop_last()[i] == n[i]);
        lemma_last_dot_at(n.drop_last(), i);
    }
}

proof fn lemma_last_dot_none(n: Seq<char>)
    requires
        forall|k: int| 0 <= k < n.len() ==> n[k] != '.',
    ensures
        last_dot_idx(n) == -1,
    decreases n.len(),
{
    if n.len() > 0 {
        assert forall|k: int| 0 <= k < n.drop_last().len() implies n.drop_last()[k] != '.' by {
            assert(n.drop_last()[k] == n[k]);
        }
        lemma_last_dot_none(n.drop_last());
    }
}

/// Split a file name into stem and optional extension.
pub fn split_stem_ext(name: &str) -> (r: (String, Option<String>))
    ensures
        r.0@ == stem_of_name(name@),
        match r.1 {
            Some(e) => ext_of_name(name@) == Some(e@),
            None => ext_of_name(name@) is None,
        },
{
    let n = name.unicode_len();
    let mut i: usize = n;
    while i > 0
        invariant
            0 <= i <= n,
            n == name@.len(),
            forall|k: int| i <= k < n ==> name@[k] != '.',
        decreases i,
    {
        if name.get_char(i - 1) == '.' {
            proof {
                lemma_last_dot_at(name@, i - 1);
            }
            if i - 1 == 0 {
                return (name.to_owned(), None);
            }
            let stem = name.substring_char(0, i - 1);
            let ext = name.substring_char(i, n);
            return (stem.to_owned(), Some(ext.to_owned()));
        }
        i = i - 1;
    }
    proof {
        lemma_last_dot_none(name@);
    }
    (name.to_owned(), None)
}

/// The pieces of a video path the pipeline builds its outputs from: the
/// directory part and the file stem. Absent when the path has no file
/// name, as for a path ending in a separator.
pub fn video_path_parts(p: &str) -> (r: Option<(String, String)>)
    ensures
        match r {
            Some(parts) => file_name(p@).len() > 0 && parts.0@ == dir_part(p@) && parts.1@
                == stem_of_name(file_name(p@)),
            None => file_name(p@).len() == 0,
        },
{
    let (dir, name) = split_dir_name(p);
    if name.as_str().unicode_len() == 0 {
        return None;
    }
    let (stem, _) = split_stem_ext(name.as_str());
    Some((dir, stem))
}

/// A path in the same directory with the given file name.
pub open spec fn sibling_spec(p: Seq<char>, name: Seq<char>) -> Seq<char> {
    dir_part(p) + name
}

/// The five subtitle sidecar candidates for a video path, in the fixed
/// order srt, vtt, ass, ssa, sub: the video's own stem with each subtitle
/// extension, in the video's directory. The shell probes them in order.
pub fn subtitle_candidates(video_path: &str) -> (r: Option<Vec<String>>)
    ensures
        match r {
            Some(v) => {
                &&& file_name(video_path@).len() > 0
                &&& crate::text::seq_views(v@) == candidate_names(video_path@)
            },
            None => file_name(video_path@).len() == 0,
        },
{
    let parts = match video_path_parts(video_path) {
        Some(parts) => parts,
        None => {
            return None;
        },
    };
    let (dir, stem) = parts;
    let mut out: Vec<String> = Vec::new();
    out.push(join3(dir.as_str(), stem.as_str(), ".srt"));
    out.push(join3(dir.as_str(), stem.as_str(), ".vtt"));
    out.push(join3(dir.as_str(), stem.as_str(), ".ass"));
    out.push(join3(dir.as_str(), stem.as_str(), ".ssa"));
    out.push(join3(dir.as_str(), stem.as_str(), ".sub"));
    proof {
        assert(crate::text::seq_views(out@) =~= candidate_names(video_path@));
    }
    Some(out)
}

/// The candidate sidecar paths, in order.
pub open spec fn candidate_names(p: Seq<char>) -> Seq<Seq<char>> {
    let d = dir_part(p);
    let st = stem_of_name(file_name(p));
    seq![
        d + st + ".srt"@,
        d + st + ".vtt"@,
        d + st + ".ass"@,
        d + st + ".ssa"@,
        d + st + ".sub"@,
    ]
}

/// Concatenate directory, stem and suffix.
fn join3(dir: &str, stem: &str, suffix: &str) -> (r: String)
    ensures
        r@ == dir@ + stem@ + suffix@,
{
    let mut s = dir.to_owned();
    s.append(stem);
    s.append(suffix);
    s
}

/// A directory entry matches as a sidecar when its stem equals the
/// video's stem up to Unicode case — both folded by [`lower_of`] — and
/// its folded extension is a subtitle format.
pub open spec fn sidecar_matches(video_stem: Seq<char>, entry_name: Seq<char>) -> bool {
    &&& lower_of(stem_of_name(entry_name)) == lower_of(video_stem)
    &&& match ext_of_name(entry_name) {
        Some(e) => is_subtitle_ext_folded(e),
        None => false,
    }
}

/// The first matching entry, scanning in order.
pub open spec fn first_sidecar(video_stem: Seq<char>, names: Seq<Seq<char>>) -> Option<int>
    decreases names.len(),
{
    if names.len() == 0 {
        None
    } else if sidecar_matches(video_stem, names[0]) {
        Some(0int)
    } else {
        match first_sidecar(video_stem, names.drop_first()) {
            Some(i) => Some(i + 1),
            None => None,
        }
    }
}

/// Case-insensitive sidecar search over a directory listing: the first
/// entry whose stem matches the video's and whose extension is a subtitle
/// format, returned as a full path in the video's directory.
pub fn find_subtitle_in_listing(video_path: &str, names: &Vec<String>) -> (r: Option<String>)
    ensures
        match r {
            Some(found) => {
                &&& file_name(video_path@).len() > 0
                &&& match first_sidecar(
                    stem_of_name(file_name(video_path@)),
                    crate::text::seq_views(names@),
                ) {
                    Some(i) => found@ == dir_part(video_path@) + names@[i]@,
                    None => false,
                }
            },
            None => file_name(video_path@).len() == 0 || first_sidecar(
                stem_of_name(file_name(video_path@)),
                crate::text::seq_views(names@),
            ) is None,
        },
{
    let parts = match video_path_parts(video_path) {
        Some(parts) => parts,
        None => {
            return None;
        },
    };
    let (dir, stem) = parts;
    let folded_vstem = fold_lower(stem.as_str());
    let ghost views = crate::text::seq_views(names@);
    let ghost vstem = stem_of_name(file_name(video_path@));
    let mut i: usize = 0;
    while i < names.len()
        invariant
            0 <= i <= names.len(),
            views == crate::text::seq_views(names@),
            vstem == stem_of_name(file_name(video_path@)),
            stem@ == vstem,
            folded_vstem@ == lower_of(vstem),
            dir@ == dir_part(video_path@),
            file_name(video_path@).len() > 0,
            forall|k: int| 0 <= k < i ==> !sidecar_matches(vstem, #[trigger] views[k]),
        decreases names.len() - i,
    {
        let name = names[i].as_str();
        let (estem, eext) = split_stem_ext(name);
        let matched = match eext {
            Some(e) => subtitle_ext_matches(e.as_str())
                && crate::text::str_eq(fold_lower(estem.as_str()).as_str(), folded_vstem.as_str()),
            None => false,
        };
        proof {
            assert(views[i as int] == names@[i as int]@);
            assert(matched == sidecar_matches(vstem, views[i as int]));
        }
        if matched {
            let mut full = dir;
            full.append(name);
            proof {
                lemma_first_sidecar_at(vstem, views, i as int);
            }
            return Some(full);
        }
        i = i + 1;
    }
    proof {
        lemma_first_sidecar_none(vstem, views);
    }
    None
}

/// If entry `i` matches and none before it does, the scan finds `i`.
proof fn lemma_first_sidecar_at(stem: Seq<char>, names: Seq<Seq<char>>, i: int)
    requires
        0 <= i < names.len(),
        sidecar_matches(stem, names[i]),
        forall|k: int| 0 <= k < i ==> !sidecar_matches(stem, #[trigger] names[k]),
    ensures
        first_sidecar(stem, names) == Some(i),
    decreases i,
{
    if i > 0 {
        lemma_first_sidecar_at(stem, names.drop_first(), i - 1);
    }
}

/// With no matching entry there is nothing to find.
proof fn lemma_first_sidecar_none(stem: Seq<char>, names: Seq<Seq<char>>)
    requires
        forall|k: int| 0 <= k < names.len() ==> !sidecar_matches(stem, #[trigger] names[k]),
    ensures
        first_sidecar(stem, names) is None,
    decreases names.len(),
{
    if names.len() > 0 {
        lemma_first_sidecar_none(stem, names.drop_first());
    }
}

/// The asset-bridge URL the webview plays files through: the fixed prefix
/// with the path appended as it stands, preserved byte for byte.
pub fn asset_url(path: &str) -> (r: String)
    ensures
        r@ == "https://asset.localhost/"@ + path@,
{
    let mut s = String::from_str("https://asset.localhost/");
    s.append(path);
    s
}

} // verus!
