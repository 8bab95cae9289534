//! Recognized media types: extension sets and case-insensitive matching.

use vstd::prelude::*;
use crate::text::lower_char;

verus! {

/// ASCII-lowercased copy of `s`.
pub open spec fn lower(s: Seq<char>) -> Seq<char> {
    s.map_values(|c: char| lower_char(c))
}

/// `s` ends with `suffix`.
pub open spec fn has_suffix(s: Seq<char>, suffix: Seq<char>) -> bool {
    s.len() >= suffix.len() && s.subrange(s.len() - suffix.len(), s.len() as int) == suffix
}

/// `s` begins with `prefix`.
pub open spec fn has_prefix(s: Seq<char>, prefix: Seq<char>) -> bool {
    s.len() >= prefix.len() && s.subrange(0, prefix.len() as int) == prefix
}

/// Whether the lowercased `s` ends with the given suffix.
pub fn ends_with_lower(s: &str, suffix: &str) -> (r: bool)
    ensures
        r == has_suffix(lower(s@), suffix@),
{
    let n = s.unicode_len();
    let m = suffix.unicode_len();
    if n < m {
        return false;
    }
    let mut i: usize = 0;
    while i < m
        invariant
            0 <= i <= m <= n,
            n == s@.len(),
            m == suffix@.len(),
            forall|k: int| 0 <= k < i ==> lower(s@)[n - m + k] == suffix@[k],
        decreases m - i,
    {
        if crate::text::char_to_lower(s.get_char(n - m + i)) != suffix.get_char(i) {
            assert(lower(s@)[n - m + i] != suffix@[i as int]);
            assert(!has_suffix(lower(s@), suffix@)) by {
                if has_suffix(lower(s@), suffix@) {
                    assert(lower(s@).subrange(n - m, n as int)[i as int] == suffix@[i as int]);
                }
            }
            return false;
        }
        i = i + 1;
    }
    proof {
        assert(lower(s@).subrange(n - m, n as int) =~= suffix@);
    }
    true
}

/// `s` begins with `prefix`, compared exactly.
pub fn starts_with(s: &str, prefix: &str) -> (r: bool)
    ensures
        r == has_prefix(s@, prefix@),
{
    let n = s.unicode_len();
    let m = prefix.unicode_len();
    if n < m {
        return false;
    }
    let mut i: usize = 0;
    while i < m
        invariant
            0 <= i <= m <= n,
            n == s@.len(),
            m == prefix@.len(),
            forall|k: int| 0 <= k < i ==> s@[k] == prefix@[k],
        decreases m - i,
    {
        if s.get_char(i) != prefix.get_char(i) {
            assert(!has_prefix(s@, prefix@)) by {
                if has_prefix(s@, prefix@) {
                    assert(s@.subrange(0, m as int)[i as int] == prefix@[i as int]);
                }
            }
            return false;
        }
        i = i + 1;
    }
    proof {
        assert(s@.subrange(0, m as int) =~= prefix@);
    }
    true
}

/// Two strings are equal up to ASCII case.
pub open spec fn eq_ignore_case_spec(a: Seq<char>, b: Seq<char>) -> bool {
    lower(a) == lower(b)
}

/// Compare two strings ignoring ASCII case.
pub fn eq_ignore_case(a: &str, b: &str) -> (r: bool)
    ensures
        r == eq_ignore_case_spec(a@, b@),
{
    let n = a.unicode_len();
    if n != b.unicode_len() {
        assert(lower(a@).len() != lower(b@).len());
        return false;
    }
    let mut i: usize = 0;
    while i < n
        invariant
            0 <= i <= n,
            n == a@.len() && n == b@.len(),
            forall|k: int| 0 <= k < i ==> lower(a@)[k] == lower(b@)[k],
        decreases n - i,
    {
        if crate::text::char_to_lower(a.get_char(i)) != crate::text::char_to_lower(b.get_char(i)) {
            assert(lower(a@)[i as int] != lower(b@)[i as int]);
            return false;
        }
        i = i + 1;
    }
    proof {
        assert(lower(a@) =~= lower(b@));
    }
    true
}

/// The lowercased path ends in one of the recognized video extensions.
pub open spec fn is_video_path_spec(p: Seq<char>) -> bool {
    ||| has_suffix(lower(p), ".mp4"@)
    ||| has_suffix(lower(p), ".mkv"@)
    ||| has_suffix(lower(p), ".avi"@)
    ||| has_suffix(lower(p), ".mov"@)
    ||| has_suffix(lower(p), ".wmv"@)
    ||| has_suffix(lower(p), ".flv"@)
    ||| has_suffix(lower(p), ".webm"@)
    ||| has_suffix(lower(p), ".m4v"@)
    ||| has_suffix(lower(p), ".mpg"@)
    ||| has_suffix(lower(p), ".mpeg"@)
    ||| has_suffix(lower(p), ".ogv"@)
}

/// Recognize a video file by its extension, case-insensitively.
pub fn is_video_path(p: &str) -> (r: bool)
    ensures
        r == is_video_path_spec(p@),
{
    ends_with_lower(p, ".mp4") || ends_with_lower(p, ".mkv") || ends_with_lower(p, ".avi")
        || ends_with_lower(p, ".mov") || ends_with_lower(p, ".wmv") || ends_with_lower(p, ".flv")
        || ends_with_lower(p, ".webm") || ends_with_lower(p, ".m4v") || ends_with_lower(p, ".mpg")
        || ends_with_lower(p, ".mpeg") || ends_with_lower(p, ".ogv")
}

/// The lowercased path ends in one of the recognized image extensions.
pub open spec fn is_image_path_spec(p: Seq<char>) -> bool {
    ||| has_suffix(lower(p), ".jpg"@)
    ||| has_suffix(lower(p), ".jpeg"@)
    ||| has_suffix(lower(p), ".png"@)
    ||| has_suffix(lower(p), ".gif"@)
    ||| has_suffix(lower(p), ".webp"@)
    ||| has_suffix(lower(p), ".bmp"@)
    ||| has_suffix(lower(p), ".svg"@)
    ||| has_suffix(lower(p), ".avif"@)
    ||| has_suffix(lower(p), ".heic"@)
    ||| has_suffix(lower(p), ".heif"@)
}

/// Recognize an image file by its extension, case-insensitively.
pub fn is_image_path(p: &str) -> (r: bool)
    ensures
        r == is_image_path_spec(p@),
{
    ends_with_lower(p, ".jpg") || ends_with_lower(p, ".jpeg") || ends_with_lower(p, ".png")
        || ends_with_lower(p, ".gif") || ends_with_lower(p, ".webp") || ends_with_lower(p, ".bmp")
        || ends_with_lower(p, ".svg") || ends_with_lower(p, ".avif")
        || ends_with_lower(p, ".heic") || ends_with_lower(p, ".heif")
}

/// The ASCII-lowercased extension is one of the recognized subtitle
/// formats.
pub open spec fn is_subtitle_ext_spec(e: Seq<char>) -> bool {
    ||| lower(e) == "srt"@
    ||| lower(e) == "vtt"@
    ||| lower(e) == "ass"@
    ||| lower(e) == "ssa"@
    ||| lower(e) == "sub"@
}

/// Recognize a subtitle format by its bare extension, up to ASCII case.
/// The sidecar scan uses the Unicode-folding [`subtitle_ext_matches`]
/// instead; this exact predicate describes the recognized set itself.
pub fn is_subtitle_ext(e: &str) -> (r: bool)
    ensures
        r == is_subtitle_ext_spec(e@),
{
    proof {
        reveal_strlit("srt");
        reveal_strlit("vtt");
        reveal_strlit("ass");
        reveal_strlit("ssa");
        reveal_strlit("sub");
        assert(lower("srt"@) =~= "srt"@);
        assert(lower("vtt"@) =~= "vtt"@);
        assert(lower("ass"@) =~= "ass"@);
        assert(lower("ssa"@) =~= "ssa"@);
        assert(lower("sub"@) =~= "sub"@);
    }
    eq_ignore_case(e, "srt") || eq_ignore_case(e, "vtt") || eq_ignore_case(e, "ass")
        || eq_ignore_case(e, "ssa") || eq_ignore_case(e, "sub")
}

/// The Unicode-folded extension is one of the recognized subtitle
/// formats: how the sidecar scan compares, via [`crate::text::lower_of`].
pub open spec fn is_subtitle_ext_folded(e: Seq<char>) -> bool {
    ||| crate::text::lower_of(e) == "srt"@
    ||| crate::text::lower_of(e) == "vtt"@
    ||| crate::text::lower_of(e) == "ass"@
    ||| crate::text::lower_of(e) == "ssa"@
    ||| crate::text::lower_of(e) == "sub"@
}

/// Recognize a subtitle format by its bare extension, folded as the
/// standard library folds case.
pub fn subtitle_ext_matches(e: &str) -> (r: bool)
    ensures
        r == is_subtitle_ext_folded(e@),
{
    let folded = crate::text::fold_lower(e);
    let f = folded.as_str();
    crate::text::str_eq(f, "srt") || crate::text::str_eq(f, "vtt")
        || crate::text::str_eq(f, "ass") || crate::text::str_eq(f, "ssa")
        || crate::text::str_eq(f, "sub")
}

} // verus!
