//! Decision rules of the model downloader: when a response may be written
//! to disk, what an HTTP failure reports, and when progress is emitted.
//!
//! The shell performs the request and streams the body; before it creates
//! the destination file it asks [`is_success_status`], so a failed request
//! never leaves bytes behind.

use vstd::prelude::*;
use crate::srt::{dec_rep, u64_to_dec};
use crate::text::{contains_sub, contains_str};
use vstd::string::StrSliceExecFns;
use vstd::string::StringExecFns;

verus! {

/// A response may be written to disk only on a 2xx status.
pub fn is_success_status(code: u16) -> (r: bool)
    ensures
        r == (200 <= code < 300),
{
    200 <= code && code < 300
}

/// A content type whose body is worth quoting in an error message: text,
/// JSON, XML or HTML.
pub open spec fn is_textual_content_type_spec(ct: Seq<char>) -> bool {
    ||| contains_sub(ct, "text"@)
    ||| contains_sub(ct, "json"@)
    ||| contains_sub(ct, "xml"@)
    ||| contains_sub(ct, "html"@)
}

/// Whether an error body with this content type gets quoted.
pub fn is_textual_content_type(ct: &str) -> (r: bool)
    ensures
        r == is_textual_content_type_spec(ct@),
{
    contains_str(ct, "text") || contains_str(ct, "json") || contains_str(ct, "xml")
        || contains_str(ct, "html")
}

/// At most the first 512 characters of an error body.
pub fn snippet_of(body: &str) -> (r: String)
    ensures
        r@ == body@.take(if body@.len() < 512 { body@.len() as int } else { 512int }),
{
    let n = body.unicode_len();
    let end = if n < 512 { n } else { 512 };
    body.substring_char(0, end).to_owned()
}

/// The message a refused download reports: the status code and its text,
/// and the quoted snippet when there is one.
pub fn http_error_message(code: u16, status_text: &str, snippet: &str) -> (r: String)
    ensures
        snippet@.len() == 0 ==> r@ == "HTTP error "@ + dec_rep(code as nat) + " "@
            + status_text@,
        snippet@.len() > 0 ==> r@ == "HTTP error "@ + dec_rep(code as nat) + " "@ + status_text@
            + ": "@ + snippet@,
{
    let mut s = String::from_str("HTTP error ");
    s.append(u64_to_dec(code as u64).as_str());
    s.append(" ");
    s.append(status_text);
    if snippet.unicode_len() > 0 {
        s.append(": ");
        s.append(snippet);
    }
    s
}

/// Emit a progress event when the running total crosses a 1 MiB boundary
/// within the chunk just written, and once more at completion.
pub fn should_emit_download_progress(downloaded: u64, chunk_len: u64, total: u64) -> (r: bool)
    ensures
        r == (downloaded % 1048576 < chunk_len || downloaded == total),
{
    downloaded % 1048576 < chunk_len || downloaded == total
}

} // verus!
