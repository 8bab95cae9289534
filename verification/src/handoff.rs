//! Deferred file handoff: the pending-path queue, the processed flag, the
//! ingestion rules for program arguments and `file://` URLs, and the retry
//! schedule that delivers the first queued path to a frontend that may not
//! be listening yet.
//!
//! The shell owns the clock and the event channel; it drives one delivery
//! attempt per call of [`retry_step`] and sleeps as told. Everything the
//! loop decides — whether to emit, how long to wait, when to give up — is
//! decided here.

use vstd::prelude::*;
use crate::media::{has_prefix, is_video_path_spec, is_video_path, starts_with};
use crate::text::{sanitize_spec, sanitize_path, seq_views};
use vstd::string::StrSliceExecFns;
use vstd::string::StringSliceAdditionalSpecFns;
use vstd::utf8::{decode_utf8, encode_utf8, valid_utf8};

verus! {

/// Value of a hex-digit byte (`0`..`9`, `A`..`F`, `a`..`f`), if it is one.
pub open spec fn hex_digit_val(b: u8) -> Option<u8> {
    if 48 <= b <= 57 {
        Some((b - 48) as u8)
    } else if 65 <= b <= 70 {
        Some((b - 65 + 10) as u8)
    } else if 97 <= b <= 102 {
        Some((b - 97 + 10) as u8)
    } else {
        None
    }
}

/// Percent-decoding over bytes: `%` followed by two hex digits becomes the
/// byte they spell; any other `%` is kept, together with a hex digit that
/// had no valid partner; a `+` is left alone.
pub open spec fn pct_decode_bytes(s: Seq<u8>) -> Seq<u8>
    decreases s.len(),
{
    if s.len() == 0 {
        Seq::empty()
    } else if s[0] != 37 {
        seq![s[0]] + pct_decode_bytes(s.drop_first())
    } else if s.len() < 3 {
        seq![37u8] + s.drop_first()
    } else if hex_digit_val(s[1]) is None {
        seq![37u8] + pct_decode_bytes(s.skip(1))
    } else if hex_digit_val(s[2]) is None {
        seq![37u8, s[1]] + pct_decode_bytes(s.skip(2))
    } else {
        seq![(hex_digit_val(s[1]).unwrap() * 16 + hex_digit_val(s[2]).unwrap()) as u8]
            + pct_decode_bytes(s.skip(3))
    }
}

/// Relies on `urlencoding::decode`: percent-decodes the byte form of `s` as
/// [`pct_decode_bytes`] states, and fails exactly when the decoded bytes are
/// not valid UTF-8.
#[verifier::external_body]
fn percent_decode(s: &str) -> (r: Option<String>)
    ensures
        match r {
            Some(t) => encode_utf8(t@) == pct_decode_bytes(s.spec_bytes()),
            None => !valid_utf8(pct_decode_bytes(s.spec_bytes())),
        },
{
    match urlencoding::decode(s) {
        Ok(t) => Some(t.into_owned()),
        Err(_) => None,
    }
}

/// The path a `file://` URL denotes: the prefix stripped and the remainder
/// percent-decoded. `None` for other URLs and for decodings that are not
/// UTF-8.
pub open spec fn url_to_path(u: Seq<char>) -> Option<Seq<char>> {
    if has_prefix(u, "file://"@) {
        let bytes = pct_decode_bytes(encode_utf8(u.skip(7)));
        if valid_utf8(bytes) {
            Some(decode_utf8(bytes))
        } else {
            None
        }
    } else {
        None
    }
}

/// The program arguments beyond the first, which names the program.
pub open spec fn arg_candidates(args: Seq<Seq<char>>) -> Seq<Seq<char>> {
    if args.len() == 0 {
        Seq::empty()
    } else {
        args.skip(1)
    }
}

/// The video paths among sanitized argument candidates, in order.
pub open spec fn media_from_args(cands: Seq<Seq<char>>) -> Seq<Seq<char>>
    decreases cands.len(),
{
    if cands.len() == 0 {
        Seq::empty()
    } else {
        let c = sanitize_spec(cands[0]);
        (if is_video_path_spec(c) {
            seq![c]
        } else {
            Seq::empty()
        }) + media_from_args(cands.drop_first())
    }
}

/// The video paths among opened URLs, in order.
pub open spec fn media_from_urls(urls: Seq<Seq<char>>) -> Seq<Seq<char>>
    decreases urls.len(),
{
    if urls.len() == 0 {
        Seq::empty()
    } else {
        (match url_to_path(urls[0]) {
            Some(p) => if is_video_path_spec(p) {
                seq![p]
            } else {
                Seq::empty()
            },
            None => Seq::empty(),
        }) + media_from_urls(urls.drop_first())
    }
}

/// Sanitize every program argument beyond the first and keep those that name
/// a video file; arguments that are not media are dropped silently.
pub fn media_paths_from_args(args: &Vec<String>) -> (r: Vec<String>)
    ensures
        seq_views(r@) == media_from_args(arg_candidates(seq_views(args@))),
{
    let ghost cands = arg_candidates(seq_views(args@));
    let mut out: Vec<String> = Vec::new();
    let mut i: usize = 1;
    if args.len() == 0 {
        proof {
            assert(seq_views(args@) =~= Seq::<Seq<char>>::empty());
            assert(seq_views(out@) =~= media_from_args(cands));
        }
        return out;
    }
    proof {
        assert(cands.skip(0) =~= cands);
        assert(seq_views(out@) + media_from_args(cands) =~= media_from_args(cands));
    }
    while i < args.len()
        invariant
            1 <= i <= args.len(),
            args@.len() > 0,
            cands == arg_candidates(seq_views(args@)),
            seq_views(out@) + media_from_args(cands.skip(i - 1)) == media_from_args(cands),
        decreases args.len() - i,
    {
        let c = sanitize_path(args[i].as_str());
        proof {
            assert(cands.skip(i - 1)[0] == args@[i as int]@);
            assert(cands.skip(i - 1).drop_first() =~= cands.skip(i as int));
        }
        if is_video_path(c.as_str()) {
            let ghost before = seq_views(out@);
            out.push(c);
            proof {
                assert(seq_views(out@) =~= before.push(c@));
                assert(seq_views(out@) + media_from_args(cands.skip(i as int))
                    =~= media_from_args(cands));
            }
        } else {
            proof {
                assert(seq_views(out@) + media_from_args(cands.skip(i as int))
                    =~= media_from_args(cands));
            }
        }
        i = i + 1;
    }
    proof {
        assert(cands.skip(i - 1) =~= Seq::<Seq<char>>::empty());
        assert(seq_views(out@) =~= media_from_args(cands));
    }
    out
}

/// Keep the video paths delivered by `file://` open-URLs: strip the prefix,
/// percent-decode the rest, and filter by extension. Other URLs and
/// undecodable paths are dropped silently.
pub fn media_paths_from_urls(urls: &Vec<String>) -> (r: Vec<String>)
    ensures
        seq_views(r@) == media_from_urls(seq_views(urls@)),
{
    let ghost cands = seq_views(urls@);
    let mut out: Vec<String> = Vec::new();
    let mut i: usize = 0;
    proof {
        assert(cands.skip(0) =~= cands);
        assert(seq_views(out@) + media_from_urls(cands) =~= media_from_urls(cands));
    }
    while i < urls.len()
        invariant
            0 <= i <= urls.len(),
            cands == seq_views(urls@),
            seq_views(out@) + media_from_urls(cands.skip(i as int)) == media_from_urls(cands),
        decreases urls.len() - i,
    {
        proof {
            assert(cands.skip(i as int)[0] == urls@[i as int]@);
            assert(cands.skip(i as int).drop_first() =~= cands.skip(i + 1));
        }
        let u = urls[i].as_str();
        let mut kept: Option<String> = None;
        if starts_with(u, "file://") {
            proof {
                reveal_strlit("file://");
            }
            let n = u.unicode_len();
            let rem = u.substring_char(7, n);
            proof {
                assert(rem@ =~= u@.skip(7));
            }
            match percent_decode(rem) {
                Some(d) => {
                    proof {
                        vstd::utf8::encode_utf8_valid_utf8(d@);
                        vstd::utf8::encode_utf8_decode_utf8(d@);
                        assert(encode_utf8(d@) == pct_decode_bytes(encode_utf8(rem@)));
                        assert(url_to_path(u@) == Some(d@));
                    }
                    if is_video_path(d.as_str()) {
                        kept = Some(d);
                    }
                },
                None => {
                },
            }
        }
        match kept {
            Some(d) => {
                let ghost before = seq_views(out@);
                out.push(d);
                proof {
                    assert(seq_views(out@) =~= before.push(d@));
                    assert(seq_views(out@) + media_from_urls(cands.skip(i + 1))
                        =~= media_from_urls(cands));
                }
            },
            None => {
                proof {
                    assert(seq_views(out@) + media_from_urls(cands.skip(i + 1))
                        =~= media_from_urls(cands));
                }
            },
        }
        i = i + 1;
    }
    proof {
        assert(cands.skip(i as int) =~= Seq::<Seq<char>>::empty());
        assert(seq_views(out@) =~= media_from_urls(cands));
    }
    out
}

/// The process-wide handoff state: the FIFO of pending paths and the
/// monotonic processed flag. The shell keeps one value of this behind its
/// mutex; every mutation goes through the methods here.
pub struct HandoffState {
    /// Paths awaiting delivery, oldest first.
    pub pending: Vec<String>,
    /// Set once the frontend acknowledges a delivery; never reset.
    pub processed: bool,
}

impl HandoffState {
    /// Fresh state: nothing pending, nothing processed.
    pub fn new() -> (r: HandoffState)
        ensures
            r.pending@ == Seq::<String>::empty(),
            !r.processed,
    {
        HandoffState { pending: Vec::new(), processed: false }
    }

    /// Append newly ingested paths at the tail, preserving FIFO order.
    pub fn enqueue(&mut self, paths: &Vec<String>)
        ensures
            final(self).pending@ == old(self).pending@ + paths@,
            final(self).processed == old(self).processed,
    {
        let mut i: usize = 0;
        while i < paths.len()
            invariant
                0 <= i <= paths.len(),
                self.pending@ == old(self).pending@ + paths@.take(i as int),
                self.processed == old(self).processed,
            decreases paths.len() - i,
        {
            self.pending.push(paths[i].clone());
            proof {
                assert(old(self).pending@ + paths@.take(i as int) + seq![paths@[i as int]]
                    =~= old(self).pending@ + paths@.take(i + 1));
            }
            i = i + 1;
        }
        proof {
            assert(paths@.take(paths@.len() as int) =~= paths@);
        }
    }

    /// Pop the head of the queue, if any: what the frontend polls for the
    /// paths the retry loop does not deliver.
    pub fn pop_pending(&mut self) -> (r: Option<String>)
        ensures
            final(self).processed == old(self).processed,
            match r {
                Some(p) => old(self).pending@.len() > 0 && p == old(self).pending@[0]
                    && final(self).pending@ == old(self).pending@.drop_first(),
                None => old(self).pending@.len() == 0
                    && final(self).pending@ == old(self).pending@,
            },
    {
        if self.pending.len() == 0 {
            None
        } else {
            let p = self.pending.remove(0);
            proof {
                assert(self.pending@ =~= old(self).pending@.drop_first());
            }
            Some(p)
        }
    }

    /// Record the frontend's acknowledgment. Monotonic: the flag is only
    /// ever raised.
    pub fn mark_processed(&mut self)
        ensures
            final(self).processed,
            final(self).pending@ == old(self).pending@,
    {
        self.processed = true;
    }

    /// Drain the whole queue for immediate dispatch when the frontend says
    /// it is ready. The queue is left empty.
    pub fn drain_for_dispatch(&mut self) -> (r: Vec<String>)
        ensures
            r@ == old(self).pending@,
            final(self).pending@ == Seq::<String>::empty(),
            final(self).processed == old(self).processed,
    {
        let mut drained: Vec<String> = Vec::new();
        core::mem::swap(&mut drained, &mut self.pending);
        drained
    }
}

/// Attempts the delivery task makes before giving up.
pub const MAX_DELIVERY_ATTEMPTS: u32 = 30;

/// The delay after a given attempt, in milliseconds: a 500 ms wake-up grace
/// after the first attempt, then 2000 ms through attempt 5, 1000 ms through
/// attempt 15, and 500 ms for the rest.
pub open spec fn retry_delay_spec(attempt: int) -> int {
    if attempt <= 1 {
        500
    } else if attempt <= 5 {
        2000
    } else if attempt <= 15 {
        1000
    } else {
        500
    }
}

/// Milliseconds the task sleeps in total if it runs all delays through
/// attempt `a`.
pub open spec fn total_delay_through(a: int) -> int
    decreases a,
{
    if a <= 0 {
        0
    } else {
        total_delay_through(a - 1) + retry_delay_spec(a)
    }
}

/// The whole schedule is bounded: a task that never hears an
/// acknowledgment sleeps 500 + 4·2000 + 10·1000 + 14·500 ms in all, and so
/// ends within about 25 s of work time.
pub proof fn lemma_retry_schedule_bound()
    ensures
        total_delay_through(MAX_DELIVERY_ATTEMPTS - 1) == 25500,
{
    reveal_with_fuel(total_delay_through, 30);
}

/// What one attempt of the delivery task does.
#[derive(Clone, Copy, Debug, PartialEq, Eq, Structural)]
pub enum RetryStep {
    /// The flag was up: stop without emitting.
    Stop,
    /// Emit the head path now, then sleep this long before the next attempt
    /// (zero after the last attempt, which ends the task).
    Emit { sleep_ms: u64 },
}

/// Decide one attempt of the retry loop. The shell reads the processed flag
/// under its mutex, passes it in, and performs the returned action: either
/// stop, or emit the first queued path and sleep.
pub fn retry_step(attempt: u32, processed: bool) -> (r: RetryStep)
    requires
        1 <= attempt <= MAX_DELIVERY_ATTEMPTS,
    ensures
        processed <==> r == RetryStep::Stop,
        !processed ==> r == (RetryStep::Emit {
            sleep_ms: if attempt < MAX_DELIVERY_ATTEMPTS {
                retry_delay_spec(attempt as int) as u64
            } else {
                0
            },
        }),
{
    if processed {
        RetryStep::Stop
    } else if attempt >= MAX_DELIVERY_ATTEMPTS {
        RetryStep::Emit { sleep_ms: 0 }
    } else if attempt <= 1 {
        RetryStep::Emit { sleep_ms: 500 }
    } else if attempt <= 5 {
        RetryStep::Emit { sleep_ms: 2000 }
    } else if attempt <= 15 {
        RetryStep::Emit { sleep_ms: 1000 }
    } else {
        RetryStep::Emit { sleep_ms: 500 }
    }
}

/// Model of one whole run of the delivery task: `flags[k]` is the processed
/// flag the task reads at the top of attempt `k + 1`. The task emits at
/// attempt `a` exactly when it has seen the flag down at every attempt
/// through `a`.
pub open spec fn emits_at(flags: Seq<bool>, a: int) -> bool {
    &&& 1 <= a <= flags.len()
    &&& a <= MAX_DELIVERY_ATTEMPTS
    &&& forall|k: int| 0 <= k < a ==> !flags[k]
}

/// A path accepted at any entry point is emitted at least once if the
/// processed flag is never set: with the flag down throughout, the very
/// first attempt emits, and so does every later one.
pub proof fn lemma_emits_when_never_processed(flags: Seq<bool>)
    requires
        flags.len() == MAX_DELIVERY_ATTEMPTS,
        forall|k: int| 0 <= k < flags.len() ==> !flags[k],
    ensures
        emits_at(flags, 1),
        forall|a: int| 1 <= a <= MAX_DELIVERY_ATTEMPTS ==> emits_at(flags, a),
{
}

/// Once the acknowledgment lands, the task emits nothing more: no attempt
/// at or after the first read of a raised flag emits.
pub proof fn lemma_no_emission_after_processed(flags: Seq<bool>, k: int)
    requires
        1 <= k <= flags.len(),
        flags[k - 1],
    ensures
        forall|a: int| a >= k ==> !emits_at(flags, a),
{
    assert forall|a: int| a >= k implies !emits_at(flags, a) by {
        if emits_at(flags, a) {
            assert(!flags[k - 1]);
        }
    }
}

} // verus!
