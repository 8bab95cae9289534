//! The watch-progress store and the setup-status record.
//!
//! The store is the in-memory form of the persisted per-file progress map:
//! keys are absolute paths and are unique, and a save always overwrites.
//! The shell loads it from disk before use and writes it back after every
//! save; how the bytes look on disk is the shell's business.

use vstd::prelude::*;
use crate::text::{seq_views, str_eq};
use vstd::string::StringExecFns;
use vstd::string::StrSliceExecFns;

verus! {

/// One file's saved progress. The two time values are carried as the
/// shell's raw 64-bit encodings of its floating-point seconds; the core
/// stores them and hands them back, never interpreting them.
pub struct WatchProgress {
    pub path: String,
    pub current_time_bits: u64,
    pub duration_bits: u64,
    pub last_watched: u64,
}

/// The mathematical shadow of a stored entry, keyed separately by path.
#[derive(PartialEq, Eq, Structural)]
pub ghost struct WatchEntry {
    pub current_time_bits: u64,
    pub duration_bits: u64,
    pub last_watched: u64,
}

impl WatchProgress {
    /// The entry without its key.
    pub open spec fn entry(&self) -> WatchEntry {
        WatchEntry {
            current_time_bits: self.current_time_bits,
            duration_bits: self.duration_bits,
            last_watched: self.last_watched,
        }
    }

    /// An equal copy.
    pub fn duplicate(&self) -> (r: WatchProgress)
        ensures
            r == *self,
    {
        WatchProgress {
            path: self.path.clone(),
            current_time_bits: self.current_time_bits,
            duration_bits: self.duration_bits,
            last_watched: self.last_watched,
        }
    }
}

/// The entry stored under path `p`, if any: the first match, which under
/// the store's invariant is the only one.
pub open spec fn lookup(entries: Seq<WatchProgress>, p: Seq<char>) -> Option<WatchEntry>
    decreases entries.len(),
{
    if entries.len() == 0 {
        None
    } else if entries[0].path@ == p {
        Some(entries[0].entry())
    } else {
        lookup(entries.drop_first(), p)
    }
}

/// The persisted progress map, loaded into memory: one entry per path.
pub struct ProgressStore {
    pub entries: Vec<WatchProgress>,
}

impl ProgressStore {
    /// Paths are unique keys.
    pub open spec fn wf(&self) -> bool {
        forall|i: int, j: int|
            0 <= i < j < self.entries@.len() ==> self.entries@[i].path@ != self.entries@[j].path@
    }

    /// An empty store: what a missing or unreadable file on disk loads as.
    pub fn new() -> (r: ProgressStore)
        ensures
            r.wf(),
            r.entries@.len() == 0,
            forall|p: Seq<char>| lookup(r.entries@, p) is None,
    {
        let r = ProgressStore { entries: Vec::new() };
        proof {
            assert(forall|p: Seq<char>| lookup(r.entries@, p) is None);
        }
        r
    }

    /// Create or overwrite the entry for `path` with the given times and
    /// the wall-clock save time the shell read. Any later lookup of `path`
    /// sees exactly this save, and no other key changes.
    pub fn save(
        &mut self,
        path: &str,
        current_time_bits: u64,
        duration_bits: u64,
        now: u64,
    )
        requires
            old(self).wf(),
        ensures
            final(self).wf(),
            lookup(final(self).entries@, path@) == Some(
                (WatchEntry { current_time_bits, duration_bits, last_watched: now }),
            ),
            forall|q: Seq<char>|
                q != path@ ==> lookup(final(self).entries@, q) == lookup(
                    old(self).entries@,
                    q,
                ),
    {
        let new_entry = WatchProgress {
            path: String::from_str(path),
            current_time_bits,
            duration_bits,
            last_watched: now,
        };
        proof {
            assert(new_entry.path@ == path@);
        }
        let mut i: usize = 0;
        let n = self.entries.len();
        while i < n
            invariant
                0 <= i <= n,
                n == self.entries@.len(),
                self.wf(),
                *self == *old(self),
                new_entry.path@ == path@,
                new_entry.current_time_bits == current_time_bits,
                new_entry.duration_bits == duration_bits,
                new_entry.last_watched == now,
                forall|k: int| 0 <= k < i ==> self.entries@[k].path@ != path@,
            decreases n - i,
        {
            if str_eq(self.entries[i].path.as_str(), path) {
                let ghost before = self.entries@;
                proof {
                    assert(before[i as int].path@ == path@);
                }
                self.entries.set(i, new_entry);
                proof {
                    assert(self.entries@ == before.update(i as int, new_entry));
                    assert(self.entries@[i as int] == new_entry);
                    assert(self.entries@[i as int].path@ == path@);
                    lemma_lookup_update(before, self.entries@, i as int, path@);
                }
                return;
            }
            i = i + 1;
        }
        let ghost before = self.entries@;
        self.entries.push(new_entry);
        proof {
            lemma_lookup_append(before, self.entries@, path@);
        }
    }

    /// The saved entry for `path`, if there is one.
    pub fn get(&self, path: &str) -> (r: Option<WatchProgress>)
        requires
            self.wf(),
        ensures
            match r {
                Some(w) => lookup(self.entries@, path@) == Some(w.entry()) && w.path@ == path@,
                None => lookup(self.entries@, path@) is None,
            },
    {
        let n = self.entries.len();
        let mut i: usize = 0;
        while i < n
            invariant
                0 <= i <= n,
                n == self.entries@.len(),
                self.wf(),
                forall|k: int| 0 <= k < i ==> self.entries@[k].path@ != path@,
            decreases n - i,
        {
            if str_eq(self.entries[i].path.as_str(), path) {
                let r = self.entries[i].duplicate();
                proof {
                    lemma_lookup_found(self.entries@, i as int, path@);
                }
                return Some(r);
            }
            i = i + 1;
        }
        proof {
            lemma_lookup_absent(self.entries@, path@);
        }
        None
    }

    /// Every stored entry, for the whole-map query.
    pub fn all(&self) -> (r: &Vec<WatchProgress>)
        ensures
            r@ == self.entries@,
    {
        &self.entries
    }
}

/// If entry `i` holds `p` and no earlier one does, lookup finds it.
proof fn lemma_lookup_found(entries: Seq<WatchProgress>, i: int, p: Seq<char>)
    requires
        0 <= i < entries.len(),
        entries[i].path@ == p,
        forall|k: int| 0 <= k < i ==> entries[k].path@ != p,
    ensures
        lookup(entries, p) == Some(entries[i].entry()),
    decreases i,
{
    if i > 0 {
        lemma_lookup_found(entries.drop_first(), i - 1, p);
    }
}

/// If no entry holds `p`, lookup misses.
proof fn lemma_lookup_absent(entries: Seq<WatchProgress>, p: Seq<char>)
    requires
        forall|k: int| 0 <= k < entries.len() ==> entries[k].path@ != p,
    ensures
        lookup(entries, p) is None,
    decreases entries.len(),
{
    if entries.len() > 0 {
        lemma_lookup_absent(entries.drop_first(), p);
    }
}

/// Overwriting entry `i`, the only one keyed `p`, rebinds `p` and nothing
/// else.
proof fn lemma_lookup_update(before: Seq<WatchProgress>, after: Seq<WatchProgress>, i: int, p: Seq<char>)
    requires
        0 <= i < before.len(),
        after == before.update(i, after[i]),
        after.len() == before.len(),
        after[i].path@ == p,
        before[i].path@ == p,
        forall|a: int, b: int| 0 <= a < b < before.len() ==> before[a].path@ != before[b].path@,
    ensures
        lookup(after, p) == Some(after[i].entry()),
        forall|q: Seq<char>| q != p ==> lookup(after, q) == lookup(before, q),
        forall|a: int, b: int| 0 <= a < b < after.len() ==> after[a].path@ != after[b].path@,
    decreases i,
{
    assert forall|a: int, b: int| 0 <= a < b < after.len() implies after[a].path@ != after[b].path@
        by {
        if a != i && b != i {
            assert(after[a] == before[a] && after[b] == before[b]);
        } else if a == i {
            assert(after[b] == before[b]);
            assert(before[b].path@ != p);
        } else {
            assert(after[a] == before[a]);
            assert(before[a].path@ != p);
        }
    }
    assert forall|k: int| 0 <= k < i implies after[k].path@ != p by {
        assert(after[k] == before[k]);
    }
    lemma_lookup_found(after, i, p);
    assert forall|q: Seq<char>| q != p implies lookup(after, q) == lookup(before, q) by {
        lemma_lookup_frame(before, after, i, q);
    }
}

/// Changing only entry `i` leaves lookups of other keys alone, provided the
/// key of entry `i` is the same on both sides and differs from the key
/// looked up.
proof fn lemma_lookup_frame(before: Seq<WatchProgress>, after: Seq<WatchProgress>, i: int, q: Seq<char>)
    requires
        0 <= i < before.len(),
        after.len() == before.len(),
        forall|k: int| 0 <= k < before.len() && k != i ==> after[k] == before[k],
        after[i].path@ == before[i].path@,
        q != before[i].path@,
    ensures
        lookup(after, q) == lookup(before, q),
    decreases before.len(),
{
    if before.len() > 0 {
        if i == 0 {
            assert(after.drop_first() =~= before.drop_first());
        } else {
            assert(after.drop_first()[i - 1] == after[i]);
            assert(forall|k: int|
                0 <= k < before.drop_first().len() && k != i - 1 ==> after.drop_first()[k]
                    == before.drop_first()[k]);
            lemma_lookup_frame(before.drop_first(), after.drop_first(), i - 1, q);
        }
    }
}

/// Appending a fresh key binds it and leaves every other key alone.
proof fn lemma_lookup_append(before: Seq<WatchProgress>, after: Seq<WatchProgress>, p: Seq<char>)
    requires
        after == before.push(after.last()),
        after.len() == before.len() + 1,
        after.last().path@ == p,
        forall|k: int| 0 <= k < before.len() ==> before[k].path@ != p,
    ensures
        lookup(after, p) == Some(after.last().entry()),
        forall|q: Seq<char>| q != p ==> lookup(after, q) == lookup(before, q),
    decreases before.len(),
{
    assert forall|k: int| 0 <= k < after.len() - 1 implies after[k].path@ != p by {
        assert(after[k] == before[k]);
    }
    lemma_lookup_found(after, after.len() - 1, p);
    assert forall|q: Seq<char>| q != p implies lookup(after, q) == lookup(before, q) by {
        lemma_lookup_push_other(before, after.last(), q);
        assert(before.push(after.last()) == after);
    }
}

/// Pushing an entry keyed `p` does not change lookups of other keys.
proof fn lemma_lookup_push_other(before: Seq<WatchProgress>, e: WatchProgress, q: Seq<char>)
    requires
        q != e.path@,
    ensures
        lookup(before.push(e), q) == lookup(before, q),
    decreases before.len(),
{
    let after = before.push(e);
    assert(after[0] == if before.len() == 0 { e } else { before[0] });
    if before.len() == 0 {
        assert(after[0].path@ != q);
        assert(after.drop_first() =~= Seq::<WatchProgress>::empty());
        assert(lookup(Seq::<WatchProgress>::empty(), q) is None);
        assert(lookup(before, q) is None);
    } else {
        assert(after[0] == before[0]);
        assert(after.drop_first() =~= before.drop_first().push(e));
        lemma_lookup_push_other(before.drop_first(), e, q);
    }
}

/// The environment-derived setup picture the frontend asks for. Only the
/// completion flag is ever persisted.
pub struct SetupStatus {
    pub ffmpeg_installed: bool,
    pub models_installed: Vec<String>,
    pub setup_completed: bool,
}

/// The names of the models whose files the shell found, in the fixed
/// order tiny, small, large-v3-turbo.
pub open spec fn models_from_flags(tiny: bool, small: bool, large: bool) -> Seq<Seq<char>> {
    (if tiny { seq!["tiny"@] } else { Seq::empty() })
        + (if small { seq!["small"@] } else { Seq::empty() })
        + (if large { seq!["large-v3-turbo"@] } else { Seq::empty() })
}

/// Build the installed-models list from the shell's three existence checks.
pub fn installed_models(tiny: bool, small: bool, large: bool) -> (r: Vec<String>)
    ensures
        seq_views(r@) == models_from_flags(tiny, small, large),
{
    let mut r: Vec<String> = Vec::new();
    if tiny {
        r.push(String::from_str("tiny"));
    }
    if small {
        r.push(String::from_str("small"));
    }
    if large {
        r.push(String::from_str("large-v3-turbo"));
    }
    proof {
        assert(seq_views(r@) =~= models_from_flags(tiny, small, large));
    }
    r
}

/// Assemble the setup status from the shell's environment checks and the
/// persisted completion flag.
pub fn setup_status(
    ffmpeg_installed: bool,
    tiny: bool,
    small: bool,
    large: bool,
    setup_completed: bool,
) -> (r: SetupStatus)
    ensures
        r.ffmpeg_installed == ffmpeg_installed,
        seq_views(r.models_installed@) == models_from_flags(tiny, small, large),
        r.setup_completed == setup_completed,
{
    SetupStatus {
        ffmpeg_installed,
        models_installed: installed_models(tiny, small, large),
        setup_completed,
    }
}

} // verus!
