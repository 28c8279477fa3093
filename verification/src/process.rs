//! Session and stdin-channel registries.
//!
//! The orchestrator owns at most one live child process per session id.
//! Process handles and input channels are tracked in two independent
//! registries keyed by session id; the handles themselves are owned by the
//! I/O layer and appear here as opaque tokens.  Each registry's contents
//! are viewed as a map from session id to entry, and the entry vector is
//! kept free of duplicate ids, so "at most one live process per id" is an
//! invariant rather than a convention.

use vstd::prelude::*;
use vstd::map::*;
use vstd::string::StringExecFns;
use crate::chars::{string_to_chars, chars_eq};

verus! {

/// Identity of a launched session as reported to callers.
#[derive(Debug, Clone)]
pub struct SessionInfo {
    pub session_id: String,
    pub pid: u32,
}

/// A registered child process: its session id, its OS process id, and the
/// token under which the I/O layer holds the real process handle.
#[derive(Debug, Clone)]
pub struct ManagedProcess {
    pub session_id: String,
    pub pid: u32,
    pub handle: u64,
}

/// The error taxonomy of the supervision core.
#[derive(Debug, Clone)]
pub enum ProcessError {
    /// The OS refused to start the child, or no binary could be resolved.
    SpawnFailure { resolved_path: String, os_error: String },
    /// A standard stream pipe was unavailable after the spawn; the caller
    /// must terminate the just-spawned process before reporting this.
    StreamCaptureFailure,
    /// An operation named a session id with no registered entry.
    NoSuchSession,
    /// Writing or flushing a child's input stream failed.
    WriteFailure { detail: String },
}

/// Whether some entry of the vector carries the id.
pub open spec fn has_id<V>(entries: Seq<(String, V)>, id: Seq<char>) -> bool {
    exists|i: int| 0 <= i < entries.len() && entries[i].0@ == id
}

/// The index of the entry carrying the id.
pub open spec fn idx_of<V>(entries: Seq<(String, V)>, id: Seq<char>) -> int {
    choose|i: int| 0 <= i < entries.len() && entries[i].0@ == id
}

/// No two entries carry the same id.
pub open spec fn uniq_ids<V>(entries: Seq<(String, V)>) -> bool {
    forall|i: int, j: int|
        0 <= i < j < entries.len() ==> (#[trigger] entries[i]).0@ != (#[trigger] entries[j]).0@
}

/// The entries read as a map from id to value.
pub open spec fn map_of<V>(entries: Seq<(String, V)>) -> Map<Seq<char>, V> {
    Map::new(|id: Seq<char>| has_id(entries, id), |id: Seq<char>| entries[idx_of(entries, id)].1)
}

/// How many entries carry the id.
pub open spec fn count_id<V>(entries: Seq<(String, V)>, id: Seq<char>) -> nat
    decreases entries.len(),
{
    if entries.len() == 0 {
        0
    } else {
        count_id(entries.drop_last(), id) + if entries.last().0@ == id {
            1nat
        } else {
            0nat
        }
    }
}

/// Under unique ids, any entry holding the id is the chosen one.
proof fn lemma_idx_unique<V>(entries: Seq<(String, V)>, id: Seq<char>, i: int)
    requires
        uniq_ids(entries),
        0 <= i < entries.len(),
        entries[i].0@ == id,
    ensures
        idx_of(entries, id) == i,
{
    let j = idx_of(entries, id);
    assert(0 <= j < entries.len() && entries[j].0@ == id);
    if i < j {
        assert(entries[i].0@ != entries[j].0@);
    } else if j < i {
        assert(entries[j].0@ != entries[i].0@);
    }
}

/// Under unique ids an id is carried exactly once, or not at all.
proof fn lemma_count_uniq<V>(entries: Seq<(String, V)>, id: Seq<char>)
    requires
        uniq_ids(entries),
    ensures
        has_id(entries, id) ==> count_id(entries, id) == 1,
        !has_id(entries, id) ==> count_id(entries, id) == 0,
    decreases entries.len(),
{
    if entries.len() == 0 {
    } else {
        let front = entries.drop_last();
        assert(uniq_ids(front)) by {
            assert(forall|i: int, j: int|
                0 <= i < j < front.len() ==> front[i] == entries[i] && front[j] == entries[j]);
        }
        lemma_count_uniq(front, id);
        let last = entries.last();
        if last.0@ == id {
            assert(!has_id(front, id)) by {
                if has_id(front, id) {
                    let i = choose|i: int| 0 <= i < front.len() && front[i].0@ == id;
                    assert(entries[i].0@ == id);
                    assert(entries[i].0@ != entries[entries.len() - 1].0@);
                }
            }
            assert(has_id(entries, id)) by {
                assert(entries[entries.len() - 1].0@ == id);
            }
        } else {
            if has_id(entries, id) {
                let i = choose|i: int| 0 <= i < entries.len() && entries[i].0@ == id;
                assert(i < entries.len() - 1);
                assert(front[i].0@ == id);
                assert(has_id(front, id));
            } else {
                if has_id(front, id) {
                    let i = choose|i: int| 0 <= i < front.len() && front[i].0@ == id;
                    assert(entries[i].0@ == id);
                }
            }
        }
    }
}

/// Appending an entry under a fresh id inserts it into the map view.
proof fn lemma_map_push<V>(entries: Seq<(String, V)>, k: String, v: V)
    requires
        uniq_ids(entries),
        !has_id(entries, k@),
    ensures
        uniq_ids(entries.push((k, v))),
        map_of(entries.push((k, v))) == map_of(entries).insert(k@, v),
{
    let e2 = entries.push((k, v));
    let n = entries.len() as int;
    assert(uniq_ids(e2)) by {
        assert forall|i: int, j: int| 0 <= i < j < e2.len() implies (#[trigger] e2[i]).0@
            != (#[trigger] e2[j]).0@ by {
            if j < n {
                assert(e2[i] == entries[i] && e2[j] == entries[j]);
            } else {
                assert(e2[j].0@ == k@);
                assert(e2[i] == entries[i]);
                assert(entries[i].0@ != k@);
            }
        }
    }
    assert forall|id: Seq<char>| true implies #[trigger] map_of(e2).dom().contains(id) == map_of(
        entries,
    ).insert(k@, v).dom().contains(id) by {
        if id == k@ {
            assert(e2[n].0@ == id);
            assert(has_id(e2, id));
        } else {
            if has_id(e2, id) {
                let i = choose|i: int| 0 <= i < e2.len() && e2[i].0@ == id;
                assert(i < n);
                assert(entries[i].0@ == id);
                assert(has_id(entries, id));
            }
            if has_id(entries, id) {
                let i = choose|i: int| 0 <= i < entries.len() && entries[i].0@ == id;
                assert(e2[i].0@ == id);
                assert(has_id(e2, id));
            }
        }
    }
    assert forall|id: Seq<char>| #[trigger] map_of(e2).dom().contains(id) implies map_of(e2)[id]
        == map_of(entries).insert(k@, v)[id] by {
        if id == k@ {
            lemma_idx_unique(e2, id, n);
        } else {
            let i = choose|i: int| 0 <= i < e2.len() && e2[i].0@ == id;
            assert(i < n);
            assert(entries[i].0@ == id);
            lemma_idx_unique(e2, id, i);
            lemma_idx_unique(entries, id, i);
        }
    }
    assert(map_of(e2) =~= map_of(entries).insert(k@, v));
}

/// Removing the entry at an index removes its id from the map view.
proof fn lemma_map_remove<V>(entries: Seq<(String, V)>, i: int)
    requires
        uniq_ids(entries),
        0 <= i < entries.len(),
    ensures
        uniq_ids(entries.remove(i)),
        map_of(entries.remove(i)) == map_of(entries).remove(entries[i].0@),
{
    let e2 = entries.remove(i);
    let n = entries.len() as int;
    let id0 = entries[i].0@;
    assert(forall|j: int|
        0 <= j < e2.len() ==> #[trigger] e2[j] == if j < i {
            entries[j]
        } else {
            entries[j + 1]
        });
    assert(uniq_ids(e2)) by {
        assert forall|p: int, q: int| 0 <= p < q < e2.len() implies (#[trigger] e2[p]).0@
            != (#[trigger] e2[q]).0@ by {
            let p2 = if p < i {
                p
            } else {
                p + 1
            };
            let q2 = if q < i {
                q
            } else {
                q + 1
            };
            assert(e2[p] == entries[p2] && e2[q] == entries[q2]);
            assert(entries[p2].0@ != entries[q2].0@);
        }
    }
    assert forall|id: Seq<char>| true implies #[trigger] map_of(e2).dom().contains(id) == map_of(
        entries,
    ).remove(id0).dom().contains(id) by {
        if has_id(e2, id) {
            let j = choose|j: int| 0 <= j < e2.len() && e2[j].0@ == id;
            let j2 = if j < i {
                j
            } else {
                j + 1
            };
            assert(entries[j2].0@ == id);
            assert(has_id(entries, id));
            if id == id0 {
                lemma_idx_unique(entries, id, j2);
                lemma_idx_unique(entries, id, i);
                assert(false);
            }
        }
        if has_id(entries, id) && id != id0 {
            let j = choose|j: int| 0 <= j < entries.len() && entries[j].0@ == id;
            if j == i {
                assert(false);
            }
            let j2 = if j < i {
                j
            } else {
                j - 1
            };
            assert(e2[j2].0@ == id);
            assert(has_id(e2, id));
        }
    }
    assert forall|id: Seq<char>| #[trigger] map_of(e2).dom().contains(id) implies map_of(e2)[id]
        == map_of(entries).remove(id0)[id] by {
        let j = choose|j: int| 0 <= j < e2.len() && e2[j].0@ == id;
        let j2 = if j < i {
            j
        } else {
            j + 1
        };
        assert(entries[j2].0@ == id);
        lemma_idx_unique(e2, id, j);
        lemma_idx_unique(entries, id, j2);
    }
    assert(map_of(e2) =~= map_of(entries).remove(id0));
}

/// Compare two string slices by their character sequences.
pub fn str_eq(a: &str, b: &str) -> (r: bool)
    ensures
        r == (a@ == b@),
{
    let va = string_to_chars(a);
    let vb = string_to_chars(b);
    chars_eq(&va, &vb)
}

/// One write handed to the I/O layer: the channel token of the session and
/// the complete framed line to put on its input stream.
#[derive(Debug, Clone)]
pub struct WriteOp {
    pub chan: u64,
    pub line: String,
}

/// The framing of one outbound message: the message followed by a newline.
pub open spec fn spec_frame(m: Seq<char>) -> Seq<char> {
    m + "\n"@
}

/// A framed message whose body holds no newline is one complete line:
/// its only newline is its last character.  Two such writes can never
/// interleave into something other than two lines in order.
pub proof fn lemma_frame_single_line(m: Seq<char>)
    requires
        !crate::chars::seq_contains_char(m, '\n'),
    ensures
        spec_frame(m).len() == m.len() + 1,
        spec_frame(m)[m.len() as int] == '\n',
        forall|k: int| 0 <= k < m.len() ==> spec_frame(m)[k] != '\n',
{
    reveal_strlit("\n");
    assert(forall|k: int| 0 <= k < m.len() ==> spec_frame(m)[k] == m[k]);
}

/// Manages input-channel tokens for the live sessions.  All writes to one
/// session's input funnel through [`StdinManager::send`], whose result is
/// a single complete framed line.
#[derive(Debug)]
pub struct StdinManager {
    entries: Vec<(String, u64)>,
}

impl StdinManager {
    /// The registry as a map from session id to channel token.
    pub closed spec fn view(&self) -> Map<Seq<char>, u64> {
        map_of(self.entries@)
    }

    /// The number of registered entries carrying the id.
    pub closed spec fn entry_count(&self, id: Seq<char>) -> nat {
        count_id(self.entries@, id)
    }

    /// Validity: no id is registered twice.
    pub closed spec fn inv(&self) -> bool {
        uniq_ids(self.entries@)
    }

    /// An id is carried by exactly one entry, or by none.
    pub proof fn lemma_at_most_one(&self, id: Seq<char>)
        requires
            self.inv(),
        ensures
            self@.dom().contains(id) ==> self.entry_count(id) == 1,
            !self@.dom().contains(id) ==> self.entry_count(id) == 0,
    {
        lemma_count_uniq(self.entries@, id);
    }

    pub fn new() -> (r: Self)
        ensures
            r.inv(),
            r@ == Map::<Seq<char>, u64>::empty(),
    {
        let r = StdinManager { entries: Vec::new() };
        proof {
            assert(r@ =~= Map::<Seq<char>, u64>::empty());
        }
        r
    }

    fn index_of(&self, id: &str) -> (r: Option<usize>)
        requires
            self.inv(),
        ensures
            match r {
                Option::Some(i) => i < self.entries@.len() && self.entries@[i as int].0@ == id@
                    && self@.dom().contains(id@) && self@[id@] == self.entries@[i as int].1,
                Option::None => !self@.dom().contains(id@),
            },
    {
        let n: usize = self.entries.len();
        let mut i: usize = 0;
        while i < n
            invariant
                i <= n,
                n == self.entries@.len(),
                self.inv(),
                forall|k: int| 0 <= k < i ==> (#[trigger] self.entries@[k]).0@ != id@,
            decreases n - i,
        {
            if str_eq(self.entries[i].0.as_str(), id) {
                proof {
                    lemma_idx_unique(self.entries@, id@, i as int);
                }
                return Some(i);
            }
            i += 1;
        }
        proof {
            if has_id(self.entries@, id@) {
                let k = choose|k: int|
                    0 <= k < self.entries@.len() && self.entries@[k].0@ == id@;
                assert(self.entries@[k].0@ != id@);
            }
        }
        None
    }

    /// Register the input channel of a session, superseding any prior one.
    pub fn insert(&mut self, id: String, stdin: u64)
        requires
            old(self).inv(),
        ensures
            final(self).inv(),
            final(self)@ == old(self)@.insert(id@, stdin),
            final(self).entry_count(id@) == 1,
    {
        let ghost idv = id@;
        self.remove(id.as_str());
        let ghost mid = self.entries@;
        proof {
            lemma_count_uniq(mid, idv);
            assert(!has_id(mid, idv));
            lemma_map_push(mid, id, stdin);
        }
        self.entries.push((id, stdin));
        proof {
            assert(map_of(self.entries@) == map_of(mid).insert(idv, stdin));
            assert(old(self)@.remove(idv).insert(idv, stdin) =~= old(self)@.insert(idv, stdin));
            lemma_count_uniq(self.entries@, idv);
        }
    }

    /// Drop the entry for an id; removing an absent id is a no-op.
    pub fn remove(&mut self, id: &str)
        requires
            old(self).inv(),
        ensures
            final(self).inv(),
            final(self)@ == old(self)@.remove(id@),
            final(self).entry_count(id@) == 0,
    {
        let found = self.index_of(id);
        match found {
            Option::Some(i) => {
                proof {
                    lemma_map_remove(self.entries@, i as int);
                }
                self.entries.remove(i);
                proof {
                    lemma_count_uniq(self.entries@, id@);
                }
            },
            Option::None => {
                proof {
                    assert(old(self)@ =~= old(self)@.remove(id@));
                    lemma_count_uniq(self.entries@, id@);
                }
            },
        }
    }

    /// The registered channel token for an id, if any.
    pub fn channel(&self, id: &str) -> (r: Option<u64>)
        requires
            self.inv(),
        ensures
            match r {
                Option::Some(c) => self@.dom().contains(id@) && c == self@[id@],
                Option::None => !self@.dom().contains(id@),
            },
    {
        match self.index_of(id) {
            Option::Some(i) => Some(self.entries[i].1),
            Option::None => None,
        }
    }

    /// Resolve one message send: the registered channel for the id and the
    /// complete framed line to write, or `NoSuchSession` when the id has no
    /// registered channel.  Nothing is touched either way: performing the
    /// write (under the per-registry exclusion) is the I/O layer's part.
    pub fn send(&self, id: &str, message: &str) -> (r: Result<WriteOp, ProcessError>)
        requires
            self.inv(),
        ensures
            self@.dom().contains(id@) ==> match r {
                Result::Ok(w) => w.chan == self@[id@] && w.line@ == spec_frame(message@),
                Result::Err(_) => false,
            },
            !self@.dom().contains(id@) ==> (r matches Result::Err(e)
                && e matches ProcessError::NoSuchSession),
    {
        match self.index_of(id) {
            Option::Some(i) => {
                let chan = self.entries[i].1;
                let mut line = message.to_owned();
                line.append("\n");
                Ok(WriteOp { chan, line })
            },
            Option::None => Err(ProcessError::NoSuchSession),
        }
    }
}

/// Manages the process handles of the live sessions, at most one per id.
#[derive(Debug)]
pub struct ProcessManager {
    entries: Vec<(String, ManagedProcess)>,
}

impl ProcessManager {
    /// The registry as a map from session id to registered process.
    pub closed spec fn view(&self) -> Map<Seq<char>, ManagedProcess> {
        map_of(self.entries@)
    }

    /// The number of registered entries carrying the id.
    pub closed spec fn entry_count(&self, id: Seq<char>) -> nat {
        count_id(self.entries@, id)
    }

    /// Validity: no id is registered twice.
    pub closed spec fn inv(&self) -> bool {
        uniq_ids(self.entries@)
    }

    /// An id is carried by exactly one entry, or by none.
    pub proof fn lemma_at_most_one(&self, id: Seq<char>)
        requires
            self.inv(),
        ensures
            self@.dom().contains(id) ==> self.entry_count(id) == 1,
            !self@.dom().contains(id) ==> self.entry_count(id) == 0,
    {
        lemma_count_uniq(self.entries@, id);
    }

    pub fn new() -> (r: Self)
        ensures
            r.inv(),
            r@ == Map::<Seq<char>, ManagedProcess>::empty(),
    {
        let r = ProcessManager { entries: Vec::new() };
        proof {
            assert(r@ =~= Map::<Seq<char>, ManagedProcess>::empty());
        }
        r
    }

    fn index_of(&self, id: &str) -> (r: Option<usize>)
        requires
            self.inv(),
        ensures
            match r {
                Option::Some(i) => i < self.entries@.len() && self.entries@[i as int].0@ == id@
                    && self@.dom().contains(id@),
                Option::None => !self@.dom().contains(id@),
            },
    {
        let n: usize = self.entries.len();
        let mut i: usize = 0;
        while i < n
            invariant
                i <= n,
                n == self.entries@.len(),
                self.inv(),
                forall|k: int| 0 <= k < i ==> (#[trigger] self.entries@[k]).0@ != id@,
            decreases n - i,
        {
            if str_eq(self.entries[i].0.as_str(), id) {
                proof {
                    lemma_idx_unique(self.entries@, id@, i as int);
                }
                return Some(i);
            }
            i += 1;
        }
        proof {
            if has_id(self.entries@, id@) {
                let k = choose|k: int|
                    0 <= k < self.entries@.len() && self.entries@[k].0@ == id@;
                assert(self.entries@[k].0@ != id@);
            }
        }
        None
    }

    /// Register the process of a session, superseding any prior one.
    pub fn insert(&mut self, id: String, process: ManagedProcess)
        requires
            old(self).inv(),
        ensures
            final(self).inv(),
            final(self)@ == old(self)@.insert(id@, process),
            final(self).entry_count(id@) == 1,
    {
        let ghost idv = id@;
        self.remove(id.as_str());
        let ghost mid = self.entries@;
        proof {
            lemma_count_uniq(mid, idv);
            assert(!has_id(mid, idv));
            lemma_map_push(mid, id, process);
        }
        self.entries.push((id, process));
        proof {
            assert(map_of(self.entries@) == map_of(mid).insert(idv, process));
            assert(old(self)@.remove(idv).insert(idv, process) =~= old(self)@.insert(idv, process));
            lemma_count_uniq(self.entries@, idv);
        }
    }

    /// Drop the entry for an id; removing an absent id is a no-op.
    pub fn remove(&mut self, id: &str)
        requires
            old(self).inv(),
        ensures
            final(self).inv(),
            final(self)@ == old(self)@.remove(id@),
            final(self).entry_count(id@) == 0,
    {
        let found = self.index_of(id);
        match found {
            Option::Some(i) => {
                proof {
                    lemma_map_remove(self.entries@, i as int);
                }
                self.entries.remove(i);
                proof {
                    lemma_count_uniq(self.entries@, id@);
                }
            },
            Option::None => {
                proof {
                    assert(old(self)@ =~= old(self)@.remove(id@));
                    lemma_count_uniq(self.entries@, id@);
                }
            },
        }
    }

    /// The registered process for an id, if any.
    pub fn get(&self, id: &str) -> (r: Option<&ManagedProcess>)
        requires
            self.inv(),
        ensures
            match r {
                Option::Some(p) => self@.dom().contains(id@) && *p == self@[id@],
                Option::None => !self@.dom().contains(id@),
            },
    {
        match self.index_of(id) {
            Option::Some(i) => {
                proof {
                    lemma_idx_unique(self.entries@, id@, i as int);
                }
                Some(&self.entries[i].1)
            },
            Option::None => None,
        }
    }
}

/// Two rapid sends to one live session put two complete lines on the
/// input stream, in call order: each framed write ends in its one
/// newline, so the serialized send can never interleave them
/// mid-message.
pub proof fn lemma_sends_non_interleaved(m1: Seq<char>, m2: Seq<char>)
    requires
        !crate::chars::seq_contains_char(m1, '\n'),
        !crate::chars::seq_contains_char(m2, '\n'),
    ensures
        spec_frame(m1)[spec_frame(m1).len() - 1] == '\n',
        spec_frame(m2)[spec_frame(m2).len() - 1] == '\n',
        forall|k: int| 0 <= k < spec_frame(m1).len() - 1 ==> spec_frame(m1)[k] != '\n',
        forall|k: int| 0 <= k < spec_frame(m2).len() - 1 ==> spec_frame(m2)[k] != '\n',
{
    lemma_frame_single_line(m1);
    lemma_frame_single_line(m2);
}

} // verus!
