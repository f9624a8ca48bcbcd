//! The window position registry.
//!
//! `WindowPositions` is the single source of truth for "which monitor does
//! this window belong to". It is created empty at startup, every window the
//! factory creates is recorded in it, and the resync handler reads it back.
//! Abstractly it is a map from window label to assigned monitor; a later
//! `insert` for the same label overwrites the earlier one, and looking up an
//! unknown label is a quiet miss, never an error.
//!
//! The shell that owns the registry guards it with one mutual-exclusion lock
//! and takes that lock around each call, so the whole-operation contracts
//! here are exactly what a caller observes.

use vstd::prelude::*;

use crate::geometry::MonitorInfo;

verus! {

/// The map described by a list of label/monitor entries, later entries
/// overwriting earlier ones.
spec fn entries_map(s: Seq<(String, MonitorInfo)>) -> Map<Seq<char>, MonitorInfo>
    decreases s.len(),
{
    if s.len() == 0 {
        Map::empty()
    } else {
        entries_map(s.drop_last()).insert(s.last().0@, s.last().1)
    }
}

/// Process-wide record of which monitor each wallpaper window was assigned.
pub struct WindowPositions {
    entries: Vec<(String, MonitorInfo)>,
}

impl View for WindowPositions {
    type V = Map<Seq<char>, MonitorInfo>;

    closed spec fn view(&self) -> Map<Seq<char>, MonitorInfo> {
        entries_map(self.entries@)
    }
}

impl WindowPositions {
    /// An empty registry: no window has been assigned a monitor yet.
    pub fn new() -> (r: WindowPositions)
        ensures
            r@ == Map::<Seq<char>, MonitorInfo>::empty(),
    {
        WindowPositions { entries: Vec::new() }
    }

    /// Records (or overwrites) the monitor assigned to the window labelled
    /// `id`.
    pub fn insert(&mut self, id: String, monitor: MonitorInfo)
        ensures
            final (self)@ == old(self)@.insert(id@, monitor),
    {
        self.entries.push((id, monitor));
        proof {
            assert(self.entries@.drop_last() =~= old(self).entries@);
        }
    }

    /// Returns a copy of the monitor recorded for `id`, or `None` when `id`
    /// was never inserted — a quiet miss, not an error.
    pub fn get(&self, id: &str) -> (r: Option<MonitorInfo>)
        ensures
            self@.contains_key(id@) ==> r == Some(self@[id@]),
            !self@.contains_key(id@) ==> r is None,
    {
        let key = String::from_str(id);
        let mut i = self.entries.len();
        proof {
            assert(self.entries@.subrange(0, i as int) =~= self.entries@);
        }
        while i > 0
            invariant
                i <= self.entries.len(),
                key@ == id@,
                entries_map(self.entries@.subrange(0, i as int)).contains_key(id@)
                    == self@.contains_key(id@),
                self@.contains_key(id@) ==> entries_map(
                    self.entries@.subrange(0, i as int),
                ).contains_key(id@) && entries_map(self.entries@.subrange(0, i as int))[id@]
                    == self@[id@],
            decreases i,
        {
            let prefix_len = i;
            i = i - 1;
            proof {
                let pre = self.entries@.subrange(0, prefix_len as int);
                assert(pre.drop_last() =~= self.entries@.subrange(0, i as int));
                assert(pre.last() == self.entries@[i as int]);
            }
            if self.entries[i].0 == key {
                return Some(self.entries[i].1);
            }
        }
        proof {
            assert(self.entries@.subrange(0, 0) =~= Seq::<(String, MonitorInfo)>::empty());
        }
        None
    }
}

/// What was inserted is what comes back: after `insert(id, m)`, a `get(id)`
/// finds a monitor with exactly the origin, size and scale of `m`.
pub proof fn lemma_registry_round_trip(
    r: Map<Seq<char>, MonitorInfo>,
    id: Seq<char>,
    m: MonitorInfo,
)
    ensures
        r.insert(id, m).contains_key(id),
        r.insert(id, m)[id] == m,
{
}

/// A lookup never inserted is a miss: inserting under one label leaves every
/// other label exactly as it was, so a label never written stays absent.
pub proof fn lemma_registry_miss_unaffected(
    r: Map<Seq<char>, MonitorInfo>,
    id: Seq<char>,
    m: MonitorInfo,
    other: Seq<char>,
)
    requires
        other != id,
    ensures
        r.insert(id, m).contains_key(other) == r.contains_key(other),
        r.contains_key(other) ==> r.insert(id, m)[other] == r[other],
{
}

/// A batch of insertions under pairwise-distinct labels loses nothing: after
/// inserting them all, each label maps to exactly the monitor inserted under
/// it. The registry's lock serializes concurrent callers into such a batch.
pub proof fn lemma_registry_batch(
    r: Map<Seq<char>, MonitorInfo>,
    batch: Seq<(Seq<char>, MonitorInfo)>,
)
    requires
        forall|i: int, j: int|
            0 <= i < j < batch.len() ==> (#[trigger] batch[i]).0 != (#[trigger] batch[j]).0,
    ensures
        forall|i: int|
            0 <= i < batch.len() ==> insert_all(r, batch).contains_key((#[trigger] batch[i]).0)
                && insert_all(r, batch)[batch[i].0] == batch[i].1,
    decreases batch.len(),
{
    if batch.len() > 0 {
        let head = batch.drop_last();
        lemma_registry_batch(r, head);
        assert forall|i: int|
            0 <= i < batch.len() implies insert_all(r, batch).contains_key(
            (#[trigger] batch[i]).0,
        ) && insert_all(r, batch)[batch[i].0] == batch[i].1 by {
            if i < batch.len() - 1 {
                assert(head[i] == batch[i]);
                assert(batch[i].0 != batch.last().0);
            }
        }
    }
}

/// The map after inserting every entry of `batch`, in order, into `r`.
pub open spec fn insert_all(
    r: Map<Seq<char>, MonitorInfo>,
    batch: Seq<(Seq<char>, MonitorInfo)>,
) -> Map<Seq<char>, MonitorInfo>
    decreases batch.len(),
{
    if batch.len() == 0 {
        r
    } else {
        insert_all(r, batch.drop_last()).insert(batch.last().0, batch.last().1)
    }
}

} // verus!
