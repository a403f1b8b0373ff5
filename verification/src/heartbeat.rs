//! The heartbeat monitor: when each live node was last heard from, and which
//! of them have been silent for too long.
//!
//! Time is a count of ticks that the caller reads from a monotonic clock;
//! the monitor itself never looks at a clock.

use crate::table::NameTable;
use vstd::prelude::*;

verus! {

/// The staleness timeout used when none is configured, in milliseconds.
pub const DEFAULT_STALENESS_TIMEOUT: u64 = 30_000;

/// Whether a node last heard from at `last_seen` counts as silent at `now`:
/// more than `timeout` ticks have passed since.
pub open spec fn is_stale(last_seen: u64, now: u64, timeout: u64) -> bool {
    now - last_seen > timeout
}

/// The liveness records that survive a sweep at `now`: those that are not
/// stale.
pub open spec fn liveness_after_sweep(
    last_seen: Map<Seq<char>, u64>,
    now: u64,
    timeout: u64,
) -> Map<Seq<char>, u64> {
    Map::new(
        |k: Seq<char>| last_seen.contains_key(k) && !is_stale(last_seen[k], now, timeout),
        |k: Seq<char>| last_seen[k],
    )
}

/// The names as mathematical strings.
pub open spec fn names_of(names: Seq<String>) -> Seq<Seq<char>> {
    names.map_values(|name: String| name@)
}

/// Decides whether a node last heard from at `last_seen` is silent at `now`.
pub fn check_stale(last_seen: u64, now: u64, timeout: u64) -> (stale: bool)
    ensures
        stale == is_stale(last_seen, now, timeout),
{
    now > last_seen && now - last_seen > timeout
}

/// The table of liveness records, one per node that is being watched.
pub struct HeartbeatMonitor {
    last_seen: NameTable<u64>,
    staleness_timeout: u64,
}

impl HeartbeatMonitor {
    /// The liveness records: for each watched name, when it was last heard
    /// from.
    pub closed spec fn view(&self) -> Map<Seq<char>, u64> {
        self.last_seen@
    }

    /// The longest silence that is tolerated.
    pub closed spec fn timeout(&self) -> u64 {
        self.staleness_timeout
    }

    /// The monitor's invariant.
    pub closed spec fn wf(&self) -> bool {
        self.last_seen.wf()
    }

    /// A monitor that watches no node yet.
    pub fn new(staleness_timeout: u64) -> (monitor: HeartbeatMonitor)
        ensures
            monitor.wf(),
            monitor@ == Map::<Seq<char>, u64>::empty(),
            monitor.timeout() == staleness_timeout,
    {
        HeartbeatMonitor { last_seen: NameTable::new(), staleness_timeout }
    }

    /// The longest silence that is tolerated.
    pub fn staleness_timeout(&self) -> (timeout: u64)
        ensures
            timeout == self.timeout(),
    {
        self.staleness_timeout
    }

    /// When `name` was last heard from, if it is being watched.
    pub fn last_seen(&self, name: &String) -> (r: Option<u64>)
        requires
            self.wf(),
        ensures
            r == if self@.contains_key(name@) {
                Some(self@[name@])
            } else {
                None::<u64>
            },
    {
        match self.last_seen.get(name) {
            Some(at) => Some(*at),
            None => None,
        }
    }

    /// Starts watching `name`, as heard from at `now`.
    pub fn track(&mut self, name: String, now: u64)
        requires
            old(self).wf(),
        ensures
            final(self).wf(),
            final(self)@ == old(self)@.insert(name@, now),
            final(self).timeout() == old(self).timeout(),
    {
        self.last_seen.insert(name, now);
    }

    /// Records that `name` was heard from at `now`. A name that is not being
    /// watched is ignored. Returns whether the name is being watched.
    pub fn heartbeat(&mut self, name: &String, now: u64) -> (watched: bool)
        requires
            old(self).wf(),
        ensures
            final(self).wf(),
            watched == old(self)@.contains_key(name@),
            final(self)@ == if watched {
                old(self)@.insert(name@, now)
            } else {
                old(self)@
            },
            final(self).timeout() == old(self).timeout(),
    {
        if self.last_seen.contains_key(name) {
            self.last_seen.insert(name.clone(), now);
            true
        } else {
            false
        }
    }

    /// Stops watching `name`.
    pub fn forget(&mut self, name: &String)
        requires
            old(self).wf(),
        ensures
            final(self).wf(),
            final(self)@ == old(self)@.remove(name@),
            final(self).timeout() == old(self).timeout(),
    {
        self.last_seen.remove(name);
    }

    /// Drops every record that is stale at `now` and returns the names that
    /// were dropped, each once.
    pub fn sweep(&mut self, now: u64) -> (expired: Vec<String>)
        requires
            old(self).wf(),
        ensures
            final(self).wf(),
            final(self)@ == liveness_after_sweep(old(self)@, now, old(self).timeout()),
            final(self).timeout() == old(self).timeout(),
            names_of(expired@).no_duplicates(),
            forall|k: Seq<char>|
                names_of(expired@).contains(k) <==> old(self)@.contains_key(k) && is_stale(
                    old(self)@[k],
                    now,
                    old(self).timeout(),
                ),
    {
        let timeout = self.staleness_timeout;
        let mut kept: NameTable<u64> = NameTable::new();
        let mut expired: Vec<String> = Vec::new();
        let n = self.last_seen.len();
        let mut i: usize = 0;
        while i < n
            invariant
                self.last_seen.wf(),
                *self == *old(self),
                timeout == self.staleness_timeout,
                n == self.last_seen.keys().len(),
                i <= n,
                kept.wf(),
                forall|k: Seq<char>|
                    kept@.contains_key(k) <==> {
                        &&& self.last_seen@.contains_key(k)
                        &&& self.last_seen.keys().index_of(k) < i
                        &&& !is_stale(self.last_seen@[k], now, timeout)
                    },
                forall|k: Seq<char>| kept@.contains_key(k) ==> kept@[k] == self.last_seen@[k],
                forall|k: Seq<char>|
                    names_of(expired@).contains(k) <==> {
                        &&& self.last_seen@.contains_key(k)
                        &&& self.last_seen.keys().index_of(k) < i
                        &&& is_stale(self.last_seen@[k], now, timeout)
                    },
                names_of(expired@).no_duplicates(),
            decreases n - i,
        {
            let name = self.last_seen.key_at(i).clone();
            let at = *self.last_seen.value_at(i);
            proof {
                self.last_seen.lemma_slot_in_view(i as int);
                self.last_seen.lemma_key_has_slot(name@);
            }
            let ghost before = names_of(expired@);
            let stale = check_stale(at, now, timeout);
            if stale {
                expired.push(name);
                proof {
                    assert(names_of(expired@) =~= before.push(name@));
                    assert(!before.contains(name@));
                }
            } else {
                kept.insert_new(name, at);
            }
            proof {
                assert forall|k: Seq<char>|
                    names_of(expired@).contains(k) <==> {
                        &&& self.last_seen@.contains_key(k)
                        &&& self.last_seen.keys().index_of(k) < i + 1
                        &&& is_stale(self.last_seen@[k], now, timeout)
                    } by {
                    if self.last_seen@.contains_key(k) {
                        self.last_seen.lemma_key_has_slot(k);
                    }
                    if stale {
                        if before.contains(k) {
                            let j = before.index_of(k);
                            assert(names_of(expired@)[j] == k);
                        }
                        if k == name@ {
                            assert(names_of(expired@)[before.len() as int] == k);
                        }
                        if names_of(expired@).contains(k) {
                            let j = names_of(expired@).index_of(k);
                            if j < before.len() {
                                assert(before[j] == k);
                            }
                        }
                    }
                }
                assert forall|k: Seq<char>|
                    kept@.contains_key(k) <==> {
                        &&& self.last_seen@.contains_key(k)
                        &&& self.last_seen.keys().index_of(k) < i + 1
                        &&& !is_stale(self.last_seen@[k], now, timeout)
                    } by {
                    if self.last_seen@.contains_key(k) {
                        self.last_seen.lemma_key_has_slot(k);
                    }
                }
            }
            i += 1;
        }
        proof {
            assert forall|k: Seq<char>| self.last_seen@.contains_key(k) implies self.last_seen.keys().index_of(
                k,
            ) < n by {
                self.last_seen.lemma_key_has_slot(k);
            }
            assert(kept@ =~= liveness_after_sweep(self.last_seen@, now, timeout));
        }
        self.last_seen = kept;
        expired
    }
}

} // verus!
