//! What holds of every run of the control plane.
//!
//! A run is a sequence of [`Event`]s applied to a [`TellerState`], one whole
//! event after the other, which is how the service behaves behind its lock.
//! The laws below are stated over runs and proved from the definitions of
//! the transitions.

use crate::heartbeat::is_stale;
use crate::node::{NodeStatus, NodeView};
use crate::state::{
    lemma_heartbeat_wf, lemma_process_exited_wf, lemma_remove_wf, lemma_start_wf, lemma_sweep_wf,
    StartOutcome, TellerState,
};
use vstd::prelude::*;

verus! {

/// One thing that happens to the control plane.
pub enum Event {
    /// An attempt to start `node` at `now`; `spawned` tells whether its
    /// process could be created.
    Start { node: NodeView, spawned: bool, now: u64 },
    /// A heartbeat from `name` that arrived at `now`.
    Heartbeat { name: Seq<char>, now: u64 },
    /// The process of `name` exited.
    ProcessExited { name: Seq<char>, success: bool },
    /// The periodic sweep ran at `now`.
    Sweep { now: u64 },
    /// An operator removed the entry of `name`.
    Remove { name: Seq<char> },
}

impl Event {
    /// Whether the event is an attempt to start a node called `name`.
    pub open spec fn starts(self, name: Seq<char>) -> bool {
        self matches Event::Start { node, .. } && node.name == name
    }

    /// Whether the event removes the entry of `name`.
    pub open spec fn removes(self, name: Seq<char>) -> bool {
        self matches Event::Remove { name: removed } && removed == name
    }

    /// Whether the event is a heartbeat from `name`.
    pub open spec fn is_heartbeat_of(self, name: Seq<char>) -> bool {
        self matches Event::Heartbeat { name: from, .. } && from == name
    }

    /// Whether the event reports that the process of `name` exited.
    pub open spec fn reports_exit_of(self, name: Seq<char>) -> bool {
        self matches Event::ProcessExited { name: exited, .. } && exited == name
    }
}

impl TellerState {
    /// The state after `event`.
    pub open spec fn step(self, event: Event) -> TellerState {
        match event {
            Event::Start { node, spawned, now } => self.start(node, spawned, now),
            Event::Heartbeat { name, now } => self.heartbeat(name, now),
            Event::ProcessExited { name, success } => self.process_exited(name, success),
            Event::Sweep { now } => self.sweep(now),
            Event::Remove { name } => self.remove(name),
        }
    }

    /// The state after all of `events`, in order.
    pub open spec fn run(self, events: Seq<Event>) -> TellerState
        decreases events.len(),
    {
        if events.len() == 0 {
            self
        } else {
            self.run(events.drop_last()).step(events.last())
        }
    }

    /// Whether the event at index `i` of `events` is an attempt to start
    /// `name` that succeeds, in the run of `events` from `self`.
    pub open spec fn starts_at(self, events: Seq<Event>, i: int, name: Seq<char>) -> bool {
        &&& events[i] matches Event::Start { node, spawned, .. }
        &&& node.name == name
        &&& self.run(events.take(i)).start_outcome(node, spawned) is Started
    }

    /// Whether the event at index `i` of `events` is an attempt to start a
    /// node that is refused because the name is taken.
    pub open spec fn refused_at(self, events: Seq<Event>, i: int) -> bool {
        &&& events[i] matches Event::Start { node, spawned, .. }
        &&& self.run(events.take(i)).start_outcome(node, spawned) is AlreadyExists
    }

    /// When `name` was last heard from after `events`: at its latest
    /// heartbeat among them, or as `self` has it on record if there is none.
    pub open spec fn last_heard(self, events: Seq<Event>, name: Seq<char>) -> u64
        decreases events.len(),
    {
        if events.len() == 0 {
            self.last_seen[name]
        } else {
            match events.last() {
                Event::Heartbeat { name: from, now } if from == name => now,
                _ => self.last_heard(events.drop_last(), name),
            }
        }
    }
}

/// A run of one more event is the run so far followed by that event.
pub proof fn lemma_run_unfolds(s: TellerState, events: Seq<Event>, i: int)
    requires
        0 <= i < events.len(),
    ensures
        s.run(events.take(i + 1)) == s.run(events.take(i)).step(events[i]),
{
    assert(events.take(i + 1).drop_last() =~= events.take(i));
}

/// Every event preserves the invariant of the control plane.
pub proof fn lemma_step_wf(s: TellerState, event: Event)
    requires
        s.wf(),
    ensures
        s.step(event).wf(),
{
    match event {
        Event::Start { node, spawned, now } => lemma_start_wf(s, node, spawned, now),
        Event::Heartbeat { name, now } => lemma_heartbeat_wf(s, name, now),
        Event::ProcessExited { name, success } => lemma_process_exited_wf(s, name, success),
        Event::Sweep { now } => lemma_sweep_wf(s, now),
        Event::Remove { name } => lemma_remove_wf(s, name),
    }
}

/// The invariant of the control plane holds throughout every run.
pub proof fn lemma_run_wf(s: TellerState, events: Seq<Event>)
    requires
        s.wf(),
    ensures
        s.run(events).wf(),
    decreases events.len(),
{
    if events.len() > 0 {
        lemma_run_wf(s, events.drop_last());
        lemma_step_wf(s.run(events.drop_last()), events.last());
    }
}

/// A node's record only ever advances. Whatever happens short of removing
/// the entry, the node stays registered under its name with its executable
/// path, its status does not go back along
/// `Initialising → Running → Stopped`, and once it has stopped the record no
/// longer changes at all.
pub proof fn lemma_status_only_advances(s: TellerState, event: Event, name: Seq<char>)
    requires
        s.wf(),
        s.nodes.contains_key(name),
        !event.removes(name),
    ensures
        s.step(event).nodes.contains_key(name),
        s.step(event).nodes[name].name == s.nodes[name].name,
        s.step(event).nodes[name].executable_path == s.nodes[name].executable_path,
        s.step(event).nodes[name].status.rank() >= s.nodes[name].status.rank(),
        s.nodes[name].status is Stopped ==> s.step(event).nodes[name] == s.nodes[name],
{
}

/// A registered name stays registered for as long as no event removes it.
pub proof fn lemma_name_stays_taken(
    s: TellerState,
    events: Seq<Event>,
    name: Seq<char>,
    from: int,
    to: int,
)
    requires
        0 <= from <= to <= events.len(),
        s.run(events.take(from)).nodes.contains_key(name),
        forall|r: int| from <= r < to ==> !(#[trigger] events[r]).removes(name),
    ensures
        s.run(events.take(to)).nodes.contains_key(name),
    decreases to - from,
{
    if from < to {
        lemma_name_stays_taken(s, events, name, from, to - 1);
        lemma_run_unfolds(s, events, to - 1);
    }
}

/// Uniqueness. Of two attempts to start the same name, at most one
/// succeeds, unless the entry was removed between them.
pub proof fn lemma_start_succeeds_at_most_once(
    s: TellerState,
    events: Seq<Event>,
    name: Seq<char>,
    i: int,
    j: int,
)
    requires
        0 <= i < j < events.len(),
        s.starts_at(events, i, name),
        forall|r: int| i < r < j ==> !(#[trigger] events[r]).removes(name),
    ensures
        !s.starts_at(events, j, name),
        events[j].starts(name) ==> s.refused_at(events, j),
{
    lemma_run_unfolds(s, events, i);
    lemma_name_stays_taken(s, events, name, i + 1, j);
}

/// Atomicity. A start that fails because the process could not be created
/// leaves the state exactly as it was, and the listing shows no entry for
/// the name.
pub proof fn lemma_failed_spawn_leaves_no_entry(
    s: TellerState,
    node: NodeView,
    spawned: bool,
    now: u64,
)
    requires
        s.start_outcome(node, spawned) is SpawnFailed,
    ensures
        s.start(node, spawned, now) == s,
        !s.start(node, spawned, now).nodes.contains_key(node.name),
{
}

/// A start that is refused because the name is taken leaves the state
/// exactly as it was, whatever became of the process.
pub proof fn lemma_refused_start_changes_nothing(
    s: TellerState,
    node: NodeView,
    spawned: bool,
    now: u64,
)
    requires
        s.start_outcome(node, spawned) is AlreadyExists,
    ensures
        s.start(node, spawned, now) == s,
{
}

/// Race safety. When any number of starts of one vacant name, each with a
/// process that can be created, are served one after the other in whatever
/// order, the first one served succeeds and every other one is refused
/// because the name is taken.
pub proof fn lemma_racing_starts_have_one_winner(
    s: TellerState,
    attempts: Seq<Event>,
    name: Seq<char>,
)
    requires
        !s.nodes.contains_key(name),
        attempts.len() >= 1,
        forall|i: int|
            0 <= i < attempts.len() ==> (#[trigger] attempts[i] matches Event::Start {
                node,
                spawned,
                ..
            } && node.name == name && spawned),
    ensures
        s.starts_at(attempts, 0, name),
        forall|i: int|
            1 <= i < attempts.len() ==> !s.starts_at(attempts, i, name) && #[trigger] s.refused_at(
                attempts,
                i,
            ),
{
    assert forall|i: int| 1 <= i < attempts.len() implies !s.starts_at(attempts, i, name)
        && #[trigger] s.refused_at(attempts, i) by {
        assert forall|r: int| 0 < r < i implies !(#[trigger] attempts[r]).removes(name) by {}
        lemma_start_succeeds_at_most_once(s, attempts, name, 0, i);
    }
}

/// The process-exit report takes effect at once. A node that has not
/// stopped is `Stopped` right after its exit is reported, as crashed exactly
/// when the exit was not a success, and it is no longer watched.
pub proof fn lemma_exit_stops_node(s: TellerState, name: Seq<char>, success: bool)
    requires
        s.wf(),
        s.is_live(name),
    ensures
        s.process_exited(name, success).nodes[name].status == (NodeStatus::Stopped {
            crashed: !success,
        }),
        !s.process_exited(name, success).last_seen.contains_key(name),
        !s.process_exited(name, success).handles.contains(name),
{
}

/// A sweep leaves alone every node that was heard from within the staleness
/// timeout.
pub proof fn lemma_sweep_spares_fresh_node(s: TellerState, name: Seq<char>, now: u64)
    requires
        s.nodes.contains_key(name),
        !s.is_silent(name, now),
    ensures
        s.sweep(now).nodes[name] == s.nodes[name],
        s.sweep(now).last_seen.contains_key(name) == s.last_seen.contains_key(name),
{
}

/// Heartbeat liveness, one step of it: a watched node of which no exit is
/// reported and that is not removed stays watched, with its latest
/// heartbeat on record, provided that a sweep, if this is one, comes within
/// the staleness timeout of when the node was last heard from.
proof fn lemma_watched_node_stays_watched(s: TellerState, event: Event, name: Seq<char>)
    requires
        s.wf(),
        s.last_seen.contains_key(name),
        !event.removes(name),
        !event.reports_exit_of(name),
        event matches Event::Sweep { now } ==> !is_stale(
            s.last_seen[name],
            now,
            s.staleness_timeout,
        ),
    ensures
        s.step(event).last_seen.contains_key(name),
        s.step(event).last_seen[name] == match event {
            Event::Heartbeat { name: from, now } if from == name => now,
            _ => s.last_seen[name],
        },
        s.step(event).staleness_timeout == s.staleness_timeout,
{
}

/// Heartbeat liveness. Take a watched node of which no exit is reported and
/// that is not removed. If every sweep of a run comes within the staleness
/// timeout of when the node was last heard from before it, the node is
/// never stopped: it is live after every prefix of the run.
pub proof fn lemma_heartbeats_keep_node_alive(
    s: TellerState,
    events: Seq<Event>,
    name: Seq<char>,
    upto: int,
)
    requires
        s.wf(),
        s.last_seen.contains_key(name),
        0 <= upto <= events.len(),
        forall|i: int|
            0 <= i < events.len() ==> !(#[trigger] events[i]).removes(name)
                && !events[i].reports_exit_of(name),
        forall|i: int|
            0 <= i < events.len() ==> (#[trigger] events[i] matches Event::Sweep { now }
                ==> !is_stale(s.last_heard(events.take(i), name), now, s.staleness_timeout)),
    ensures
        s.run(events.take(upto)).wf(),
        s.run(events.take(upto)).is_live(name),
        s.run(events.take(upto)).last_seen.contains_key(name),
        s.run(events.take(upto)).last_seen[name] == s.last_heard(events.take(upto), name),
        s.run(events.take(upto)).staleness_timeout == s.staleness_timeout,
    decreases upto,
{
    if upto > 0 {
        let i = upto - 1;
        lemma_heartbeats_keep_node_alive(s, events, name, i);
        lemma_run_unfolds(s, events, i);
        let mid = s.run(events.take(i));
        assert(events[i] matches Event::Sweep { now } ==> !is_stale(
            s.last_heard(events.take(i), name),
            now,
            s.staleness_timeout,
        ));
        lemma_watched_node_stays_watched(mid, events[i], name);
        lemma_step_wf(mid, events[i]);
        assert(events.take(upto).drop_last() =~= events.take(i));
    }
}

/// Staleness detection, one sweep of it: a sweep stops every node that has
/// been silent for longer than the staleness timeout, as crashed, and stops
/// watching it.
pub proof fn lemma_sweep_stops_silent_node(s: TellerState, name: Seq<char>, now: u64)
    requires
        s.wf(),
        s.is_silent(name, now),
    ensures
        s.sweep(now).nodes.contains_key(name),
        s.sweep(now).nodes[name].status == (NodeStatus::Stopped { crashed: true }),
        !s.sweep(now).last_seen.contains_key(name),
{
}

/// Sweeps that run every `period` ticks from `first_sweep` on do not skip a
/// deadline: some sweep falls after `heard + timeout` and no later than
/// `period` ticks after it. The result is the number of that sweep.
pub proof fn lemma_some_sweep_meets_deadline(
    heard: int,
    timeout: int,
    first_sweep: int,
    period: int,
) -> (k: nat)
    requires
        period > 0,
        first_sweep <= heard + timeout + period,
    ensures
        heard + timeout < first_sweep + k * period <= heard + timeout + period,
{
    let deadline = heard + timeout;
    if first_sweep > deadline {
        0
    } else {
        let gap = deadline - first_sweep;
        let q = gap / period;
        let k = (q + 1) as nat;
        assert(0 <= q && q * period <= gap < q * period + period) by (nonlinear_arith)
            requires
                gap >= 0,
                period > 0,
                q == gap / period,
        ;
        assert(k * period == q * period + period) by (nonlinear_arith)
            requires
                k == q + 1,
        ;
        k
    }
}

/// Staleness detection. A node that was last heard from at `heard` and
/// then falls silent is stopped as crashed within the staleness timeout
/// plus one sweep period. Among the sweeps that run every `period` ticks
/// from `first_sweep` on, the one whose number and time are returned falls
/// within that deadline, and it stops the node in whatever state still has
/// the node on record as last heard from at `heard`.
pub proof fn lemma_silence_is_detected_by_deadline(
    heard: u64,
    timeout: u64,
    first_sweep: u64,
    period: u64,
    name: Seq<char>,
) -> (sweep: (nat, u64))
    requires
        period > 0,
        first_sweep <= heard + timeout + period <= u64::MAX,
    ensures
        sweep.1 == first_sweep + sweep.0 * period,
        heard + timeout < sweep.1 <= heard + timeout + period,
        forall|s: TellerState|
            #![trigger s.sweep(sweep.1)]
            s.wf() && s.staleness_timeout == timeout && s.last_seen.contains_key(name)
                && s.last_seen[name] == heard ==> s.sweep(sweep.1).nodes.contains_key(name)
                && s.sweep(sweep.1).nodes[name].status == (NodeStatus::Stopped { crashed: true }),
{
    let k = lemma_some_sweep_meets_deadline(
        heard as int,
        timeout as int,
        first_sweep as int,
        period as int,
    );
    let at = (first_sweep + k * period) as u64;
    assert forall|s: TellerState|
        #![trigger s.sweep(at)]
        s.wf() && s.staleness_timeout == timeout && s.last_seen.contains_key(name)
            && s.last_seen[name] == heard implies s.sweep(at).nodes.contains_key(name) && s.sweep(
        at,
    ).nodes[name].status == (NodeStatus::Stopped { crashed: true }) by {
        lemma_sweep_stops_silent_node(s, name, at);
    }
    (k, at)
}

/// What holds of a registered node that was last heard from at `heard` for
/// as long as it sends no heartbeat and is not removed: it is either still
/// on record as heard from at `heard`, or stopped.
spec fn silent_since(s: TellerState, name: Seq<char>, heard: u64, timeout: u64) -> bool {
    &&& s.wf()
    &&& s.staleness_timeout == timeout
    &&& s.nodes.contains_key(name)
    &&& s.last_seen.contains_key(name) ==> s.last_seen[name] == heard
}

/// The state of a node that stays silent, after the first `upto` events of a
/// run in which it sends no heartbeat and is not removed.
proof fn lemma_silence_persists(
    s: TellerState,
    events: Seq<Event>,
    name: Seq<char>,
    upto: int,
)
    requires
        s.wf(),
        s.last_seen.contains_key(name),
        0 <= upto <= events.len(),
        forall|j: int|
            0 <= j < upto ==> !(#[trigger] events[j]).removes(name) && !events[j].is_heartbeat_of(
                name,
            ),
    ensures
        silent_since(s.run(events.take(upto)), name, s.last_seen[name], s.staleness_timeout),
        (forall|j: int| 0 <= j < upto ==> !(#[trigger] events[j]).reports_exit_of(name)) ==> (
        s.run(events.take(upto)).nodes[name].status is Stopped ==> s.run(
            events.take(upto),
        ).nodes[name].status == (NodeStatus::Stopped { crashed: true })),
    decreases upto,
{
    if upto > 0 {
        let i = upto - 1;
        lemma_silence_persists(s, events, name, i);
        lemma_run_unfolds(s, events, i);
        let mid = s.run(events.take(i));
        lemma_step_wf(mid, events[i]);
        if forall|j: int| 0 <= j < upto ==> !(#[trigger] events[j]).reports_exit_of(name) {
            assert forall|j: int| 0 <= j < i implies !(#[trigger] events[j]).reports_exit_of(
                name,
            ) by {}
        }
    }
}

/// Staleness detection over a run. Take a watched node that sends no
/// heartbeat and is not removed. A sweep that comes later than the staleness
/// timeout after the node was last heard from leaves it stopped, and stopped
/// as crashed unless an exit of its process was reported before.
pub proof fn lemma_silent_node_is_stopped_by_sweep(
    s: TellerState,
    events: Seq<Event>,
    name: Seq<char>,
    i: int,
)
    requires
        s.wf(),
        s.last_seen.contains_key(name),
        0 <= i < events.len(),
        forall|j: int|
            0 <= j < i ==> !(#[trigger] events[j]).removes(name) && !events[j].is_heartbeat_of(
                name,
            ),
        events[i] matches Event::Sweep { now } && is_stale(
            s.last_seen[name],
            now,
            s.staleness_timeout,
        ),
    ensures
        s.run(events.take(i + 1)).nodes.contains_key(name),
        s.run(events.take(i + 1)).nodes[name].status is Stopped,
        !s.run(events.take(i + 1)).last_seen.contains_key(name),
        (forall|j: int| 0 <= j < i ==> !(#[trigger] events[j]).reports_exit_of(name)) ==> s.run(
            events.take(i + 1),
        ).nodes[name].status == (NodeStatus::Stopped { crashed: true }),
{
    lemma_silence_persists(s, events, name, i);
    lemma_run_unfolds(s, events, i);
}

} // verus!
