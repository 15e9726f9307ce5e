use vstd::prelude::*;

verus! {

/// Whether global shortcuts are registered with the OS.
#[derive(Clone, Copy, Debug, PartialEq, Eq, Structural)]
pub enum HotkeyActivation {
    Active,
    Inactive,
}

/// The synchroniser's state as plain values.
pub struct SyncView {
    pub current: HotkeyActivation,
    pub desired: HotkeyActivation,
    pub syncing: bool,
}

/// Outside a convergence pass the applied activation is the requested one.
pub open spec fn quiescent_consistent(v: SyncView) -> bool {
    v.syncing || v.current == v.desired
}

/// The state at start-up: active, nothing in flight.
pub open spec fn initial_sync() -> SyncView {
    SyncView {
        current: HotkeyActivation::Active,
        desired: HotkeyActivation::Active,
        syncing: false,
    }
}

/// Whether a request for `d` starts a convergence worker.
pub open spec fn request_spawns(v: SyncView, d: HotkeyActivation) -> bool {
    !v.syncing && v.current != d
}

/// The state after a request for `d`: it becomes the desired value, and a
/// worker is marked running when none was and `d` is not applied yet.
pub open spec fn after_request(v: SyncView, d: HotkeyActivation) -> SyncView {
    SyncView { current: v.current, desired: d, syncing: v.syncing || request_spawns(v, d) }
}

/// The state after the worker applied `a`: it is current, and the worker
/// stops when it matches what is desired now.
pub open spec fn after_applied(v: SyncView, a: HotkeyActivation) -> SyncView {
    SyncView { current: a, desired: v.desired, syncing: a != v.desired }
}

/// The desired activation: inactive when shortcuts are off in the settings,
/// switched off at runtime, or excluded by the foreground application.
pub open spec fn desired_for(
    settings_enabled: bool,
    runtime_enabled: bool,
    foreground_disabled: bool,
) -> HotkeyActivation {
    if !settings_enabled || !runtime_enabled || foreground_disabled {
        HotkeyActivation::Inactive
    } else {
        HotkeyActivation::Active
    }
}

pub fn desired_activation(
    settings_enabled: bool,
    runtime_enabled: bool,
    foreground_disabled: bool,
) -> (r: HotkeyActivation)
    ensures
        r == desired_for(settings_enabled, runtime_enabled, foreground_disabled),
{
    if !settings_enabled || !runtime_enabled || foreground_disabled {
        HotkeyActivation::Inactive
    } else {
        HotkeyActivation::Active
    }
}

/// Current versus desired activation, and whether a convergence worker runs.
pub struct HotkeySyncState {
    current: HotkeyActivation,
    desired: HotkeyActivation,
    syncing: bool,
}

impl View for HotkeySyncState {
    type V = SyncView;

    closed spec fn view(&self) -> SyncView {
        SyncView { current: self.current, desired: self.desired, syncing: self.syncing }
    }
}

impl HotkeySyncState {
    pub fn new() -> (r: Self)
        ensures
            r@ == initial_sync(),
            quiescent_consistent(r@),
    {
        HotkeySyncState {
            current: HotkeyActivation::Active,
            desired: HotkeyActivation::Active,
            syncing: false,
        }
    }

    pub fn current(&self) -> (r: HotkeyActivation)
        ensures
            r == self@.current,
    {
        self.current
    }

    pub fn desired(&self) -> (r: HotkeyActivation)
        ensures
            r == self@.desired,
    {
        self.desired
    }

    pub fn is_syncing(&self) -> (r: bool)
        ensures
            r == self@.syncing,
    {
        self.syncing
    }

    /// Records `desired`; true when the caller must start the one worker.
    /// While a worker runs, the request only updates what it converges to.
    pub fn request(&mut self, desired: HotkeyActivation) -> (spawn: bool)
        requires
            quiescent_consistent(old(self)@),
        ensures
            spawn == request_spawns(old(self)@, desired),
            final(self)@ == after_request(old(self)@, desired),
            quiescent_consistent(final(self)@),
    {
        self.desired = desired;
        if self.syncing {
            return false;
        }
        if self.current == self.desired {
            return false;
        }
        self.syncing = true;
        true
    }

    /// Records that the worker applied `applied`; true when it is done, that
    /// is when nothing else was requested meanwhile.
    pub fn applied(&mut self, applied: HotkeyActivation) -> (done: bool)
        requires
            old(self)@.syncing,
        ensures
            final(self)@ == after_applied(old(self)@, applied),
            done == !final(self)@.syncing,
            quiescent_consistent(final(self)@),
    {
        self.current = applied;
        if self.current == self.desired {
            self.syncing = false;
            true
        } else {
            false
        }
    }
}

/// What happens to the synchroniser: a request, or the worker reporting the
/// value it applied.
pub enum SyncEvent {
    Request(HotkeyActivation),
    Applied(HotkeyActivation),
}

/// One event; a report with no worker running changes nothing.
pub open spec fn sync_step(v: SyncView, e: SyncEvent) -> SyncView {
    match e {
        SyncEvent::Request(d) => after_request(v, d),
        SyncEvent::Applied(a) => if v.syncing {
            after_applied(v, a)
        } else {
            v
        },
    }
}

pub open spec fn sync_run(v: SyncView, events: Seq<SyncEvent>) -> SyncView
    decreases events.len(),
{
    if events.len() == 0 {
        v
    } else {
        sync_run(sync_step(v, events[0]), events.drop_first())
    }
}

/// The requests `ds`, one after the other.
pub open spec fn requests_run(v: SyncView, ds: Seq<HotkeyActivation>) -> SyncView
    decreases ds.len(),
{
    if ds.len() == 0 {
        v
    } else {
        after_request(requests_run(v, ds.drop_last()), ds.last())
    }
}

/// Quiescence: in every state reachable from start-up, whenever no worker
/// runs, the applied activation is the desired one.
pub proof fn lemma_quiescence_invariant(events: Seq<SyncEvent>)
    ensures
        quiescent_consistent(sync_run(initial_sync(), events)),
{
    lemma_run_keeps_consistency(initial_sync(), events);
}

proof fn lemma_run_keeps_consistency(v: SyncView, events: Seq<SyncEvent>)
    requires
        quiescent_consistent(v),
    ensures
        quiescent_consistent(sync_run(v, events)),
    decreases events.len(),
{
    if events.len() > 0 {
        lemma_run_keeps_consistency(sync_step(v, events[0]), events.drop_first());
    }
}

/// Coalescing: any burst of requests while a worker runs starts no other
/// worker and leaves the last request as the target; the running worker then
/// stops, after at most one more pass, with the last request applied.
pub proof fn lemma_coalescing(v: SyncView, ds: Seq<HotkeyActivation>, in_flight: HotkeyActivation)
    requires
        v.syncing,
        ds.len() > 0,
    ensures
        forall|i: int|
            0 <= i < ds.len() ==> !request_spawns(#[trigger] requests_run(v, ds.take(i)), ds[i]),
        requests_run(v, ds).syncing,
        requests_run(v, ds).desired == ds.last(),
        requests_run(v, ds).current == v.current,
        ({
            let w = after_applied(requests_run(v, ds), in_flight);
            (!w.syncing && w.current == ds.last()) || (w.syncing && !after_applied(
                w,
                w.desired,
            ).syncing && after_applied(w, w.desired).current == ds.last())
        }),
{
    lemma_requests_keep_worker(v, ds);
    assert forall|i: int| 0 <= i < ds.len() implies !request_spawns(
        #[trigger] requests_run(v, ds.take(i)),
        ds[i],
    ) by {
        lemma_requests_keep_worker(v, ds.take(i));
    }
}

proof fn lemma_requests_keep_worker(v: SyncView, ds: Seq<HotkeyActivation>)
    requires
        v.syncing,
    ensures
        requests_run(v, ds).syncing,
        requests_run(v, ds).current == v.current,
        ds.len() > 0 ==> requests_run(v, ds).desired == ds.last(),
    decreases ds.len(),
{
    if ds.len() > 0 {
        lemma_requests_keep_worker(v, ds.drop_last());
    }
}

} // verus!
