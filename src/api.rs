//! The stop-the-world synchronizer: one thread takes the requests of the GC
//! workers in order, and holds the world stopped from an `Acquire` until the
//! matching `Release`.
use vstd::prelude::*;

verus! {

/// A request of a GC worker, with the worker's thread handle.
#[derive(Debug, Clone, Copy, PartialEq, Eq)]
pub enum SyncRequest {
    Acquire(usize),
    Release(usize),
}

/// The reply that follows each action of the synchronizer.
#[derive(Debug, Clone, Copy, PartialEq, Eq)]
pub enum SyncResponse {
    Acquired,
    Released,
}

/// What the synchronizer thread must do next, on behalf of a worker.
#[derive(Debug, Clone, Copy, PartialEq, Eq)]
pub enum SyncAction {
    /// Stop every mutator at a safepoint, then reply `Acquired`.
    StopAllMutators(usize),
    /// Resume the mutators, then reply `Released`.
    ResumeMutators(usize),
}

/// The reply that an action is followed by.
pub open spec fn response_of(a: SyncAction) -> SyncResponse {
    match a {
        SyncAction::StopAllMutators(_) => SyncResponse::Acquired,
        SyncAction::ResumeMutators(_) => SyncResponse::Released,
    }
}

pub fn response_for(a: SyncAction) -> (r: SyncResponse)
    ensures
        r == response_of(a),
{
    match a {
        SyncAction::StopAllMutators(_) => SyncResponse::Acquired,
        SyncAction::ResumeMutators(_) => SyncResponse::Released,
    }
}

/// The state of the synchronizer: the worker that holds the world stopped,
/// and the `Acquire` requests that wait for it, oldest first.
pub struct Synchronizer {
    pub holder: Option<usize>,
    pub waiting: Vec<usize>,
}

/// The synchronizer's state as values.
pub struct SyncState {
    pub holder: Option<usize>,
    pub waiting: Seq<usize>,
}

/// One step: the next state and the actions to perform, in order.
pub open spec fn step(s: SyncState, req: SyncRequest) -> (SyncState, Seq<SyncAction>) {
    match req {
        SyncRequest::Acquire(t) => if s.holder is None {
            (SyncState { holder: Some(t), waiting: s.waiting }, seq![SyncAction::StopAllMutators(t)])
        } else {
            (SyncState { holder: s.holder, waiting: s.waiting.push(t) }, Seq::empty())
        },
        SyncRequest::Release(t) => if s.waiting.len() > 0 {
            (
                SyncState { holder: Some(s.waiting[0]), waiting: s.waiting.drop_first() },
                seq![SyncAction::ResumeMutators(t), SyncAction::StopAllMutators(s.waiting[0])],
            )
        } else {
            (SyncState { holder: None, waiting: s.waiting }, seq![SyncAction::ResumeMutators(t)])
        },
    }
}

impl Synchronizer {
    pub open spec fn view(&self) -> SyncState {
        SyncState { holder: self.holder, waiting: self.waiting@ }
    }

    /// Requests wait only while the world is held.
    pub open spec fn wf(&self) -> bool {
        self.holder is None ==> self.waiting@.len() == 0
    }

    pub fn new() -> (r: Synchronizer)
        ensures
            r.wf(),
            r.holder is None,
            r.waiting@.len() == 0,
    {
        Synchronizer { holder: None, waiting: Vec::new() }
    }

    /// Takes one request; returns the actions to perform, in order. An
    /// `Acquire` while the world is held waits for the matching `Release`.
    pub fn handle(&mut self, req: SyncRequest) -> (r: Vec<SyncAction>)
        requires
            old(self).wf(),
        ensures
            final(self).wf(),
            final(self)@ == step(old(self)@, req).0,
            r@ == step(old(self)@, req).1,
    {
        let mut actions: Vec<SyncAction> = Vec::new();
        match req {
            SyncRequest::Acquire(t) => {
                if self.holder.is_none() {
                    self.holder = Some(t);
                    actions.push(SyncAction::StopAllMutators(t));
                } else {
                    self.waiting.push(t);
                }
            },
            SyncRequest::Release(t) => {
                actions.push(SyncAction::ResumeMutators(t));
                if self.waiting.len() > 0 {
                    let next = self.waiting.remove(0);
                    self.holder = Some(next);
                    actions.push(SyncAction::StopAllMutators(next));
                } else {
                    self.holder = None;
                }
            },
        }
        proof {
            assert(actions@ =~= step(old(self)@, req).1);
            assert(self.waiting@ =~= step(old(self)@, req).0.waiting);
        }
        actions
    }
}

/// Whether an action stops the mutators.
pub open spec fn is_stop(a: SyncAction) -> bool {
    a matches SyncAction::StopAllMutators(_)
}

/// Stops never overlap: while a worker holds the world stopped, an `Acquire`
/// yields no action; a step yields at most one stop, which comes last and
/// goes to the new holder; and a step that stops the mutators while the world
/// was held is a `Release`, whose resume comes first.
pub proof fn lemma_stops_serialized(s: SyncState, req: SyncRequest)
    ensures
        s.holder is Some && req is Acquire ==> step(s, req).1.len() == 0,
        forall|k: int| 0 <= k < step(s, req).1.len() && #[trigger] is_stop(step(s, req).1[k]) ==>
            k == step(s, req).1.len() - 1 && step(s, req).0.holder == Some(
                step(s, req).1[k]->StopAllMutators_0,
            ),
        s.holder is Some && step(s, req).1.len() > 0 ==> req is Release
            && step(s, req).1[0] == SyncAction::ResumeMutators(req->Release_0),
{
}

/// Two workers that ask to stop the world, one after the other: the second
/// gets no stop until the first's release, and then gets it right after the
/// resume.
pub proof fn lemma_second_acquire_waits(s: SyncState, a: usize, b: usize)
    requires
        s.holder is None,
        s.waiting.len() == 0,
    ensures
        ({
            let (s1, x1) = step(s, SyncRequest::Acquire(a));
            let (s2, x2) = step(s1, SyncRequest::Acquire(b));
            let (s3, x3) = step(s2, SyncRequest::Release(a));
            &&& x1 == seq![SyncAction::StopAllMutators(a)]
            &&& x2.len() == 0
            &&& x3 == seq![SyncAction::ResumeMutators(a), SyncAction::StopAllMutators(b)]
            &&& s3.holder == Some(b)
            &&& s3.waiting.len() == 0
        }),
{
    let (s1, x1) = step(s, SyncRequest::Acquire(a));
    let (s2, x2) = step(s1, SyncRequest::Acquire(b));
    assert(s2.waiting =~= seq![b]);
    let (s3, x3) = step(s2, SyncRequest::Release(a));
    assert(s3.waiting =~= Seq::<usize>::empty());
}

/// How the heap may grow: fixed at one size, or between two sizes.
#[derive(Debug, Clone, Copy, PartialEq, Eq)]
pub enum HeapTrigger {
    Fixed(usize),
    Dynamic(usize, usize),
}

/// The heap trigger for the sizes given at start-up: fixed when the minimum
/// and the maximum agree, dynamic between them otherwise.
pub fn heap_trigger(min_heap_size: usize, max_heap_size: usize) -> (r: HeapTrigger)
    ensures
        min_heap_size == max_heap_size ==> r == HeapTrigger::Fixed(min_heap_size),
        min_heap_size != max_heap_size ==> r == HeapTrigger::Dynamic(min_heap_size, max_heap_size),
{
    if min_heap_size == max_heap_size {
        HeapTrigger::Fixed(min_heap_size)
    } else {
        HeapTrigger::Dynamic(min_heap_size, max_heap_size)
    }
}

/// Whether an allocation goes to the large-object space whatever its
/// requested semantics: when it is at least the largest size that the other
/// spaces take.
pub fn needs_large_object_space(bytes: usize, max_non_los_default_alloc_bytes: usize) -> (r: bool)
    ensures
        r == (bytes >= max_non_los_default_alloc_bytes),
{
    bytes >= max_non_los_default_alloc_bytes
}

} // verus!
