//! GC threads: their thread-local record, the registry of their ids, and the
//! requests through which workers stop and resume the mutators.
use vstd::prelude::*;
use crate::api::SyncRequest;

verus! {

pub const GC_THREAD_KIND_CONTROLLER: i32 = 0;

pub const GC_THREAD_KIND_WORKER: i32 = 1;

/// What a GC thread keeps in the runtime's thread-local storage.
pub struct GCThreadTLS {
    pub kind: i32,
    /// The controller or worker that the thread runs.
    pub gc_context: usize,
}

impl GCThreadTLS {
    fn new(kind: i32, gc_context: usize) -> (r: GCThreadTLS)
        ensures
            r.kind == kind,
            r.gc_context == gc_context,
    {
        GCThreadTLS { kind, gc_context }
    }

    pub fn for_controller(gc_context: usize) -> (r: GCThreadTLS)
        ensures
            r.kind == GC_THREAD_KIND_CONTROLLER,
            r.gc_context == gc_context,
    {
        Self::new(GC_THREAD_KIND_CONTROLLER, gc_context)
    }

    pub fn for_worker(gc_context: usize) -> (r: GCThreadTLS)
        ensures
            r.kind == GC_THREAD_KIND_WORKER,
            r.gc_context == gc_context,
    {
        Self::new(GC_THREAD_KIND_WORKER, gc_context)
    }

    /// Whether the record is one that a GC thread made: non-null, of a known kind.
    pub fn check_cast(&self) -> (r: bool)
        ensures
            r == (self.gc_context != 0 && (self.kind == GC_THREAD_KIND_CONTROLLER || self.kind
                == GC_THREAD_KIND_WORKER)),
    {
        self.gc_context != 0 && (self.kind == GC_THREAD_KIND_CONTROLLER || self.kind == GC_THREAD_KIND_WORKER)
    }
}

/// The ids of the threads that run GC work.
pub struct GcThreads {
    pub ids: Vec<u64>,
}

impl GcThreads {
    pub open spec fn view(&self) -> Set<u64> {
        self.ids@.to_set()
    }

    pub fn new() -> (r: GcThreads)
        ensures
            r@ == Set::<u64>::empty(),
    {
        let r = GcThreads { ids: Vec::new() };
        assert(r@ =~= Set::<u64>::empty());
        r
    }

    pub fn is_gc_thread(&self, id: u64) -> (r: bool)
        ensures
            r == self@.contains(id),
    {
        let mut i: usize = 0;
        while i < self.ids.len()
            invariant
                i <= self.ids@.len(),
                forall|j: int| 0 <= j < i ==> self.ids@[j] != id,
            decreases self.ids@.len() - i,
        {
            if self.ids[i] == id {
                assert(self.ids@.to_set().contains(self.ids@[i as int]));
                return true;
            }
            i = i + 1;
        }
        proof {
            if self@.contains(id) {
                assert(self.ids@.contains(id));
            }
        }
        false
    }

    pub fn register_gc_thread(&mut self, id: u64)
        ensures
            final(self)@ == old(self)@.insert(id),
    {
        if !self.is_gc_thread(id) {
            self.ids.push(id);
            proof {
                assert(self.ids@.to_set() =~= old(self).ids@.to_set().insert(id)) by {
                    assert forall|x: u64| self.ids@.contains(x) <==> old(self).ids@.contains(x) || x == id by {
                        crate::heap::lemma_push_contains(old(self).ids@, id, x);
                    }
                }
            }
        } else {
            assert(self@ =~= old(self)@.insert(id));
        }
    }

    pub fn unregister_gc_thread(&mut self, id: u64)
        ensures
            final(self)@ == old(self)@.remove(id),
    {
        let mut kept: Vec<u64> = Vec::new();
        let mut i: usize = 0;
        while i < self.ids.len()
            invariant
                i <= self.ids@.len(),
                forall|x: u64| kept@.contains(x) <==> (self.ids@.subrange(0, i as int).contains(x) && x != id),
            decreases self.ids@.len() - i,
        {
            let x = self.ids[i];
            proof {
                assert(self.ids@.subrange(0, i + 1) =~= self.ids@.subrange(0, i as int).push(x));
            }
            let ghost k0 = kept@;
            if x != id {
                kept.push(x);
            }
            proof {
                assert forall|y: u64| kept@.contains(y) <==> (self.ids@.subrange(0, i + 1).contains(y) && y != id) by {
                    crate::heap::lemma_push_contains(self.ids@.subrange(0, i as int), x, y);
                    if x != id {
                        crate::heap::lemma_push_contains(k0, x, y);
                    }
                }
            }
            i = i + 1;
        }
        proof {
            assert(self.ids@.subrange(0, self.ids@.len() as int) =~= self.ids@);
        }
        self.ids = kept;
        assert(self@ =~= old(self)@.remove(id));
    }
}

/// The requests through which GC workers stop and resume the mutators.
pub struct VMCollection {}

impl VMCollection {
    pub fn stop_all_mutators(tls: usize) -> (r: SyncRequest)
        ensures
            r == SyncRequest::Acquire(tls),
    {
        SyncRequest::Acquire(tls)
    }

    pub fn resume_mutators(tls: usize) -> (r: SyncRequest)
        ensures
            r == SyncRequest::Release(tls),
    {
        SyncRequest::Release(tls)
    }
}

} // verus!
