use scalanative_mmtk::active_plan::{ScalaNativeMutatorIterator, VMActivePlan};
use scalanative_mmtk::api::{response_for, SyncAction, SyncRequest, SyncResponse, Synchronizer};
use scalanative_mmtk::collection::{
    GCThreadTLS, GcThreads, VMCollection, GC_THREAD_KIND_CONTROLLER, GC_THREAD_KIND_WORKER,
};

#[test]
fn second_acquire_waits_for_release() {
    let mut s = Synchronizer::new();
    assert_eq!(s.handle(SyncRequest::Acquire(1)), vec![SyncAction::StopAllMutators(1)]);
    assert_eq!(s.handle(SyncRequest::Acquire(2)), vec![]);
    assert_eq!(
        s.handle(SyncRequest::Release(1)),
        vec![SyncAction::ResumeMutators(1), SyncAction::StopAllMutators(2)]
    );
    assert_eq!(s.holder, Some(2));
    assert_eq!(s.handle(SyncRequest::Release(2)), vec![SyncAction::ResumeMutators(2)]);
    assert_eq!(s.holder, None);
    assert!(s.waiting.is_empty());
}

#[test]
fn actions_are_answered() {
    assert_eq!(response_for(SyncAction::StopAllMutators(4)), SyncResponse::Acquired);
    assert_eq!(response_for(SyncAction::ResumeMutators(4)), SyncResponse::Released);
    assert_eq!(VMCollection::stop_all_mutators(9), SyncRequest::Acquire(9));
    assert_eq!(VMCollection::resume_mutators(9), SyncRequest::Release(9));
}

#[test]
fn gc_thread_records() {
    let c = GCThreadTLS::for_controller(0x40);
    assert_eq!(c.kind, GC_THREAD_KIND_CONTROLLER);
    assert!(c.check_cast());
    let w = GCThreadTLS::for_worker(0x80);
    assert_eq!(w.kind, GC_THREAD_KIND_WORKER);
    assert_eq!(w.gc_context, 0x80);
    assert!(!GCThreadTLS::for_worker(0).check_cast());
    assert!(!GCThreadTLS { kind: 7, gc_context: 0x80 }.check_cast());
}

#[test]
fn gc_thread_registry() {
    let mut t = GcThreads::new();
    assert!(!t.is_gc_thread(3));
    t.register_gc_thread(3);
    t.register_gc_thread(3);
    t.register_gc_thread(5);
    assert!(t.is_gc_thread(3) && t.is_gc_thread(5));
    t.unregister_gc_thread(3);
    assert!(!t.is_gc_thread(3));
    assert!(t.is_gc_thread(5));
}

#[test]
fn mutators_come_out_in_order() {
    let mut it: ScalaNativeMutatorIterator = VMActivePlan::mutators(vec![30, 10, 20]);
    assert_eq!(it.next(), Some(30));
    assert_eq!(it.next(), Some(10));
    assert_eq!(it.next(), Some(20));
    assert_eq!(it.next(), None);
}
