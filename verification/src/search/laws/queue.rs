//! The queue of operations: nothing that came in is lost, and no batch grows
//! beyond its bound.

use crate::search::file::FileOperation;
use crate::search::index_operation::{
    batch_after, flushed_after, incoming, Received, MAX_BULK_OPERATION_SIZE,
};
use vstd::prelude::*;

verus! {

/// What the worker holds back after a run of receives that began with
/// `batch`.
pub open spec fn held_back(batch: Seq<FileOperation>, receives: Seq<Received>) -> Seq<FileOperation>
    decreases receives.len(),
{
    if receives.len() == 0 {
        batch
    } else {
        batch_after(held_back(batch, receives.drop_last()), receives.last())
    }
}

/// Everything the worker applied over a run of receives that began with
/// `batch`, batch after batch.
pub open spec fn handed_on(batch: Seq<FileOperation>, receives: Seq<Received>) -> Seq<
    FileOperation,
>
    decreases receives.len(),
{
    if receives.len() == 0 {
        Seq::empty()
    } else {
        handed_on(batch, receives.drop_last()) + flushed_after(
            held_back(batch, receives.drop_last()),
            receives.last(),
        )
    }
}

/// The operations that a run of receives brought, in order.
pub open spec fn brought(receives: Seq<Received>) -> Seq<FileOperation>
    decreases receives.len(),
{
    if receives.len() == 0 {
        Seq::empty()
    } else {
        brought(receives.drop_last()) + incoming(receives.last())
    }
}

/// A batch stays bounded: a worker that begins with fewer operations than a
/// full batch never holds back a full one, and never applies more than a
/// full one at a time.
pub proof fn lemma_batch_bounded(batch: Seq<FileOperation>, receives: Seq<Received>)
    requires
        batch.len() < MAX_BULK_OPERATION_SIZE,
    ensures
        held_back(batch, receives).len() < MAX_BULK_OPERATION_SIZE,
        receives.len() > 0 ==> flushed_after(
            held_back(batch, receives.drop_last()),
            receives.last(),
        ).len() <= MAX_BULK_OPERATION_SIZE,
    decreases receives.len(),
{
    if receives.len() > 0 {
        lemma_batch_bounded(batch, receives.drop_last());
    }
}

/// Over any run of receives every operation that came in is either applied
/// or still held back, in the order it came, and once the queue is closed
/// nothing is held back: all of them were applied.
pub proof fn lemma_no_operation_lost(batch: Seq<FileOperation>, receives: Seq<Received>)
    ensures
        handed_on(batch, receives) + held_back(batch, receives) == batch + brought(receives),
        receives.len() > 0 && receives.last() is Disconnected ==> held_back(batch, receives).len()
            == 0 && handed_on(batch, receives) == batch + brought(receives),
    decreases receives.len(),
{
    if receives.len() == 0 {
        assert(handed_on(batch, receives) + held_back(batch, receives) =~= batch + brought(
            receives,
        ));
    } else {
        let earlier = receives.drop_last();
        lemma_no_operation_lost(batch, earlier);
        let held = held_back(batch, earlier);
        let gathered = held + incoming(receives.last());
        assert(handed_on(batch, earlier) + gathered =~= (handed_on(batch, earlier) + held)
            + incoming(receives.last()));
        assert((batch + brought(earlier)) + incoming(receives.last()) =~= batch + brought(
            receives,
        ));
        assert(handed_on(batch, receives) + held_back(batch, receives) =~= handed_on(
            batch,
            earlier,
        ) + gathered);
        if receives.last() is Disconnected {
            assert(handed_on(batch, receives) =~= handed_on(batch, receives) + held_back(
                batch,
                receives,
            ));
        }
    }
}

} // verus!
