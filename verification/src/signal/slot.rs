//! Where the inference thread finds published stages.
//!
//! A slot keeps, for proofs, a log of what each look into it has found, which
//! nothing outside this module can extend but by looking.

use std::sync::Arc;

use crossbeam_queue::ArrayQueue;
use vstd::prelude::*;

use crate::signal::block::BlockStage;
use crate::signal::switch::PreparedStage;

verus! {

/// The inference thread's end of the queue of published stages.
#[verifier::reject_recursive_types(S)]
pub struct StageSlot<S: BlockStage> {
    queue: Arc<ArrayQueue<PreparedStage<S>>>,
    found: Ghost<Seq<Option<PreparedStage<S>>>>,
}

impl<S: BlockStage> StageSlot<S> {
    /// The queue.
    pub closed spec fn queue(&self) -> Arc<ArrayQueue<PreparedStage<S>>> {
        self.queue
    }

    /// What each look has found.
    pub closed spec fn found(&self) -> Seq<Option<PreparedStage<S>>> {
        self.found@
    }

    /// Nothing has been looked for yet.
    pub fn new(queue: Arc<ArrayQueue<PreparedStage<S>>>) -> (slot: Self)
        ensures
            slot.queue() == queue,
            slot.found() == Seq::<Option<PreparedStage<S>>>::empty(),
    {
        StageSlot { queue, found: Ghost(Seq::empty()) }
    }

    /// Takes the published stage out of the queue, if there is one, which
    /// depends on the publisher's thread.
    pub fn look(&mut self) -> (stage: Option<PreparedStage<S>>)
        ensures
            final(self).queue() == old(self).queue(),
            final(self).found() == old(self).found().push(stage),
    {
        let stage = self.queue.pop();
        self.found = Ghost(self.found@.push(stage));
        stage
    }
}

} // verus!
