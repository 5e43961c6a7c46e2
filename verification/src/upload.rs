//! Queueing more samples than fit at once.
use crate::fifo::{accepted, after_push, Fifo};
use vstd::prelude::*;

verus! {

/// What became of one attempt to queue samples.
#[derive(Clone, Copy, Debug, PartialEq, Eq, Structural)]
pub enum UploadStep {
    /// All samples are queued.
    Finished,
    /// Some samples were queued.
    Progress,
    /// The queue is full: wait before the next attempt.
    Stalled,
}

/// Samples on their way into a queue.
pub struct Upload {
    samples: Vec<u32>,
    pos: usize,
}

impl Upload {
    /// All samples, those that are queued already included.
    pub closed spec fn all(&self) -> Seq<u32> {
        self.samples@
    }

    /// How many samples are queued already.
    pub closed spec fn queued(&self) -> nat {
        self.pos as nat
    }

    /// No more samples are queued than there are.
    pub open spec fn wf(&self) -> bool {
        self.queued() <= self.all().len()
    }

    /// The samples that are still to be queued.
    pub open spec fn rest(&self) -> Seq<u32> {
        self.all().skip(self.queued() as int)
    }

    /// Nothing is queued yet.
    pub fn new(samples: Vec<u32>) -> (upload: Upload)
        ensures
            upload.wf(),
            upload.all() == samples@,
            upload.queued() == 0,
    {
        Upload { samples, pos: 0 }
    }

    /// How many samples are queued.
    pub fn pushed(&self) -> (pushed: usize)
        ensures
            pushed == self.queued(),
    {
        self.pos
    }

    /// How many samples there are.
    pub fn total(&self) -> (total: usize)
        ensures
            total == self.all().len(),
    {
        self.samples.len()
    }

    /// Queues as many of the samples that are left as there is room for.
    pub fn step(&mut self, fifo: &mut Fifo) -> (step: UploadStep)
        requires
            old(self).wf(),
            old(fifo).wf(),
        ensures
            final(self).wf(),
            final(fifo).wf(),
            final(fifo).capacity() == old(fifo).capacity(),
            final(self).all() == old(self).all(),
            final(self).queued() == old(self).queued() + accepted(
                old(fifo)@,
                old(fifo).capacity(),
                old(self).rest(),
            ),
            final(fifo)@ == after_push(old(fifo)@, old(fifo).capacity(), old(self).rest()),
            old(self).queued() <= final(self).queued() <= old(self).all().len(),
            final(fifo)@ == old(fifo)@ + old(self).all().subrange(
                old(self).queued() as int,
                final(self).queued() as int,
            ),
            final(self).queued() < old(self).all().len() ==> final(fifo)@.len() == old(
                fifo,
            ).capacity(),
            step == (if old(self).rest().len() == 0 {
                UploadStep::Finished
            } else if old(fifo)@.len() == old(fifo).capacity() {
                UploadStep::Stalled
            } else {
                UploadStep::Progress
            }),
    {
        proof {
            fifo.lemma_within_capacity();
        }
        if self.pos >= self.samples.len() {
            assert(fifo@ =~= after_push(fifo@, fifo.capacity(), self.rest()));
            return UploadStep::Finished;
        }
        let pushed: usize = fifo.push_from(&self.samples, self.pos);
        if pushed == 0 {
            return UploadStep::Stalled;
        }
        self.pos += pushed;
        UploadStep::Progress
    }
}

/// Each step queues the samples that come next, so that what was queued is at
/// any time the front of all samples, and all of them once the upload is
/// finished: none is lost, none is queued twice.
pub proof fn law_upload_in_order(all: Seq<u32>, queued: nat, contents: Seq<u32>, capacity: nat)
    requires
        queued <= all.len(),
        contents.len() <= capacity,
    ensures
        ({
            let rest = all.skip(queued as int);
            let more = accepted(contents, capacity, rest);
            let added = after_push(contents, capacity, rest).skip(contents.len() as int);
            &&& all.take(queued as int) + added == all.take(queued + more)
            &&& queued + more <= all.len()
            &&& rest.len() == 0 ==> all.take(queued + more) == all
        }),
{
    let rest = all.skip(queued as int);
    let more = accepted(contents, capacity, rest);
    let added = after_push(contents, capacity, rest).skip(contents.len() as int);
    assert(added =~= rest.take(more));
    assert(all.take(queued as int) + added =~= all.take(queued + more));
    if rest.len() == 0 {
        assert(all.take(queued + more) =~= all);
    }
}

/// An upload moves on whenever there is room: only a full queue stalls it.
pub proof fn law_upload_progress(all: Seq<u32>, queued: nat, contents: Seq<u32>, capacity: nat)
    requires
        queued < all.len(),
        contents.len() <= capacity,
    ensures
        accepted(contents, capacity, all.skip(queued as int)) == 0 <==> contents.len() == capacity,
{
}

} // verus!
