use vstd::prelude::*;
use vstd::rwlock::{RwLock, RwLockPredicate};

use crate::linked::LinkedQueue;
use crate::model::{lemma_run_push, returned, run, QueueOp};

verus! {

/// The list of a `NonBlockingQueue`, with the calls that took effect on it
/// so far, in the order they did, and the items those calls returned.
struct SharedList<T> {
    list: LinkedQueue<T>,
    history: Ghost<Seq<QueueOp<T>>>,
    delivered: Ghost<Seq<T>>,
}

/// What the lock of a `NonBlockingQueue` guarantees of what it holds: a
/// well-formed list whose items, and the items returned so far, are those
/// that the recorded calls give when run one after another on an empty queue.
struct ListInvariant;

impl<T> RwLockPredicate<SharedList<T>> for ListInvariant {
    closed spec fn inv(self, v: SharedList<T>) -> bool {
        &&& v.list.wf()
        &&& run(Seq::empty(), v.history@) == (v.list@, v.delivered@)
    }
}

/// A multi-producer, multi-consumer FIFO queue whose operations never
/// suspend the calling thread and never wait for an item: `dequeue` on an
/// empty queue returns `None` at once.
///
/// This queue is not lock-free, unlike a textbook Michael–Scott queue. The
/// list is a `LinkedQueue` held in vstd's verified reader-writer lock, which
/// is taken by compare-and-swap spinning, and each call runs all its reads
/// and its head, tail and link steps while holding the list exclusively. A
/// contending thread therefore spins in place until the holder is done,
/// instead of retrying its own compare-and-swap on `head`, `tail` or `next`.
/// The reason is proof: a lock-free version needs retry loops with no bound
/// and per-node ownership tracked in ghost state, and neither can be verified
/// in this crate.
///
/// Each call takes effect at one instant, in between the calls of other
/// threads, and `LinkedQueue` states what it does at that instant. The
/// lock's invariant records every call that took effect and keeps the queue
/// equal to those calls run in order (`model::run`), so the laws of `model`
/// hold of the queue however the threads interleave.
pub struct NonBlockingQueue<T> {
    shared: RwLock<SharedList<T>, ListInvariant>,
}

impl<T> NonBlockingQueue<T> {
    #[verifier::type_invariant]
    spec fn inv(&self) -> bool {
        self.shared.pred() == ListInvariant
    }

    /// An empty queue: a single sentinel node, and no call recorded.
    pub fn new() -> (q: NonBlockingQueue<T>) {
        let list = LinkedQueue::new();
        let shared = SharedList { list, history: Ghost(Seq::empty()), delivered: Ghost(Seq::empty()) };
        NonBlockingQueue { shared: RwLock::new(shared, Ghost(ListInvariant)) }
    }

    /// Appends `item` at the back. Never fails.
    pub fn enqueue(&self, item: T) {
        proof {
            use_type_invariant(self);
        }
        let (mut shared, handle) = self.shared.acquire_write();
        shared.list.enqueue(item);
        proof {
            lemma_run_push(Seq::empty(), shared.history@, QueueOp::Enqueue(item));
            assert(shared.delivered@ + returned(None::<T>) =~= shared.delivered@);
        }
        shared.history = Ghost(shared.history@.push(QueueOp::Enqueue(item)));
        handle.release_write(shared);
    }

    /// Removes and returns the front item, or returns `None` at once when
    /// the queue is empty at the instant the call takes effect.
    pub fn dequeue(&self) -> (r: Option<T>) {
        proof {
            use_type_invariant(self);
        }
        let (mut shared, handle) = self.shared.acquire_write();
        let r = shared.list.dequeue();
        proof {
            lemma_run_push(Seq::empty(), shared.history@, QueueOp::Dequeue);
        }
        shared.history = Ghost(shared.history@.push(QueueOp::Dequeue));
        shared.delivered = Ghost(shared.delivered@ + returned(r));
        handle.release_write(shared);
        r
    }
}

} // verus!
