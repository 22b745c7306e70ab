use std::collections::VecDeque;
use std::sync::{Condvar, Mutex, MutexGuard};
use vstd::prelude::*;

verus! {

/// std's `Mutex`, held opaquely.
#[verifier::external_type_specification]
#[verifier::external_body]
#[verifier::reject_recursive_types(T)]
pub struct ExMutex<T: ?Sized>(Mutex<T>);

/// std's `MutexGuard`, held opaquely.
#[verifier::external_type_specification]
#[verifier::external_body]
#[verifier::reject_recursive_types(T)]
pub struct ExMutexGuard<'a, T: ?Sized + 'a>(MutexGuard<'a, T>);

/// std's `Condvar`, held opaquely.
#[verifier::external_type_specification]
#[verifier::external_body]
pub struct ExCondvar(Condvar);

/// Relies on `Mutex::new`: a lock that holds `t`.
pub assume_specification<T>[ Mutex::<T>::new ](t: T) -> Mutex<T>;

/// Relies on `Condvar::new`: a condition variable with no waiter.
pub assume_specification[ Condvar::new ]() -> Condvar;

/// Relies on `Condvar::notify_one`: wakes one waiting thread, if any.
pub assume_specification[ Condvar::notify_one ](c: &Condvar);

/// Relies on `Mutex::lock`: blocks until the calling thread holds the lock.
/// A poisoned lock is taken all the same; `enqueue` then appends as usual,
/// and `dequeue` learns of the poison from `wait_for_items`. `Mutex::lock`
/// may panic if the calling thread already holds the lock; no call here
/// locks while holding it.
#[verifier::external_body]
fn lock_items<T>(m: &Mutex<VecDeque<T>>) -> MutexGuard<'_, VecDeque<T>> {
    match m.lock() {
        Ok(guard) => guard,
        Err(poisoned) => poisoned.into_inner(),
    }
}

/// Relies on `DerefMut` of `MutexGuard`: the sequence that the held lock guards.
#[verifier::external_body]
fn items_of<'a, 'b, T>(guard: &'a mut MutexGuard<'b, VecDeque<T>>) -> &'a mut VecDeque<T> {
    &mut **guard
}

/// How a wait for items ended.
pub enum Wakeup {
    /// The wait ended normally: the guarded sequence holds an item.
    Ready,
    /// The lock was poisoned: a thread panicked while holding it.
    Poisoned,
}

/// Relies on `Condvar::wait_while`: while the guarded sequence is empty, it
/// releases the lock, suspends the thread until notified and takes the lock
/// again, re-checking the sequence after every wake-up, spurious ones
/// included. It returns normally, with the lock held, only once the
/// sequence is not empty. If the lock turns out poisoned when it is taken
/// again, it returns at once without re-checking; that case is reported as
/// `Poisoned`, with the guard taken from the poison error. Either way the
/// guard is put back in `slot` and its sequence is returned.
///
/// `Condvar::wait` may panic if one condition variable is used with more
/// than one mutex; a `BlockingQueue` uses its condition variable only with
/// its own mutex, both private fields.
#[verifier::external_body]
fn wait_for_items<'a, 'b, T>(
    c: &Condvar,
    slot: &'a mut Option<MutexGuard<'b, VecDeque<T>>>,
) -> (r: (Wakeup, &'a mut VecDeque<T>))
    requires
        old(slot).is_some(),
    ensures
        r.0 is Ready ==> r.1@.len() > 0,
{
    let guard = slot.take().unwrap();
    let (wakeup, guard) = match c.wait_while(guard, |items| is_drained(items)) {
        Ok(guard) => (Wakeup::Ready, guard),
        Err(poisoned) => (Wakeup::Poisoned, poisoned.into_inner()),
    };
    (wakeup, &mut **slot.insert(guard))
}

/// Whether no item is waiting in `items`.
fn is_drained<T>(items: &mut VecDeque<T>) -> (r: bool)
    ensures
        r == (old(items)@.len() == 0),
        final(items)@ == old(items)@,
{
    items.len() == 0
}

/// Takes the front item of `items` after a wait that ended as `wakeup`.
/// After a normal wake-up the sequence holds an item, which is removed and
/// returned. After a poisoned one, a thread panicked while changing the
/// sequence, so it is left as it is and `None` is returned.
pub fn take_after_wait<T>(items: &mut VecDeque<T>, wakeup: Wakeup) -> (r: Option<T>)
    requires
        wakeup is Ready ==> old(items)@.len() > 0,
    ensures
        wakeup is Ready ==> r == Some(old(items)@[0]) && final(items)@ == old(items)@.drop_first(),
        wakeup is Poisoned ==> r is None && final(items)@ == old(items)@,
{
    match wakeup {
        Wakeup::Ready => items.pop_front(),
        Wakeup::Poisoned => None,
    }
}

/// A FIFO queue whose `dequeue` suspends the calling thread until an item
/// is available.
///
/// The items sit in a sequence guarded by a mutex; a condition variable tied
/// to it wakes consumers when a producer appends. Only one thread at a time
/// changes the sequence.
#[verifier::reject_recursive_types(T)]
pub struct BlockingQueue<T> {
    queue: Mutex<VecDeque<T>>,
    condvar: Condvar,
}

impl<T> BlockingQueue<T> {
    /// An empty queue with its lock and condition variable.
    pub fn new() -> (q: BlockingQueue<T>) {
        BlockingQueue { queue: Mutex::new(VecDeque::new()), condvar: Condvar::new() }
    }

    /// Appends `item` at the back under the lock and wakes one waiting consumer.
    pub fn enqueue(&self, item: T) {
        let mut guard = lock_items(&self.queue);
        items_of(&mut guard).push_back(item);
        self.condvar.notify_one();
    }

    /// Waits until the sequence holds an item, then removes and returns the
    /// front one; the lock is held from the end of the wait to the removal.
    /// The wait re-checks the sequence after every wake-up, so a consumer
    /// woken with nothing left waits again. With no producer the call never
    /// returns. What comes back is `take_after_wait` of how the wait ended:
    /// an item after a normal wake-up, `None` if the lock was poisoned.
    pub fn dequeue(&self) -> (r: Option<T>) {
        let mut slot = Some(lock_items(&self.queue));
        let (wakeup, items) = wait_for_items(&self.condvar, &mut slot);
        take_after_wait(items, wakeup)
    }
}

} // verus!
