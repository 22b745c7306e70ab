use vstd::prelude::*;

verus! {

/// One call on a queue, as seen by the queue: an item handed to `enqueue`,
/// or a `dequeue`.
pub enum QueueOp<T> {
    Enqueue(T),
    Dequeue,
}

/// The contents after one call on contents `s`, and the item that the call
/// returned, if any. This is what `LinkedQueue::enqueue` and
/// `LinkedQueue::dequeue` state of their view.
pub open spec fn step<T>(s: Seq<T>, op: QueueOp<T>) -> (Seq<T>, Option<T>) {
    match op {
        QueueOp::Enqueue(x) => (s.push(x), None),
        QueueOp::Dequeue => if s.len() == 0 {
            (s, None)
        } else {
            (s.drop_first(), Some(s[0]))
        },
    }
}

/// The item a call returned, as a sequence of zero or one items.
pub open spec fn returned<T>(out: Option<T>) -> Seq<T> {
    match out {
        Some(x) => seq![x],
        None => Seq::empty(),
    }
}

/// The contents after the calls `ops`, made one after another from contents
/// `s`, and the items that the dequeues returned, in the order returned.
pub open spec fn run<T>(s: Seq<T>, ops: Seq<QueueOp<T>>) -> (Seq<T>, Seq<T>)
    decreases ops.len(),
{
    if ops.len() == 0 {
        (s, Seq::empty())
    } else {
        let (s1, out) = step(s, ops[0]);
        let (rest_s, rest_out) = run(s1, ops.drop_first());
        (rest_s, returned(out) + rest_out)
    }
}

/// The items handed to the enqueues among `ops`, in order.
pub open spec fn enqueued<T>(ops: Seq<QueueOp<T>>) -> Seq<T>
    decreases ops.len(),
{
    if ops.len() == 0 {
        Seq::empty()
    } else {
        match ops[0] {
            QueueOp::Enqueue(x) => seq![x] + enqueued(ops.drop_first()),
            QueueOp::Dequeue => enqueued(ops.drop_first()),
        }
    }
}

/// One enqueue for each of `items`, in order.
pub open spec fn enqueues<T>(items: Seq<T>) -> Seq<QueueOp<T>> {
    Seq::new(items.len(), |i: int| QueueOp::Enqueue(items[i]))
}

/// `n` dequeues.
pub open spec fn dequeues<T>(n: nat) -> Seq<QueueOp<T>> {
    Seq::new(n, |i: int| QueueOp::Dequeue)
}

/// Every call sequence conserves items: what the dequeues returned, followed
/// by what is left, is what was there, followed by what was enqueued.
pub proof fn lemma_run_conserves<T>(s: Seq<T>, ops: Seq<QueueOp<T>>)
    ensures
        run(s, ops).1 + run(s, ops).0 == s + enqueued(ops),
    decreases ops.len(),
{
    if ops.len() > 0 {
        let rest = ops.drop_first();
        let (s1, out) = step(s, ops[0]);
        let (fin, later) = run(s1, rest);
        lemma_run_conserves(s1, rest);
        assert(later + fin == s1 + enqueued(rest));
        assert(returned(out) + later + fin =~= returned(out) + (later + fin));
        match ops[0] {
            QueueOp::Enqueue(x) => {
                assert(returned(out) + (s1 + enqueued(rest)) =~= s + enqueued(ops));
            },
            QueueOp::Dequeue => {
                assert(returned(out) + (s1 + enqueued(rest)) =~= s + enqueued(ops));
            },
        }
    } else {
        assert(run(s, ops).1 + run(s, ops).0 =~= s + enqueued(ops));
    }
}

/// One more call after `ops`: its step is applied to the contents that
/// `ops` left, and the item it returned, if any, comes last.
pub proof fn lemma_run_push<T>(s: Seq<T>, ops: Seq<QueueOp<T>>, op: QueueOp<T>)
    ensures
        run(s, ops.push(op)) == (
            step(run(s, ops).0, op).0,
            run(s, ops).1 + returned(step(run(s, ops).0, op).1),
        ),
    decreases ops.len(),
{
    let all = ops.push(op);
    if ops.len() == 0 {
        assert(all[0] == op);
        assert(all.drop_first() =~= Seq::<QueueOp<T>>::empty());
        assert(run(s, ops) == (s, Seq::<T>::empty()));
        assert(run(step(s, op).0, all.drop_first()) == (step(s, op).0, Seq::<T>::empty()));
        assert(run(s, ops).1 + returned(step(s, op).1) =~= returned(step(s, op).1) + Seq::empty());
    } else {
        let (s1, out) = step(s, ops[0]);
        assert(all[0] == ops[0]);
        assert(all.drop_first() =~= ops.drop_first().push(op));
        lemma_run_push(s1, ops.drop_first(), op);
        let (q, o) = step(run(s1, ops.drop_first()).0, op);
        assert(returned(out) + (run(s1, ops.drop_first()).1 + returned(o)) =~= (returned(out) + run(
            s1,
            ops.drop_first(),
        ).1) + returned(o));
    }
}

/// No loss, no duplication: for any sequence of enqueues and dequeues on a
/// fresh queue, in whatever order the calls of several threads took effect,
/// the items returned together with the items left over are exactly the
/// items enqueued, counted with multiplicity.
pub proof fn lemma_no_loss_no_duplication<T>(ops: Seq<QueueOp<T>>)
    ensures
        run(Seq::empty(), ops).1.to_multiset().add(run(Seq::empty(), ops).0.to_multiset())
            == enqueued(ops).to_multiset(),
        run(Seq::empty(), ops).1 + run(Seq::empty(), ops).0 == enqueued(ops),
        forall|v: T|
            #![trigger run(Seq::empty(), ops).1.to_multiset().count(v)]
            run(Seq::empty(), ops).1.to_multiset().count(v) <= enqueued(ops).to_multiset().count(v),
{
    lemma_run_conserves(Seq::<T>::empty(), ops);
    assert(Seq::<T>::empty() + enqueued(ops) =~= enqueued(ops));
    vstd::seq_lib::lemma_multiset_commutative(run(Seq::empty(), ops).1, run(Seq::empty(), ops).0);
    broadcast use vstd::multiset::group_multiset_axioms;
}

/// Enqueues first, then the remaining calls: the same as starting with the
/// enqueued items already queued.
proof fn lemma_run_enqueues<T>(s: Seq<T>, items: Seq<T>, ops: Seq<QueueOp<T>>)
    ensures
        run(s, enqueues(items) + ops) == run(s + items, ops),
    decreases items.len(),
{
    if items.len() == 0 {
        assert(enqueues(items) + ops =~= ops);
        assert(s + items =~= s);
    } else {
        let all = enqueues(items) + ops;
        assert(all[0] == QueueOp::Enqueue(items[0]));
        assert(all.drop_first() =~= enqueues(items.drop_first()) + ops);
        lemma_run_enqueues(s.push(items[0]), items.drop_first(), ops);
        assert(s.push(items[0]) + items.drop_first() =~= s + items);
    }
}

/// As many dequeues as there are items return all of them, front first.
proof fn lemma_run_dequeues<T>(s: Seq<T>)
    ensures
        run(s, dequeues(s.len())) == (Seq::<T>::empty(), s),
    decreases s.len(),
{
    let ops = dequeues::<T>(s.len());
    if s.len() == 0 {
        assert(ops.len() == 0);
    } else {
        assert(ops[0] == QueueOp::<T>::Dequeue);
        assert(ops.drop_first() =~= dequeues::<T>(s.drop_first().len()));
        lemma_run_dequeues(s.drop_first());
        assert(seq![s[0]] + s.drop_first() =~= s);
    }
}

/// First in, first out: `n` items enqueued on a fresh queue with no dequeue
/// in between, followed by `n` dequeues, come back in the order enqueued,
/// and the queue is empty again.
pub proof fn lemma_fifo<T>(items: Seq<T>)
    ensures
        run(Seq::empty(), enqueues(items) + dequeues(items.len())) == (Seq::<T>::empty(), items),
{
    lemma_run_enqueues(Seq::<T>::empty(), items, dequeues(items.len()));
    assert(Seq::<T>::empty() + items =~= items);
    lemma_run_dequeues(items);
}

} // verus!
