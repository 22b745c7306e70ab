use std::collections::VecDeque;
use vstd::prelude::*;

use crate::model::{step, QueueOp};

verus! {

/// The number of distinct node tags: tags are `u64` values that wrap around.
pub open spec fn tag_space() -> int {
    0x1_0000_0000_0000_0000
}

/// The tag `i` steps after `base`, wrapping around the tag space.
pub open spec fn tag_at(base: u64, i: int) -> u64 {
    if base + i > u64::MAX {
        (base + i - tag_space()) as u64
    } else {
        (base + i) as u64
    }
}

/// Distinct positions within the tag space have distinct tags.
proof fn lemma_tag_injective(base: u64, i: int, j: int)
    requires
        0 <= i < tag_space(),
        0 <= j < tag_space(),
        tag_at(base, i) == tag_at(base, j),
    ensures
        i == j,
{
}

/// Counting from the tag one step after `base` is counting from `base`, shifted by one.
proof fn lemma_tag_shift(base: u64, i: int)
    requires
        0 <= i,
        i + 1 < tag_space(),
    ensures
        tag_at(tag_at(base, 1), i) == tag_at(base, i + 1),
{
}

/// Subtracting the base with wraparound recovers the position of a tag.
proof fn lemma_tag_offset(base: u64, i: int)
    requires
        0 <= i < tag_space(),
    ensures
        vstd::wrapping::u64_specs::wrapping_sub(tag_at(base, i), base) == i,
{
}

/// One cell of the list: a payload (absent in the sentinel) and the tag of
/// its successor (absent for the last node).
struct Node<T> {
    item: Option<T>,
    next: Option<u64>,
}

impl<T> Node<T> {
    /// A node that holds `item` and has no successor yet.
    fn new(item: T) -> (n: Node<T>)
        ensures
            n.item == Some(item),
            n.next is None,
    {
        Node { item: Some(item), next: None }
    }

    /// A sentinel: no payload, no successor.
    fn dummy() -> (n: Node<T>)
        ensures
            n.item is None,
            n.next is None,
    {
        Node { item: None, next: None }
    }
}

/// A Michael–Scott linked queue whose nodes live in an arena window.
///
/// The window holds every node still reachable from `head`, oldest first:
/// the sentinel at position 0, then one node per queued item. Each node is
/// named by a tag; the tag of the node at position `i` is `tag_at(head, i)`,
/// and every `next` reference holds the tag of the following node. Tags only
/// grow (wrapping after 2^64 nodes), so a tag observed earlier can never name
/// a different, recycled node while the window is shorter than the tag space.
///
/// `tail` names the last node or, while an enqueue has linked a node without
/// yet moving `tail`, the node just before it.
///
/// Reclamation: a node unlinked by a successful head step is dropped at once
/// from the front of the window. This is safe because every step runs with
/// exclusive access to the list (`&mut self`), so no other thread can still
/// hold a reference to it.
pub struct LinkedQueue<T> {
    nodes: VecDeque<Node<T>>,
    head: u64,
    tail: u64,
}

impl<T> View for LinkedQueue<T> {
    type V = Seq<T>;

    /// The queued items, front first: the payloads of the nodes after the sentinel.
    closed spec fn view(&self) -> Seq<T> {
        Seq::new((self.nodes@.len() - 1) as nat, |i: int| self.nodes@[i + 1].item->Some_0)
    }
}

impl<T> LinkedQueue<T> {
    /// The position of the node that `tail` names.
    spec fn tail_pos(&self) -> int {
        if self.tail == tag_at(self.head, self.nodes@.len() - 1) {
            self.nodes@.len() - 1
        } else {
            self.nodes@.len() - 2
        }
    }

    /// The list's invariant.
    pub closed spec fn wf(&self) -> bool {
        let s = self.nodes@;
        &&& 1 <= s.len() < tag_space()
        &&& s[0].item is None
        &&& forall|i: int| 1 <= i < s.len() ==> (#[trigger] s[i]).item is Some
        &&& forall|i: int|
            0 <= i < s.len() - 1 ==> (#[trigger] s[i]).next == Some(tag_at(self.head, i + 1))
        &&& s.last().next is None
        &&& (self.tail == tag_at(self.head, s.len() - 1) || (s.len() >= 2 && self.tail == tag_at(
            self.head,
            s.len() - 2,
        )))
    }

    /// An empty queue: one sentinel node, named by both `head` and `tail`.
    pub fn new() -> (q: Self)
        ensures
            q.wf(),
            q@ == Seq::<T>::empty(),
    {
        let mut nodes: VecDeque<Node<T>> = VecDeque::new();
        nodes.push_back(Node::dummy());
        let q = LinkedQueue { nodes, head: 0, tail: 0 };
        assert(q@ =~= Seq::<T>::empty());
        q
    }

    /// The position in the window of the node that `tag` names.
    fn position(&self, tag: u64, Ghost(p): Ghost<int>) -> (r: usize)
        requires
            self.wf(),
            0 <= p < self.nodes@.len(),
            tag == tag_at(self.head, p),
        ensures
            r == p,
    {
        let n = self.nodes.len();
        let off = tag.wrapping_sub(self.head);
        proof {
            lemma_tag_offset(self.head, p);
        }
        assert(off < n);
        off as usize
    }

    /// Reads the `next` reference of the node that `tag` names.
    fn next_of(&self, tag: u64, Ghost(p): Ghost<int>) -> (r: Option<u64>)
        requires
            self.wf(),
            0 <= p < self.nodes@.len(),
            tag == tag_at(self.head, p),
        ensures
            r == self.nodes@[p].next,
    {
        let pos = self.position(tag, Ghost(p));
        self.nodes[pos].next
    }

    /// Moves `tail` from `observed` to `succ`, the node after it, if `tail`
    /// still names `observed`; reports whether it did.
    fn swing_tail(&mut self, observed: u64, succ: u64) -> (moved: bool)
        requires
            old(self).wf(),
            old(self).nodes@[old(self).tail_pos()].next == Some(succ),
        ensures
            final(self).wf(),
            final(self).nodes@ == old(self).nodes@,
            final(self).head == old(self).head,
            moved == (observed == old(self).tail),
            moved ==> final(self).tail_pos() == old(self).tail_pos() + 1,
            !moved ==> final(self).tail == old(self).tail,
    {
        let ghost len = self.nodes@.len();
        let ghost tp = self.tail_pos();
        if self.tail == observed {
            assert(tp == len - 2) by {
                if tp == len - 1 {
                    assert(self.nodes@.last().next is None);
                }
            }
            self.tail = succ;
            true
        } else {
            false
        }
    }

    /// Links `node` after the node that `observed` names if that node has no
    /// successor yet, returning the tag of the linked node; otherwise hands
    /// `node` back.
    fn link_after(&mut self, observed: u64, node: Node<T>) -> (r: Result<u64, Node<T>>)
        requires
            old(self).wf(),
            observed == old(self).tail,
            node.item is Some,
            node.next is None,
        ensures
            final(self).wf(),
            final(self).head == old(self).head,
            final(self).tail == old(self).tail,
            match r {
                Ok(tag) => {
                    &&& old(self).nodes@[old(self).tail_pos()].next is None
                    &&& final(self)@ == old(self)@.push(node.item->Some_0)
                    &&& final(self).nodes@[final(self).tail_pos()].next == Some(tag)
                },
                Err(back) => {
                    &&& old(self).nodes@[old(self).tail_pos()].next is Some
                    &&& back == node
                    &&& final(self).nodes@ == old(self).nodes@
                },
            },
    {
        let ghost old_nodes = self.nodes@;
        let ghost tp = self.tail_pos();
        let pos = self.position(observed, Ghost(tp));
        if self.nodes[pos].next.is_some() {
            return Err(node);
        }
        let len = self.nodes.len();
        assert(pos == len - 1);
        let tag = self.head.wrapping_add(len as u64);
        assert(tag == tag_at(self.head, len as int));
        let mut last = self.nodes.pop_back().unwrap();
        last.next = Some(tag);
        self.nodes.push_back(last);
        self.nodes.push_back(node);
        // The window's length fits in a `usize`.
        let _ = self.nodes.len();
        let ghost s = self.nodes@;
        assert(forall|i: int| 0 <= i < len - 1 ==> #[trigger] s[i] == old_nodes[i]);
        assert(s[len - 1].next == Some(tag_at(self.head, len as int)));
        assert(self.tail_pos() == s.len() - 2) by {
            if self.tail == tag_at(self.head, s.len() - 1) {
                lemma_tag_injective(self.head, s.len() - 1, s.len() - 2);
            }
        }
        assert(self@ =~= old(self)@.push(node.item->Some_0));
        Ok(tag)
    }

    /// Moves `head` from `observed` to `succ`, the node after it, if `head`
    /// still names `observed`: the item of `succ` is taken, `succ` becomes the
    /// sentinel and the old sentinel is dropped.
    fn advance_head(&mut self, observed: u64, succ: u64) -> (r: Option<T>)
        requires
            old(self).wf(),
            old(self).tail_pos() >= 1,
            old(self).nodes@[0].next == Some(succ),
        ensures
            final(self).wf(),
            observed == old(self).head ==> {
                &&& r == Some(old(self)@[0])
                &&& final(self)@ == old(self)@.drop_first()
            },
            observed != old(self).head ==> r is None && *final(self) == *old(self),
    {
        if self.head != observed {
            return None;
        }
        let ghost old_nodes = self.nodes@;
        let ghost h = self.head;
        let ghost tp = self.tail_pos();
        let _reclaimed = self.nodes.pop_front();
        let first = self.nodes.pop_front().unwrap();
        let Node { item, next } = first;
        self.nodes.push_front(Node { item: None, next });
        self.head = succ;
        let ghost s = self.nodes@;
        assert(forall|i: int| 1 <= i < s.len() ==> #[trigger] s[i] == old_nodes[i + 1]);
        assert forall|i: int| 0 <= i < s.len() - 1 implies (#[trigger] s[i]).next == Some(
            tag_at(self.head, i + 1),
        ) by {
            lemma_tag_shift(h, i + 1);
        }
        proof {
            lemma_tag_shift(h, tp - 1);
        }
        assert(self@ =~= old(self)@.drop_first());
        item
    }

    /// Appends `item` at the back.
    ///
    /// Reads `tail` and its successor; a successor means an earlier enqueue
    /// linked a node without moving `tail`, so `tail` is moved first and the
    /// step repeats. Otherwise the new node is linked after `tail`, then
    /// `tail` is moved to it.
    pub fn enqueue(&mut self, item: T)
        requires
            old(self).wf(),
        ensures
            final(self).wf(),
            final(self)@ == old(self)@.push(item),
            step(old(self)@, QueueOp::Enqueue(item)) == (final(self)@, None::<T>),
    {
        let mut node = Node::new(item);
        loop
            invariant
                self.wf(),
                self@ == old(self)@,
                node.item == Some(item),
                node.next is None,
            decreases self.nodes@.len() - 1 - self.tail_pos(),
        {
            let cur_tail = self.tail;
            let tail_next = self.next_of(cur_tail, Ghost(self.tail_pos()));
            match tail_next {
                Some(succ) => {
                    let _ = self.swing_tail(cur_tail, succ);
                },
                None => {
                    match self.link_after(cur_tail, node) {
                        Ok(tag) => {
                            let _ = self.swing_tail(cur_tail, tag);
                            return;
                        },
                        Err(back) => {
                            node = back;
                        },
                    }
                },
            }
        }
    }

    /// Removes and returns the front item, or `None` when the queue is empty.
    ///
    /// Reads `head`, `tail` and the successor of `head`. When `head` and
    /// `tail` name the same node, no successor means the queue is empty, and
    /// a successor means `tail` lags and is moved first. Otherwise `head`
    /// moves to its successor, whose item is returned.
    pub fn dequeue(&mut self) -> (r: Option<T>)
        requires
            old(self).wf(),
        ensures
            final(self).wf(),
            old(self)@.len() == 0 ==> r is None && final(self)@ == old(self)@,
            old(self)@.len() > 0 ==> r == Some(old(self)@[0]) && final(self)@ == old(
                self,
            )@.drop_first(),
            step(old(self)@, QueueOp::Dequeue) == (final(self)@, r),
    {
        loop
            invariant
                self.wf(),
                self@ == old(self)@,
            decreases self.nodes@.len() - 1 - self.tail_pos(),
        {
            let head = self.head;
            let tail = self.tail;
            let next = self.next_of(head, Ghost(0));
            proof {
                if head == tail {
                    lemma_tag_injective(self.head, 0, self.tail_pos());
                }
            }
            if head == tail {
                match next {
                    None => {
                        return None;
                    },
                    Some(succ) => {
                        let _ = self.swing_tail(tail, succ);
                    },
                }
            } else {
                match next {
                    None => {
                        // Not reached: `tail` names a later node, so `head` has a successor.
                        return None;
                    },
                    Some(succ) => {
                        let taken = self.advance_head(head, succ);
                        if taken.is_some() {
                            return taken;
                        }
                    },
                }
            }
        }
    }

    /// The number of queued items.
    pub fn len(&self) -> (n: usize)
        requires
            self.wf(),
        ensures
            n == self@.len(),
    {
        self.nodes.len() - 1
    }
}

} // verus!
