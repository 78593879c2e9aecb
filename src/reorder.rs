use vstd::prelude::*;

verus! {

/// Puts items that arrive in any order back into the order of their
/// sequence indexes: an item is released once every item before it has been.
pub struct ReorderBuffer<T> {
    next: usize,
    pending: Vec<(usize, T)>,
    arrived: Ghost<Map<int, T>>,
}

impl<T> ReorderBuffer<T> {
    /// The buffer's invariant: pending items have distinct indexes from the
    /// next one on, everything before the next index has arrived, and the
    /// next index has not.
    pub closed spec fn wf(&self) -> bool {
        &&& forall|a: int, b: int|
            0 <= a < b < self.pending.len() ==> self.pending[a].0 != self.pending[b].0
        &&& forall|a: int|
            0 <= a < self.pending.len() ==> {
                let (i, x) = #[trigger] self.pending[a];
                &&& self.next <= i < usize::MAX
                &&& self.arrived@.contains_key(i as int)
                &&& self.arrived@[i as int] == x
            }
        &&& forall|j: int| 0 <= j < self.next ==> #[trigger] self.arrived@.contains_key(j)
        &&& forall|j: int|
            #[trigger] self.arrived@.contains_key(j) ==> (0 <= j < self.next || exists|a: int|
                0 <= a < self.pending.len() && self.pending[a].0 == j)
        &&& !self.arrived@.contains_key(self.next as int)
    }

    /// Whether the item with index `i` has arrived.
    pub closed spec fn seen(&self, i: int) -> bool {
        self.arrived@.contains_key(i)
    }

    /// The item that arrived with index `i`.
    pub closed spec fn item(&self, i: int) -> T {
        self.arrived@[i]
    }

    /// The items released so far, in order: those with indexes `0..n` for the
    /// first index `n` that has not arrived.
    pub closed spec fn released(&self) -> Seq<T> {
        Seq::new(self.next as nat, |j: int| self.arrived@[j])
    }

    /// An empty buffer, waiting for index 0.
    pub fn new() -> (r: ReorderBuffer<T>)
        ensures
            r.wf(),
            r.released() == Seq::<T>::empty(),
            forall|i: int| !r.seen(i),
    {
        let r = ReorderBuffer { next: 0, pending: Vec::new(), arrived: Ghost(Map::empty()) };
        assert(r.released() =~= Seq::<T>::empty());
        r
    }

    /// Takes the item with sequence index `index` and returns the items that
    /// it makes ready, in order.
    pub fn push(&mut self, index: usize, item: T) -> (out: Vec<T>)
        requires
            old(self).wf(),
            !old(self).seen(index as int),
            index < usize::MAX,
        ensures
            final(self).wf(),
            final(self).released() == old(self).released() + out@,
            forall|i: int| #[trigger] final(self).seen(i) <==> (old(self).seen(i) || i == index),
            forall|i: int| old(self).seen(i) ==> #[trigger] final(self).item(i) == old(self).item(i),
            final(self).item(index as int) == item,
    {
        let ghost old_released = self.released();
        let ghost item_ghost = item;
        self.arrived = Ghost(self.arrived@.insert(index as int, item_ghost));
        self.pending.push((index, item));
        proof {
            assert forall|j: int| #[trigger] self.arrived@.contains_key(j) implies (0 <= j < self.next
                || exists|a: int| 0 <= a < self.pending.len() && self.pending[a].0 == j) by {
                if j == index {
                    assert(self.pending[self.pending.len() - 1].0 == j);
                } else if !(0 <= j < self.next) {
                    let a = choose|a: int| 0 <= a < old(self).pending.len() && old(self).pending[a].0 == j;
                    assert(self.pending[a] == old(self).pending[a]);
                }
            }
            assert(self.released() =~= old_released);
        }
        let mut out: Vec<T> = Vec::new();
        loop
            invariant
                forall|a: int, b: int|
                    0 <= a < b < self.pending.len() ==> self.pending[a].0 != self.pending[b].0,
                forall|a: int|
                    0 <= a < self.pending.len() ==> {
                        let (i, x) = #[trigger] self.pending[a];
                        &&& self.next <= i < usize::MAX
                        &&& self.arrived@.contains_key(i as int)
                        &&& self.arrived@[i as int] == x
                    },
                forall|j: int| 0 <= j < self.next ==> #[trigger] self.arrived@.contains_key(j),
                forall|j: int|
                    #[trigger] self.arrived@.contains_key(j) ==> (0 <= j < self.next || exists|a: int|
                        0 <= a < self.pending.len() && self.pending[a].0 == j),
                self.arrived@ == old(self).arrived@.insert(index as int, item_ghost),
                self.released() == old_released + out@,
            ensures
                self.wf(),
                self.arrived@ == old(self).arrived@.insert(index as int, item_ghost),
                self.released() == old_released + out@,
            decreases usize::MAX - self.next,
        {
            let mut a: usize = 0;
            while a < self.pending.len() && self.pending[a].0 != self.next
                invariant
                    a <= self.pending.len(),
                    forall|b: int| 0 <= b < a ==> self.pending[b].0 != self.next,
                decreases self.pending.len() - a,
            {
                a = a + 1;
            }
            if a == self.pending.len() {
                proof {
                    if self.arrived@.contains_key(self.next as int) {
                        let b = choose|b: int| 0 <= b < self.pending.len() && self.pending[b].0 == self.next;
                        assert(false);
                    }
                }
                break;
            }
            let ghost before = self.pending@;
            let ghost released_before = self.released();
            let (_, x) = self.pending.remove(a);
            out.push(x);
            self.next = self.next + 1;
            proof {
                assert forall|p: int, q: int| 0 <= p < q < self.pending.len() implies self.pending[p].0 != self.pending[q].0 by {
                    let pp = if p < a {
                        p
                    } else {
                        p + 1
                    };
                    let qq = if q < a {
                        q
                    } else {
                        q + 1
                    };
                    assert(self.pending[p] == before[pp]);
                    assert(self.pending[q] == before[qq]);
                }
                assert forall|p: int| 0 <= p < self.pending.len() implies {
                    let (i, x) = #[trigger] self.pending[p];
                    &&& self.next <= i < usize::MAX
                    &&& self.arrived@.contains_key(i as int)
                    &&& self.arrived@[i as int] == x
                } by {
                    let pp = if p < a {
                        p
                    } else {
                        p + 1
                    };
                    assert(self.pending[p] == before[pp]);
                    assert(before[pp].0 != before[a as int].0);
                }
                assert forall|j: int| #[trigger] self.arrived@.contains_key(j) implies (0 <= j < self.next
                    || exists|b: int| 0 <= b < self.pending.len() && self.pending[b].0 == j) by {
                    if !(0 <= j < self.next) {
                        let b = choose|b: int| 0 <= b < before.len() && before[b].0 == j;
                        if b < a {
                            assert(self.pending[b] == before[b]);
                        } else if b > a {
                            assert(self.pending[b - 1] == before[b]);
                        }
                    }
                }
                assert(self.released() =~= released_before.push(x));
            }
        }
        out
    }

    /// Whether nothing is held back: every item that arrived has been released.
    pub fn is_empty(&self) -> (r: bool)
        requires
            self.wf(),
        ensures
            r <==> forall|i: int| self.seen(i) ==> 0 <= i < self.released().len(),
    {
        proof {
            if self.pending.len() > 0 {
                let (i, x) = self.pending[0];
                assert(self.seen(i as int));
            }
        }
        self.pending.len() == 0
    }
}

/// Once exactly the indexes `0..n` have arrived, all `n` items have been
/// released, each at the position of its index: the output follows the
/// sequence order whatever the order of arrival.
pub proof fn lemma_release_order<T>(b: ReorderBuffer<T>, n: nat)
    requires
        b.wf(),
        forall|i: int| 0 <= i < n ==> b.seen(i),
        forall|i: int| b.seen(i) ==> 0 <= i < n,
    ensures
        b.released().len() == n,
        forall|j: int| 0 <= j < n ==> #[trigger] b.released()[j] == b.item(j),
{
    if b.next < n {
        assert(b.seen(b.next as int));
    }
    if b.next > n {
        assert(b.seen(n as int));
    }
}

} // verus!
