use vstd::prelude::*;
use vstd::assert_multisets_equal;
use vstd::multiset::Multiset;

verus! {

/// An entry of the queue: a score and a caller-chosen payload word.
pub type Entry = (i64, u64);

/// Total order on entries: by score, ties broken by the payload word. A
/// strictly greater entry is popped first, so ties leave in a fixed order.
pub open spec fn entry_ge(a: Entry, b: Entry) -> bool {
    a.0 > b.0 || (a.0 == b.0 && a.1 >= b.1)
}

fn entry_gt(a: Entry, b: Entry) -> (r: bool)
    ensures
        r == (entry_ge(a, b) && a != b),
{
    a.0 > b.0 || (a.0 == b.0 && a.1 > b.1)
}

pub proof fn lemma_entry_order(a: Entry, b: Entry, c: Entry)
    ensures
        entry_ge(a, b) && entry_ge(b, c) ==> entry_ge(a, c),
        entry_ge(a, b) || entry_ge(b, a),
        entry_ge(a, b) && entry_ge(b, a) ==> a == b,
{
}

/// The parent slot of heap slot `i`.
pub open spec fn parent(i: int) -> int {
    (i - 1) / 2
}

/// The binary max-heap shape: every slot is bounded by its parent.
pub open spec fn heap_ordered(s: Seq<Entry>) -> bool {
    forall|j: int| 1 <= j < s.len() ==> entry_ge(s[parent(j)], #[trigger] s[j])
}

/// In a heap-ordered sequence the root bounds every slot.
proof fn lemma_root_max(s: Seq<Entry>, j: int)
    requires
        heap_ordered(s),
        0 <= j < s.len(),
    ensures
        entry_ge(s[0], s[j]),
    decreases j,
{
    if j > 0 {
        lemma_root_max(s, parent(j));
        lemma_entry_order(s[0], s[parent(j)], s[j]);
    }
}

/// Swapping two slots leaves the multiset of entries unchanged.
proof fn lemma_swap_multiset(s: Seq<Entry>, i: int, j: int)
    requires
        0 <= i < s.len(),
        0 <= j < s.len(),
    ensures
        s.update(i, s[j]).update(j, s[i]).to_multiset() == s.to_multiset(),
{
    broadcast use vstd::seq_lib::group_to_multiset_ensures;

    if i == j {
        assert(s.update(i, s[j]).update(j, s[i]) =~= s);
    } else {
        let s1 = s.update(i, s[j]);
        let s2 = s1.update(j, s[i]);
        assert(s1 =~= s.remove(i).insert(i, s[j]));
        assert(s1.to_multiset() == s.to_multiset().remove(s[i]).insert(s[j]));
        assert(s1[j] == s[j]);
        assert(s2 =~= s1.remove(j).insert(j, s[i]));
        assert(s2.to_multiset() == s1.to_multiset().remove(s1[j]).insert(s[i]));
        assert_multisets_equal!(
            s.to_multiset().remove(s[i]).insert(s[j]).remove(s[j]).insert(s[i]),
            s.to_multiset(),
        );
    }
}

/// A maximum-first priority queue of scored payload words, backed by a
/// binary heap. The multiset of entries is the model; `pop` removes and
/// returns the greatest entry in the `entry_ge` order, so for a given
/// multiset the popped value is fixed.
pub struct PriorityQueue {
    heap: Vec<Entry>,
}

impl PriorityQueue {
    /// The entries currently queued.
    pub closed spec fn view(&self) -> Multiset<Entry> {
        self.heap@.to_multiset()
    }

    pub closed spec fn wf(&self) -> bool {
        heap_ordered(self.heap@)
    }

    pub fn new() -> (r: PriorityQueue)
        ensures
            r.wf(),
            r@ == Multiset::<Entry>::empty(),
    {
        let q = PriorityQueue { heap: Vec::new() };
        proof {
            broadcast use vstd::seq_lib::group_to_multiset_ensures;

            assert(q.heap@.to_multiset() =~= Multiset::<Entry>::empty());
        }
        q
    }

    pub fn len(&self) -> (r: usize)
        ensures
            r == self@.len(),
    {
        proof {
            broadcast use vstd::seq_lib::group_to_multiset_ensures;

        }
        self.heap.len()
    }

    pub fn is_empty(&self) -> (r: bool)
        ensures
            r == (self@ =~= Multiset::<Entry>::empty()),
    {
        proof {
            broadcast use vstd::seq_lib::group_to_multiset_ensures;

            if self.heap@.len() == 0 {
                assert(self.heap@.to_multiset() =~= Multiset::<Entry>::empty());
            } else {
                assert(self.heap@.to_multiset().count(self.heap@[0]) > 0);
            }
        }
        self.heap.len() == 0
    }

    /// Queue `value` with priority `score`.
    pub fn push(&mut self, value: u64, score: i64)
        requires
            old(self).wf(),
            old(self)@.len() < usize::MAX,
        ensures
            final(self).wf(),
            final(self)@ == old(self)@.insert((score, value)),
            final(self)@.len() == old(self)@.len() + 1,
    {
        proof {
            broadcast use vstd::seq_lib::group_to_multiset_ensures;

        }
        let entry = (score, value);
        self.heap.push(entry);
        let mut i: usize = self.heap.len() - 1;
        let mut running: usize = 1;
        while i > 0 && running == 1
            invariant
                running <= 1,
                self.heap@.len() == old(self).heap@.len() + 1,
                0 <= i < self.heap@.len(),
                self.heap@.to_multiset() == old(self).heap@.to_multiset().insert(entry),
                forall|j: int|
                    1 <= j < self.heap@.len() && j != i ==> entry_ge(
                        self.heap@[parent(j)],
                        #[trigger] self.heap@[j],
                    ),
                i > 0 ==> forall|j: int|
                    1 <= j < self.heap@.len() && parent(j) == i ==> entry_ge(
                        self.heap@[parent(i as int)],
                        #[trigger] self.heap@[j],
                    ),
                running == 0 ==> heap_ordered(self.heap@),
            decreases i, running,
        {
            let p = (i - 1) / 2;
            if entry_gt(self.heap[i], self.heap[p]) {
                let a = self.heap[i];
                let b = self.heap[p];
                proof {
                    lemma_swap_multiset(self.heap@, i as int, p as int);
                }
                self.heap.set(i, b);
                self.heap.set(p, a);
                proof {
                    assert forall|j: int|
                        1 <= j < self.heap@.len() && j != p implies entry_ge(
                        self.heap@[parent(j)],
                        #[trigger] self.heap@[j],
                    ) by {
                        if j == i as int {
                        } else if parent(j) == i as int {
                            lemma_entry_order(a, b, self.heap@[j]);
                        } else if parent(j) == p as int {
                            lemma_entry_order(a, b, self.heap@[j]);
                        }
                    }
                    if p > 0 {
                        assert forall|j: int|
                            1 <= j < self.heap@.len() && parent(j) == p as int implies entry_ge(
                            self.heap@[parent(p as int)],
                            #[trigger] self.heap@[j],
                        ) by {
                            lemma_entry_order(self.heap@[parent(p as int)], b, self.heap@[j]);
                            lemma_entry_order(b, a, self.heap@[j]);
                            lemma_entry_order(self.heap@[parent(p as int)], a, self.heap@[j]);
                        }
                    }
                }
                i = p;
            } else {
                proof {
                    assert forall|j: int|
                        1 <= j < self.heap@.len() implies entry_ge(
                        self.heap@[parent(j)],
                        #[trigger] self.heap@[j],
                    ) by {
                        if j == i as int {
                            lemma_entry_order(
                                self.heap@[i as int],
                                self.heap@[parent(i as int)],
                                self.heap@[i as int],
                            );
                        }
                    }
                }
                running = 0;
            }
        }
    }

    /// Remove and return the greatest entry, or `None` when empty.
    pub fn pop(&mut self) -> (r: Option<Entry>)
        requires
            old(self).wf(),
        ensures
            final(self).wf(),
            old(self)@.len() == 0 ==> r is None && final(self)@ == old(self)@,
            old(self)@.len() > 0 ==> {
                let e = r->Some_0;
                &&& r is Some
                &&& old(self)@.count(e) > 0
                &&& forall|x: Entry| #[trigger] old(self)@.count(x) > 0 ==> entry_ge(e, x)
                &&& final(self)@ == old(self)@.remove(e)
                &&& final(self)@.len() == old(self)@.len() - 1
            },
    {
        proof {
            broadcast use vstd::seq_lib::group_to_multiset_ensures;

        }
        if self.heap.len() == 0 {
            return None;
        }
        let top = self.heap[0];
        proof {
            assert forall|x: Entry| #[trigger] self@.count(x) > 0 implies entry_ge(top, x) by {
                assert(self.heap@.contains(x));
                let k = choose|k: int| 0 <= k < self.heap@.len() && self.heap@[k] == x;
                lemma_root_max(self.heap@, k);
            }
            assert(self.heap@.to_multiset().count(top) > 0) by {
                assert(self.heap@.contains(top));
            }
        }
        let last_idx = self.heap.len() - 1;
        let a = self.heap[0];
        let b = self.heap[last_idx];
        proof {
            lemma_swap_multiset(self.heap@, 0, last_idx as int);
        }
        self.heap.set(0, b);
        self.heap.set(last_idx, a);
        let ghost pre_pop = self.heap@;
        self.heap.pop();
        proof {
            assert(self.heap@ =~= pre_pop.remove(last_idx as int));
            assert(self.heap@.to_multiset() == pre_pop.to_multiset().remove(top));
        }

        if self.heap.len() > 1 {
            let n = self.heap.len();
            let mut i: usize = 0;
            let mut running: usize = 1;
            while running == 1
                invariant
                    running <= 1,
                    n == self.heap@.len(),
                    n > 1,
                    0 <= i < n,
                    self.heap@.to_multiset() == old(self)@.remove(top),
                    forall|j: int|
                        1 <= j < n && parent(j) != i ==> entry_ge(
                            self.heap@[parent(j)],
                            #[trigger] self.heap@[j],
                        ),
                    i > 0 ==> forall|j: int|
                        1 <= j < n && parent(j) == i ==> entry_ge(
                            self.heap@[parent(i as int)],
                            #[trigger] self.heap@[j],
                        ),
                    running == 0 ==> heap_ordered(self.heap@),
                decreases n - i, running,
            {
                let wide_left = 2 * (i as u128) + 1;
                if wide_left >= n as u128 {
                    proof {
                        assert forall|j: int| 1 <= j < n implies entry_ge(
                            self.heap@[parent(j)],
                            #[trigger] self.heap@[j],
                        ) by {
                            if parent(j) == i as int {
                                assert(j == 2 * i + 1 || j == 2 * i + 2);
                            }
                        }
                    }
                    running = 0;
                } else {
                    let left = wide_left as usize;
                    let right = left + 1;
                    let mut c = left;
                    if right < n {
                        if entry_gt(self.heap[right], self.heap[left]) {
                            c = right;
                        }
                    }
                    let cval = self.heap[c];
                    proof {
                        // The chosen child bounds both children.
                        if right < n {
                            lemma_entry_order(cval, self.heap@[left as int], cval);
                            lemma_entry_order(cval, self.heap@[right as int], cval);
                        }
                    }
                    if entry_gt(self.heap[c], self.heap[i]) {
                        let a2 = self.heap[i];
                        let b2 = self.heap[c];
                        proof {
                            lemma_swap_multiset(self.heap@, i as int, c as int);
                        }
                        self.heap.set(i, b2);
                        self.heap.set(c, a2);
                        proof {
                            assert forall|j: int|
                                1 <= j < n && parent(j) != c implies entry_ge(
                                self.heap@[parent(j)],
                                #[trigger] self.heap@[j],
                            ) by {
                                assert(c == 2 * i + 1 || c == 2 * i + 2);
                                if j == c {
                                } else if j == i as int {
                                    if i > 0 {
                                        lemma_entry_order(self.heap@[parent(i as int)], a2, b2);
                                    }
                                } else if parent(j) == i as int {
                                    // the sibling of c: the chosen child bounds it
                                    lemma_entry_order(b2, cval, self.heap@[j]);
                                    lemma_entry_order(b2, a2, self.heap@[j]);
                                }
                            }
                            assert forall|j: int|
                                1 <= j < n && parent(j) == c as int implies entry_ge(
                                self.heap@[parent(c as int)],
                                #[trigger] self.heap@[j],
                            ) by {
                                lemma_entry_order(b2, a2, self.heap@[j]);
                            }
                        }
                        i = c;
                    } else {
                        proof {
                            assert forall|j: int|
                                1 <= j < n implies entry_ge(
                                self.heap@[parent(j)],
                                #[trigger] self.heap@[j],
                            ) by {
                                if parent(j) == i as int {
                                    assert(j == 2 * i + 1 || j == 2 * i + 2);
                                    lemma_entry_order(
                                        self.heap@[i as int],
                                        self.heap@[c as int],
                                        self.heap@[j],
                                    );
                                    lemma_entry_order(
                                        self.heap@[c as int],
                                        self.heap@[i as int],
                                        self.heap@[c as int],
                                    );
                                }
                            }
                        }
                        running = 0;
                    }
                }
            }
        }
        Some(top)
    }
}

} // verus!
