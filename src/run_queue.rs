//! The ready queue: an intrusive singly linked list threaded through the
//! `link` fields of the task headers, anchored at one head.
use vstd::prelude::*;
use crate::task::TaskHeader;

verus! {

/// Head of the intrusive list, with the list it anchors as a ghost sequence
/// (most recently pushed first).
pub struct RunQueue {
    head: Option<usize>,
    list: Ghost<Seq<usize>>,
}

/// The links of `headers` thread exactly through `list`, in order, and every
/// header outside it has no link.
pub open spec fn links_thread(head: Option<usize>, list: Seq<usize>, h: Seq<TaskHeader>) -> bool {
    &&& list.no_duplicates()
    &&& forall|i: int| 0 <= i < list.len() ==> (list[i] as int) < h.len()
    &&& head == (if list.len() == 0 {
        None::<usize>
    } else {
        Some(list[0])
    })
    &&& forall|i: int|
        0 <= i < list.len() ==> #[trigger] h[list[i] as int].link == (if i + 1 < list.len() {
            Some(list[i + 1])
        } else {
            None::<usize>
        })
    &&& forall|t: int| 0 <= t < h.len() && !list.contains(t as usize) ==> (#[trigger] h[t]).link
        is None
}

/// The two header sequences agree everywhere but in their links.
pub open spec fn same_states(a: Seq<TaskHeader>, b: Seq<TaskHeader>) -> bool {
    &&& a.len() == b.len()
    &&& forall|i: int| 0 <= i < a.len() ==> (#[trigger] a[i]).state == b[i].state
}

impl RunQueue {
    /// The tasks in the queue, most recently pushed first.
    pub closed spec fn view(&self) -> Seq<usize> {
        self.list@
    }

    pub closed spec fn wf(&self, h: Seq<TaskHeader>) -> bool {
        links_thread(self.head, self.list@, h) && h.len() <= usize::MAX
    }

    /// An empty queue over headers that have no links.
    pub fn new(Ghost(h): Ghost<Seq<TaskHeader>>) -> (r: RunQueue)
        requires
            forall|t: int| 0 <= t < h.len() ==> (#[trigger] h[t]).link is None,
            h.len() <= usize::MAX,
        ensures
            r.wf(h),
            r@ == Seq::<usize>::empty(),
    {
        RunQueue { head: None, list: Ghost(Seq::empty()) }
    }

    /// Changing a header's state, and not its link, keeps the queue well formed.
    pub proof fn lemma_states_only(&self, a: Seq<TaskHeader>, b: Seq<TaskHeader>)
        requires
            self.wf(a),
            a.len() == b.len(),
            forall|i: int| 0 <= i < a.len() ==> (#[trigger] a[i]).link == b[i].link,
        ensures
            self.wf(b),
    {
        assert forall|i: int| 0 <= i < self.list@.len() implies #[trigger] b[self.list@[i] as int].link
            == (if i + 1 < self.list@.len() {
            Some(self.list@[i + 1])
        } else {
            None::<usize>
        }) by {
            assert(a[self.list@[i] as int].link == b[self.list@[i] as int].link);
        }
        assert forall|t: int| 0 <= t < b.len() && !self.list@.contains(t as usize) implies (
        #[trigger] b[t]).link is None by {
            assert(a[t].link == b[t].link);
        }
    }

    /// Links task `t` at the head of the list.
    pub fn push(&mut self, headers: &mut Vec<TaskHeader>, t: usize)
        requires
            old(self).wf(old(headers)@),
            t < old(headers)@.len(),
            !old(self)@.contains(t),
        ensures
            final(self).wf(final(headers)@),
            final(self)@ == seq![t] + old(self)@,
            same_states(old(headers)@, final(headers)@),
    {
        let ghost l = self.list@;
        let ghost h0 = headers@;
        let mut hd = headers[t];
        hd.link = self.head;
        headers.set(t, hd);
        self.head = Some(t);
        self.list = Ghost(seq![t] + l);
        proof {
            let n = self.list@;
            let h = headers@;
            assert forall|i: int| 0 <= i < n.len() implies #[trigger] h[n[i] as int].link == (if i
                + 1 < n.len() {
                Some(n[i + 1])
            } else {
                None::<usize>
            }) by {
                if i > 0 {
                    assert(n[i] == l[i - 1]);
                    assert(h0[l[i - 1] as int].link == (if i < l.len() {
                        Some(l[i])
                    } else {
                        None::<usize>
                    }));
                }
            }
            assert forall|u: int| 0 <= u < h.len() && !n.contains(u as usize) implies (
            #[trigger] h[u]).link is None by {
                assert(n[0] == t);
                if l.contains(u as usize) {
                    let k = choose|k: int| 0 <= k < l.len() && l[k] == u as usize;
                    assert(n[k + 1] == u as usize);
                }
                assert(h0[u].link is None);
            }
            assert forall|i: int, j: int| 0 <= i < n.len() && 0 <= j < n.len() && i != j implies n[i]
                != n[j] by {
                if i == 0 {
                    assert(n[j] == l[j - 1]);
                } else if j == 0 {
                    assert(n[i] == l[i - 1]);
                } else {
                    assert(n[i] == l[i - 1] && n[j] == l[j - 1]);
                }
            }
            assert(same_states(h0, h));
        }
    }

    /// Detaches the whole list at once and appends it, most recent first, to
    /// `out`; every link walked is cleared.
    pub fn take_all(&mut self, headers: &mut Vec<TaskHeader>, out: &mut Vec<usize>)
        requires
            old(self).wf(old(headers)@),
        ensures
            final(self).wf(final(headers)@),
            final(self)@ == Seq::<usize>::empty(),
            final(out)@ == old(out)@ + old(self)@,
            same_states(old(headers)@, final(headers)@),
    {
        let ghost l = self.list@;
        let ghost h0 = headers@;
        let mut cur = self.head;
        self.head = None;
        self.list = Ghost(Seq::empty());
        let ghost mut k: int = 0;
        assert(l.subrange(0, l.len() as int) =~= l);
        loop
            invariant
                0 <= k <= l.len(),
                l.no_duplicates(),
                forall|i: int| 0 <= i < l.len() ==> (l[i] as int) < headers@.len(),
                headers@.len() <= usize::MAX,
                cur == (if k < l.len() {
                    Some(l[k])
                } else {
                    None::<usize>
                }),
                out@ == old(out)@ + l.subrange(0, k),
                same_states(h0, headers@),
                self.head is None,
                self.list@ == Seq::<usize>::empty(),
                forall|i: int|
                    k <= i < l.len() ==> #[trigger] headers@[l[i] as int].link == (if i + 1
                        < l.len() {
                        Some(l[i + 1])
                    } else {
                        None::<usize>
                    }),
                forall|t: int|
                    0 <= t < headers@.len() && !l.subrange(k, l.len() as int).contains(t as usize)
                        ==> (#[trigger] headers@[t]).link is None,
            ensures
                k == l.len(),
            decreases l.len() - k,
        {
            match cur {
                None => {
                    break ;
                },
                Some(i) => {
                    let ghost hb = headers@;
                    let mut hd = headers[i];
                    let next = hd.link;
                    hd.link = None;
                    headers.set(i, hd);
                    out.push(i);
                    cur = next;
                    proof {
                        assert(l.subrange(0, k + 1) =~= l.subrange(0, k).push(i));
                        assert forall|j: int| k + 1 <= j < l.len() implies #[trigger] headers@[l[j] as int].link
                            == (if j + 1 < l.len() {
                            Some(l[j + 1])
                        } else {
                            None::<usize>
                        }) by {
                            assert(l[j] != l[k]);
                            assert(hb[l[j] as int].link == headers@[l[j] as int].link);
                        }
                        assert forall|t: int|
                            0 <= t < headers@.len() && !l.subrange(k + 1, l.len() as int).contains(
                                t as usize,
                            ) implies (#[trigger] headers@[t]).link is None by {
                            if t != i as int {
                                if l.subrange(k, l.len() as int).contains(t as usize) {
                                    let m = choose|m: int|
                                        0 <= m < l.len() - k && l.subrange(k, l.len() as int)[m]
                                            == t as usize;
                                    assert(m != 0);
                                    assert(l.subrange(k + 1, l.len() as int)[m - 1] == t as usize);
                                }
                                assert(hb[t].link == headers@[t].link);
                            }
                        }
                        k = k + 1;
                    }
                },
            }
        }
        proof {
            assert(l.subrange(0, k) =~= l);
            assert forall|t: int| 0 <= t < headers@.len() && !self.list@.contains(t as usize) implies (
            #[trigger] headers@[t]).link is None by {
                assert(l.subrange(k, l.len() as int).len() == 0);
            }
        }
    }
}

} // verus!
