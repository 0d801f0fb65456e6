//! The interrupt manager: one FIFO wait queue of task indices per registered
//! interrupt source.
//!
//! The manager is viewed as a finite map from source identifier to the
//! sequence of waiting task indices, head first. A queue exists for a source
//! if and only if that source was registered.

use vstd::prelude::*;

verus! {

/// Reported when a queue operation cannot honour its request.
#[derive(Clone, Copy, Debug, PartialEq, Eq)]
pub enum IrqError {
    /// Registration found an existing queue for the source and kept it,
    /// so that tasks already waiting there are not stranded.
    AlreadyRegistered,
    /// No queue exists for the source; the task was not queued anywhere.
    UnknownSource,
}

/// What registering a source does to the manager's map: a fresh empty queue,
/// or nothing when a queue already exists (the existing queue is kept).
pub open spec fn spec_register(m: Map<usize, Seq<usize>>, source: usize) -> Map<usize, Seq<usize>> {
    if m.dom().contains(source) {
        m
    } else {
        m.insert(source, Seq::empty())
    }
}

/// What enqueueing a task does to the manager's map: appended at the tail of
/// the source's queue, or dropped when the source was never registered.
pub open spec fn spec_inqueue(m: Map<usize, Seq<usize>>, source: usize, task: usize) -> Map<
    usize,
    Seq<usize>,
> {
    if m.dom().contains(source) {
        m.insert(source, m[source].push(task))
    } else {
        m
    }
}

/// The task a dequeue returns: the head of the source's queue, or none when
/// the queue is empty or the source was never registered.
pub open spec fn spec_dequeued(m: Map<usize, Seq<usize>>, source: usize) -> Option<usize> {
    if m.dom().contains(source) && m[source].len() > 0 {
        Some(m[source][0])
    } else {
        None
    }
}

/// What a dequeue leaves behind: the source's queue without its head, or the
/// map unchanged when there was nothing to remove.
pub open spec fn spec_after_dequeue(m: Map<usize, Seq<usize>>, source: usize) -> Map<
    usize,
    Seq<usize>,
> {
    if m.dom().contains(source) && m[source].len() > 0 {
        m.insert(source, m[source].drop_first())
    } else {
        m
    }
}

/// One wait queue per registered interrupt source, keyed by the source's
/// numeric identifier. Queues hold task indices into the kernel's task
/// arena, never task state itself.
pub struct IrqManager {
    sources: Vec<usize>,
    queues: Vec<Vec<usize>>,
}

impl View for IrqManager {
    type V = Map<usize, Seq<usize>>;

    closed spec fn view(&self) -> Map<usize, Seq<usize>> {
        Map::new(
            |s: usize| self.sources@.contains(s),
            |s: usize| self.queues@[self.sources@.index_of(s)]@,
        )
    }
}

impl IrqManager {
    /// One source per slot, and one queue per source.
    pub closed spec fn wf(self) -> bool {
        &&& self.sources@.len() == self.queues@.len()
        &&& self.sources@.no_duplicates()
    }

    /// A source stored at slot `i` is registered, and its queue is the one
    /// stored at slot `i`.
    proof fn lemma_view_at(self, s: usize, i: int)
        requires
            self.wf(),
            0 <= i < self.sources@.len(),
            self.sources@[i] == s,
        ensures
            self@.dom().contains(s),
            self@[s] == self.queues@[i]@,
    {
        assert(self.sources@.contains(s));
        let j = self.sources@.index_of(s);
        assert(0 <= j < self.sources@.len() && self.sources@[j] == s);
        if i != j {
            assert(self.sources@[i] != self.sources@[j]);
        }
    }

    proof fn lemma_view_absent(self, s: usize)
        requires
            !self.sources@.contains(s),
        ensures
            !self@.dom().contains(s),
    {
    }

    /// An empty manager: no source registered, no queue held.
    pub fn new() -> (r: IrqManager)
        ensures
            r.wf(),
            r@ == Map::<usize, Seq<usize>>::empty(),
    {
        let r = IrqManager { sources: Vec::new(), queues: Vec::new() };
        proof {
            assert(r@ =~= Map::<usize, Seq<usize>>::empty());
        }
        r
    }

    /// The slot holding `source`, if the source is registered.
    fn find_index(&self, source: usize) -> (r: Option<usize>)
        ensures
            match r {
                Some(i) => i < self.sources@.len() && self.sources@[i as int] == source,
                None => !self.sources@.contains(source),
            },
    {
        let mut k: usize = 0;
        while k < self.sources.len()
            invariant
                k <= self.sources@.len(),
                forall|j: int| 0 <= j < k ==> self.sources@[j] != source,
            decreases self.sources@.len() - k,
        {
            if self.sources[k] == source {
                return Some(k);
            }
            k = k + 1;
        }
        None
    }

    /// Inserts an empty wait queue for `source`. A second registration of
    /// the same source is rejected and the existing queue is kept, so that
    /// tasks already waiting on the source are never discarded. Enabling the
    /// source at the interrupt controller is the host's part.
    pub fn register_irq(&mut self, source: usize) -> (r: Result<(), IrqError>)
        requires
            old(self).wf(),
        ensures
            final(self).wf(),
            final(self)@ == spec_register(old(self)@, source),
            r is Ok <==> !old(self)@.dom().contains(source),
            r is Err ==> r == Err::<(), IrqError>(IrqError::AlreadyRegistered),
    {
        match self.find_index(source) {
            Some(i) => {
                proof {
                    self.lemma_view_at(source, i as int);
                }
                Err(IrqError::AlreadyRegistered)
            },
            None => {
                proof {
                    old(self).lemma_view_absent(source);
                }
                self.sources.push(source);
                self.queues.push(Vec::new());
                proof {
                    let s0 = old(self).sources@;
                    let q0 = old(self).queues@;
                    let n = s0.len() as int;
                    assert forall|i: int, j: int|
                        0 <= i < self.sources@.len() && 0 <= j < self.sources@.len() && i
                            != j implies self.sources@[i] != self.sources@[j] by {
                        if i < n && j < n {
                            assert(s0.no_duplicates());
                        } else if j == n {
                            assert(s0[i] != source) by {
                                if s0[i] == source {
                                    assert(s0.contains(source));
                                }
                            }
                        } else {
                            assert(s0[j] != source) by {
                                if s0[j] == source {
                                    assert(s0.contains(source));
                                }
                            }
                        }
                    }
                    assert(self.wf());
                    assert(self@ =~~= spec_register(old(self)@, source)) by {
                        assert forall|s: usize| #[trigger]
                            self.sources@.contains(s) implies (s0.contains(s) || s
                            == source) by {
                            let i = choose|i: int|
                                0 <= i < self.sources@.len() && self.sources@[i] == s;
                            if i < n {
                                assert(s0[i] == s);
                            }
                        }
                        assert forall|s: usize| s0.contains(s) implies #[trigger]
                            self.sources@.contains(s) && self@[s] == old(self)@[s] by {
                            let i = choose|i: int| 0 <= i < s0.len() && s0[i] == s;
                            assert(self.sources@[i] == s);
                            self.lemma_view_at(s, i);
                            old(self).lemma_view_at(s, i);
                        }
                        assert(self.sources@[n] == source);
                        self.lemma_view_at(source, n);
                        assert(self@[source] =~= Seq::<usize>::empty());
                    }
                }
                Ok(())
            },
        }
    }

    /// Appends `task` to the tail of `source`'s wait queue. When the source
    /// was never registered no queue exists, nothing changes, and the caller
    /// is told so: a task silently dropped here would wait forever.
    pub fn inqueue(&mut self, source: usize, task: usize) -> (r: Result<(), IrqError>)
        requires
            old(self).wf(),
        ensures
            final(self).wf(),
            final(self)@ == spec_inqueue(old(self)@, source, task),
            r is Ok <==> old(self)@.dom().contains(source),
            r is Err ==> r == Err::<(), IrqError>(IrqError::UnknownSource),
    {
        match self.find_index(source) {
            Some(i) => {
                proof {
                    old(self).lemma_view_at(source, i as int);
                }
                self.queues[i].push(task);
                proof {
                    self.lemma_update_at(*old(self), source, i as int);
                    assert(self@ =~~= spec_inqueue(old(self)@, source, task));
                }
                Ok(())
            },
            None => {
                proof {
                    old(self).lemma_view_absent(source);
                }
                Err(IrqError::UnknownSource)
            },
        }
    }

    /// Removes and returns the head of `source`'s wait queue; reports none
    /// when the queue is empty or the source was never registered. Never
    /// blocks.
    pub fn dequeue(&mut self, source: usize) -> (r: Option<usize>)
        requires
            old(self).wf(),
        ensures
            final(self).wf(),
            r == spec_dequeued(old(self)@, source),
            final(self)@ == spec_after_dequeue(old(self)@, source),
    {
        match self.find_index(source) {
            Some(i) => {
                proof {
                    old(self).lemma_view_at(source, i as int);
                }
                if self.queues[i].len() > 0 {
                    let head = self.queues[i].remove(0);
                    proof {
                        assert(old(self).queues@[i as int]@.remove(0) =~= old(
                            self,
                        ).queues@[i as int]@.drop_first());
                        self.lemma_update_at(*old(self), source, i as int);
                        assert(self@ =~~= spec_after_dequeue(old(self)@, source));
                    }
                    Some(head)
                } else {
                    None
                }
            },
            None => {
                proof {
                    old(self).lemma_view_absent(source);
                }
                None
            },
        }
    }

    /// After one queue slot is rewritten in place, the view is the old view
    /// with only that source's queue replaced.
    proof fn lemma_update_at(self, prior: IrqManager, s: usize, i: int)
        requires
            prior.wf(),
            0 <= i < prior.sources@.len(),
            prior.sources@[i] == s,
            self.sources@ == prior.sources@,
            self.queues@ == prior.queues@.update(i, self.queues@[i]),
        ensures
            self.wf(),
            self@ == prior@.insert(s, self.queues@[i]@),
    {
        assert(self@ =~~= prior@.insert(s, self.queues@[i]@)) by {
            self.lemma_view_at(s, i);
            assert forall|t: usize|
                self.sources@.contains(t) && t != s implies self@[t] == prior@[t] by {
                let j = choose|j: int|
                    0 <= j < self.sources@.len() && self.sources@[j] == t;
                if j == i {
                    assert(self.sources@[j] == s);
                }
                self.lemma_view_at(t, j);
                prior.lemma_view_at(t, j);
            }
        }
    }
}

} // verus!
