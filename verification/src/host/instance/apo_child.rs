//! The object that was displaced and is kept as a child: how it is taken hold
//! of, what is asked of it, and how it is let go.
//!
//! An interface of the child is known by the address of its pointer; zero is a
//! missing one.

use vstd::prelude::*;
use crate::hresult::{failed, E_POINTER, HRESULT};

verus! {

/// The interfaces that a child has to offer, in the order in which they are
/// asked for.
#[derive(Clone, Copy, Debug, PartialEq, Eq, Structural)]
pub enum ChildInterface {
    Object,
    RealTime,
    Configuration,
}

/// The answer to a query for an interface.
#[derive(Clone, Copy, Debug, PartialEq, Eq, Structural)]
pub struct QueryReply {
    pub hr: HRESULT,
    pub ptr: usize,
}

/// A child with its interfaces.
#[derive(Clone, Copy, Debug, PartialEq, Eq, Structural)]
pub struct ChildApo {
    pub iapo_ptr: usize,
    pub iapo_rt_ptr: usize,
    pub iapo_cfg_ptr: usize,
}

/// What to do next to take hold of a child.
#[derive(Clone, Debug, PartialEq, Eq)]
pub enum SetupStep {
    /// Ask for an interface.
    Query(ChildInterface),
    /// The child is there.
    Ready(ChildApo),
    /// Release these interfaces, in this order, and give up.
    Failed { hr: HRESULT, release: Vec<usize> },
}

/// The contents of a step.
pub enum StepView {
    Query(ChildInterface),
    Ready(ChildApo),
    Failed { hr: HRESULT, release: Seq<usize> },
}

impl View for SetupStep {
    type V = StepView;

    open spec fn view(&self) -> StepView {
        match self {
            SetupStep::Query(i) => StepView::Query(*i),
            SetupStep::Ready(c) => StepView::Ready(*c),
            SetupStep::Failed { hr, release } => StepView::Failed { hr: *hr, release: release@ },
        }
    }
}

/// The pointers to release for some that were obtained: the last one first,
/// those that are missing left out.
pub open spec fn to_release(ptrs: Seq<usize>) -> Seq<usize>
    decreases ptrs.len(),
{
    if ptrs.len() == 0 {
        Seq::empty()
    } else if ptrs.last() == 0 {
        to_release(ptrs.drop_last())
    } else {
        seq![ptrs.last()] + to_release(ptrs.drop_last())
    }
}

/// The pointers among some answers.
pub open spec fn pointers(replies: Seq<QueryReply>) -> Seq<usize> {
    replies.map_values(|q: QueryReply| q.ptr)
}

/// The interface that is asked for after some answers.
pub open spec fn next_interface(answers: nat) -> ChildInterface {
    if answers == 0 {
        ChildInterface::Object
    } else if answers == 1 {
        ChildInterface::RealTime
    } else {
        ChildInterface::Configuration
    }
}

/// What to do next, given how the creation of the child went and the answers so
/// far.
pub open spec fn setup(created: HRESULT, replies: Seq<QueryReply>) -> StepView {
    if created < 0 {
        StepView::Failed { hr: created, release: Seq::empty() }
    } else if replies.len() > 0 && replies.last().hr < 0 {
        StepView::Failed {
            hr: replies.last().hr,
            release: to_release(pointers(replies.drop_last())),
        }
    } else if replies.len() < 3 {
        StepView::Query(next_interface(replies.len()))
    } else {
        StepView::Ready(
            ChildApo {
                iapo_ptr: replies[0].ptr,
                iapo_rt_ptr: replies[1].ptr,
                iapo_cfg_ptr: replies[2].ptr,
            },
        )
    }
}

/// The pointers to release for some that were obtained.
fn release_order(replies: &[QueryReply], n: usize) -> (r: Vec<usize>)
    requires
        n <= replies@.len(),
    ensures
        r@ == to_release(pointers(replies@.take(n as int))),
{
    let mut out: Vec<usize> = Vec::new();
    let ghost all = pointers(replies@.take(n as int));
    let mut i: usize = n;
    assert(all.take(n as int) =~= all);
    assert(out@ + to_release(all) =~= to_release(all));
    while i > 0
        invariant
            i <= n,
            n <= replies@.len(),
            all == pointers(replies@.take(n as int)),
            out@ + to_release(all.take(i as int)) == to_release(all),
        decreases i,
    {
        let ghost t = all.take(i as int);
        let ghost before = out@;
        i -= 1;
        let p: usize = replies[i].ptr;
        assert(t.drop_last() =~= all.take(i as int));
        assert(t.last() == p);
        if p != 0 {
            out.push(p);
            assert(before + (seq![p] + to_release(all.take(i as int))) =~= out@ + to_release(
                all.take(i as int),
            ));
        }
    }
    assert(all.take(0) =~= Seq::empty());
    assert(out@ + to_release(all.take(0)) =~= out@);
    out
}

impl ChildApo {
    /// What to do next to take hold of a child, given how its creation went and
    /// the answers to the queries so far. No query follows one that failed.
    pub fn create(created: HRESULT, replies: &[QueryReply]) -> (r: SetupStep)
        requires
            replies@.len() <= 3,
        ensures
            r@ == setup(created, replies@),
    {
        if failed(created) {
            let release: Vec<usize> = Vec::new();
            assert(release@ =~= Seq::empty());
            return SetupStep::Failed { hr: created, release };
        }
        let n = replies.len();
        if n > 0 && failed(replies[n - 1].hr) {
            assert(replies@.drop_last() =~= replies@.take(n - 1));
            let release = release_order(replies, n - 1);
            return SetupStep::Failed { hr: replies[n - 1].hr, release };
        }
        if n == 0 {
            SetupStep::Query(ChildInterface::Object)
        } else if n == 1 {
            SetupStep::Query(ChildInterface::RealTime)
        } else if n == 2 {
            SetupStep::Query(ChildInterface::Configuration)
        } else {
            SetupStep::Ready(
                ChildApo {
                    iapo_ptr: replies[0].ptr,
                    iapo_rt_ptr: replies[1].ptr,
                    iapo_cfg_ptr: replies[2].ptr,
                },
            )
        }
    }

    /// Whether all interfaces are there.
    pub fn is_valid(&self) -> (r: bool)
        ensures
            r == (self.iapo_ptr != 0 && self.iapo_rt_ptr != 0 && self.iapo_cfg_ptr != 0),
    {
        self.iapo_ptr != 0 && self.iapo_rt_ptr != 0 && self.iapo_cfg_ptr != 0
    }

    /// The latency of the child, given what it reports: none without the
    /// interface.
    pub fn get_latency(&self, reported: i64) -> (r: i64)
        ensures
            r == (if self.iapo_ptr == 0 {
                0
            } else {
                reported
            }),
    {
        if self.iapo_ptr == 0 {
            0
        } else {
            reported
        }
    }

    /// How a reset of the child goes, given its answer.
    pub fn reset(&self, answer: HRESULT) -> (r: HRESULT)
        ensures
            r == (if self.iapo_ptr == 0 {
                E_POINTER
            } else {
                answer
            }),
    {
        if self.iapo_ptr == 0 {
            E_POINTER
        } else {
            answer
        }
    }

    /// The frames that have to go into the child, given what it reports: as many
    /// as come out without the interface.
    pub fn calc_input_frames(&self, output_frames: u32, reported: u32) -> (r: u32)
        ensures
            r == (if self.iapo_rt_ptr == 0 {
                output_frames
            } else {
                reported
            }),
    {
        if self.iapo_rt_ptr == 0 {
            output_frames
        } else {
            reported
        }
    }

    /// The frames that come out of the child, given what it reports: as many as
    /// go in without the interface.
    pub fn calc_output_frames(&self, input_frames: u32, reported: u32) -> (r: u32)
        ensures
            r == (if self.iapo_rt_ptr == 0 {
                input_frames
            } else {
                reported
            }),
    {
        if self.iapo_rt_ptr == 0 {
            input_frames
        } else {
            reported
        }
    }

    /// How agreeing with the child on a format goes, given its answer.
    pub fn lock_for_process(&self, answer: HRESULT) -> (r: HRESULT)
        ensures
            r == (if self.iapo_cfg_ptr == 0 {
                E_POINTER
            } else {
                answer
            }),
    {
        if self.iapo_cfg_ptr == 0 {
            E_POINTER
        } else {
            answer
        }
    }

    /// How giving up the child's format goes, given its answer.
    pub fn unlock_for_process(&self, answer: HRESULT) -> (r: HRESULT)
        ensures
            r == (if self.iapo_cfg_ptr == 0 {
                E_POINTER
            } else {
                answer
            }),
    {
        if self.iapo_cfg_ptr == 0 {
            E_POINTER
        } else {
            answer
        }
    }

    /// Lets the child go; the result lists the interfaces to release, in order.
    pub fn release(&mut self) -> (r: Vec<usize>)
        ensures
            r@ == to_release(
                seq![old(self).iapo_ptr, old(self).iapo_rt_ptr, old(self).iapo_cfg_ptr],
            ),
            *final(self) == (ChildApo { iapo_ptr: 0, iapo_rt_ptr: 0, iapo_cfg_ptr: 0 }),
    {
        let held = [
            QueryReply { hr: 0, ptr: self.iapo_ptr },
            QueryReply { hr: 0, ptr: self.iapo_rt_ptr },
            QueryReply { hr: 0, ptr: self.iapo_cfg_ptr },
        ];
        let r = release_order(held.as_slice(), 3);
        assert(pointers(held@.take(3)) =~= seq![
            self.iapo_ptr,
            self.iapo_rt_ptr,
            self.iapo_cfg_ptr,
        ]);
        self.iapo_cfg_ptr = 0;
        self.iapo_rt_ptr = 0;
        self.iapo_ptr = 0;
        r
    }
}

/// What was obtained is released in the opposite order, each pointer once.
pub proof fn law_release_reverses(ptrs: Seq<usize>)
    requires
        forall|i: int| 0 <= i < ptrs.len() ==> ptrs[i] != 0,
    ensures
        to_release(ptrs) == ptrs.reverse(),
    decreases ptrs.len(),
{
    if ptrs.len() > 0 {
        law_release_reverses(ptrs.drop_last());
    }
    assert(to_release(ptrs) =~= ptrs.reverse());
}

/// A child that was let go holds nothing more to release.
pub proof fn law_released_child_holds_nothing()
    ensures
        to_release(seq![0usize, 0usize, 0usize]) == Seq::<usize>::empty(),
{
    let s = seq![0usize, 0usize, 0usize];
    assert(s.drop_last() =~= seq![0usize, 0usize]);
    assert(s.drop_last().drop_last() =~= seq![0usize]);
    assert(s.drop_last().drop_last().drop_last() =~= Seq::empty());
    reveal_with_fuel(to_release, 4);
}

/// A child is taken hold of by asking for its three interfaces in turn, each once, as
/// long as none is refused: the object, real time, configuration. It then has the
/// pointers of the three answers, in this order.
pub proof fn law_child_setup(created: HRESULT, replies: Seq<QueryReply>)
    requires
        created >= 0,
        replies.len() <= 3,
        forall|i: int| 0 <= i < replies.len() ==> (#[trigger] replies[i]).hr >= 0,
    ensures
        replies.len() == 0 ==> setup(created, replies) == StepView::Query(ChildInterface::Object),
        replies.len() == 1 ==> setup(created, replies) == StepView::Query(
            ChildInterface::RealTime,
        ),
        replies.len() == 2 ==> setup(created, replies) == StepView::Query(
            ChildInterface::Configuration,
        ),
        replies.len() == 3 ==> (setup(created, replies) matches StepView::Ready(c) && c.iapo_ptr
            == replies[0].ptr && c.iapo_rt_ptr == replies[1].ptr && c.iapo_cfg_ptr
            == replies[2].ptr),
{
}

/// A refusal ends the attempt with the code of the refusal, and what was obtained before
/// is released, the last first; nothing is where the child was not even made.
pub proof fn law_refused_child(created: HRESULT, replies: Seq<QueryReply>)
    ensures
        created < 0 ==> (setup(created, replies) matches StepView::Failed { hr, release } && hr
            == created && release.len() == 0),
        created >= 0 && replies.len() == 1 && replies[0].hr < 0 ==> (setup(
            created,
            replies,
        ) matches StepView::Failed { hr, release } && hr == replies[0].hr && release.len() == 0),
        created >= 0 && replies.len() == 2 && replies[1].hr < 0 && replies[0].ptr != 0 ==> (setup(
            created,
            replies,
        ) matches StepView::Failed { hr, release } && hr == replies[1].hr && release == seq![
            replies[0].ptr,
        ]),
        created >= 0 && replies.len() == 3 && replies[2].hr < 0 && replies[0].ptr != 0
            && replies[1].ptr != 0 ==> (setup(
            created,
            replies,
        ) matches StepView::Failed { hr, release } && hr == replies[2].hr && release == seq![
            replies[1].ptr,
            replies[0].ptr,
        ]),
{
    reveal_with_fuel(to_release, 4);
    if replies.len() == 1 {
        assert(pointers(replies.drop_last()) =~= Seq::empty());
    }
    if replies.len() == 2 {
        assert(pointers(replies.drop_last()) =~= seq![replies[0].ptr]);
        assert(pointers(replies.drop_last()).drop_last() =~= Seq::empty());
        assert(seq![replies[0].ptr] + Seq::<usize>::empty() =~= seq![replies[0].ptr]);
    }
    if replies.len() == 3 {
        let p = pointers(replies.drop_last());
        assert(p =~= seq![replies[0].ptr, replies[1].ptr]);
        assert(p.drop_last() =~= seq![replies[0].ptr]);
        assert(p.drop_last().drop_last() =~= Seq::empty());
        assert(seq![replies[1].ptr] + (seq![replies[0].ptr] + Seq::<usize>::empty()) =~= seq![
            replies[1].ptr,
            replies[0].ptr,
        ]);
    }
}

} // verus!
