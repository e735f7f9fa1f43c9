//! Writes that the system refuses: why, and how far a list of changes came.

use vstd::prelude::*;
use crate::registry;
use crate::registry::{OpView, RegOp, Registry};
use crate::undo::copy_op;

verus! {

/// A write of a list that was refused. Those before it were made, those after it
/// were not tried.
#[derive(Clone, Debug, PartialEq, Eq)]
pub struct Refusal {
    /// How many writes went through before it.
    pub after: usize,
    /// What the system said.
    pub error: String,
}

/// The contents of a refusal.
pub struct RefusalView {
    pub after: nat,
    pub error: Seq<char>,
}

impl View for Refusal {
    type V = RefusalView;

    open spec fn view(&self) -> RefusalView {
        RefusalView { after: self.after as nat, error: self.error@ }
    }
}

/// The contents of a refusal, if there is one.
pub open spec fn opt_refusal(r: Option<Refusal>) -> Option<RefusalView> {
    match r {
        Some(f) => Some(f@),
        None => None,
    }
}

/// How far a list of changes came.
pub open spec fn reach(r: Option<RefusalView>) -> Option<nat> {
    match r {
        Some(f) => Some(f.after),
        None => None,
    }
}

/// The changes of a list that were made: those before the one that was refused, or
/// all where none was.
pub open spec fn made(ops: Seq<OpView>, refused: Option<nat>) -> Seq<OpView> {
    match refused {
        Some(n) if n < ops.len() => ops.take(n as int),
        _ => ops,
    }
}

/// Makes the changes of a journal, up to the one that was refused.
pub fn make_until(registry: &mut Registry, journal: &[RegOp], refused: Option<usize>)
    ensures
        registry::advanced(
            *old(registry),
            *final(registry),
            made(
                registry::op_views(journal@),
                match refused {
                    Some(n) => Some(n as nat),
                    None => None,
                },
            ),
        ),
{
    let end: usize = match refused {
        Some(n) => if n < journal.len() {
            n
        } else {
            journal.len()
        },
        None => journal.len(),
    };
    let ghost all = registry::op_views(journal@);
    let ghost r0 = *registry;
    let mut i: usize = 0;
    proof {
        registry::lemma_advanced_refl(r0);
        assert(all.take(0) =~= Seq::empty());
    }
    while i < end
        invariant
            i <= end,
            end <= journal@.len(),
            all == registry::op_views(journal@),
            registry::advanced(r0, *registry, all.take(i as int)),
        decreases end - i,
    {
        let ghost rb = *registry;
        let op = copy_op(&journal[i]);
        assert(op@ == all[i as int]);
        registry.perform(op);
        proof {
            registry::lemma_advanced_trans(r0, rb, *registry, all.take(i as int), seq![op@]);
            assert(all.take(i as int) + seq![op@] =~= all.take(i + 1));
        }
        i += 1;
    }
    assert(all.take(all.len() as int) =~= all);
}

} // verus!
