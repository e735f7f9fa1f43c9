//! What undoes an installation that did not go through.

use vstd::prelude::*;
use crate::registry;
use crate::registry::{copy_value, Hkey, KeyView, OpView, RegOp, RegValue, Registry, ValueView};
use crate::undo;
use crate::undo::{copy_op, undo_change};

verus! {

/// Something that undoes a change.
#[derive(Clone, Debug, PartialEq, Eq)]
pub enum RollbackAction {
    /// Delete a key that was new, and the keys below it.
    DeleteKey { root: Hkey, path: String },
    /// Give a value back what it held; delete it where it held nothing.
    RestoreValue { root: Hkey, path: String, name: String, backup: Option<RegValue> },
}

/// The contents of an undoing action.
pub enum ActionView {
    DeleteKey { root: Hkey, path: Seq<char> },
    RestoreValue { root: Hkey, path: Seq<char>, name: Seq<char>, backup: Option<ValueView> },
}

impl View for RollbackAction {
    type V = ActionView;

    open spec fn view(&self) -> ActionView {
        match self {
            RollbackAction::DeleteKey { root, path } => ActionView::DeleteKey {
                root: *root,
                path: path@,
            },
            RollbackAction::RestoreValue { root, path, name, backup } => ActionView::RestoreValue {
                root: *root,
                path: path@,
                name: name@,
                backup: match backup {
                    Some(v) => Some(v@),
                    None => None,
                },
            },
        }
    }
}

/// The contents of a list of undoing actions.
pub open spec fn action_views(v: Seq<RollbackAction>) -> Seq<ActionView> {
    v.map_values(|a: RollbackAction| a@)
}

/// The change that an undoing action makes.
pub open spec fn action_op(a: ActionView) -> OpView {
    match a {
        ActionView::DeleteKey { root, path } => OpView::DeleteTree { root, path },
        ActionView::RestoreValue { root, path, name, backup } => match backup {
            Some(value) => OpView::SetValue { root, path, name, value },
            None => OpView::DeleteValue { root, path, name },
        },
    }
}

/// The changes that undoing actions make, the last one first.
pub open spec fn rollback_ops(actions: Seq<ActionView>) -> Seq<OpView>
    decreases actions.len(),
{
    if actions.len() == 0 {
        Seq::empty()
    } else {
        seq![action_op(actions.last())] + rollback_ops(actions.drop_last())
    }
}

/// The action for a change that undoes another: a key is deleted, or a value gets
/// back what it held.
pub open spec fn action_of(op: OpView) -> ActionView {
    match op {
        OpView::CreateKey { root, path } => ActionView::DeleteKey { root, path },
        OpView::DeleteTree { root, path } => ActionView::DeleteKey { root, path },
        OpView::SetValue { root, path, name, value } => ActionView::RestoreValue {
            root,
            path,
            name,
            backup: Some(value),
        },
        OpView::DeleteValue { root, path, name } => ActionView::RestoreValue {
            root,
            path,
            name,
            backup: None,
        },
    }
}

/// What undoes some changes, in the order in which they are made.
pub open spec fn actions_for(r: Seq<KeyView>, ops: Seq<OpView>) -> Seq<ActionView>
    decreases ops.len(),
{
    if ops.len() == 0 {
        Seq::empty()
    } else {
        actions_for(r, ops.drop_last()) + undo::undo_of(
            registry::apply_all(r, ops.drop_last()),
            ops.last(),
        ).map_values(|op: OpView| action_of(op))
    }
}

/// The action for a change that undoes another.
fn undoing_action(op: RegOp) -> (r: RollbackAction)
    ensures
        r@ == action_of(op@),
{
    match op {
        RegOp::CreateKey { root, path } => RollbackAction::DeleteKey { root, path },
        RegOp::DeleteTree { root, path } => RollbackAction::DeleteKey { root, path },
        RegOp::SetValue { root, path, name, value } => RollbackAction::RestoreValue {
            root,
            path,
            name,
            backup: Some(value),
        },
        RegOp::DeleteValue { root, path, name } => RollbackAction::RestoreValue {
            root,
            path,
            name,
            backup: None,
        },
    }
}

/// What undoes the changes made so far, until they are final.
#[derive(Clone, Debug, PartialEq, Eq)]
pub struct Transaction {
    pub actions: Vec<RollbackAction>,
    pub committed: bool,
}

impl Transaction {
    /// The undoing actions recorded so far.
    pub open spec fn recorded(&self) -> Seq<ActionView> {
        action_views(self.actions@)
    }

    /// A transaction with nothing to undo.
    pub fn new() -> (t: Transaction)
        ensures
            t.recorded() == Seq::<ActionView>::empty(),
            !t.committed,
    {
        let t = Transaction { actions: Vec::new(), committed: false };
        assert(t.recorded() =~= Seq::<ActionView>::empty());
        t
    }

    /// Records an undoing action.
    pub fn record(&mut self, action: RollbackAction)
        ensures
            final(self).recorded() == old(self).recorded().push(action@),
            final(self).committed == old(self).committed,
    {
        let ghost before = self.recorded();
        self.actions.push(action);
        assert(self.recorded() =~= before.push(action@));
    }

    /// Records what undoes the changes that are journalled from a position on, given
    /// the registry as it was before them.
    pub fn record_changes(&mut self, before: Registry, journal: &Vec<RegOp>, start: usize)
        requires
            start <= journal@.len(),
        ensures
            final(self).recorded() == old(self).recorded() + actions_for(
                before@,
                registry::op_views(journal@).skip(start as int),
            ),
            final(self).committed == old(self).committed,
    {
        let ghost r0 = before@;
        let ghost known = self.recorded();
        let ghost all = registry::op_views(journal@).skip(start as int);
        let mut state = before;
        let mut i: usize = start;
        assert(all.take(0) =~= Seq::empty());
        assert(known + actions_for(r0, all.take(0)) =~= known);
        while i < journal.len()
            invariant
                start <= i <= journal@.len(),
                all == registry::op_views(journal@).skip(start as int),
                state@ == registry::apply_all(r0, all.take(i - start)),
                self.recorded() == known + actions_for(r0, all.take(i - start)),
                self.committed == old(self).committed,
            decreases journal@.len() - i,
        {
            let ghost t = all.take(i - start + 1);
            let ghost so_far = self.recorded();
            let ghost rb = state;
            assert(t.drop_last() =~= all.take(i - start));
            assert(t.last() == journal@[i as int]@);
            let undoing = undo_change(&state, &journal[i]);
            state.perform(copy_op(&journal[i]));
            proof {
                registry::lemma_apply_all_concat(r0, t.drop_last(), seq![t.last()]);
                assert(t =~= t.drop_last() + seq![t.last()]);
            }
            match undoing {
                Some(op) => {
                    self.record(undoing_action(op));
                    assert(undo::undo_of(rb@, t.last()).map_values(|o: OpView| action_of(o))
                        =~= seq![action_of(op@)]);
                },
                None => {
                    assert(undo::undo_of(rb@, t.last()).map_values(|o: OpView| action_of(o))
                        =~= Seq::empty());
                },
            }
            assert(self.recorded() =~= known + actions_for(r0, t));
            i += 1;
        }
        assert(all.take(i - start) =~= all);
    }

    /// Makes the changes final.
    pub fn commit(&mut self)
        ensures
            final(self).committed,
            final(self).recorded() == old(self).recorded(),
    {
        self.committed = true;
    }

    /// Undoes the changes, the last one first, unless they are final. Nothing is
    /// left to undo afterwards.
    pub fn rollback(&mut self, registry: &mut Registry)
        ensures
            final(self).committed == old(self).committed,
            old(self).committed ==> final(self).recorded() == old(self).recorded(),
            !old(self).committed ==> final(self).recorded() == Seq::<ActionView>::empty(),
            registry::advanced(
                *old(registry),
                *final(registry),
                if old(self).committed {
                    Seq::empty()
                } else {
                    rollback_ops(old(self).recorded())
                },
            ),
    {
        let ghost r0 = *registry;
        let ghost all = self.recorded();
        let ghost mut done = Seq::<OpView>::empty();
        proof {
            registry::lemma_advanced_refl(r0);
        }
        if self.committed {
            return;
        }
        assert(done + rollback_ops(all) =~= rollback_ops(all));
        while self.actions.len() > 0
            invariant
                !self.committed,
                self.committed == old(self).committed,
                all == old(self).recorded(),
                registry::advanced(r0, *registry, done),
                done + rollback_ops(self.recorded()) == rollback_ops(all),
            decreases self.actions@.len(),
        {
            let ghost before = self.recorded();
            let ghost rb = *registry;
            match self.actions.pop() {
                Some(action) => {
                    assert(self.recorded() =~= before.drop_last());
                    assert(action@ == before.last());
                    match &action {
                        RollbackAction::DeleteKey { root, path } => {
                            registry.delete_tree(*root, path.as_str());
                        },
                        RollbackAction::RestoreValue { root, path, name, backup } => match backup {
                            Some(v) => {
                                registry.set_value(
                                    *root,
                                    path.as_str(),
                                    name.as_str(),
                                    copy_value(v),
                                );
                            },
                            None => {
                                registry.delete_value(*root, path.as_str(), name.as_str());
                            },
                        },
                    }
                    proof {
                        registry::lemma_advanced_trans(r0, rb, *registry, done, seq![action_op(action@)]);
                        let rest = rollback_ops(self.recorded());
                        assert(done + (seq![action_op(action@)] + rest) =~= (done + seq![action_op(action@)])
                            + rest);
                        done = done + seq![action_op(action@)];
                    }
                },
                None => {},
            }
        }
        assert(self.recorded() =~= Seq::<ActionView>::empty());
        assert(done + rollback_ops(self.recorded()) =~= done);
    }
}

/// Undoing actions recorded one list after the other are undone in the opposite
/// order.
pub proof fn law_rollback_order(a: Seq<ActionView>, b: Seq<ActionView>)
    ensures
        rollback_ops(a + b) == rollback_ops(b) + rollback_ops(a),
    decreases b.len(),
{
    if b.len() == 0 {
        assert(a + b =~= a);
        assert(rollback_ops(b) + rollback_ops(a) =~= rollback_ops(a));
    } else {
        assert((a + b).drop_last() =~= a + b.drop_last());
        assert((a + b).last() == b.last());
        law_rollback_order(a, b.drop_last());
        assert(seq![action_op(b.last())] + (rollback_ops(b.drop_last()) + rollback_ops(a)) =~= (
        seq![action_op(b.last())] + rollback_ops(b.drop_last())) + rollback_ops(a));
    }
}

/// Rolling back what was recorded of some changes undoes them.
pub proof fn lemma_rollback_undoes(r: Seq<KeyView>, ops: Seq<OpView>)
    ensures
        rollback_ops(actions_for(r, ops)) == undo::undo_all(r, ops),
    decreases ops.len(),
{
    if ops.len() > 0 {
        let t = ops.drop_last();
        let u = undo::undo_of(registry::apply_all(r, t), ops.last());
        let a = u.map_values(|op: OpView| action_of(op));
        lemma_rollback_undoes(r, t);
        law_rollback_order(actions_for(r, t), a);
        if u.len() == 0 {
            assert(a =~= Seq::<ActionView>::empty());
            assert(rollback_ops(a) =~= u);
        } else {
            assert(u =~= seq![u[0]]);
            assert(a =~= seq![action_of(u[0])]);
            assert(a.drop_last() =~= Seq::<ActionView>::empty());
            assert(rollback_ops(a.drop_last()) =~= Seq::<OpView>::empty());
            assert(action_op(action_of(u[0])) == u[0]);
            assert(rollback_ops(a) =~= u);
        }
    }
}

} // verus!
