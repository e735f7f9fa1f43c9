//! Exported effect properties, and what undoes changes that were not completed.

use vstd::prelude::*;
use crate::guid;
use crate::guid::{guid_to_string, GUID};
use crate::install::selector::operation::helpers;
use crate::install::selector::operation::helpers::safe_file_name;
use crate::registry;
use crate::registry::{
    copy_bytes, copy_value, Hkey, KeyView, OpView, RegOp, RegValue, Registry, ValueView,
};
use crate::text;
use crate::text::{concat2, concat3, replace};
use crate::undo;
use crate::undo::{copy_op, undo_change};

verus! {

/// What is added to the name of a key that is exported before it is deleted.
pub const ROLLBACK_SUFFIX: &'static str = ".rollback_backup.reg";

// ---------------------------------------------------------------------------
// Exported effect properties
// ---------------------------------------------------------------------------
/// The file to which an endpoint's effect properties are exported.
pub open spec fn backup_path(
    device_name: Seq<char>,
    connection_name: Seq<char>,
    output_dir: Seq<char>,
) -> Seq<char> {
    output_dir + "\\"@ + ("backup_"@ + helpers::file_name(device_name) + ("_"@
        + helpers::file_name(connection_name) + ".reg"@))
}

/// A text with the characters replaced that may not stand in a file name.
pub fn sanitize_filename(s: &str) -> (r: String)
    ensures
        r@ == helpers::file_name(s@),
{
    safe_file_name(s)
}

/// The file to which an endpoint's effect properties are exported.
pub fn backup_fx_properties(device_name: &str, connection_name: &str, output_dir: &str) -> (r:
    String)
    ensures
        r@ == backup_path(device_name@, connection_name@, output_dir@),
{
    let device = sanitize_filename(device_name);
    let connection = sanitize_filename(connection_name);
    let tail = concat3("_", connection.as_str(), ".reg");
    let name = concat3("backup_", device.as_str(), tail.as_str());
    concat3(output_dir, "\\", name.as_str())
}

// ---------------------------------------------------------------------------
// Undoing
// ---------------------------------------------------------------------------
/// Something that undoes a change.
#[derive(Clone, Debug)]
pub enum RollbackAction {
    /// Delete a key that was new, and the keys below it.
    DeleteKey(String),
    /// Give a value back the bytes that it held.
    RestoreValue { root: Hkey, key: String, name: String, backup: Vec<u8> },
    /// Give a value back what it held, of whatever type; delete it where it held
    /// nothing.
    ResetValue { root: Hkey, key: String, name: String, before: Option<RegValue> },
    /// Delete a key of any hive that was new, and the keys below it.
    DeleteKeyOf { root: Hkey, key: String },
    /// Take an object off the list of registered ones.
    UnregisterApo(GUID),
    /// Delete the key of a class.
    DeleteClsidKey(String),
}

/// The contents of an undoing action.
pub enum ActionView {
    DeleteKey(Seq<char>),
    RestoreValue { root: Hkey, key: Seq<char>, name: Seq<char>, backup: Seq<u8> },
    ResetValue { root: Hkey, key: Seq<char>, name: Seq<char>, before: Option<ValueView> },
    DeleteKeyOf { root: Hkey, key: Seq<char> },
    UnregisterApo(GUID),
    DeleteClsidKey(Seq<char>),
}

impl View for RollbackAction {
    type V = ActionView;

    open spec fn view(&self) -> ActionView {
        match self {
            RollbackAction::DeleteKey(p) => ActionView::DeleteKey(p@),
            RollbackAction::RestoreValue { root, key, name, backup } => ActionView::RestoreValue {
                root: *root,
                key: key@,
                name: name@,
                backup: backup@,
            },
            RollbackAction::ResetValue { root, key, name, before } => ActionView::ResetValue {
                root: *root,
                key: key@,
                name: name@,
                before: match before {
                    Some(v) => Some(v@),
                    None => None,
                },
            },
            RollbackAction::DeleteKeyOf { root, key } => ActionView::DeleteKeyOf {
                root: *root,
                key: key@,
            },
            RollbackAction::UnregisterApo(g) => ActionView::UnregisterApo(*g),
            RollbackAction::DeleteClsidKey(p) => ActionView::DeleteClsidKey(p@),
        }
    }
}

/// What undoing asks of the caller besides changing the registry.
#[derive(Clone, Debug, PartialEq, Eq)]
pub enum RollbackNote {
    /// Export this key to this file before it is deleted.
    Export { path: String, file: String },
    /// This object stays registered until it is removed by hand.
    StillRegistered(String),
}

/// The contents of a note.
pub enum NoteView {
    Export { path: Seq<char>, file: Seq<char> },
    StillRegistered(Seq<char>),
}

impl View for RollbackNote {
    type V = NoteView;

    open spec fn view(&self) -> NoteView {
        match self {
            RollbackNote::Export { path, file } => NoteView::Export { path: path@, file: file@ },
            RollbackNote::StillRegistered(g) => NoteView::StillRegistered(g@),
        }
    }
}

/// The contents of a list of undoing actions.
pub open spec fn action_views(v: Seq<RollbackAction>) -> Seq<ActionView> {
    v.map_values(|a: RollbackAction| a@)
}

/// The contents of a list of notes.
pub open spec fn note_views(v: Seq<RollbackNote>) -> Seq<NoteView> {
    v.map_values(|n: RollbackNote| n@)
}

/// The changes that an undoing action makes.
pub open spec fn action_ops(a: ActionView) -> Seq<OpView> {
    match a {
        ActionView::DeleteKey(path) => seq![OpView::DeleteTree { root: Hkey::LocalMachine, path }],
        ActionView::RestoreValue { root, key, name, backup } => seq![
            OpView::CreateKey { root, path: key },
            OpView::SetValue { root, path: key, name, value: ValueView::Binary(backup) },
        ],
        ActionView::ResetValue { root, key, name, before } => seq![
            match before {
                Some(value) => OpView::SetValue { root, path: key, name, value },
                None => OpView::DeleteValue { root, path: key, name },
            },
        ],
        ActionView::DeleteKeyOf { root, key } => seq![OpView::DeleteTree { root, path: key }],
        ActionView::UnregisterApo(_) => Seq::empty(),
        ActionView::DeleteClsidKey(path) => seq![
            OpView::DeleteTree { root: Hkey::ClassesRoot, path },
        ],
    }
}

/// What an undoing action asks of the caller.
pub open spec fn action_note(a: ActionView) -> Option<NoteView> {
    match a {
        ActionView::DeleteKey(path) => Some(
            NoteView::Export {
                path,
                file: text::replace_char(path, '\\', '_') + ROLLBACK_SUFFIX@,
            },
        ),
        ActionView::UnregisterApo(g) => Some(NoteView::StillRegistered(guid::guid_text(g))),
        _ => None,
    }
}

/// The changes that undoing actions make, the last one first.
pub open spec fn rollback_ops(actions: Seq<ActionView>) -> Seq<OpView>
    decreases actions.len(),
{
    if actions.len() == 0 {
        Seq::empty()
    } else {
        action_ops(actions.last()) + rollback_ops(actions.drop_last())
    }
}

/// What undoing actions ask of the caller, the last one first.
pub open spec fn rollback_notes(actions: Seq<ActionView>) -> Seq<NoteView>
    decreases actions.len(),
{
    if actions.len() == 0 {
        Seq::empty()
    } else {
        let rest = rollback_notes(actions.drop_last());
        match action_note(actions.last()) {
            Some(n) => seq![n] + rest,
            None => rest,
        }
    }
}

/// The action for a change that undoes another: a key is deleted, or a value gets
/// back what it held.
pub open spec fn action_of(op: OpView) -> ActionView {
    match op {
        OpView::CreateKey { root, path } => delete_action(root, path),
        OpView::DeleteTree { root, path } => delete_action(root, path),
        OpView::SetValue { root, path, name, value } => ActionView::ResetValue {
            root,
            key: path,
            name,
            before: Some(value),
        },
        OpView::DeleteValue { root, path, name } => ActionView::ResetValue {
            root,
            key: path,
            name,
            before: None,
        },
    }
}

/// The action that deletes a key.
pub open spec fn delete_action(root: Hkey, path: Seq<char>) -> ActionView {
    if root == Hkey::LocalMachine {
        ActionView::DeleteKey(path)
    } else {
        ActionView::DeleteKeyOf { root, key: path }
    }
}

/// What undoes some changes, in the order in which they are made.
pub open spec fn actions_for(r: Seq<KeyView>, ops: Seq<OpView>) -> Seq<ActionView>
    decreases ops.len(),
{
    if ops.len() == 0 {
        Seq::empty()
    } else {
        actions_for(r, ops.drop_last()) + undo::undo_of(
            registry::apply_all(r, ops.drop_last()),
            ops.last(),
        ).map_values(|op: OpView| action_of(op))
    }
}

fn deleting_action(root: Hkey, path: String) -> (r: RollbackAction)
    ensures
        r@ == delete_action(root, path@),
{
    if root == Hkey::LocalMachine {
        RollbackAction::DeleteKey(path)
    } else {
        RollbackAction::DeleteKeyOf { root, key: path }
    }
}

/// The action for a change that undoes another.
fn undoing_action(op: RegOp) -> (r: RollbackAction)
    ensures
        r@ == action_of(op@),
{
    match op {
        RegOp::CreateKey { root, path } => deleting_action(root, path),
        RegOp::DeleteTree { root, path } => deleting_action(root, path),
        RegOp::SetValue { root, path, name, value } => RollbackAction::ResetValue {
            root,
            key: path,
            name,
            before: Some(value),
        },
        RegOp::DeleteValue { root, path, name } => RollbackAction::ResetValue {
            root,
            key: path,
            name,
            before: None,
        },
    }
}

/// An object's class identifier, as it is shown.
fn format_apo_guid(g: GUID) -> (r: String)
    ensures
        r@ == guid::guid_text(g),
{
    guid_to_string(&g)
}

/// What undoes the changes made so far, until they are final.
#[derive(Clone, Debug)]
pub struct Transaction {
    pub actions: Vec<RollbackAction>,
    pub committed: bool,
}

impl Transaction {
    /// The undoing actions recorded so far.
    pub open spec fn recorded(&self) -> Seq<ActionView> {
        action_views(self.actions@)
    }

    /// A transaction with nothing to undo.
    pub fn new() -> (t: Transaction)
        ensures
            t.recorded() == Seq::<ActionView>::empty(),
            !t.committed,
    {
        let t = Transaction { actions: Vec::new(), committed: false };
        assert(t.recorded() =~= Seq::<ActionView>::empty());
        t
    }

    /// Records an undoing action.
    pub fn record(&mut self, action: RollbackAction)
        ensures
            final(self).recorded() == old(self).recorded().push(action@),
            final(self).committed == old(self).committed,
    {
        let ghost before = self.recorded();
        self.actions.push(action);
        assert(self.recorded() =~= before.push(action@));
    }

    /// Records what undoes the changes that are journalled from a position on, given
    /// the registry as it was before them.
    pub fn record_changes(&mut self, before: Registry, journal: &Vec<RegOp>, start: usize)
        requires
            start <= journal@.len(),
        ensures
            final(self).recorded() == old(self).recorded() + actions_for(
                before@,
                registry::op_views(journal@).skip(start as int),
            ),
            final(self).committed == old(self).committed,
    {
        let ghost r0 = before@;
        let ghost known = self.recorded();
        let ghost all = registry::op_views(journal@).skip(start as int);
        let mut state = before;
        let mut i: usize = start;
        assert(all.take(0) =~= Seq::empty());
        assert(known + actions_for(r0, all.take(0)) =~= known);
        while i < journal.len()
            invariant
                start <= i <= journal@.len(),
                all == registry::op_views(journal@).skip(start as int),
                state@ == registry::apply_all(r0, all.take(i - start)),
                self.recorded() == known + actions_for(r0, all.take(i - start)),
                self.committed == old(self).committed,
            decreases journal@.len() - i,
        {
            let ghost t = all.take(i - start + 1);
            let ghost so_far = self.recorded();
            let ghost rb = state;
            assert(t.drop_last() =~= all.take(i - start));
            assert(t.last() == journal@[i as int]@);
            let undoing = undo_change(&state, &journal[i]);
            state.perform(copy_op(&journal[i]));
            proof {
                registry::lemma_apply_all_concat(r0, t.drop_last(), seq![t.last()]);
                assert(t =~= t.drop_last() + seq![t.last()]);
            }
            match undoing {
                Some(op) => {
                    self.record(undoing_action(op));
                    assert(undo::undo_of(rb@, t.last()).map_values(|o: OpView| action_of(o))
                        =~= seq![action_of(op@)]);
                },
                None => {
                    assert(undo::undo_of(rb@, t.last()).map_values(|o: OpView| action_of(o))
                        =~= Seq::empty());
                },
            }
            assert(self.recorded() =~= known + actions_for(r0, t));
            i += 1;
        }
        assert(all.take(i - start) =~= all);
    }

    /// Makes the changes final.
    pub fn commit(&mut self)
        ensures
            final(self).committed,
            final(self).recorded() == old(self).recorded(),
    {
        self.committed = true;
    }

    /// Undoes the last change that was recorded; the result says what is left to
    /// the caller.
    pub fn undo_last(&mut self, registry: &mut Registry) -> (note: Option<RollbackNote>)
        requires
            old(self).recorded().len() > 0,
        ensures
            final(self).committed == old(self).committed,
            final(self).recorded() == old(self).recorded().drop_last(),
            action_note(old(self).recorded().last()) == (match note {
                Some(n) => Some(n@),
                None => None,
            }),
            registry::advanced(
                *old(registry),
                *final(registry),
                action_ops(old(self).recorded().last()),
            ),
    {
        let ghost before = self.recorded();
        let ghost r0 = *registry;
        proof {
            registry::lemma_advanced_refl(r0);
        }
        match self.actions.pop() {
            Some(action) => {
                assert(self.recorded() =~= before.drop_last());
                assert(action@ == before.last());
                match &action {
                    RollbackAction::DeleteKey(path) => {
                        let flat = replace(path.as_str(), '\\', '_');
                        let file = concat2(flat.as_str(), ROLLBACK_SUFFIX);
                        registry.delete_tree(Hkey::LocalMachine, path.as_str());
                        Some(RollbackNote::Export { path: path.clone(), file })
                    },
                    RollbackAction::DeleteClsidKey(path) => {
                        registry.delete_tree(Hkey::ClassesRoot, path.as_str());
                        None
                    },
                    RollbackAction::RestoreValue { root, key, name, backup } => {
                        registry.create_key(*root, key.as_str());
                        let ghost r1 = *registry;
                        registry.set_value(
                            *root,
                            key.as_str(),
                            name.as_str(),
                            RegValue::Binary(copy_bytes(backup.as_slice())),
                        );
                        proof {
                            let ops = action_ops(action@);
                            registry::lemma_advanced_trans(
                                r0,
                                r1,
                                *registry,
                                seq![ops[0]],
                                seq![ops[1]],
                            );
                            assert(seq![ops[0]] + seq![ops[1]] =~= ops);
                        }
                        None
                    },
                    RollbackAction::ResetValue { root, key, name, before } => {
                        match before {
                            Some(v) => {
                                registry.set_value(
                                    *root,
                                    key.as_str(),
                                    name.as_str(),
                                    copy_value(v),
                                );
                            },
                            None => {
                                registry.delete_value(*root, key.as_str(), name.as_str());
                            },
                        }
                        None
                    },
                    RollbackAction::DeleteKeyOf { root, key } => {
                        registry.delete_tree(*root, key.as_str());
                        None
                    },
                    RollbackAction::UnregisterApo(g) => {
                        Some(RollbackNote::StillRegistered(format_apo_guid(*g)))
                    },
                }
            },
            None => None,
        }
    }

    /// Undoes the changes, the last one first, unless they are final; the result
    /// says what is left to the caller. Nothing is left to undo afterwards.
    pub fn rollback(&mut self, registry: &mut Registry) -> (notes: Vec<RollbackNote>)
        ensures
            final(self).committed == old(self).committed,
            if old(self).committed {
                &&& final(self).recorded() == old(self).recorded()
                &&& note_views(notes@) == Seq::<NoteView>::empty()
                &&& registry::advanced(*old(registry), *final(registry), Seq::empty())
            } else {
                &&& final(self).recorded() == Seq::<ActionView>::empty()
                &&& note_views(notes@) == rollback_notes(old(self).recorded())
                &&& registry::advanced(
                    *old(registry),
                    *final(registry),
                    rollback_ops(old(self).recorded()),
                )
            },
    {
        let ghost r0 = *registry;
        let ghost all = self.recorded();
        let ghost mut done = Seq::<OpView>::empty();
        let mut notes: Vec<RollbackNote> = Vec::new();
        assert(note_views(notes@) =~= Seq::empty());
        proof {
            registry::lemma_advanced_refl(r0);
        }
        if self.committed {
            return notes;
        }
        assert(done + rollback_ops(all) =~= rollback_ops(all));
        assert(note_views(notes@) + rollback_notes(all) =~= rollback_notes(all));
        while self.actions.len() > 0
            invariant
                !self.committed,
                self.committed == old(self).committed,
                all == old(self).recorded(),
                registry::advanced(r0, *registry, done),
                done + rollback_ops(self.recorded()) == rollback_ops(all),
                note_views(notes@) + rollback_notes(self.recorded()) == rollback_notes(all),
            decreases self.actions@.len(),
        {
            let ghost before = self.recorded();
            let ghost rb = *registry;
            let ghost said = note_views(notes@);
            let note = self.undo_last(registry);
            proof {
                let ops = action_ops(before.last());
                registry::lemma_advanced_trans(r0, rb, *registry, done, ops);
                let rest = rollback_ops(self.recorded());
                assert(done + (ops + rest) =~= (done + ops) + rest);
                done = done + ops;
                assert(self.recorded().len() == self.actions@.len());
            }
            match note {
                Some(n) => {
                    notes.push(n);
                    assert(note_views(notes@) =~= said.push(n@));
                    assert(said + (seq![n@] + rollback_notes(self.recorded())) =~= said.push(n@)
                        + rollback_notes(self.recorded()));
                },
                None => {},
            }
        }
        assert(self.recorded() =~= Seq::<ActionView>::empty());
        assert(done + rollback_ops(self.recorded()) =~= done);
        assert(note_views(notes@) + rollback_notes(self.recorded()) =~= note_views(notes@));
        notes
    }

    /// The number of undoing actions recorded.
    pub fn action_count(&self) -> (r: usize)
        ensures
            r == self.recorded().len(),
    {
        self.actions.len()
    }

    /// Whether the changes are final.
    pub fn is_committed(&self) -> (r: bool)
        ensures
            r == self.committed,
    {
        self.committed
    }
}

/// Undoing actions recorded one list after the other are undone in the opposite
/// order.
pub proof fn law_rollback_order(a: Seq<ActionView>, b: Seq<ActionView>)
    ensures
        rollback_ops(a + b) == rollback_ops(b) + rollback_ops(a),
    decreases b.len(),
{
    if b.len() == 0 {
        assert(a + b =~= a);
        assert(rollback_ops(b) + rollback_ops(a) =~= rollback_ops(a));
    } else {
        assert((a + b).drop_last() =~= a + b.drop_last());
        assert((a + b).last() == b.last());
        law_rollback_order(a, b.drop_last());
        assert(action_ops(b.last()) + (rollback_ops(b.drop_last()) + rollback_ops(a)) =~= (
        action_ops(b.last()) + rollback_ops(b.drop_last())) + rollback_ops(a));
    }
}

/// What undoes changes one after the other is what undoes each list of them.
pub proof fn lemma_actions_concat(r: Seq<KeyView>, a: Seq<OpView>, b: Seq<OpView>)
    ensures
        actions_for(r, a + b) == actions_for(r, a) + actions_for(registry::apply_all(r, a), b),
    decreases b.len(),
{
    if b.len() == 0 {
        assert(a + b =~= a);
        assert(actions_for(r, a) + Seq::<ActionView>::empty() =~= actions_for(r, a));
    } else {
        let t = b.drop_last();
        lemma_actions_concat(r, a, t);
        assert((a + b).drop_last() =~= a + t);
        registry::lemma_apply_all_concat(r, a, t);
        let last = undo::undo_of(registry::apply_all(r, a + t), b.last()).map_values(
            |op: OpView| action_of(op),
        );
        assert(actions_for(r, a) + (actions_for(registry::apply_all(r, a), t) + last)
            =~= actions_for(r, a) + actions_for(registry::apply_all(r, a), t) + last);
    }
}

/// Rolling back what was recorded of some changes undoes them.
pub proof fn lemma_rollback_undoes(r: Seq<KeyView>, ops: Seq<OpView>)
    ensures
        rollback_ops(actions_for(r, ops)) == undo::undo_all(r, ops),
    decreases ops.len(),
{
    if ops.len() > 0 {
        let t = ops.drop_last();
        let u = undo::undo_of(registry::apply_all(r, t), ops.last());
        let a = u.map_values(|op: OpView| action_of(op));
        lemma_rollback_undoes(r, t);
        law_rollback_order(actions_for(r, t), a);
        if u.len() == 0 {
            assert(a =~= Seq::<ActionView>::empty());
            assert(rollback_ops(a) =~= u);
        } else {
            assert(u =~= seq![u[0]]);
            assert(a =~= seq![action_of(u[0])]);
            assert(a.drop_last() =~= Seq::<ActionView>::empty());
            assert(rollback_ops(a.drop_last()) =~= Seq::<OpView>::empty());
            assert(action_ops(action_of(u[0])) =~= seq![u[0]]);
            assert(rollback_ops(a) =~= u);
        }
    }
}

/// A value is read again with the bytes that were recorded, whatever became of
/// it and of its key since.
pub proof fn law_restored_value(
    r: Seq<registry::KeyView>,
    root: Hkey,
    key: Seq<char>,
    name: Seq<char>,
    backup: Seq<u8>,
)
    ensures
        registry::value_at(
            registry::apply_all(
                r,
                action_ops(ActionView::RestoreValue { root, key, name, backup }),
            ),
            root,
            key,
            name,
        ) == Some(ValueView::Binary(backup)),
{
    let ops = action_ops(ActionView::RestoreValue { root, key, name, backup });
    let r1 = registry::apply(r, ops[0]);
    assert(ops.drop_last() =~= seq![ops[0]]);
    assert(ops.drop_last().drop_last() =~= Seq::<OpView>::empty());
    assert(registry::apply_all(r, ops.drop_last().drop_last()) == r);
    assert(registry::apply_all(r, ops.drop_last()) == r1);
    assert(registry::apply_all(r, ops) == registry::apply(r1, ops[1]));
    registry::law_created_key_exists(r, root, key, root, key);
    registry::law_read_after_write(
        r1,
        root,
        key,
        name,
        ValueView::Binary(backup),
        root,
        key,
        name,
    );
}

} // verus!
