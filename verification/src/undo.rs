//! What undoes changes of the registry.

use vstd::prelude::*;
use crate::registry;
use crate::registry::{
    copy_entries, copy_value, EntryView, Hkey, KeyRecord, KeyView, OpView, RegOp, Registry,
};
use crate::text;

verus! {

/// Whether two registries hold the same keys, and in them the same values.
pub open spec fn same(a: Seq<KeyView>, b: Seq<KeyView>) -> bool {
    &&& forall|root: Hkey, path: Seq<char>| #[trigger]
        registry::has_key(a, root, path) == registry::has_key(b, root, path)
    &&& forall|root: Hkey, path: Seq<char>, name: Seq<char>| #[trigger]
        registry::value_at(a, root, path, name) == registry::value_at(b, root, path, name)
}

/// The changes that undo one change: a key that it made is deleted, and a value
/// gets back what it held. The deletion of a tree is not undone.
pub open spec fn undo_of(r: Seq<KeyView>, op: OpView) -> Seq<OpView> {
    match op {
        OpView::CreateKey { root, path } => if registry::has_key(r, root, path) {
            Seq::empty()
        } else {
            seq![OpView::DeleteTree { root, path }]
        },
        OpView::SetValue { root, path, name, .. } => seq![put_back(r, root, path, name)],
        OpView::DeleteValue { root, path, name } => seq![put_back(r, root, path, name)],
        OpView::DeleteTree { .. } => Seq::empty(),
    }
}

/// The change that gives a value back what it held; it is deleted where it held
/// nothing.
pub open spec fn put_back(r: Seq<KeyView>, root: Hkey, path: Seq<char>, name: Seq<char>) -> OpView {
    match registry::value_at(r, root, path, name) {
        Some(value) => OpView::SetValue { root, path, name, value },
        None => OpView::DeleteValue { root, path, name },
    }
}

/// The changes that undo some changes, the last one first.
pub open spec fn undo_all(r: Seq<KeyView>, ops: Seq<OpView>) -> Seq<OpView>
    decreases ops.len(),
{
    if ops.len() == 0 {
        Seq::empty()
    } else {
        undo_of(registry::apply_all(r, ops.drop_last()), ops.last()) + undo_all(r, ops.drop_last())
    }
}

/// Whether no key stands below a place.
pub open spec fn nothing_below(r: Seq<KeyView>, root: Hkey, path: Seq<char>) -> bool {
    forall|q: Seq<char>|
        registry::is_below(q, path) ==> !(#[trigger] registry::has_key(r, root, q))
}

/// Whether there is a key at a place, or none below it either.
pub open spec fn parented(r: Seq<KeyView>, root: Hkey, path: Seq<char>) -> bool {
    registry::has_key(r, root, path) || nothing_below(r, root, path)
}

/// Whether some changes can be undone: they delete no tree, and where they make a
/// key no other stands below it yet.
pub open spec fn undoable(r: Seq<KeyView>, ops: Seq<OpView>) -> bool
    decreases ops.len(),
{
    ops.len() == 0 || {
        let r1 = registry::apply_all(r, ops.drop_last());
        &&& undoable(r, ops.drop_last())
        &&& match ops.last() {
            OpView::CreateKey { root, path } => parented(r1, root, path),
            OpView::DeleteTree { .. } => false,
            _ => true,
        }
    }
}

// ---------------------------------------------------------------------------
// Steps
// ---------------------------------------------------------------------------
/// The change that undoes one change; none where there is nothing to undo.
pub fn undo_change(registry: &Registry, op: &RegOp) -> (r: Option<RegOp>)
    ensures
        undo_of(registry@, op@) == (match r {
            Some(o) => seq![o@],
            None => Seq::empty(),
        }),
{
    match op {
        RegOp::CreateKey { root, path } => if registry.holds_key(*root, path.as_str()) {
            None
        } else {
            Some(RegOp::DeleteTree { root: *root, path: path.clone() })
        },
        RegOp::SetValue { root, path, name, .. } => Some(
            value_back(registry, *root, path.as_str(), name.as_str()),
        ),
        RegOp::DeleteValue { root, path, name } => Some(
            value_back(registry, *root, path.as_str(), name.as_str()),
        ),
        RegOp::DeleteTree { .. } => None,
    }
}

fn value_back(registry: &Registry, root: Hkey, path: &str, name: &str) -> (r: RegOp)
    ensures
        r@ == put_back(registry@, root, path@, name@),
{
    match registry.get(root, path, name) {
        Some(value) => RegOp::SetValue {
            root,
            path: path.to_owned(),
            name: name.to_owned(),
            value: copy_value(value),
        },
        None => RegOp::DeleteValue { root, path: path.to_owned(), name: name.to_owned() },
    }
}

/// A copy of a change.
pub fn copy_op(op: &RegOp) -> (r: RegOp)
    ensures
        r@ == op@,
{
    match op {
        RegOp::CreateKey { root, path } => RegOp::CreateKey { root: *root, path: path.clone() },
        RegOp::SetValue { root, path, name, value } => RegOp::SetValue {
            root: *root,
            path: path.clone(),
            name: name.clone(),
            value: copy_value(value),
        },
        RegOp::DeleteValue { root, path, name } => RegOp::DeleteValue {
            root: *root,
            path: path.clone(),
            name: name.clone(),
        },
        RegOp::DeleteTree { root, path } => RegOp::DeleteTree { root: *root, path: path.clone() },
    }
}

/// A copy of a registry's keys, with an empty journal.
pub fn snapshot(registry: &Registry) -> (r: Registry)
    ensures
        r@ == registry@,
        r.log() == Seq::<OpView>::empty(),
{
    let mut keys: Vec<KeyRecord> = Vec::new();
    let mut i: usize = 0;
    while i < registry.keys.len()
        invariant
            i <= registry.keys@.len(),
            keys@.len() == i,
            forall|j: int| 0 <= j < i ==> (#[trigger] keys@[j])@ == registry.keys@[j]@,
        decreases registry.keys@.len() - i,
    {
        let k = &registry.keys[i];
        keys.push(
            KeyRecord {
                root: k.root,
                path: k.path.clone(),
                values: copy_entries(k.values.as_slice()),
            },
        );
        i += 1;
    }
    assert(registry::key_views(keys@) =~= registry@);
    Registry::new(keys)
}

// ---------------------------------------------------------------------------
// Laws
// ---------------------------------------------------------------------------
proof fn lemma_lookup_ci(values: Seq<EntryView>, a: Seq<char>, b: Seq<char>)
    requires
        text::eq_ci(a, b),
    ensures
        registry::lookup(values, a) == registry::lookup(values, b),
    decreases values.len(),
{
    if values.len() > 0 {
        lemma_lookup_ci(values.drop_first(), a, b);
    }
}

/// Places and names equal up to case hold the same value.
pub proof fn lemma_value_at_ci(
    r: Seq<KeyView>,
    root: Hkey,
    path: Seq<char>,
    name: Seq<char>,
    other_path: Seq<char>,
    other_name: Seq<char>,
)
    requires
        text::eq_ci(path, other_path),
        text::eq_ci(name, other_name),
    ensures
        registry::has_key(r, root, path) == registry::has_key(r, root, other_path),
        registry::value_at(r, root, path, name) == registry::value_at(
            r,
            root,
            other_path,
            other_name,
        ),
{
    registry::lemma_values_at_ci(r, root, path, other_path);
    match registry::values_at(r, root, path) {
        Some(values) => lemma_lookup_ci(values, name, other_name),
        None => {},
    }
}

/// What a change makes of a registry depends on its keys and values alone.
proof fn lemma_same_apply(a: Seq<KeyView>, b: Seq<KeyView>, op: OpView)
    requires
        same(a, b),
    ensures
        same(registry::apply(a, op), registry::apply(b, op)),
{
    let a1 = registry::apply(a, op);
    let b1 = registry::apply(b, op);
    assert forall|h: Hkey, q: Seq<char>| #[trigger]
        registry::has_key(a1, h, q) == registry::has_key(b1, h, q) by {
        assert(registry::has_key(a, h, q) == registry::has_key(b, h, q));
        match op {
            OpView::CreateKey { root, path } => {
                assert(registry::has_key(a, root, path) == registry::has_key(b, root, path));
                registry::law_created_key_exists(a, root, path, h, q);
                registry::law_created_key_exists(b, root, path, h, q);
            },
            OpView::DeleteTree { root, path } => {
                registry::law_deleted_tree_is_gone(a, root, path, h, q);
                registry::law_deleted_tree_is_gone(b, root, path, h, q);
            },
            _ => {
                registry::law_value_changes_keep_keys(a, op, h, q);
                registry::law_value_changes_keep_keys(b, op, h, q);
            },
        }
    }
    assert forall|h: Hkey, q: Seq<char>, n: Seq<char>| #[trigger]
        registry::value_at(a1, h, q, n) == registry::value_at(b1, h, q, n) by {
        assert(registry::value_at(a, h, q, n) == registry::value_at(b, h, q, n));
        match op {
            OpView::CreateKey { root, path } => {
                assert(registry::has_key(a, root, path) == registry::has_key(b, root, path));
                registry::law_created_key_exists(a, root, path, h, q);
                registry::law_created_key_exists(b, root, path, h, q);
            },
            OpView::DeleteTree { root, path } => {
                registry::law_deleted_tree_is_gone(a, root, path, h, q);
                registry::law_deleted_tree_is_gone(b, root, path, h, q);
            },
            OpView::SetValue { root, path, name, value } => {
                assert(registry::has_key(a, root, path) == registry::has_key(b, root, path));
                if registry::has_key(a, root, path) {
                    registry::law_read_after_write(a, root, path, name, value, h, q, n);
                    registry::law_read_after_write(b, root, path, name, value, h, q, n);
                }
            },
            OpView::DeleteValue { root, path, name } => {
                registry::law_deleted_value_is_gone(a, root, path, name, h, q, n);
                registry::law_deleted_value_is_gone(b, root, path, name, h, q, n);
            },
        }
    }
}

proof fn lemma_same_apply_all(a: Seq<KeyView>, b: Seq<KeyView>, ops: Seq<OpView>)
    requires
        same(a, b),
    ensures
        same(registry::apply_all(a, ops), registry::apply_all(b, ops)),
    decreases ops.len(),
{
    if ops.len() > 0 {
        lemma_same_apply_all(a, b, ops.drop_last());
        lemma_same_apply(
            registry::apply_all(a, ops.drop_last()),
            registry::apply_all(b, ops.drop_last()),
            ops.last(),
        );
    }
}

proof fn lemma_apply_one(r: Seq<KeyView>, op: OpView)
    ensures
        registry::apply_all(r, seq![op]) == registry::apply(r, op),
{
    let ops = seq![op];
    assert(ops.drop_last() =~= Seq::<OpView>::empty());
    assert(registry::apply_all(r, ops.drop_last()) == r);
}

/// Giving a value back what it held undoes a change of it.
proof fn lemma_put_back(r: Seq<KeyView>, op: OpView)
    requires
        op is SetValue || op is DeleteValue,
    ensures
        same(registry::apply_all(registry::apply(r, op), undo_of(r, op)), r),
{
    let r1 = registry::apply(r, op);
    let (root, path, name) = match op {
        OpView::SetValue { root, path, name, .. } => (root, path, name),
        OpView::DeleteValue { root, path, name } => (root, path, name),
        _ => (Hkey::LocalMachine, Seq::empty(), Seq::empty()),
    };
    let back = put_back(r, root, path, name);
    assert(undo_of(r, op) =~= seq![back]);
    lemma_apply_one(r1, back);
    let r2 = registry::apply(r1, back);
    assert forall|h: Hkey, q: Seq<char>| #[trigger]
        registry::has_key(r2, h, q) == registry::has_key(r, h, q) by {
        registry::law_value_changes_keep_keys(r, op, h, q);
        registry::law_value_changes_keep_keys(r1, back, h, q);
    }
    assert forall|h: Hkey, q: Seq<char>, n: Seq<char>| #[trigger]
        registry::value_at(r2, h, q, n) == registry::value_at(r, h, q, n) by {
        registry::law_value_changes_keep_keys(r, op, root, path);
        match op {
            OpView::SetValue { value, .. } => {
                if registry::has_key(r, root, path) {
                    registry::law_read_after_write(r, root, path, name, value, h, q, n);
                }
            },
            _ => {
                registry::law_deleted_value_is_gone(r, root, path, name, h, q, n);
            },
        }
        match back {
            OpView::SetValue { value, .. } => {
                registry::law_read_after_write(r1, root, path, name, value, h, q, n);
            },
            _ => {
                registry::law_deleted_value_is_gone(r1, root, path, name, h, q, n);
            },
        }
        if root == h && text::eq_ci(path, q) && text::eq_ci(name, n) {
            lemma_value_at_ci(r, root, path, name, q, n);
        }
    }
}

/// Deleting a key undoes its creation, where nothing stood below it.
proof fn lemma_delete_again(r: Seq<KeyView>, root: Hkey, path: Seq<char>)
    requires
        parented(r, root, path),
    ensures
        ({
            let op = OpView::CreateKey { root, path };
            same(registry::apply_all(registry::apply(r, op), undo_of(r, op)), r)
        }),
{
    let op = OpView::CreateKey { root, path };
    if registry::has_key(r, root, path) {
        assert(registry::apply_all(r, undo_of(r, op)) == r);
    } else {
        let r1 = registry::apply(r, op);
        let back = OpView::DeleteTree { root, path };
        assert(undo_of(r, op) =~= seq![back]);
        lemma_apply_one(r1, back);
        let r2 = registry::apply(r1, back);
        assert forall|h: Hkey, q: Seq<char>| registry::values_at(r2, h, q) == registry::values_at(
            r,
            h,
            q,
        ) by {
            registry::law_created_key_exists(r, root, path, h, q);
            registry::law_deleted_tree_is_gone(r1, root, path, h, q);
            registry::lemma_values_at_ci(r, root, path, q);
            if root == h && registry::is_below(q, path) {
                assert(!registry::has_key(r, root, q));
            }
        }
    }
}

/// Undoing changes leads back to the same keys and the same values.
pub proof fn law_undone(r: Seq<KeyView>, ops: Seq<OpView>)
    requires
        undoable(r, ops),
    ensures
        same(registry::apply_all(registry::apply_all(r, ops), undo_all(r, ops)), r),
    decreases ops.len(),
{
    if ops.len() > 0 {
        let t = ops.drop_last();
        let r1 = registry::apply_all(r, t);
        let r2 = registry::apply_all(r, ops);
        let u = undo_of(r1, ops.last());
        let rest = undo_all(r, t);
        law_undone(r, t);
        match ops.last() {
            OpView::CreateKey { root, path } => lemma_delete_again(r1, root, path),
            op => lemma_put_back(r1, op),
        }
        registry::lemma_apply_all_concat(r2, u, rest);
        lemma_same_apply_all(registry::apply_all(r2, u), r1, rest);
    }
}

/// Whether some changes are of values alone.
pub open spec fn only_values(ops: Seq<OpView>) -> bool {
    forall|i: int| 0 <= i < ops.len() ==> (#[trigger] ops[i]) is SetValue || ops[i] is DeleteValue
}

pub proof fn lemma_only_values_concat(a: Seq<OpView>, b: Seq<OpView>)
    requires
        only_values(a),
        only_values(b),
    ensures
        only_values(a + b),
{
    let c = a + b;
    assert forall|i: int| 0 <= i < c.len() implies (#[trigger] c[i]) is SetValue
        || c[i] is DeleteValue by {
        if i < a.len() {
            assert(c[i] == a[i]);
        } else {
            assert(c[i] == b[i - a.len()]);
        }
    }
}

/// Changes can be undone where those before them can, and they are of values
/// alone.
pub proof fn lemma_undoable_values(r: Seq<KeyView>, a: Seq<OpView>, b: Seq<OpView>)
    requires
        undoable(r, a),
        only_values(b),
    ensures
        undoable(r, a + b),
    decreases b.len(),
{
    let c = a + b;
    if b.len() == 0 {
        assert(c =~= a);
    } else {
        let t = b.drop_last();
        assert forall|i: int| 0 <= i < t.len() implies (#[trigger] t[i]) is SetValue
            || t[i] is DeleteValue by {
            assert(t[i] == b[i]);
        }
        lemma_undoable_values(r, a, t);
        assert(c.drop_last() =~= a + t);
        assert(c.last() == b[b.len() - 1]);
    }
}

proof fn lemma_undoable_keeps_keys(r: Seq<KeyView>, ops: Seq<OpView>)
    requires
        undoable(r, ops),
    ensures
        registry::keeps_keys(ops),
    decreases ops.len(),
{
    if ops.len() > 0 {
        let t = ops.drop_last();
        lemma_undoable_keeps_keys(r, t);
        assert forall|i: int| 0 <= i < ops.len() implies !((#[trigger] ops[i]) is DeleteTree) by {
            if i < t.len() {
                assert(t[i] == ops[i]);
            }
        }
    }
}

/// The creation of a key can be undone where the changes before it can, and none
/// of them makes a key below it.
pub proof fn lemma_undoable_create(r: Seq<KeyView>, a: Seq<OpView>, root: Hkey, path: Seq<char>)
    requires
        undoable(r, a),
        parented(r, root, path),
        forall|i: int|
            0 <= i < a.len() ==> ((#[trigger] a[i]) matches OpView::CreateKey { root: h, path: p }
                ==> !(h == root && registry::is_below(p, path))),
    ensures
        undoable(r, a + seq![OpView::CreateKey { root, path }]),
{
    let c = a + seq![OpView::CreateKey { root, path }];
    let r1 = registry::apply_all(r, a);
    assert(c.drop_last() =~= a);
    lemma_undoable_keeps_keys(r, a);
    if registry::has_key(r, root, path) {
        registry::law_keys_stay(r, a, root, path);
    } else {
        assert forall|q: Seq<char>| registry::is_below(q, path) implies !(
        #[trigger] registry::has_key(r1, root, q)) by {
            assert(!registry::has_key(r, root, q));
            assert forall|i: int| 0 <= i < a.len() implies ((
            #[trigger] a[i]) matches OpView::CreateKey { root: h, path: p } ==> !(h == root
                && text::eq_ci(p, q))) by {
                match a[i] {
                    OpView::CreateKey { root: h, path: p } => {
                        if text::eq_ci(p, q) {
                            registry::lemma_is_below_ci(p, q, path);
                        }
                    },
                    _ => {},
                }
            }
            registry::law_absent_key_stays_absent(r, a, root, q);
        }
    }
}

} // verus!
