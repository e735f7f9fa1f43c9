//! The registry as a value: keys with named values, the operations on them, and
//! a journal of every change.
//!
//! Key paths and value names are compared up to the case of ASCII letters. A
//! caller loads the keys it is about to work on, runs an operation, and replays
//! the journal.

use vstd::prelude::*;
use crate::text;
use crate::text::{concat3, eq_ignore_case, to_chars};

verus! {

/// The hives that this library touches.
#[derive(Clone, Copy, Debug, PartialEq, Eq, Structural)]
pub enum Hkey {
    ClassesRoot,
    CurrentUser,
    LocalMachine,
}

/// The data of a registry value.
#[derive(Clone, Debug, PartialEq, Eq)]
pub enum RegValue {
    Sz(String),
    MultiSz(Vec<String>),
    Dword(u32),
    Qword(u64),
    Binary(Vec<u8>),
}

/// The contents of a registry value.
pub enum ValueView {
    Sz(Seq<char>),
    MultiSz(Seq<Seq<char>>),
    Dword(u32),
    Qword(u64),
    Binary(Seq<u8>),
}

impl View for RegValue {
    type V = ValueView;

    open spec fn view(&self) -> ValueView {
        match self {
            RegValue::Sz(s) => ValueView::Sz(s@),
            RegValue::MultiSz(v) => ValueView::MultiSz(text::texts(v@)),
            RegValue::Dword(n) => ValueView::Dword(*n),
            RegValue::Qword(n) => ValueView::Qword(*n),
            RegValue::Binary(b) => ValueView::Binary(b@),
        }
    }
}

/// A named value.
#[derive(Clone, Debug, PartialEq, Eq)]
pub struct RegEntry {
    pub name: String,
    pub value: RegValue,
}

/// The contents of a named value.
pub struct EntryView {
    pub name: Seq<char>,
    pub value: ValueView,
}

impl View for RegEntry {
    type V = EntryView;

    open spec fn view(&self) -> EntryView {
        EntryView { name: self.name@, value: self.value@ }
    }
}

/// The contents of a list of named values.
pub open spec fn entries(v: Seq<RegEntry>) -> Seq<EntryView> {
    v.map_values(|e: RegEntry| e@)
}

/// A key with its values.
#[derive(Clone, Debug, PartialEq, Eq)]
pub struct KeyRecord {
    pub root: Hkey,
    pub path: String,
    pub values: Vec<RegEntry>,
}

/// The contents of a key.
pub struct KeyView {
    pub root: Hkey,
    pub path: Seq<char>,
    pub values: Seq<EntryView>,
}

impl View for KeyRecord {
    type V = KeyView;

    open spec fn view(&self) -> KeyView {
        KeyView { root: self.root, path: self.path@, values: entries(self.values@) }
    }
}

/// One change of the registry.
#[derive(Clone, Debug, PartialEq, Eq)]
pub enum RegOp {
    CreateKey { root: Hkey, path: String },
    SetValue { root: Hkey, path: String, name: String, value: RegValue },
    DeleteValue { root: Hkey, path: String, name: String },
    DeleteTree { root: Hkey, path: String },
}

/// The contents of a change.
pub enum OpView {
    CreateKey { root: Hkey, path: Seq<char> },
    SetValue { root: Hkey, path: Seq<char>, name: Seq<char>, value: ValueView },
    DeleteValue { root: Hkey, path: Seq<char>, name: Seq<char> },
    DeleteTree { root: Hkey, path: Seq<char> },
}

impl View for RegOp {
    type V = OpView;

    open spec fn view(&self) -> OpView {
        match self {
            RegOp::CreateKey { root, path } => OpView::CreateKey { root: *root, path: path@ },
            RegOp::SetValue { root, path, name, value } => OpView::SetValue {
                root: *root,
                path: path@,
                name: name@,
                value: value@,
            },
            RegOp::DeleteValue { root, path, name } => OpView::DeleteValue {
                root: *root,
                path: path@,
                name: name@,
            },
            RegOp::DeleteTree { root, path } => OpView::DeleteTree { root: *root, path: path@ },
        }
    }
}

// ---------------------------------------------------------------------------
// Model
// ---------------------------------------------------------------------------
/// The value with a given name.
pub open spec fn lookup(values: Seq<EntryView>, name: Seq<char>) -> Option<ValueView>
    decreases values.len(),
{
    if values.len() == 0 {
        None
    } else if text::eq_ci(values[0].name, name) {
        Some(values[0].value)
    } else {
        lookup(values.drop_first(), name)
    }
}

/// Values after one is set: the first of that name is replaced, or a new one is
/// added at the end.
pub open spec fn with_value(values: Seq<EntryView>, name: Seq<char>, value: ValueView) -> Seq<
    EntryView,
>
    decreases values.len(),
{
    if values.len() == 0 {
        seq![EntryView { name, value }]
    } else if text::eq_ci(values[0].name, name) {
        seq![EntryView { name: values[0].name, value }] + values.drop_first()
    } else {
        seq![values[0]] + with_value(values.drop_first(), name, value)
    }
}

/// Values after those of one name are deleted.
pub open spec fn without_value(values: Seq<EntryView>, name: Seq<char>) -> Seq<EntryView>
    decreases values.len(),
{
    if values.len() == 0 {
        Seq::empty()
    } else if text::eq_ci(values[0].name, name) {
        without_value(values.drop_first(), name)
    } else {
        seq![values[0]] + without_value(values.drop_first(), name)
    }
}

/// Whether a key stands at a place.
pub open spec fn is_at(k: KeyView, root: Hkey, path: Seq<char>) -> bool {
    k.root == root && text::eq_ci(k.path, path)
}

/// The values of the key at a place.
pub open spec fn values_at(r: Seq<KeyView>, root: Hkey, path: Seq<char>) -> Option<Seq<EntryView>>
    decreases r.len(),
{
    if r.len() == 0 {
        None
    } else if is_at(r[0], root, path) {
        Some(r[0].values)
    } else {
        values_at(r.drop_first(), root, path)
    }
}

/// Whether there is a key at a place.
pub open spec fn has_key(r: Seq<KeyView>, root: Hkey, path: Seq<char>) -> bool {
    values_at(r, root, path) is Some
}

/// The value of a given name in the key at a place.
pub open spec fn value_at(r: Seq<KeyView>, root: Hkey, path: Seq<char>, name: Seq<char>) -> Option<
    ValueView,
> {
    match values_at(r, root, path) {
        Some(values) => lookup(values, name),
        None => None,
    }
}

/// The text of a value of type `Sz`.
pub open spec fn as_sz(v: Option<ValueView>) -> Option<Seq<char>> {
    match v {
        Some(ValueView::Sz(s)) => Some(s),
        _ => None,
    }
}

/// The texts of a value of type `MultiSz`.
pub open spec fn as_multi(v: Option<ValueView>) -> Option<Seq<Seq<char>>> {
    match v {
        Some(ValueView::MultiSz(s)) => Some(s),
        _ => None,
    }
}

/// The number of a value of type `Dword`.
pub open spec fn as_dword(v: Option<ValueView>) -> Option<u32> {
    match v {
        Some(ValueView::Dword(n)) => Some(n),
        _ => None,
    }
}

/// A key's path followed by the name of a key below it.
pub open spec fn join(path: Seq<char>, name: Seq<char>) -> Seq<char> {
    path + "\\"@ + name
}

/// Whether the path `p` stands below the path `base`.
pub open spec fn is_below(p: Seq<char>, base: Seq<char>) -> bool {
    &&& p.len() > base.len()
    &&& p[base.len() as int] == '\\'
    &&& text::eq_ci(p.subrange(0, base.len() as int), base)
}

/// The name of the key at `p` where it stands directly below `base`.
pub open spec fn child_name(p: Seq<char>, base: Seq<char>) -> Option<Seq<char>> {
    let rest = p.subrange(base.len() as int + 1, p.len() as int);
    if is_below(p, base) && !rest.contains('\\') {
        Some(rest)
    } else {
        None
    }
}

/// The names of the keys directly below a place.
pub open spec fn children(r: Seq<KeyView>, root: Hkey, base: Seq<char>) -> Seq<Seq<char>>
    decreases r.len(),
{
    if r.len() == 0 {
        Seq::empty()
    } else {
        let rest = children(r.drop_last(), root, base);
        match child_name(r.last().path, base) {
            Some(name) => if r.last().root == root {
                rest.push(name)
            } else {
                rest
            },
            None => rest,
        }
    }
}

/// The registry with the values of the key at a place replaced.
pub open spec fn with_values(
    r: Seq<KeyView>,
    root: Hkey,
    path: Seq<char>,
    values: Seq<EntryView>,
) -> Seq<KeyView>
    decreases r.len(),
{
    if r.len() == 0 {
        r
    } else if is_at(r[0], root, path) {
        seq![KeyView { root: r[0].root, path: r[0].path, values }] + r.drop_first()
    } else {
        seq![r[0]] + with_values(r.drop_first(), root, path, values)
    }
}

/// Whether a change of the tree at a place removes the key.
pub open spec fn in_tree(k: KeyView, root: Hkey, path: Seq<char>) -> bool {
    is_at(k, root, path) || (k.root == root && is_below(k.path, path))
}

/// The registry without a key and the keys below it.
pub open spec fn without_tree(r: Seq<KeyView>, root: Hkey, path: Seq<char>) -> Seq<KeyView>
    decreases r.len(),
{
    if r.len() == 0 {
        r
    } else {
        let rest = without_tree(r.drop_last(), root, path);
        if in_tree(r.last(), root, path) {
            rest
        } else {
            rest.push(r.last())
        }
    }
}

/// The registry after one change. A value of a key that is not there stays
/// unset.
pub open spec fn apply(r: Seq<KeyView>, op: OpView) -> Seq<KeyView> {
    match op {
        OpView::CreateKey { root, path } => if has_key(r, root, path) {
            r
        } else {
            r.push(KeyView { root, path, values: Seq::empty() })
        },
        OpView::SetValue { root, path, name, value } => match values_at(r, root, path) {
            Some(values) => with_values(r, root, path, with_value(values, name, value)),
            None => r,
        },
        OpView::DeleteValue { root, path, name } => match values_at(r, root, path) {
            Some(values) => with_values(r, root, path, without_value(values, name)),
            None => r,
        },
        OpView::DeleteTree { root, path } => without_tree(r, root, path),
    }
}

/// The registry after a list of changes, one after the other.
pub open spec fn apply_all(r: Seq<KeyView>, ops: Seq<OpView>) -> Seq<KeyView>
    decreases ops.len(),
{
    if ops.len() == 0 {
        r
    } else {
        apply(apply_all(r, ops.drop_last()), ops.last())
    }
}

/// The contents of a list of changes.
pub open spec fn op_views(v: Seq<RegOp>) -> Seq<OpView> {
    v.map_values(|op: RegOp| op@)
}

/// The contents of a list of keys.
pub open spec fn key_views(v: Seq<KeyRecord>) -> Seq<KeyView> {
    v.map_values(|k: KeyRecord| k@)
}

// ---------------------------------------------------------------------------
// Facts about the model
// ---------------------------------------------------------------------------
/// Where the first value of a name stands.
proof fn lemma_lookup_at(values: Seq<EntryView>, name: Seq<char>, i: int)
    requires
        0 <= i <= values.len(),
        forall|j: int| 0 <= j < i ==> !text::eq_ci((#[trigger] values[j]).name, name),
        i < values.len() ==> text::eq_ci(values[i].name, name),
    ensures
        lookup(values, name) == (if i < values.len() {
            Some(values[i].value)
        } else {
            None
        }),
    decreases values.len(),
{
    if i > 0 {
        let t = values.drop_first();
        assert(!text::eq_ci(values[0].name, name));
        assert forall|j: int| 0 <= j < i - 1 implies !text::eq_ci((#[trigger] t[j]).name, name) by {
            assert(t[j] == values[j + 1]);
        }
        lemma_lookup_at(t, name, i - 1);
    }
}

proof fn lemma_with_value_at(values: Seq<EntryView>, name: Seq<char>, value: ValueView, i: int)
    requires
        0 <= i <= values.len(),
        forall|j: int| 0 <= j < i ==> !text::eq_ci((#[trigger] values[j]).name, name),
        i < values.len() ==> text::eq_ci(values[i].name, name),
    ensures
        with_value(values, name, value) == (if i < values.len() {
            values.update(i, EntryView { name: values[i].name, value })
        } else {
            values.push(EntryView { name, value })
        }),
    decreases values.len(),
{
    if i > 0 {
        let t = values.drop_first();
        assert(!text::eq_ci(values[0].name, name));
        assert forall|j: int| 0 <= j < i - 1 implies !text::eq_ci((#[trigger] t[j]).name, name) by {
            assert(t[j] == values[j + 1]);
        }
        lemma_with_value_at(t, name, value, i - 1);
        if i < values.len() {
            assert(with_value(values, name, value) =~= values.update(
                i,
                EntryView { name: values[i].name, value },
            ));
        } else {
            assert(with_value(values, name, value) =~= values.push(EntryView { name, value }));
        }
    } else if values.len() > 0 {
        assert(with_value(values, name, value) =~= values.update(
            0,
            EntryView { name: values[0].name, value },
        ));
    } else {
        assert(with_value(values, name, value) =~= values.push(EntryView { name, value }));
    }
}

proof fn lemma_without_value_push(values: Seq<EntryView>, name: Seq<char>, e: EntryView)
    ensures
        without_value(values.push(e), name) == (if text::eq_ci(e.name, name) {
            without_value(values, name)
        } else {
            without_value(values, name).push(e)
        }),
    decreases values.len(),
{
    let w = values.push(e);
    if values.len() == 0 {
        assert(w.drop_first() =~= Seq::empty());
        assert(without_value(w.drop_first(), name) =~= Seq::empty());
        assert(without_value(w, name) =~= (if text::eq_ci(e.name, name) {
            without_value(values, name)
        } else {
            without_value(values, name).push(e)
        }));
    } else {
        assert(w.drop_first() =~= values.drop_first().push(e));
        lemma_without_value_push(values.drop_first(), name, e);
        assert(w[0] == values[0]);
        assert(without_value(w, name) =~= (if text::eq_ci(e.name, name) {
            without_value(values, name)
        } else {
            without_value(values, name).push(e)
        }));
    }
}

/// Where the first key at a place stands.
proof fn lemma_values_at(r: Seq<KeyView>, root: Hkey, path: Seq<char>, i: int)
    requires
        0 <= i <= r.len(),
        forall|j: int| 0 <= j < i ==> !is_at(#[trigger] r[j], root, path),
        i < r.len() ==> is_at(r[i], root, path),
    ensures
        values_at(r, root, path) == (if i < r.len() {
            Some(r[i].values)
        } else {
            None
        }),
    decreases r.len(),
{
    if i > 0 {
        let t = r.drop_first();
        assert(!is_at(r[0], root, path));
        assert forall|j: int| 0 <= j < i - 1 implies !is_at(#[trigger] t[j], root, path) by {
            assert(t[j] == r[j + 1]);
        }
        lemma_values_at(t, root, path, i - 1);
    }
}

proof fn lemma_with_values_at(
    r: Seq<KeyView>,
    root: Hkey,
    path: Seq<char>,
    values: Seq<EntryView>,
    i: int,
)
    requires
        0 <= i < r.len(),
        forall|j: int| 0 <= j < i ==> !is_at(#[trigger] r[j], root, path),
        is_at(r[i], root, path),
    ensures
        with_values(r, root, path, values) == r.update(
            i,
            KeyView { root: r[i].root, path: r[i].path, values },
        ),
    decreases r.len(),
{
    if i > 0 {
        let t = r.drop_first();
        assert(!is_at(r[0], root, path));
        assert forall|j: int| 0 <= j < i - 1 implies !is_at(#[trigger] t[j], root, path) by {
            assert(t[j] == r[j + 1]);
        }
        lemma_with_values_at(t, root, path, values, i - 1);
    }
    assert(with_values(r, root, path, values) =~= r.update(
        i,
        KeyView { root: r[i].root, path: r[i].path, values },
    ));
}

/// Changes one after the other are the changes of both lists.
pub proof fn lemma_apply_all_concat(r: Seq<KeyView>, a: Seq<OpView>, b: Seq<OpView>)
    ensures
        apply_all(r, a + b) == apply_all(apply_all(r, a), b),
    decreases b.len(),
{
    if b.len() == 0 {
        assert(a + b =~= a);
    } else {
        assert((a + b).drop_last() =~= a + b.drop_last());
        assert((a + b).last() == b.last());
        lemma_apply_all_concat(r, a, b.drop_last());
    }
}

// ---------------------------------------------------------------------------
// The registry
// ---------------------------------------------------------------------------
/// Keys, and the changes made to them so far.
#[derive(Clone, Debug, PartialEq, Eq)]
pub struct Registry {
    pub keys: Vec<KeyRecord>,
    pub journal: Vec<RegOp>,
}

impl View for Registry {
    type V = Seq<KeyView>;

    open spec fn view(&self) -> Seq<KeyView> {
        key_views(self.keys@)
    }
}

/// Whether `after` is `before` with the given changes made and journalled.
pub open spec fn advanced(before: Registry, after: Registry, ops: Seq<OpView>) -> bool {
    &&& after@ == apply_all(before@, ops)
    &&& after.log() == before.log() + ops
}

/// Advancing twice is advancing by both lists of changes.
pub proof fn lemma_advanced_trans(
    a: Registry,
    b: Registry,
    c: Registry,
    p: Seq<OpView>,
    q: Seq<OpView>,
)
    requires
        advanced(a, b, p),
        advanced(b, c, q),
    ensures
        advanced(a, c, p + q),
{
    lemma_apply_all_concat(a@, p, q);
    assert(a.log() + p + q =~= a.log() + (p + q));
}

/// A registry advances to itself by no change.
pub proof fn lemma_advanced_refl(a: Registry)
    ensures
        advanced(a, a, Seq::empty()),
{
    assert(a.log() + Seq::<OpView>::empty() =~= a.log());
}

impl Registry {
    /// The changes made so far.
    pub open spec fn log(&self) -> Seq<OpView> {
        op_views(self.journal@)
    }

    /// A registry with the given keys and no changes.
    pub fn new(keys: Vec<KeyRecord>) -> (r: Registry)
        ensures
            r@ == key_views(keys@),
            r.log() == Seq::<OpView>::empty(),
    {
        let r = Registry { keys, journal: Vec::new() };
        assert(r.log() =~= Seq::<OpView>::empty());
        r
    }

    /// Where the key at a place stands.
    fn position(&self, root: Hkey, path: &str) -> (r: usize)
        ensures
            r <= self.keys@.len(),
            r == self.keys@.len() ==> values_at(self@, root, path@) is None,
            r < self.keys@.len() ==> {
                &&& is_at(self@[r as int], root, path@)
                &&& forall|j: int| 0 <= j < r ==> !is_at(#[trigger] self@[j], root, path@)
                &&& values_at(self@, root, path@) == Some(self@[r as int].values)
            },
    {
        let mut i: usize = 0;
        while i < self.keys.len()
            invariant
                i <= self.keys@.len(),
                forall|j: int| 0 <= j < i ==> !is_at(#[trigger] self@[j], root, path@),
            decreases self.keys@.len() - i,
        {
            let k = &self.keys[i];
            assert(self@[i as int] == k@);
            if k.root == root && eq_ignore_case(k.path.as_str(), path) {
                proof {
                    lemma_values_at(self@, root, path@, i as int);
                }
                return i;
            }
            i += 1;
        }
        proof {
            lemma_values_at(self@, root, path@, i as int);
        }
        i
    }

    /// Whether there is a key at a place.
    pub fn holds_key(&self, root: Hkey, path: &str) -> (r: bool)
        ensures
            r == has_key(self@, root, path@),
    {
        self.position(root, path) < self.keys.len()
    }

    /// The value of a given name in the key at a place.
    pub fn get(&self, root: Hkey, path: &str, name: &str) -> (r: Option<&RegValue>)
        ensures
            r is Some == value_at(self@, root, path@, name@) is Some,
            r matches Some(v) ==> value_at(self@, root, path@, name@) == Some(v@),
    {
        let i = self.position(root, path);
        if i == self.keys.len() {
            return None;
        }
        let values = &self.keys[i].values;
        assert(self@[i as int] == self.keys@[i as int]@);
        entry_of(values.as_slice(), name)
    }

    /// The text of a value of type `Sz` in the key at a place.
    pub fn get_sz(&self, root: Hkey, path: &str, name: &str) -> (r: Option<String>)
        ensures
            r is Some == as_sz(value_at(self@, root, path@, name@)) is Some,
            r matches Some(s) ==> as_sz(value_at(self@, root, path@, name@)) == Some(s@),
    {
        match self.get(root, path, name) {
            Some(RegValue::Sz(s)) => Some(s.clone()),
            _ => None,
        }
    }
}

/// The value with a given name.
pub fn entry_of<'a>(values: &'a [RegEntry], name: &str) -> (r: Option<&'a RegValue>)
    ensures
        r is Some == lookup(entries(values@), name@) is Some,
        r matches Some(v) ==> lookup(entries(values@), name@) == Some(v@),
{
    let mut i: usize = 0;
    while i < values.len()
        invariant
            i <= values.len(),
            forall|j: int|
                0 <= j < i ==> !text::eq_ci((#[trigger] entries(values@)[j]).name, name@),
        decreases values.len() - i,
    {
        let e = &values[i];
        assert(entries(values@)[i as int] == e@);
        if eq_ignore_case(e.name.as_str(), name) {
            proof {
                lemma_lookup_at(entries(values@), name@, i as int);
            }
            return Some(&e.value);
        }
        i += 1;
    }
    proof {
        lemma_lookup_at(entries(values@), name@, i as int);
    }
    None
}

/// Sets a named value.
fn set_entry(values: &mut Vec<RegEntry>, name: &str, value: RegValue)
    ensures
        entries(final(values)@) == with_value(entries(old(values)@), name@, value@),
{
    let ghost before = entries(values@);
    let mut i: usize = 0;
    while i < values.len()
        invariant
            i <= values@.len(),
            values@ == old(values)@,
            before == entries(values@),
            forall|j: int| 0 <= j < i ==> !text::eq_ci((#[trigger] before[j]).name, name@),
        decreases values@.len() - i,
    {
        assert(before[i as int] == values@[i as int]@);
        if eq_ignore_case(values[i].name.as_str(), name) {
            let kept = values[i].name.clone();
            proof {
                lemma_with_value_at(before, name@, value@, i as int);
            }
            values[i] = RegEntry { name: kept, value };
            assert(entries(values@) =~= before.update(
                i as int,
                EntryView { name: before[i as int].name, value: value@ },
            ));
            return;
        }
        i += 1;
    }
    proof {
        lemma_with_value_at(before, name@, value@, i as int);
    }
    values.push(RegEntry { name: name.to_owned(), value });
    assert(entries(values@) =~= before.push(EntryView { name: name@, value: value@ }));
}

/// The values without those of one name.
fn remove_entry(values: &Vec<RegEntry>, name: &str) -> (r: Vec<RegEntry>)
    ensures
        entries(r@) == without_value(entries(values@), name@),
{
    let mut out: Vec<RegEntry> = Vec::new();
    let mut i: usize = 0;
    assert(entries(out@) =~= Seq::empty());
    assert(entries(values@).take(0) =~= Seq::empty());
    while i < values.len()
        invariant
            i <= values@.len(),
            entries(out@) == without_value(entries(values@).take(i as int), name@),
        decreases values@.len() - i,
    {
        let e = &values[i];
        let ghost all = entries(values@);
        let ghost before = out@;
        assert(all.take(i + 1) =~= all.take(i as int).push(e@));
        proof {
            lemma_without_value_push(all.take(i as int), name@, e@);
        }
        if !eq_ignore_case(e.name.as_str(), name) {
            let copy = copy_entry(e);
            out.push(copy);
            assert(entries(out@) =~= entries(before).push(e@));
        }
        i += 1;
    }
    assert(entries(values@).take(i as int) =~= entries(values@));
    out
}

/// A copy of a list of texts.
pub fn copy_texts(v: &[String]) -> (r: Vec<String>)
    ensures
        text::texts(r@) == text::texts(v@),
        r@.len() == v@.len(),
{
    let mut out: Vec<String> = Vec::new();
    let mut i: usize = 0;
    while i < v.len()
        invariant
            i <= v.len(),
            out@.len() == i,
            forall|j: int| 0 <= j < i ==> (#[trigger] out@[j])@ == v@[j]@,
        decreases v.len() - i,
    {
        out.push(v[i].clone());
        i += 1;
    }
    assert(text::texts(out@) =~= text::texts(v@));
    out
}

/// A copy of some bytes.
pub fn copy_bytes(v: &[u8]) -> (r: Vec<u8>)
    ensures
        r@ == v@,
{
    let mut out: Vec<u8> = Vec::new();
    let mut i: usize = 0;
    while i < v.len()
        invariant
            i <= v.len(),
            out@ == v@.take(i as int),
        decreases v.len() - i,
    {
        out.push(v[i]);
        i += 1;
        assert(out@ =~= v@.take(i as int));
    }
    assert(out@ =~= v@);
    out
}

/// A copy of a value.
pub fn copy_value(v: &RegValue) -> (r: RegValue)
    ensures
        r@ == v@,
{
    match v {
        RegValue::Sz(s) => RegValue::Sz(s.clone()),
        RegValue::MultiSz(t) => RegValue::MultiSz(copy_texts(t.as_slice())),
        RegValue::Dword(n) => RegValue::Dword(*n),
        RegValue::Qword(n) => RegValue::Qword(*n),
        RegValue::Binary(b) => RegValue::Binary(copy_bytes(b.as_slice())),
    }
}

/// A copy of a named value.
pub fn copy_entry(e: &RegEntry) -> (r: RegEntry)
    ensures
        r@ == e@,
{
    RegEntry { name: e.name.clone(), value: copy_value(&e.value) }
}

impl Registry {
    /// Makes one change and journals it.
    pub fn perform(&mut self, op: RegOp)
        ensures
            advanced(*old(self), *final(self), seq![op@]),
    {
        let ghost before = *self;
        match &op {
            RegOp::CreateKey { root, path } => {
                let i = self.position(*root, path.as_str());
                if i == self.keys.len() {
                    self.keys.push(
                        KeyRecord { root: *root, path: path.clone(), values: Vec::new() },
                    );
                    assert(self@ =~= before@.push(
                        KeyView { root: *root, path: path@, values: Seq::empty() },
                    )) by {
                        assert(entries(Seq::<RegEntry>::empty()) =~= Seq::empty());
                    }
                }
            },
            RegOp::SetValue { root, path, name, value } => {
                let i = self.position(*root, path.as_str());
                if i < self.keys.len() {
                    let copy = copy_value(value);
                    let ghost old_key = self.keys@[i as int];
                    set_entry(&mut self.keys[i].values, name.as_str(), copy);
                    proof {
                        let nv = with_value(entries(old_key.values@), name@, value@);
                        assert(before@[i as int] == old_key@);
                        lemma_with_values_at(before@, *root, path@, nv, i as int);
                        assert(self@ =~= before@.update(
                            i as int,
                            KeyView {
                                root: before@[i as int].root,
                                path: before@[i as int].path,
                                values: nv,
                            },
                        ));
                    }
                }
            },
            RegOp::DeleteValue { root, path, name } => {
                let i = self.position(*root, path.as_str());
                if i < self.keys.len() {
                    let ghost old_key = self.keys@[i as int];
                    let kept = remove_entry(&self.keys[i].values, name.as_str());
                    self.keys[i].values = kept;
                    proof {
                        let nv = without_value(entries(old_key.values@), name@);
                        assert(before@[i as int] == old_key@);
                        lemma_with_values_at(before@, *root, path@, nv, i as int);
                        assert(self@ =~= before@.update(
                            i as int,
                            KeyView {
                                root: before@[i as int].root,
                                path: before@[i as int].path,
                                values: nv,
                            },
                        ));
                    }
                }
            },
            RegOp::DeleteTree { root, path } => {
                let kept = keys_outside(&self.keys, *root, path.as_str());
                self.keys = kept;
            },
        }
        assert(self@ == apply(before@, op@));
        self.journal.push(op);
        proof {
            let ops = seq![op@];
            assert(ops.drop_last() =~= Seq::<OpView>::empty());
            assert(apply_all(before@, ops.drop_last()) == before@);
            assert(apply_all(before@, ops) == apply(before@, op@));
            assert(self.log() =~= before.log() + ops);
        }
    }

    /// Adds a key, unless it is there.
    pub fn create_key(&mut self, root: Hkey, path: &str)
        ensures
            advanced(*old(self), *final(self), seq![OpView::CreateKey { root, path: path@ }]),
    {
        self.perform(RegOp::CreateKey { root, path: path.to_owned() })
    }

    /// Sets a value of a key.
    pub fn set_value(&mut self, root: Hkey, path: &str, name: &str, value: RegValue)
        ensures
            advanced(
                *old(self),
                *final(self),
                seq![OpView::SetValue { root, path: path@, name: name@, value: value@ }],
            ),
    {
        self.perform(
            RegOp::SetValue { root, path: path.to_owned(), name: name.to_owned(), value },
        )
    }

    /// Sets a text value of a key.
    pub fn set_sz(&mut self, root: Hkey, path: &str, name: &str, value: &str)
        ensures
            advanced(*old(self), *final(self), seq![op_set_sz(root, path@, name@, value@)]),
    {
        self.set_value(root, path, name, RegValue::Sz(value.to_owned()))
    }

    /// Deletes a value of a key.
    pub fn delete_value(&mut self, root: Hkey, path: &str, name: &str)
        ensures
            advanced(
                *old(self),
                *final(self),
                seq![OpView::DeleteValue { root, path: path@, name: name@ }],
            ),
    {
        self.perform(RegOp::DeleteValue { root, path: path.to_owned(), name: name.to_owned() })
    }

    /// Deletes a key and the keys below it.
    pub fn delete_tree(&mut self, root: Hkey, path: &str)
        ensures
            advanced(*old(self), *final(self), seq![OpView::DeleteTree { root, path: path@ }]),
    {
        self.perform(RegOp::DeleteTree { root, path: path.to_owned() })
    }

    /// The values of the key at a place.
    pub fn values(&self, root: Hkey, path: &str) -> (r: Option<&[RegEntry]>)
        ensures
            values_at(self@, root, path@) == (match r {
                Some(v) => Some(entries(v@)),
                None => None,
            }),
    {
        let i = self.position(root, path);
        if i == self.keys.len() {
            return None;
        }
        assert(self@[i as int].values == entries(self.keys@[i as int].values@));
        Some(self.keys[i].values.as_slice())
    }

    /// The names of the keys directly below a place.
    pub fn child_names(&self, root: Hkey, base: &str) -> (r: Vec<String>)
        ensures
            text::texts(r@) == children(self@, root, base@),
    {
        let mut out: Vec<String> = Vec::new();
        let mut i: usize = 0;
        assert(self@.take(0) =~= Seq::empty());
        assert(text::texts(out@) =~= Seq::empty());
        while i < self.keys.len()
            invariant
                i <= self.keys@.len(),
                text::texts(out@) == children(self@.take(i as int), root, base@),
            decreases self.keys@.len() - i,
        {
            let k = &self.keys[i];
            let ghost t = self@.take(i + 1);
            let ghost before = out@;
            assert(t.drop_last() =~= self@.take(i as int));
            assert(t.last() == k@);
            match name_below(k.path.as_str(), base) {
                Some(name) => {
                    if k.root == root {
                        out.push(name);
                        assert(text::texts(out@) =~= text::texts(before).push(name@));
                    }
                },
                None => {},
            }
            i += 1;
        }
        assert(self@.take(i as int) =~= self@);
        out
    }
}

/// The change that sets a text value.
pub open spec fn op_set_sz(root: Hkey, path: Seq<char>, name: Seq<char>, value: Seq<char>) -> OpView {
    OpView::SetValue { root, path, name, value: ValueView::Sz(value) }
}

/// Whether one path stands below another.
fn path_below(p: &str, base: &str) -> (r: bool)
    ensures
        r == is_below(p@, base@),
{
    let v = to_chars(p);
    let b = to_chars(base);
    if v.len() <= b.len() || v[b.len()] != '\\' {
        return false;
    }
    let head = crate::text::sub_string(v.as_slice(), 0, b.len());
    eq_ignore_case(head.as_str(), base)
}

/// The name of the key at a path where it stands directly below another.
fn name_below(p: &str, base: &str) -> (r: Option<String>)
    ensures
        r is Some == child_name(p@, base@) is Some,
        r matches Some(n) ==> child_name(p@, base@) == Some(n@),
{
    if !path_below(p, base) {
        return None;
    }
    let v = to_chars(p);
    let b = to_chars(base);
    assert(b.len() < v.len());
    let from: usize = b.len() + 1;
    let ghost rest = p@.subrange(from as int, p@.len() as int);
    let e = crate::text::position_of(v.as_slice(), '\\', from);
    if e < v.len() {
        assert(rest[e - from] == '\\');
        return None;
    }
    assert forall|j: int| 0 <= j < rest.len() implies rest[j] != '\\' by {
        assert(rest[j] == v@[j + from]);
    }
    Some(crate::text::sub_string(v.as_slice(), from, v.len()))
}

/// The keys that are not in a tree.
fn keys_outside(keys: &Vec<KeyRecord>, root: Hkey, path: &str) -> (r: Vec<KeyRecord>)
    ensures
        key_views(r@) == without_tree(key_views(keys@), root, path@),
{
    let mut out: Vec<KeyRecord> = Vec::new();
    let mut i: usize = 0;
    let ghost all = key_views(keys@);
    assert(all.take(0) =~= Seq::empty());
    assert(key_views(out@) =~= Seq::empty());
    while i < keys.len()
        invariant
            i <= keys@.len(),
            all == key_views(keys@),
            key_views(out@) == without_tree(all.take(i as int), root, path@),
        decreases keys@.len() - i,
    {
        let k = &keys[i];
        let ghost t = all.take(i + 1);
        let ghost before = out@;
        assert(t.drop_last() =~= all.take(i as int));
        assert(t.last() == k@);
        let gone = k.root == root && (eq_ignore_case(k.path.as_str(), path) || path_below(
            k.path.as_str(),
            path,
        ));
        if !gone {
            let copy = copy_key(k);
            out.push(copy);
            assert(key_views(out@) =~= key_views(before).push(k@));
        }
        i += 1;
    }
    assert(all.take(i as int) =~= all);
    out
}

/// A copy of a list of named values.
pub fn copy_entries(v: &[RegEntry]) -> (r: Vec<RegEntry>)
    ensures
        entries(r@) == entries(v@),
{
    let mut out: Vec<RegEntry> = Vec::new();
    let mut i: usize = 0;
    while i < v.len()
        invariant
            i <= v.len(),
            out@.len() == i,
            forall|j: int| 0 <= j < i ==> (#[trigger] out@[j])@ == v@[j]@,
        decreases v.len() - i,
    {
        out.push(copy_entry(&v[i]));
        i += 1;
    }
    assert(entries(out@) =~= entries(v@));
    out
}

/// A copy of a key.
fn copy_key(k: &KeyRecord) -> (r: KeyRecord)
    ensures
        r@ == k@,
{
    KeyRecord { root: k.root, path: k.path.clone(), values: copy_entries(k.values.as_slice()) }
}

// ---------------------------------------------------------------------------
// Laws
// ---------------------------------------------------------------------------
proof fn lemma_lookup_with_value(
    values: Seq<EntryView>,
    name: Seq<char>,
    value: ValueView,
    other: Seq<char>,
)
    ensures
        lookup(with_value(values, name, value), other) == (if text::eq_ci(name, other) {
            Some(value)
        } else {
            lookup(values, other)
        }),
    decreases values.len(),
{
    let w = with_value(values, name, value);
    if values.len() == 0 {
        assert(w.drop_first() =~= Seq::empty());
        assert(lookup(w.drop_first(), other) is None);
    } else if text::eq_ci(values[0].name, name) {
        assert(w.drop_first() =~= values.drop_first());
    } else {
        assert(w.drop_first() =~= with_value(values.drop_first(), name, value));
        lemma_lookup_with_value(values.drop_first(), name, value, other);
    }
}

proof fn lemma_lookup_without_value(values: Seq<EntryView>, name: Seq<char>, other: Seq<char>)
    ensures
        lookup(without_value(values, name), other) == (if text::eq_ci(name, other) {
            None
        } else {
            lookup(values, other)
        }),
    decreases values.len(),
{
    if values.len() > 0 {
        lemma_lookup_without_value(values.drop_first(), name, other);
        let w = without_value(values, name);
        if !text::eq_ci(values[0].name, name) {
            assert(w.drop_first() =~= without_value(values.drop_first(), name));
        }
    }
}

proof fn lemma_values_at_with_values(
    r: Seq<KeyView>,
    root: Hkey,
    path: Seq<char>,
    values: Seq<EntryView>,
    other_root: Hkey,
    other: Seq<char>,
)
    ensures
        values_at(with_values(r, root, path, values), other_root, other) == (if root == other_root
            && text::eq_ci(path, other) && has_key(r, root, path) {
            Some(values)
        } else {
            values_at(r, other_root, other)
        }),
    decreases r.len(),
{
    if r.len() > 0 {
        let w = with_values(r, root, path, values);
        if is_at(r[0], root, path) {
            assert(w.drop_first() =~= r.drop_first());
        } else {
            assert(w.drop_first() =~= with_values(r.drop_first(), root, path, values));
            lemma_values_at_with_values(r.drop_first(), root, path, values, other_root, other);
        }
    }
}

proof fn lemma_values_at_push(r: Seq<KeyView>, k: KeyView, root: Hkey, path: Seq<char>)
    ensures
        values_at(r.push(k), root, path) == (if has_key(r, root, path) {
            values_at(r, root, path)
        } else if is_at(k, root, path) {
            Some(k.values)
        } else {
            None
        }),
    decreases r.len(),
{
    let w = r.push(k);
    if r.len() == 0 {
        assert(w.drop_first() =~= Seq::empty());
        assert(values_at(w.drop_first(), root, path) is None);
    } else {
        assert(w.drop_first() =~= r.drop_first().push(k));
        assert(w[0] == r[0]);
        lemma_values_at_push(r.drop_first(), k, root, path);
    }
}

/// Paths equal up to case stand below the same paths.
pub proof fn lemma_is_below_ci(p: Seq<char>, q: Seq<char>, base: Seq<char>)
    requires
        text::eq_ci(p, q),
    ensures
        is_below(p, base) == is_below(q, base),
{
    let lp = crate::text::ascii_lower(p);
    let lq = crate::text::ascii_lower(q);
    assert(lp.len() == p.len());
    assert(lq.len() == q.len());
    let n = base.len() as int;
    if n < p.len() {
        assert(lp[n] == lq[n]);
        crate::text::lemma_lower_backslash(p[n]);
        crate::text::lemma_lower_backslash(q[n]);
        let a = crate::text::ascii_lower(p.subrange(0, n));
        let b = crate::text::ascii_lower(q.subrange(0, n));
        assert forall|i: int| 0 <= i < n implies a[i] == b[i] by {
            assert(a[i] == lp[i]);
            assert(b[i] == lq[i]);
        }
        assert(a =~= b);
    }
}

proof fn lemma_values_at_without_tree(
    r: Seq<KeyView>,
    root: Hkey,
    path: Seq<char>,
    other_root: Hkey,
    other: Seq<char>,
)
    ensures
        values_at(without_tree(r, root, path), other_root, other) == (if root == other_root && (
        text::eq_ci(path, other) || is_below(other, path)) {
            None
        } else {
            values_at(r, other_root, other)
        }),
    decreases r.len(),
{
    if r.len() > 0 {
        let k = r.last();
        let rest = r.drop_last();
        lemma_values_at_without_tree(rest, root, path, other_root, other);
        assert(rest.push(k) =~= r);
        lemma_values_at_push(rest, k, other_root, other);
        let w = without_tree(rest, root, path);
        lemma_values_at_push(w, k, other_root, other);
        if text::eq_ci(k.path, other) {
            lemma_is_below_ci(k.path, other, path);
        }
    }
}

/// A value that was set is the one that is read, under its name in any case; no
/// other value of any key changes.
pub proof fn law_read_after_write(
    r: Seq<KeyView>,
    root: Hkey,
    path: Seq<char>,
    name: Seq<char>,
    value: ValueView,
    other_root: Hkey,
    other_path: Seq<char>,
    other_name: Seq<char>,
)
    requires
        has_key(r, root, path),
    ensures
        value_at(
            apply(r, OpView::SetValue { root, path, name, value }),
            other_root,
            other_path,
            other_name,
        ) == (if root == other_root && text::eq_ci(path, other_path) && text::eq_ci(name, other_name) {
            Some(value)
        } else {
            value_at(r, other_root, other_path, other_name)
        }),
{
    let values = values_at(r, root, path).unwrap();
    lemma_values_at_with_values(
        r,
        root,
        path,
        with_value(values, name, value),
        other_root,
        other_path,
    );
    lemma_lookup_with_value(values, name, value, other_name);
    lemma_values_at_ci(r, root, path, other_path);
}

/// Places equal up to case hold the same key.
pub proof fn lemma_values_at_ci(r: Seq<KeyView>, root: Hkey, path: Seq<char>, other: Seq<char>)
    ensures
        text::eq_ci(path, other) ==> values_at(r, root, path) == values_at(r, root, other),
    decreases r.len(),
{
    if r.len() > 0 {
        lemma_values_at_ci(r.drop_first(), root, path, other);
    }
}

/// A value that was deleted is not read again; no other value of any key
/// changes.
pub proof fn law_deleted_value_is_gone(
    r: Seq<KeyView>,
    root: Hkey,
    path: Seq<char>,
    name: Seq<char>,
    other_root: Hkey,
    other_path: Seq<char>,
    other_name: Seq<char>,
)
    ensures
        value_at(
            apply(r, OpView::DeleteValue { root, path, name }),
            other_root,
            other_path,
            other_name,
        ) == (if root == other_root && text::eq_ci(path, other_path) && text::eq_ci(name, other_name) {
            None
        } else {
            value_at(r, other_root, other_path, other_name)
        }),
{
    lemma_values_at_ci(r, root, path, other_path);
    match values_at(r, root, path) {
        Some(values) => {
            lemma_values_at_with_values(
                r,
                root,
                path,
                without_value(values, name),
                other_root,
                other_path,
            );
            lemma_lookup_without_value(values, name, other_name);
        },
        None => {},
    }
}

/// Deleting a tree removes its key and every key below it, and no other.
pub proof fn law_deleted_tree_is_gone(
    r: Seq<KeyView>,
    root: Hkey,
    path: Seq<char>,
    other_root: Hkey,
    other: Seq<char>,
)
    ensures
        values_at(apply(r, OpView::DeleteTree { root, path }), other_root, other) == (if root
            == other_root && (text::eq_ci(path, other) || is_below(other, path)) {
            None
        } else {
            values_at(r, other_root, other)
        }),
{
    lemma_values_at_without_tree(r, root, path, other_root, other);
}

/// A created key is there, with no values if it is new; no other key changes.
pub proof fn law_created_key_exists(
    r: Seq<KeyView>,
    root: Hkey,
    path: Seq<char>,
    other_root: Hkey,
    other: Seq<char>,
)
    ensures
        has_key(apply(r, OpView::CreateKey { root, path }), root, path),
        values_at(apply(r, OpView::CreateKey { root, path }), other_root, other) == (if root
            == other_root && text::eq_ci(path, other) && !has_key(r, root, path) {
            Some(Seq::empty())
        } else {
            values_at(r, other_root, other)
        }),
{
    let k = KeyView { root, path, values: Seq::empty() };
    lemma_values_at_push(r, k, root, path);
    lemma_values_at_push(r, k, other_root, other);
    lemma_values_at_ci(r, root, path, other);
}

/// Setting or deleting a value leaves every key in place.
pub proof fn law_value_changes_keep_keys(
    r: Seq<KeyView>,
    op: OpView,
    other_root: Hkey,
    other: Seq<char>,
)
    requires
        op is SetValue || op is DeleteValue,
    ensures
        has_key(apply(r, op), other_root, other) == has_key(r, other_root, other),
{
    match op {
        OpView::SetValue { root, path, name, value } => {
            match values_at(r, root, path) {
                Some(values) => {
                    lemma_values_at_with_values(
                        r,
                        root,
                        path,
                        with_value(values, name, value),
                        other_root,
                        other,
                    );
                    lemma_values_at_ci(r, root, path, other);
                },
                None => {},
            }
        },
        OpView::DeleteValue { root, path, name } => {
            match values_at(r, root, path) {
                Some(values) => {
                    lemma_values_at_with_values(
                        r,
                        root,
                        path,
                        without_value(values, name),
                        other_root,
                        other,
                    );
                    lemma_values_at_ci(r, root, path, other);
                },
                None => {},
            }
        },
        _ => {},
    }
}

/// Whether a change concerns a value: sets or deletes it, or deletes its key.
pub open spec fn touches(op: OpView, root: Hkey, path: Seq<char>, name: Seq<char>) -> bool {
    match op {
        OpView::CreateKey { .. } => false,
        OpView::SetValue { root: a, path: p, name: n, .. } => a == root && text::eq_ci(p, path)
            && text::eq_ci(n, name),
        OpView::DeleteValue { root: a, path: p, name: n } => a == root && text::eq_ci(p, path)
            && text::eq_ci(n, name),
        OpView::DeleteTree { root: a, path: p } => a == root && (text::eq_ci(p, path) || is_below(
            path,
            p,
        )),
    }
}

/// Whether none of some changes concerns a value.
pub open spec fn untouched(ops: Seq<OpView>, root: Hkey, path: Seq<char>, name: Seq<char>) -> bool {
    forall|i: int| 0 <= i < ops.len() ==> !touches(#[trigger] ops[i], root, path, name)
}

/// What none of some changes concerns is the same after them.
pub proof fn law_untouched_value_stays(
    r: Seq<KeyView>,
    ops: Seq<OpView>,
    root: Hkey,
    path: Seq<char>,
    name: Seq<char>,
)
    requires
        untouched(ops, root, path, name),
    ensures
        value_at(apply_all(r, ops), root, path, name) == value_at(r, root, path, name),
    decreases ops.len(),
{
    if ops.len() > 0 {
        let t = ops.drop_last();
        assert forall|i: int| 0 <= i < t.len() implies !touches(
            #[trigger] t[i],
            root,
            path,
            name,
        ) by {
            assert(t[i] == ops[i]);
        }
        law_untouched_value_stays(r, t, root, path, name);
        let r1 = apply_all(r, t);
        assert(!touches(ops[ops.len() - 1], root, path, name));
        match ops.last() {
            OpView::CreateKey { root: a, path: p } => {
                law_created_key_exists(r1, a, p, root, path);
                lemma_values_at_ci(r1, a, p, path);
            },
            OpView::SetValue { root: a, path: p, name: n, value } => {
                if has_key(r1, a, p) {
                    law_read_after_write(r1, a, p, n, value, root, path, name);
                }
            },
            OpView::DeleteValue { root: a, path: p, name: n } => {
                law_deleted_value_is_gone(r1, a, p, n, root, path, name);
            },
            OpView::DeleteTree { root: a, path: p } => {
                law_deleted_tree_is_gone(r1, a, p, root, path);
            },
        }
    }
}

/// Changes that each do not concern a value do not concern it together.
pub proof fn lemma_untouched_concat(
    a: Seq<OpView>,
    b: Seq<OpView>,
    root: Hkey,
    path: Seq<char>,
    name: Seq<char>,
)
    requires
        untouched(a, root, path, name),
        untouched(b, root, path, name),
    ensures
        untouched(a + b, root, path, name),
{
    let c = a + b;
    assert forall|i: int| 0 <= i < c.len() implies !touches(#[trigger] c[i], root, path, name) by {
        if i < a.len() {
            assert(c[i] == a[i]);
        } else {
            assert(c[i] == b[i - a.len()]);
        }
    }
}

/// Whether none of some changes deletes a key.
pub open spec fn keeps_keys(ops: Seq<OpView>) -> bool {
    forall|i: int| 0 <= i < ops.len() ==> !((#[trigger] ops[i]) is DeleteTree)
}

/// Changes that each delete no key delete none together.
pub proof fn lemma_keeps_keys_concat(a: Seq<OpView>, b: Seq<OpView>)
    requires
        keeps_keys(a),
        keeps_keys(b),
    ensures
        keeps_keys(a + b),
{
    let c = a + b;
    assert forall|i: int| 0 <= i < c.len() implies !((#[trigger] c[i]) is DeleteTree) by {
        if i < a.len() {
            assert(c[i] == a[i]);
        } else {
            assert(c[i] == b[i - a.len()]);
        }
    }
}

/// A key stays through changes that delete no key.
pub proof fn law_keys_stay(r: Seq<KeyView>, ops: Seq<OpView>, root: Hkey, path: Seq<char>)
    requires
        keeps_keys(ops),
        has_key(r, root, path),
    ensures
        has_key(apply_all(r, ops), root, path),
    decreases ops.len(),
{
    if ops.len() > 0 {
        let t = ops.drop_last();
        assert forall|i: int| 0 <= i < t.len() implies !((#[trigger] t[i]) is DeleteTree) by {
            assert(t[i] == ops[i]);
        }
        law_keys_stay(r, t, root, path);
        let r1 = apply_all(r, t);
        assert(!(ops[ops.len() - 1] is DeleteTree));
        match ops.last() {
            OpView::CreateKey { root: a, path: p } => {
                law_created_key_exists(r1, a, p, root, path);
            },
            OpView::DeleteTree { .. } => {},
            op => {
                law_value_changes_keep_keys(r1, op, root, path);
            },
        }
    }
}

/// A key that is not there does not come to be by changes that create no key at
/// its place.
pub proof fn law_absent_key_stays_absent(r: Seq<KeyView>, ops: Seq<OpView>, root: Hkey, path: Seq<char>)
    requires
        !has_key(r, root, path),
        forall|i: int|
            0 <= i < ops.len() ==> ((#[trigger] ops[i]) matches OpView::CreateKey {
                root: a,
                path: p,
            } ==> !(a == root && text::eq_ci(p, path))),
    ensures
        !has_key(apply_all(r, ops), root, path),
    decreases ops.len(),
{
    if ops.len() > 0 {
        let t = ops.drop_last();
        assert forall|i: int| 0 <= i < t.len() implies ((
        #[trigger] t[i]) matches OpView::CreateKey { root: a, path: p } ==> !(a == root
            && text::eq_ci(p, path))) by {
            assert(t[i] == ops[i]);
        }
        law_absent_key_stays_absent(r, t, root, path);
        let r1 = apply_all(r, t);
        let last = ops[ops.len() - 1];
        match last {
            OpView::CreateKey { root: a, path: p } => {
                law_created_key_exists(r1, a, p, root, path);
            },
            OpView::DeleteTree { root: a, path: p } => {
                law_deleted_tree_is_gone(r1, a, p, root, path);
            },
            op => {
                law_value_changes_keep_keys(r1, op, root, path);
            },
        }
    }
}

// ---------------------------------------------------------------------------
// Key handles
// ---------------------------------------------------------------------------
/// A key of a registry, opened for reading.
#[derive(Clone, Debug)]
pub struct RegKey<'a> {
    pub registry: &'a Registry,
    pub root: Hkey,
    pub path: String,
}

impl<'a> RegKey<'a> {
    /// The value of a given name in this key.
    pub open spec fn value(&self, name: Seq<char>) -> Option<ValueView> {
        value_at(self.registry@, self.root, self.path@, name)
    }

    /// The value of a given name in a key directly below this one.
    pub open spec fn sub_value(&self, sub: Seq<char>, name: Seq<char>) -> Option<ValueView> {
        value_at(self.registry@, self.root, join(self.path@, sub), name)
    }

    /// Whether there is a key of a given name directly below this one.
    pub open spec fn has_sub(&self, sub: Seq<char>) -> bool {
        has_key(self.registry@, self.root, join(self.path@, sub))
    }

    /// Opens the key at a place; `None` when there is none.
    pub fn open(registry: &'a Registry, root: Hkey, path: &str) -> (r: Option<RegKey<'a>>)
        ensures
            r is Some == has_key(registry@, root, path@),
            r matches Some(k) ==> k.registry == registry && k.root == root && k.path@ == path@,
    {
        if registry.holds_key(root, path) {
            Some(RegKey { registry, root, path: path.to_owned() })
        } else {
            None
        }
    }

    /// Opens a key directly below this one; `None` when there is none.
    pub fn open_sub_key(&self, name: &str) -> (r: Option<RegKey<'a>>)
        ensures
            r is Some == self.has_sub(name@),
            r matches Some(k) ==> k.registry == self.registry && k.root == self.root && k.path@
                == join(self.path@, name@),
    {
        let path = join_path(self.path.as_str(), name);
        RegKey::open(self.registry, self.root, path.as_str())
    }

    /// The value of a given name.
    pub fn read_value(&self, name: &str) -> (r: Option<&'a RegValue>)
        ensures
            r is Some == self.value(name@) is Some,
            r matches Some(v) ==> self.value(name@) == Some(v@),
    {
        self.registry.get(self.root, self.path.as_str(), name)
    }

    /// The text of a value of type `Sz`.
    pub fn read_sz(&self, name: &str) -> (r: Option<String>)
        ensures
            r is Some == as_sz(self.value(name@)) is Some,
            r matches Some(s) ==> as_sz(self.value(name@)) == Some(s@),
    {
        self.registry.get_sz(self.root, self.path.as_str(), name)
    }

    /// The texts of a value of type `MultiSz`.
    pub fn read_multi_value(&self, name: &str) -> (r: Option<Vec<String>>)
        ensures
            r is Some == as_multi(self.value(name@)) is Some,
            r matches Some(v) ==> as_multi(self.value(name@)) == Some(text::texts(v@)),
    {
        match self.read_value(name) {
            Some(RegValue::MultiSz(v)) => Some(copy_texts(v.as_slice())),
            _ => None,
        }
    }

    /// The number of a value of type `Dword`.
    pub fn read_dword(&self, name: &str) -> (r: Option<u32>)
        ensures
            r == as_dword(self.value(name@)),
    {
        match self.read_value(name) {
            Some(RegValue::Dword(n)) => Some(*n),
            _ => None,
        }
    }

    /// The names of the keys directly below this one.
    pub fn enum_sub_keys(&self) -> (r: Vec<String>)
        ensures
            text::texts(r@) == children(self.registry@, self.root, self.path@),
    {
        self.registry.child_names(self.root, self.path.as_str())
    }
}

/// A key's path followed by the name of a key below it.
pub fn join_path(path: &str, name: &str) -> (r: String)
    ensures
        r@ == join(path@, name@),
{
    concat3(path, "\\", name)
}

} // verus!
