//! What the library does when it is loaded, registered, asked for a class,
//! unregistered and unloaded.

use vstd::prelude::*;
use crate::guid;
use crate::guid::GUID;
use crate::host::installation::clsid_entries;
use crate::host::installation::clsid_entries::{
    registration_order, unregistration_order, ClsidEntry, THREADING_MODEL_BOTH,
    THREADING_MODEL_VALUE,
};
use crate::hresult::{
    CLASS_E_CLASSNOTAVAILABLE, E_FAIL, E_POINTER, HRESULT, S_FALSE, S_OK,
};
use crate::instance::ref_count;
use crate::object::vx_reg_props;
use crate::object::vx_reg_props::own_clsid;
use crate::registry;
use crate::registry::{Hkey, KeyView, OpView, Registry};
use crate::text;
use crate::text::utf16_units;

verus! {

/// The reason for a call at load time: a process loads the library.
pub const DLL_PROCESS_ATTACH: u32 = 1;

// ---------------------------------------------------------------------------
// Text in the registry
// ---------------------------------------------------------------------------
/// The bytes of code units, each the low byte first.
pub open spec fn unit_bytes(units: Seq<u16>) -> Seq<u8>
    decreases units.len(),
{
    if units.len() == 0 {
        Seq::empty()
    } else {
        unit_bytes(units.drop_last()) + seq![
            (units.last() % 0x100) as u8,
            (units.last() / 0x100) as u8,
        ]
    }
}

/// The bytes of a text as the registry holds it: UTF-16, the low byte first, with
/// a zero at the end.
pub open spec fn registry_bytes(s: Seq<char>) -> Seq<u8> {
    unit_bytes(text::utf16(s)) + seq![0u8, 0u8]
}

/// The bytes of a text as the registry holds it.
pub fn to_registry_bytes(s: &str) -> (r: Vec<u8>)
    ensures
        r@ == registry_bytes(s@),
{
    let units = utf16_units(s);
    let mut out: Vec<u8> = Vec::new();
    let mut i: usize = 0;
    assert(units@.take(0) =~= Seq::empty());
    while i < units.len()
        invariant
            i <= units@.len(),
            out@ == unit_bytes(units@.take(i as int)),
        decreases units@.len() - i,
    {
        let u: u16 = units[i];
        let ghost before = out@;
        assert(units@.take(i + 1).drop_last() =~= units@.take(i as int));
        out.push((u % 0x100) as u8);
        out.push((u / 0x100) as u8);
        assert(out@ =~= before + seq![(u % 0x100) as u8, (u / 0x100) as u8]);
        i += 1;
    }
    assert(units@.take(i as int) =~= units@);
    out.push(0);
    out.push(0);
    assert(out@ =~= registry_bytes(s@));
    out
}

/// Two bytes for each code unit, and two for the zero at the end.
pub proof fn law_registry_bytes_len(s: Seq<char>)
    ensures
        registry_bytes(s).len() == 2 * text::utf16(s).len() + 2,
{
    lemma_unit_bytes_len(text::utf16(s));
}

proof fn lemma_unit_bytes_len(units: Seq<u16>)
    ensures
        unit_bytes(units).len() == 2 * units.len(),
    decreases units.len(),
{
    if units.len() > 0 {
        lemma_unit_bytes_len(units.drop_last());
    }
}

// ---------------------------------------------------------------------------
// Loading and unloading
// ---------------------------------------------------------------------------
/// Remembers the library's handle when a process loads it; every call succeeds.
#[allow(non_snake_case)]
pub fn DllMain(module: usize, reason: u32, handle: &mut usize) -> (r: bool)
    ensures
        r,
        *final(handle) == (if reason == DLL_PROCESS_ATTACH {
            module
        } else {
            *old(handle)
        }),
{
    if reason == DLL_PROCESS_ATTACH {
        *handle = module;
    }
    true
}

/// Whether the library may be unloaded: no object is alive, and no lock is held.
#[allow(non_snake_case)]
pub fn DllCanUnloadNow(instances: &u32, locks: &u32) -> (hr: HRESULT)
    ensures
        hr == (if *instances == 0 && *locks == 0 {
            S_OK
        } else {
            S_FALSE
        }),
{
    if ref_count::is_zero(instances) && ref_count::is_zero(locks) {
        S_OK
    } else {
        S_FALSE
    }
}

/// The class whose objects are asked for, where all three pointers are given and
/// the class is one of the two.
#[allow(non_snake_case)]
pub fn DllGetClassObject(rclsid: Option<&GUID>, has_riid: bool, has_place: bool) -> (r: Result<
    GUID,
    HRESULT,
>)
    ensures
        match r {
            Ok(g) => has_riid && has_place && rclsid == Some(&g) && vx_reg_props::is_own_clsid(g),
            Err(hr) => if rclsid is None || !has_riid || !has_place {
                hr == E_POINTER
            } else {
                hr == CLASS_E_CLASSNOTAVAILABLE && !vx_reg_props::is_own_clsid(*rclsid.unwrap())
            },
        },
{
    match rclsid {
        Some(clsid) => {
            if !has_riid || !has_place {
                return Err(E_POINTER);
            }
            if own_clsid(clsid) {
                Ok(*clsid)
            } else {
                Err(CLASS_E_CLASSNOTAVAILABLE)
            }
        },
        None => Err(E_POINTER),
    }
}

// ---------------------------------------------------------------------------
// Registration
// ---------------------------------------------------------------------------
/// The changes that register a class, given its identifier as text.
pub open spec fn register_ops(clsid_str: Seq<char>, dll_path: Seq<char>) -> Seq<OpView> {
    let key = clsid_entries::server_key(clsid_str);
    seq![
        OpView::CreateKey { root: Hkey::ClassesRoot, path: key },
        registry::op_set_sz(Hkey::ClassesRoot, key, Seq::empty(), dll_path),
        registry::op_set_sz(
            Hkey::ClassesRoot,
            key,
            THREADING_MODEL_VALUE@,
            THREADING_MODEL_BOTH@,
        ),
    ]
}

/// The changes that unregister a class: the key that names the library goes
/// first, then that of the class.
pub open spec fn unregister_ops(clsid_str: Seq<char>) -> Seq<OpView> {
    seq![
        OpView::DeleteTree {
            root: Hkey::ClassesRoot,
            path: clsid_entries::server_key(clsid_str),
        },
        OpView::DeleteTree {
            root: Hkey::ClassesRoot,
            path: clsid_entries::class_key(clsid_str),
        },
    ]
}

/// The changes that unregister some classes, in order.
pub open spec fn unregister_all(list: Seq<GUID>) -> Seq<OpView>
    decreases list.len(),
{
    if list.len() == 0 {
        Seq::empty()
    } else {
        unregister_all(list.drop_last()) + unregister_ops(guid::guid_text(list.last()))
    }
}

/// Registers a class.
pub fn register_com_class(registry: &mut Registry, entry: &ClsidEntry, dll_path: &str)
    ensures
        registry::advanced(
            *old(registry),
            *final(registry),
            register_ops(entry.clsid_str@, dll_path@),
        ),
{
    let ghost r0 = *registry;
    let ghost ops = register_ops(entry.clsid_str@, dll_path@);
    let path = entry.inproc_server_path();
    registry.create_key(Hkey::ClassesRoot, path.as_str());
    let ghost r1 = *registry;
    registry.set_sz(Hkey::ClassesRoot, path.as_str(), "", dll_path);
    let ghost r2 = *registry;
    registry.set_sz(
        Hkey::ClassesRoot,
        path.as_str(),
        THREADING_MODEL_VALUE,
        THREADING_MODEL_BOTH,
    );
    proof {
        reveal_strlit("");
        assert(""@ =~= Seq::<char>::empty());
        registry::lemma_advanced_trans(r0, r1, r2, seq![ops[0]], seq![ops[1]]);
        registry::lemma_advanced_trans(
            r0,
            r2,
            *registry,
            seq![ops[0]] + seq![ops[1]],
            seq![ops[2]],
        );
        assert(seq![ops[0]] + seq![ops[1]] + seq![ops[2]] =~= ops);
    }
}

/// Unregisters a class.
pub fn unregister_com_class(registry: &mut Registry, entry: &ClsidEntry)
    ensures
        registry::advanced(
            *old(registry),
            *final(registry),
            unregister_ops(entry.clsid_str@),
        ),
{
    let ghost r0 = *registry;
    let ghost ops = unregister_ops(entry.clsid_str@);
    let server = entry.inproc_server_path();
    let class = entry.clsid_key_path();
    registry.delete_tree(Hkey::ClassesRoot, server.as_str());
    let ghost r1 = *registry;
    registry.delete_tree(Hkey::ClassesRoot, class.as_str());
    proof {
        registry::lemma_advanced_trans(r0, r1, *registry, seq![ops[0]], seq![ops[1]]);
        assert(seq![ops[0]] + seq![ops[1]] =~= ops);
    }
}

/// Unregisters the first few of some entries, in order.
fn unregister_entries(registry: &mut Registry, list: &[ClsidEntry], count: usize)
    requires
        count <= list@.len(),
        clsid_entries::all_consistent(list@),
    ensures
        registry::advanced(
            *old(registry),
            *final(registry),
            unregister_all(clsid_entries::classes(list@).take(count as int)),
        ),
{
    let ghost r0 = *registry;
    let ghost all = clsid_entries::classes(list@);
    let mut i: usize = 0;
    proof {
        registry::lemma_advanced_refl(r0);
        assert(all.take(0) =~= Seq::empty());
    }
    while i < count
        invariant
            i <= count,
            count <= list@.len(),
            clsid_entries::all_consistent(list@),
            all == clsid_entries::classes(list@),
            registry::advanced(r0, *registry, unregister_all(all.take(i as int))),
        decreases count - i,
    {
        let ghost rb = *registry;
        let ghost t = all.take(i + 1);
        assert(t.drop_last() =~= all.take(i as int));
        assert(t.last() == list@[i as int].clsid);
        assert(list@[i as int].is_consistent());
        unregister_com_class(registry, &list[i]);
        proof {
            registry::lemma_advanced_trans(
                r0,
                rb,
                *registry,
                unregister_all(all.take(i as int)),
                unregister_ops(guid::guid_text(t.last())),
            );
        }
        i += 1;
    }
}

/// What to do next to register the library.
#[derive(Clone, Copy, Debug, PartialEq, Eq, Structural)]
pub enum RegisterStep {
    /// Register the class at this position in the order of registration.
    Register(usize),
    /// Unregister this many classes, the first ones in that order, and give up.
    Undo { count: usize, hr: HRESULT },
    /// There is nothing left to do.
    Done(HRESULT),
}

/// Where the first failure among some outcomes stands.
pub open spec fn first_failure(outcomes: Seq<bool>) -> Option<int>
    decreases outcomes.len(),
{
    if outcomes.len() == 0 {
        None
    } else {
        match first_failure(outcomes.drop_last()) {
            Some(i) => Some(i),
            None => if outcomes.last() {
                None
            } else {
                Some(outcomes.len() - 1)
            },
        }
    }
}

/// What to do next to register the library, given its path and how the
/// registration of each class so far went.
#[allow(non_snake_case)]
pub fn DllRegisterServer(dll_path: Option<&str>, outcomes: &[bool]) -> (r: RegisterStep)
    requires
        outcomes@.len() <= clsid_entries::registered_order().len(),
    ensures
        r == (match (dll_path, first_failure(outcomes@)) {
            (None, _) => RegisterStep::Done(E_FAIL),
            (Some(_), Some(i)) => RegisterStep::Undo { count: (i + 1) as usize, hr: E_FAIL },
            (Some(_), None) => if outcomes@.len() < clsid_entries::registered_order().len() {
                RegisterStep::Register(outcomes@.len() as usize)
            } else {
                RegisterStep::Done(S_OK)
            },
        }),
{
    if dll_path.is_none() {
        return RegisterStep::Done(E_FAIL);
    }
    let n = outcomes.len();
    let mut i: usize = 0;
    assert(outcomes@.take(0) =~= Seq::empty());
    while i < n
        invariant
            i <= n,
            n == outcomes@.len(),
            n <= 2,
            dll_path is Some,
            first_failure(outcomes@.take(i as int)) is None,
        decreases n - i,
    {
        let ghost t = outcomes@.take(i + 1);
        assert(t.drop_last() =~= outcomes@.take(i as int));
        assert(t.last() == outcomes@[i as int]);
        if !outcomes[i] {
            proof {
                lemma_failure_stays(outcomes@, i + 1);
            }
            return RegisterStep::Undo { count: i + 1, hr: E_FAIL };
        }
        i += 1;
    }
    assert(outcomes@.take(n as int) =~= outcomes@);
    if n < 2 {
        RegisterStep::Register(n)
    } else {
        RegisterStep::Done(S_OK)
    }
}

proof fn lemma_failure_stays(outcomes: Seq<bool>, n: int)
    requires
        0 <= n <= outcomes.len(),
        first_failure(outcomes.take(n)) is Some,
    ensures
        first_failure(outcomes) == first_failure(outcomes.take(n)),
    decreases outcomes.len(),
{
    if n == outcomes.len() {
        assert(outcomes.take(n) =~= outcomes);
    } else {
        assert(outcomes.drop_last().take(n) =~= outcomes.take(n));
        lemma_failure_stays(outcomes.drop_last(), n);
    }
}

/// Registers the class at a position in the order of registration.
pub fn register_class_at(registry: &mut Registry, position: usize, dll_path: &str)
    requires
        position < clsid_entries::registered_order().len(),
    ensures
        registry::advanced(
            *old(registry),
            *final(registry),
            register_ops(
                guid::guid_text(clsid_entries::registered_order()[position as int]),
                dll_path@,
            ),
        ),
{
    let entries = registration_order();
    assert(clsid_entries::classes(entries@)[position as int] == entries@[position as int].clsid);
    assert(entries@[position as int].is_consistent());
    register_com_class(registry, &entries[position], dll_path);
}

/// Unregisters the first classes in the order of registration.
pub fn undo_registration(registry: &mut Registry, count: usize)
    requires
        count <= clsid_entries::registered_order().len(),
    ensures
        registry::advanced(
            *old(registry),
            *final(registry),
            unregister_all(clsid_entries::registered_order().take(count as int)),
        ),
{
    let entries = registration_order();
    assert(clsid_entries::classes(entries@).len() == entries@.len());
    unregister_entries(registry, entries.as_slice(), count);
}

/// Unregisters both classes.
#[allow(non_snake_case)]
pub fn DllUnregisterServer(registry: &mut Registry) -> (hr: HRESULT)
    ensures
        hr == S_OK,
        registry::advanced(
            *old(registry),
            *final(registry),
            unregister_all(clsid_entries::unregistered_order()),
        ),
{
    let entries = unregistration_order();
    assert(clsid_entries::classes(entries@).len() == entries@.len());
    assert(clsid_entries::unregistered_order().take(2)
        =~= clsid_entries::unregistered_order());
    unregister_entries(registry, entries.as_slice(), 2);
    S_OK
}

// ---------------------------------------------------------------------------
// Laws
// ---------------------------------------------------------------------------
proof fn lemma_two(r: Seq<KeyView>, ops: Seq<OpView>)
    requires
        ops.len() == 2,
    ensures
        registry::apply_all(r, ops) == registry::apply(registry::apply(r, ops[0]), ops[1]),
{
    assert(ops.drop_last() =~= seq![ops[0]]);
    assert(ops.drop_last().drop_last() =~= Seq::<OpView>::empty());
    assert(registry::apply_all(r, ops.drop_last().drop_last()) == r);
    assert(registry::apply_all(r, ops.drop_last()) == registry::apply(r, ops[0]));
}

/// A class that is registered names the library and its threading model.
pub proof fn law_registered_class(r: Seq<KeyView>, clsid_str: Seq<char>, dll_path: Seq<char>)
    ensures
        ({
            let after = registry::apply_all(r, register_ops(clsid_str, dll_path));
            let key = clsid_entries::server_key(clsid_str);
            &&& registry::value_at(after, Hkey::ClassesRoot, key, Seq::empty()) == Some(
                registry::ValueView::Sz(dll_path),
            )
            &&& registry::value_at(after, Hkey::ClassesRoot, key, THREADING_MODEL_VALUE@) == Some(
                registry::ValueView::Sz(THREADING_MODEL_BOTH@),
            )
        }),
{
    let h = Hkey::ClassesRoot;
    let ops = register_ops(clsid_str, dll_path);
    let key = clsid_entries::server_key(clsid_str);
    let none = Seq::<char>::empty();
    let head = ops.drop_last();
    lemma_two(r, head);
    let r1 = registry::apply(r, ops[0]);
    let r2 = registry::apply(r1, ops[1]);
    let r3 = registry::apply(r2, ops[2]);
    assert(head =~= seq![ops[0], ops[1]]);
    assert(registry::apply_all(r, ops) == r3);
    registry::law_created_key_exists(r, h, key, h, key);
    registry::law_value_changes_keep_keys(r1, ops[1], h, key);
    let path_value = registry::ValueView::Sz(dll_path);
    let model = registry::ValueView::Sz(THREADING_MODEL_BOTH@);
    registry::law_read_after_write(r1, h, key, none, path_value, h, key, none);
    registry::law_read_after_write(r2, h, key, THREADING_MODEL_VALUE@, model, h, key, none);
    registry::law_read_after_write(
        r2,
        h,
        key,
        THREADING_MODEL_VALUE@,
        model,
        h,
        key,
        THREADING_MODEL_VALUE@,
    );
    reveal_strlit("ThreadingModel");
    assert(text::ascii_lower(THREADING_MODEL_VALUE@).len() != text::ascii_lower(none).len());
}

/// Once some classes are unregistered none of their keys is left.
pub proof fn law_unregistered_classes_are_gone(r: Seq<KeyView>, list: Seq<GUID>, i: int)
    requires
        0 <= i < list.len(),
    ensures
        ({
            let after = registry::apply_all(r, unregister_all(list));
            let key = clsid_entries::class_key(guid::guid_text(list[i]));
            &&& !registry::has_key(after, Hkey::ClassesRoot, key)
            &&& !registry::has_key(
                after,
                Hkey::ClassesRoot,
                clsid_entries::server_key(guid::guid_text(list[i])),
            )
        }),
    decreases list.len(),
{
    let h = Hkey::ClassesRoot;
    let front = list.drop_last();
    let last = guid::guid_text(list.last());
    let ops = unregister_ops(last);
    let key = clsid_entries::class_key(guid::guid_text(list[i]));
    let server = clsid_entries::server_key(guid::guid_text(list[i]));
    let r1 = registry::apply_all(r, unregister_all(front));
    let r2 = registry::apply(r1, ops[0]);
    registry::lemma_apply_all_concat(r, unregister_all(front), ops);
    lemma_two(r1, ops);
    let last_server = clsid_entries::server_key(last);
    let last_class = clsid_entries::class_key(last);
    registry::law_deleted_tree_is_gone(r1, h, last_server, h, key);
    registry::law_deleted_tree_is_gone(r2, h, last_class, h, key);
    registry::law_deleted_tree_is_gone(r1, h, last_server, h, server);
    registry::law_deleted_tree_is_gone(r2, h, last_class, h, server);
    if i < front.len() {
        law_unregistered_classes_are_gone(r, front, i);
    } else {
        assert(text::eq_ci(last_class, key));
        assert(text::eq_ci(last_server, server));
    }
}

/// A registration that fails at a class leaves nothing of it or of those before
/// it, however far it came.
pub proof fn law_failed_registration_leaves_nothing(
    r: Seq<KeyView>,
    outcomes: Seq<bool>,
    i: int,
)
    requires
        outcomes.len() <= clsid_entries::registered_order().len(),
        first_failure(outcomes) matches Some(k) && 0 <= i <= k,
    ensures
        !registry::has_key(
            registry::apply_all(
                r,
                unregister_all(
                    clsid_entries::registered_order().take(first_failure(outcomes).unwrap() + 1),
                ),
            ),
            Hkey::ClassesRoot,
            clsid_entries::class_key(guid::guid_text(clsid_entries::registered_order()[i])),
        ),
{
    lemma_failure_bound(outcomes);
    let list = clsid_entries::registered_order().take(first_failure(outcomes).unwrap() + 1);
    law_unregistered_classes_are_gone(r, list, i);
    assert(list[i] == clsid_entries::registered_order()[i]);
}

proof fn lemma_failure_bound(outcomes: Seq<bool>)
    ensures
        first_failure(outcomes) matches Some(k) ==> 0 <= k < outcomes.len() && !outcomes[k],
    decreases outcomes.len(),
{
    if outcomes.len() > 0 {
        lemma_failure_bound(outcomes.drop_last());
    }
}

/// The units of a text stand in the registry with their low byte first.
pub proof fn law_unit_bytes(units: Seq<u16>, i: int)
    requires
        0 <= i < units.len(),
    ensures
        unit_bytes(units).len() == 2 * units.len(),
        unit_bytes(units)[2 * i] + 256 * unit_bytes(units)[2 * i + 1] == units[i],
    decreases units.len(),
{
    let t = units.drop_last();
    if i < t.len() {
        law_unit_bytes(t, i);
        assert(t[i] == units[i]);
        assert(unit_bytes(units)[2 * i] == unit_bytes(t)[2 * i]);
        assert(unit_bytes(units)[2 * i + 1] == unit_bytes(t)[2 * i + 1]);
    } else if t.len() > 0 {
        law_unit_bytes(t, 0);
    }
}

/// The first failure is one, and none comes before it; there is none only where nothing
/// failed.
pub proof fn law_first_failure(outcomes: Seq<bool>)
    ensures
        match first_failure(outcomes) {
            Some(i) => 0 <= i < outcomes.len() && !outcomes[i] && forall|j: int|
                0 <= j < i ==> #[trigger] outcomes[j],
            None => forall|j: int| 0 <= j < outcomes.len() ==> #[trigger] outcomes[j],
        },
    decreases outcomes.len(),
{
    if outcomes.len() > 0 {
        let t = outcomes.drop_last();
        law_first_failure(t);
        match first_failure(outcomes) {
            Some(i) => {
                assert forall|j: int| 0 <= j < i implies #[trigger] outcomes[j] by {
                    assert(t[j] == outcomes[j]);
                }
                if i < t.len() {
                    assert(t[i] == outcomes[i]);
                }
            },
            None => {
                assert forall|j: int| 0 <= j < outcomes.len() implies #[trigger] outcomes[j] by {
                    if j < t.len() {
                        assert(t[j] == outcomes[j]);
                    }
                }
            },
        }
    }
}

} // verus!
