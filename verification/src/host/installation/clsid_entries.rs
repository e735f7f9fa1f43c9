//! The registry entries of the two classes.

use vstd::prelude::*;
use crate::guid;
use crate::guid::{format_guid, GUID};
use crate::object::vx_reg_props::{clsid_post_mix, clsid_pre_mix};
use crate::registry;
use crate::registry::join_path;
use crate::text;

verus! {

/// Where the classes are registered.
pub const CLSID_ROOT: &'static str = "CLSID";

/// The key of a class that names the library.
pub const INPROC_SERVER: &'static str = "InprocServer32";

/// The value that holds the threading model.
pub const THREADING_MODEL_VALUE: &'static str = "ThreadingModel";

/// The threading model of both classes.
pub const THREADING_MODEL_BOTH: &'static str = "Both";

/// A class to register.
#[derive(Clone, Debug)]
pub struct ClsidEntry {
    pub clsid: GUID,
    /// The identifier as text.
    pub clsid_str: String,
}

/// The key of a class, given its identifier as text.
pub open spec fn class_key(clsid_str: Seq<char>) -> Seq<char> {
    registry::join(CLSID_ROOT@, clsid_str)
}

/// The key of a class that names the library.
pub open spec fn server_key(clsid_str: Seq<char>) -> Seq<char> {
    registry::join(class_key(clsid_str), INPROC_SERVER@)
}

/// The classes of some entries.
pub open spec fn classes(v: Seq<ClsidEntry>) -> Seq<GUID> {
    v.map_values(|e: ClsidEntry| e.clsid)
}

/// Whether the text of each of some entries is that of its class.
pub open spec fn all_consistent(v: Seq<ClsidEntry>) -> bool {
    forall|i: int| 0 <= i < v.len() ==> (#[trigger] v[i]).is_consistent()
}

impl ClsidEntry {
    /// Whether the text of the entry is that of its class.
    pub open spec fn is_consistent(&self) -> bool {
        self.clsid_str@ == guid::guid_text(self.clsid)
    }

    /// The entry of a class.
    pub fn new(clsid: GUID) -> (e: ClsidEntry)
        ensures
            e.clsid == clsid,
            e.is_consistent(),
    {
        ClsidEntry { clsid, clsid_str: format_guid(&clsid) }
    }

    /// The key of the class.
    pub fn clsid_key_path(&self) -> (r: String)
        ensures
            r@ == class_key(self.clsid_str@),
    {
        join_path(CLSID_ROOT, self.clsid_str.as_str())
    }

    /// The key of the class that names the library.
    pub fn inproc_server_path(&self) -> (r: String)
        ensures
            r@ == server_key(self.clsid_str@),
    {
        let class = self.clsid_key_path();
        join_path(class.as_str(), INPROC_SERVER)
    }

    /// The values to register, each with a label, its name and its contents: the
    /// unnamed one holds the path of the library.
    pub fn registration_entries(&self, dll_path: &str) -> (r: Vec<(&'static str, String, String)>)
        ensures
            r@.len() == 2,
            r@[0].0@ == "Default"@,
            r@[0].1@.len() == 0,
            r@[0].2@ == dll_path@,
            r@[1].0@ == THREADING_MODEL_VALUE@,
            r@[1].1@ == THREADING_MODEL_VALUE@,
            r@[1].2@ == THREADING_MODEL_BOTH@,
    {
        let mut r: Vec<(&'static str, String, String)> = Vec::new();
        r.push(("Default", String::new(), dll_path.to_owned()));
        r.push(
            (
                THREADING_MODEL_VALUE,
                THREADING_MODEL_VALUE.to_owned(),
                THREADING_MODEL_BOTH.to_owned(),
            ),
        );
        r
    }
}

fn two_entries(a: GUID, b: GUID) -> (r: Vec<ClsidEntry>)
    ensures
        classes(r@) == seq![a, b],
        all_consistent(r@),
{
    let mut r: Vec<ClsidEntry> = Vec::new();
    r.push(ClsidEntry::new(a));
    r.push(ClsidEntry::new(b));
    assert(classes(r@) =~= seq![a, b]);
    r
}

/// The entries of both classes.
pub fn all_entries() -> (r: Vec<ClsidEntry>)
    ensures
        classes(r@) == seq![clsid_pre_mix(), clsid_post_mix()],
        all_consistent(r@),
{
    two_entries(clsid_pre_mix(), clsid_post_mix())
}

/// The classes in the order in which they are registered.
pub open spec fn registered_order() -> Seq<GUID> {
    seq![clsid_post_mix(), clsid_pre_mix()]
}

/// The classes in the order in which they are unregistered.
pub open spec fn unregistered_order() -> Seq<GUID> {
    seq![clsid_pre_mix(), clsid_post_mix()]
}

/// The entries in the order in which they are registered.
pub fn registration_order() -> (r: Vec<ClsidEntry>)
    ensures
        classes(r@) == registered_order(),
        all_consistent(r@),
{
    two_entries(clsid_post_mix(), clsid_pre_mix())
}

/// The entries in the order in which they are unregistered.
pub fn unregistration_order() -> (r: Vec<ClsidEntry>)
    ensures
        classes(r@) == unregistered_order(),
        all_consistent(r@),
{
    two_entries(clsid_pre_mix(), clsid_post_mix())
}

/// Classes are unregistered in the opposite order.
pub proof fn law_orders_are_opposite()
    ensures
        unregistered_order() == registered_order().reverse(),
{
    assert(unregistered_order() =~= registered_order().reverse());
}

/// The keys of different classes differ, in whatever case, and neither stands
/// below the other.
pub proof fn law_class_keys_apart(a: GUID, b: GUID)
    requires
        a != b,
    ensures
        !text::eq_ci(class_key(guid::guid_text(a)), class_key(guid::guid_text(b))),
        !registry::is_below(class_key(guid::guid_text(a)), class_key(guid::guid_text(b))),
{
    let x = guid::guid_text(a);
    let y = guid::guid_text(b);
    let p = class_key(x);
    let q = class_key(y);
    guid::law_guid_text_round_trip(a);
    guid::law_guid_text_round_trip(b);
    reveal_strlit("\\");
    let n = CLSID_ROOT@.len() as int + 1;
    if text::eq_ci(p, q) {
        assert(text::ascii_lower(x) =~= text::ascii_lower(y)) by {
            assert(text::ascii_lower(p) == text::ascii_lower(q));
            assert(x =~= p.skip(n));
            assert(y =~= q.skip(n));
            assert forall|i: int| 0 <= i < x.len() implies text::ascii_lower(x)[i]
                == text::ascii_lower(y)[i] by {
                assert(text::ascii_lower(p)[n + i] == text::lower_char(x[i]));
                assert(text::ascii_lower(q)[n + i] == text::lower_char(y[i]));
            }
        }
    }
    assert(p.len() == q.len());
}

} // verus!
