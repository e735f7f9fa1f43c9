//! The stable identity of an endpoint's device.
//!
//! Windows may give an endpoint a new GUID. What stays is read from the
//! endpoint's properties, normalised, and kept in the installation record, so
//! that a record can be matched to the endpoint that its device has now.

use vstd::prelude::*;
use crate::text;
use crate::registry;
use crate::guid;
use crate::guid::parse_guid_string;
use crate::registry::{copy_texts, join_path};
use crate::registry::{EntryView, Hkey, KeyView, OpView, RegEntry, RegKey, RegValue, Registry, ValueView};
use crate::text::{eq, from_chars, holds_text, insert_text, last_position_of, lower, position_of};
use crate::text::{chars_occur_at, replace, strip_chars, sub_chars, to_chars, to_lowercase, trim_text, upper};

verus! {

/// The key below an endpoint that holds its properties.
pub const PROPERTIES_KEY: &'static str = "Properties";

/// Property: the instance identifier of the device.
pub const PKEY_DEVICE_INSTANCE_ID: &'static str = "{b3f8fa53-0004-438e-9003-51a46e139bfc},2";

/// Property: the product name of the device.
pub const PKEY_DEVICE_PRODUCT_NAME: &'static str = "{b3f8fa53-0004-438e-9003-51a46e139bfc},6";

/// Property: the friendly name of the device's interface.
pub const PKEY_DEVICE_INTERFACE_FRIENDLY_NAME: &'static str =
    "{a45c254e-df1c-4efd-8020-67d146a850e0},2";

/// Property: the hardware identifiers of the device.
pub const PKEY_DEVICE_HARDWARE_IDS: &'static str = "{9dad2fed-3c19-4cde-b3c9-1bd56be25698},0";

/// Property: the endpoints that the device had before.
pub const PKEY_ENDPOINT_HISTORY: &'static str = "{4b416b7d-8501-40c1-acfd-97aa9bdc17c8},1";

/// Record value: the instance identifier.
pub const VALUE_DEVICE_INSTANCE_ID: &'static str = "DeviceInstanceId";

/// Record value: the hardware identifiers.
pub const VALUE_DEVICE_HARDWARE_IDS: &'static str = "DeviceHardwareIds";

/// Record value: the product name.
pub const VALUE_DEVICE_PRODUCT_NAME: &'static str = "DeviceProductName";

/// Record value: the endpoints that the device had.
pub const VALUE_ENDPOINT_HISTORY: &'static str = "EndpointHistory";

/// The identity of an endpoint's device; what is unknown is empty.
#[derive(Clone, Debug, PartialEq, Eq)]
pub struct EndpointIdentity {
    pub instance_id: String,
    pub hardware_ids: Vec<String>,
    pub product_name: String,
    pub interface_name: String,
    pub endpoint_history: Vec<String>,
}

/// The contents of an identity.
pub struct IdentityView {
    pub instance_id: Seq<char>,
    pub hardware_ids: Seq<Seq<char>>,
    pub product_name: Seq<char>,
    pub interface_name: Seq<char>,
    pub endpoint_history: Seq<Seq<char>>,
}

impl View for EndpointIdentity {
    type V = IdentityView;

    open spec fn view(&self) -> IdentityView {
        IdentityView {
            instance_id: self.instance_id@,
            hardware_ids: text::texts(self.hardware_ids@),
            product_name: self.product_name@,
            interface_name: self.interface_name@,
            endpoint_history: text::texts(self.endpoint_history@),
        }
    }
}

/// The identity of which nothing is known.
pub open spec fn unknown_identity() -> IdentityView {
    IdentityView {
        instance_id: Seq::empty(),
        hardware_ids: Seq::empty(),
        product_name: Seq::empty(),
        interface_name: Seq::empty(),
        endpoint_history: Seq::empty(),
    }
}

impl Default for EndpointIdentity {
    fn default() -> (r: EndpointIdentity)
        ensures
            r@ == unknown_identity(),
    {
        let r = EndpointIdentity {
            instance_id: String::new(),
            hardware_ids: Vec::new(),
            product_name: String::new(),
            interface_name: String::new(),
            endpoint_history: Vec::new(),
        };
        assert(text::texts(r.hardware_ids@) =~= Seq::empty());
        assert(text::texts(r.endpoint_history@) =~= Seq::empty());
        r
    }
}

impl EndpointIdentity {
    /// Whether nothing is known.
    pub fn is_empty(&self) -> (r: bool)
        ensures
            r == (self@ == unknown_identity()),
    {
        let r = self.instance_id.as_str().is_empty() && self.hardware_ids.len() == 0
            && self.product_name.as_str().is_empty() && self.interface_name.as_str().is_empty()
            && self.endpoint_history.len() == 0;
        proof {
            let e = Seq::<char>::empty();
            let l = Seq::<Seq<char>>::empty();
            if r {
                assert(self@.instance_id =~= e);
                assert(self@.hardware_ids =~= l);
                assert(self@.product_name =~= e);
                assert(self@.interface_name =~= e);
                assert(self@.endpoint_history =~= l);
            } else {
                assert(text::texts(self.hardware_ids@).len() == self.hardware_ids@.len());
                assert(text::texts(self.endpoint_history@).len() == self.endpoint_history@.len());
            }
        }
        r
    }

    /// The product name by which devices are compared.
    pub fn product_key(&self) -> (r: String)
        ensures
            r@ == text::unicode_lower(text::trim(self@.product_name)),
    {
        let t = trim_text(self.product_name.as_str());
        to_lowercase(t.as_str())
    }
}

// ---------------------------------------------------------------------------
// Normal forms
// ---------------------------------------------------------------------------
/// Whether a text starts with a prefix that says nothing of the device.
pub open spec fn has_device_prefix(s: Seq<char>) -> bool {
    "\\\\?\\"@.is_prefix_of(s) || "{1}."@.is_prefix_of(s) || "{2}."@.is_prefix_of(s)
}

/// A device identifier without the prefixes that say nothing of the device; each
/// of them has four characters.
pub open spec fn strip_device_prefixes(s: Seq<char>) -> Seq<char>
    decreases s.len(),
{
    if has_device_prefix(s) && s.len() >= 4 {
        strip_device_prefixes(s.subrange(4, s.len() as int))
    } else {
        s
    }
}

/// The normal form of a device identifier: separators as backslashes, letters in
/// upper case, no prefixes, no backslashes at either end.
pub open spec fn device_id(value: Seq<char>) -> Seq<char> {
    text::strip_ends(
        strip_device_prefixes(text::ascii_upper(text::replace_char(text::trim(value), '#', '\\'))),
        '\\',
    )
}

/// The normal form of a device identifier.
pub fn normalize_device_id(value: &str) -> (r: String)
    ensures
        r@ == device_id(value@),
{
    proof {
        reveal_strlit("\\\\?\\");
        reveal_strlit("{1}.");
        reveal_strlit("{2}.");
    }
    let t = trim_text(value);
    let u = replace(t.as_str(), '#', '\\');
    let w = upper(u.as_str());
    let v = to_chars(w.as_str());
    let p0 = to_chars("\\\\?\\");
    let p1 = to_chars("{1}.");
    let p2 = to_chars("{2}.");
    let n: usize = v.len();
    let mut i: usize = 0;
    assert(v@.subrange(0, n as int) =~= v@);
    loop
        invariant
            i <= n,
            n == v@.len(),
            v@ == w@,
            p0@ == "\\\\?\\"@,
            p1@ == "{1}."@,
            p2@ == "{2}."@,
            p0@.len() == 4,
            p1@.len() == 4,
            p2@.len() == 4,
            strip_device_prefixes(v@.subrange(i as int, n as int)) == strip_device_prefixes(w@),
        ensures
            i <= n,
            strip_device_prefixes(w@) == v@.subrange(i as int, n as int),
        decreases n - i,
    {
        let ghost rest = v@.subrange(i as int, n as int);
        let hit = chars_occur_at(v.as_slice(), p0.as_slice(), i) || chars_occur_at(
            v.as_slice(),
            p1.as_slice(),
            i,
        ) || chars_occur_at(v.as_slice(), p2.as_slice(), i);
        proof {
            if rest.len() >= 4 {
                assert(v@.subrange(i as int, i + 4) =~= rest.subrange(0, 4));
            }
        }
        if !hit {
            break ;
        }
        assert(rest.subrange(4, rest.len() as int) =~= v@.subrange(i + 4, n as int));
        i += 4;
    }
    let tail = sub_chars(v.as_slice(), i, n);
    let stripped = strip_chars(tail.as_slice(), '\\');
    from_chars(stripped.as_slice())
}

/// The part of a text between its last opening brace and the first closing brace
/// after it, with the braces.
pub open spec fn last_braced(s: Seq<char>) -> Option<Seq<char>> {
    let n = text::last_index(s, '{');
    if n == 0 {
        None
    } else {
        let rest = s.subrange(n - 1, s.len() as int);
        let m = text::span_until(rest, '}');
        if m < rest.len() {
            Some(rest.subrange(0, m + 1))
        } else {
            None
        }
    }
}

/// The normal form of an endpoint identifier: the GUID in its last braces, in
/// lower case.
pub open spec fn endpoint_guid(value: Seq<char>) -> Option<Seq<char>> {
    match last_braced(text::trim(value)) {
        Some(candidate) => if guid::is_guid_text(candidate) {
            Some(text::ascii_lower(candidate))
        } else {
            None
        },
        None => None,
    }
}

/// The GUID in the last braces of an endpoint identifier, in lower case; `None`
/// when there is none.
pub fn normalize_endpoint_guid(value: &str) -> (r: Option<String>)
    ensures
        r is Some == endpoint_guid(value@) is Some,
        r matches Some(s) ==> endpoint_guid(value@) == Some(s@),
{
    let t = trim_text(value);
    let v = to_chars(t.as_str());
    let n = last_position_of(v.as_slice(), '{');
    if n == 0 {
        return None;
    }
    let start: usize = n - 1;
    let end = position_of(v.as_slice(), '}', start);
    if end == v.len() {
        return None;
    }
    let part = sub_chars(v.as_slice(), start, end + 1);
    assert(part@ =~= v@.subrange(start as int, v@.len() as int).subrange(0, end - start + 1));
    let candidate = from_chars(part.as_slice());
    match parse_guid_string(candidate.as_str()) {
        Some(_) => Some(lower(candidate.as_str())),
        None => None,
    }
}

/// The normal forms of endpoint identifiers, each once, in the order of their
/// first occurrence; what holds no GUID is left out.
pub open spec fn endpoint_history(values: Seq<Seq<char>>) -> Seq<Seq<char>>
    decreases values.len(),
{
    if values.len() == 0 {
        Seq::empty()
    } else {
        let rest = endpoint_history(values.drop_last());
        match endpoint_guid(values.last()) {
            Some(g) => if rest.contains(g) {
                rest
            } else {
                rest.push(g)
            },
            None => rest,
        }
    }
}

/// The normal forms of endpoint identifiers, each once.
pub fn normalize_endpoint_history(values: &[String]) -> (r: Vec<String>)
    ensures
        text::texts(r@) == endpoint_history(text::texts(values@)),
{
    let mut out: Vec<String> = Vec::new();
    let mut i: usize = 0;
    let ghost all = text::texts(values@);
    assert(all.take(0) =~= Seq::empty());
    assert(text::texts(out@) =~= Seq::empty());
    while i < values.len()
        invariant
            i <= values.len(),
            all == text::texts(values@),
            text::texts(out@) == endpoint_history(all.take(i as int)),
        decreases values.len() - i,
    {
        let ghost t = all.take(i + 1);
        let ghost before = out@;
        assert(t.drop_last() =~= all.take(i as int));
        assert(t.last() == values@[i as int]@);
        match normalize_endpoint_guid(values[i].as_str()) {
            Some(g) => {
                if !holds_text(out.as_slice(), g.as_str()) {
                    out.push(g);
                    assert(text::texts(out@) =~= text::texts(before).push(g@));
                }
            },
            None => {},
        }
        i += 1;
    }
    assert(all.take(i as int) =~= all);
    out
}

/// The contents of lists of texts.
pub open spec fn text_lists(v: Seq<Vec<String>>) -> Seq<Seq<Seq<char>>> {
    v.map_values(|l: Vec<String>| text::texts(l@))
}

/// A sorted list to which the normal forms of some endpoint identifiers are
/// added.
pub open spec fn add_history(start: Seq<Seq<char>>, values: Seq<Seq<char>>) -> Seq<Seq<char>>
    decreases values.len(),
{
    if values.len() == 0 {
        start
    } else {
        let rest = add_history(start, values.drop_last());
        match endpoint_guid(values.last()) {
            Some(g) => text::insert_sorted(rest, g),
            None => rest,
        }
    }
}

/// The normal forms of all endpoint identifiers of some lists, sorted, each once.
pub open spec fn merged_history(lists: Seq<Seq<Seq<char>>>) -> Seq<Seq<char>>
    decreases lists.len(),
{
    if lists.len() == 0 {
        Seq::empty()
    } else {
        add_history(merged_history(lists.drop_last()), lists.last())
    }
}

fn add_endpoint_history(out: &mut Vec<String>, values: &[String])
    ensures
        text::texts(final(out)@) == add_history(text::texts(old(out)@), text::texts(values@)),
{
    let mut i: usize = 0;
    let ghost all = text::texts(values@);
    let ghost start = text::texts(out@);
    assert(all.take(0) =~= Seq::empty());
    while i < values.len()
        invariant
            i <= values.len(),
            all == text::texts(values@),
            start == text::texts(old(out)@),
            text::texts(out@) == add_history(start, all.take(i as int)),
        decreases values.len() - i,
    {
        let ghost t = all.take(i + 1);
        assert(t.drop_last() =~= all.take(i as int));
        assert(t.last() == values@[i as int]@);
        match normalize_endpoint_guid(values[i].as_str()) {
            Some(g) => {
                insert_text(out, g);
            },
            None => {},
        }
        i += 1;
    }
    assert(all.take(i as int) =~= all);
}

/// The normal forms of all endpoint identifiers of some lists, sorted, each once.
pub fn merge_endpoint_history(lists: &[Vec<String>]) -> (r: Vec<String>)
    ensures
        text::texts(r@) == merged_history(text_lists(lists@)),
{
    let mut out: Vec<String> = Vec::new();
    let mut i: usize = 0;
    let ghost all = text_lists(lists@);
    assert(all.take(0) =~= Seq::empty());
    assert(text::texts(out@) =~= Seq::empty());
    while i < lists.len()
        invariant
            i <= lists.len(),
            all == text_lists(lists@),
            text::texts(out@) == merged_history(all.take(i as int)),
        decreases lists.len() - i,
    {
        let ghost t = all.take(i + 1);
        assert(t.drop_last() =~= all.take(i as int));
        assert(t.last() == text::texts(lists@[i as int]@));
        add_endpoint_history(&mut out, lists[i].as_slice());
        i += 1;
    }
    assert(all.take(i as int) =~= all);
    out
}

/// Whether some identifier of the list has the normal form `g`.
pub open spec fn names_endpoint(values: Seq<Seq<char>>, g: Seq<char>) -> bool {
    exists|i: int| 0 <= i < values.len() && endpoint_guid(#[trigger] values[i]) == Some(g)
}

proof fn lemma_add_history(start: Seq<Seq<char>>, values: Seq<Seq<char>>)
    requires
        text::strictly_sorted(start),
    ensures
        text::strictly_sorted(add_history(start, values)),
        forall|g: Seq<char>| #[trigger]
            add_history(start, values).contains(g) == (start.contains(g) || names_endpoint(
                values,
                g,
            )),
    decreases values.len(),
{
    if values.len() > 0 {
        let t = values.drop_last();
        lemma_add_history(start, t);
        let rest = add_history(start, t);
        match endpoint_guid(values.last()) {
            Some(x) => {
                text::lemma_insert_sorted(rest, x);
            },
            None => {},
        }
        assert forall|g: Seq<char>| #[trigger]
            add_history(start, values).contains(g) == (start.contains(g) || names_endpoint(
                values,
                g,
            )) by {
            assert(rest.contains(g) == (start.contains(g) || names_endpoint(t, g)));
            if names_endpoint(t, g) {
                let i = choose|i: int|
                    0 <= i < t.len() && endpoint_guid(#[trigger] t[i]) == Some(g);
                assert(endpoint_guid(values[i]) == Some(g));
            }
            if names_endpoint(values, g) {
                let i = choose|i: int|
                    0 <= i < values.len() && endpoint_guid(#[trigger] values[i]) == Some(g);
                if i < t.len() {
                    assert(endpoint_guid(t[i]) == Some(g));
                }
            }
            if endpoint_guid(values.last()) == Some(g) {
                assert(endpoint_guid(values[values.len() - 1]) == Some(g));
                assert(names_endpoint(values, g));
            }
        }
    }
}

/// A merged history is sorted, holds nothing twice, and holds exactly the normal
/// forms of what the lists hold.
pub proof fn law_merged_history(lists: Seq<Seq<Seq<char>>>)
    ensures
        text::strictly_sorted(merged_history(lists)),
        forall|g: Seq<char>| #[trigger]
            merged_history(lists).contains(g) == (exists|i: int|
                0 <= i < lists.len() && names_endpoint(#[trigger] lists[i], g)),
    decreases lists.len(),
{
    if lists.len() > 0 {
        let t = lists.drop_last();
        law_merged_history(t);
        lemma_add_history(merged_history(t), lists.last());
        assert forall|g: Seq<char>| #[trigger]
            merged_history(lists).contains(g) == (exists|i: int|
                0 <= i < lists.len() && names_endpoint(#[trigger] lists[i], g)) by {
            assert(merged_history(t).contains(g) == (exists|i: int|
                0 <= i < t.len() && names_endpoint(#[trigger] t[i], g)));
            if merged_history(t).contains(g) {
                let i = choose|i: int| 0 <= i < t.len() && names_endpoint(#[trigger] t[i], g);
                assert(names_endpoint(lists[i], g));
            }
            if names_endpoint(lists.last(), g) {
                assert(names_endpoint(lists[lists.len() - 1], g));
            }
            if exists|i: int| 0 <= i < lists.len() && names_endpoint(#[trigger] lists[i], g) {
                let i = choose|i: int|
                    0 <= i < lists.len() && names_endpoint(#[trigger] lists[i], g);
                if i < t.len() {
                    assert(names_endpoint(t[i], g));
                }
            }
        }
    }
}

/// A normalised history holds nothing twice, and only normal forms.
pub proof fn law_endpoint_history(values: Seq<Seq<char>>)
    ensures
        endpoint_history(values).no_duplicates(),
        forall|g: Seq<char>| #[trigger]
            endpoint_history(values).contains(g) == names_endpoint(values, g),
    decreases values.len(),
{
    if values.len() > 0 {
        let t = values.drop_last();
        law_endpoint_history(t);
        let rest = endpoint_history(t);
        let all = endpoint_history(values);
        assert forall|g: Seq<char>| #[trigger] all.contains(g) == names_endpoint(values, g) by {
            assert(rest.contains(g) == names_endpoint(t, g));
            if names_endpoint(t, g) {
                let i = choose|i: int|
                    0 <= i < t.len() && endpoint_guid(#[trigger] t[i]) == Some(g);
                assert(endpoint_guid(values[i]) == Some(g));
            }
            if names_endpoint(values, g) {
                let i = choose|i: int|
                    0 <= i < values.len() && endpoint_guid(#[trigger] values[i]) == Some(g);
                if i < t.len() {
                    assert(endpoint_guid(t[i]) == Some(g));
                }
            }
            if rest.contains(g) {
                let k = choose|k: int| 0 <= k < rest.len() && rest[k] == g;
                assert(all[k] == g);
            }
            if endpoint_guid(values.last()) == Some(g) {
                assert(endpoint_guid(values[values.len() - 1]) == Some(g));
                if !rest.contains(g) {
                    assert(all[rest.len() as int] == g);
                }
            }
            if all.contains(g) && !rest.contains(g) {
                let k = choose|k: int| 0 <= k < all.len() && all[k] == g;
                if k < rest.len() {
                    assert(rest[k] == g);
                }
            }
        }
    }
}

/// The normal form of an endpoint identifier is its own normal form.
pub proof fn law_endpoint_guid_idempotent(value: Seq<char>)
    ensures
        endpoint_guid(value) matches Some(g) ==> endpoint_guid(g) == Some(g),
{
    match endpoint_guid(value) {
        Some(g) => {
            let c = last_braced(text::trim(value)).unwrap();
            assert(g == text::ascii_lower(c));
            lemma_lower_guid(c);
        },
        None => {},
    }
}

/// The lower-case form of a GUID's text is normal.
proof fn lemma_lower_guid(c: Seq<char>)
    requires
        guid::is_guid_text(c),
    ensures
        endpoint_guid(text::ascii_lower(c)) == Some(text::ascii_lower(c)),
{
    let g = text::ascii_lower(c);
    assert(g.len() == 38);
    assert(g[0] == '{' && g[37] == '}');
    crate::guid::lemma_guid_text_inner(c);
    assert forall|i: int| 0 <= i < 38 implies text::lower_char(#[trigger] c[i]) == g[i] by {}
    // No white space at either end.
    crate::text::lemma_trim_noop(g);
    // The only opening brace is the first character.
    assert forall|i: int| 1 <= i < 38 implies g[i] != '{' by {
        assert(text::lower_char(c[i]) == g[i]);
    }
    crate::text::lemma_last_index(g, '{', 1);
    let rest = g.subrange(0, 38);
    assert(rest =~= g);
    assert forall|i: int| 0 <= i < 37 implies g[i] != '}' by {
        assert(text::lower_char(c[i]) == g[i]);
    }
    text::lemma_span_until(g, '}', 37);
    assert(g.subrange(0, 38) =~= g);
    crate::guid::lemma_lower_guid_text(c);
    crate::text::lemma_lower_idempotent(c);
}

// ---------------------------------------------------------------------------
// Reading
// ---------------------------------------------------------------------------
/// The normal form of a device identifier that may be missing.
pub open spec fn opt_device_id(v: Option<Seq<char>>) -> Seq<char> {
    match v {
        Some(s) => device_id(s),
        None => Seq::empty(),
    }
}

/// A name that may be missing, without white space at either end.
pub open spec fn opt_name(v: Option<Seq<char>>) -> Seq<char> {
    match v {
        Some(s) => text::trim(s),
        None => Seq::empty(),
    }
}

/// The normal forms of device identifiers, without those that are empty.
pub open spec fn device_ids(values: Seq<Seq<char>>) -> Seq<Seq<char>>
    decreases values.len(),
{
    if values.len() == 0 {
        Seq::empty()
    } else {
        let rest = device_ids(values.drop_last());
        let id = device_id(values.last());
        if id.len() == 0 {
            rest
        } else {
            rest.push(id)
        }
    }
}

/// The texts of a list that may be missing.
pub open spec fn opt_list(v: Option<Seq<Seq<char>>>) -> Seq<Seq<char>> {
    match v {
        Some(l) => l,
        None => Seq::empty(),
    }
}

/// The normal forms of device identifiers, without those that are empty.
pub fn normalize_device_ids(values: &[String]) -> (r: Vec<String>)
    ensures
        text::texts(r@) == device_ids(text::texts(values@)),
{
    let mut out: Vec<String> = Vec::new();
    let mut i: usize = 0;
    let ghost all = text::texts(values@);
    assert(all.take(0) =~= Seq::empty());
    assert(text::texts(out@) =~= Seq::empty());
    while i < values.len()
        invariant
            i <= values.len(),
            all == text::texts(values@),
            text::texts(out@) == device_ids(all.take(i as int)),
        decreases values.len() - i,
    {
        let ghost t = all.take(i + 1);
        let ghost before = out@;
        assert(t.drop_last() =~= all.take(i as int));
        assert(t.last() == values@[i as int]@);
        let id = normalize_device_id(values[i].as_str());
        if !id.as_str().is_empty() {
            out.push(id);
            assert(text::texts(out@) =~= text::texts(before).push(id@));
        }
        i += 1;
    }
    assert(all.take(i as int) =~= all);
    out
}

/// The identity that an endpoint's properties give.
pub open spec fn properties_identity(r: Seq<KeyView>, props: Seq<char>) -> IdentityView {
    let at = |name: Seq<char>| registry::value_at(r, Hkey::LocalMachine, props, name);
    IdentityView {
        instance_id: opt_device_id(registry::as_sz(at(PKEY_DEVICE_INSTANCE_ID@))),
        hardware_ids: device_ids(opt_list(registry::as_multi(at(PKEY_DEVICE_HARDWARE_IDS@)))),
        product_name: opt_name(registry::as_sz(at(PKEY_DEVICE_PRODUCT_NAME@))),
        interface_name: opt_name(registry::as_sz(at(PKEY_DEVICE_INTERFACE_FRIENDLY_NAME@))),
        endpoint_history: endpoint_history(opt_list(registry::as_multi(at(PKEY_ENDPOINT_HISTORY@)))),
    }
}

/// The identity of the device of the endpoint at a place.
pub open spec fn live_identity(r: Seq<KeyView>, endpoint_path: Seq<char>) -> IdentityView {
    let props = registry::join(endpoint_path, PROPERTIES_KEY@);
    if registry::has_key(r, Hkey::LocalMachine, endpoint_path) && registry::has_key(r, Hkey::LocalMachine, props) {
        properties_identity(r, props)
    } else {
        unknown_identity()
    }
}

fn device_id_or_empty(v: Option<String>) -> (r: String)
    ensures
        r@ == opt_device_id(
            match v {
                Some(s) => Some(s@),
                None => None,
            },
        ),
{
    match v {
        Some(s) => normalize_device_id(s.as_str()),
        None => String::new(),
    }
}

fn name_or_empty(v: Option<String>) -> (r: String)
    ensures
        r@ == opt_name(
            match v {
                Some(s) => Some(s@),
                None => None,
            },
        ),
{
    match v {
        Some(s) => trim_text(s.as_str()),
        None => String::new(),
    }
}

fn list_or_empty(v: Option<Vec<String>>) -> (r: Vec<String>)
    ensures
        text::texts(r@) == opt_list(
            match v {
                Some(l) => Some(text::texts(l@)),
                None => None,
            },
        ),
{
    match v {
        Some(l) => l,
        None => {
            let r: Vec<String> = Vec::new();
            assert(text::texts(r@) =~= Seq::empty());
            r
        },
    }
}

/// The identity of the device of the endpoint at a place; unknown when the
/// endpoint or its properties are missing.
pub fn read_endpoint_identity(registry: &Registry, endpoint_path: &str) -> (r: EndpointIdentity)
    ensures
        r@ == live_identity(registry@, endpoint_path@),
{
    let key = match RegKey::open(registry, Hkey::LocalMachine, endpoint_path) {
        Some(k) => k,
        None => {
            return EndpointIdentity::default();
        },
    };
    let props = match key.open_sub_key(PROPERTIES_KEY) {
        Some(k) => k,
        None => {
            return EndpointIdentity::default();
        },
    };
    let ids = list_or_empty(props.read_multi_value(PKEY_DEVICE_HARDWARE_IDS));
    let history = list_or_empty(props.read_multi_value(PKEY_ENDPOINT_HISTORY));
    EndpointIdentity {
        instance_id: device_id_or_empty(props.read_sz(PKEY_DEVICE_INSTANCE_ID)),
        hardware_ids: normalize_device_ids(ids.as_slice()),
        product_name: name_or_empty(props.read_sz(PKEY_DEVICE_PRODUCT_NAME)),
        interface_name: name_or_empty(props.read_sz(PKEY_DEVICE_INTERFACE_FRIENDLY_NAME)),
        endpoint_history: normalize_endpoint_history(history.as_slice()),
    }
}

/// The identity kept in the record at a place of a hive.
pub open spec fn record_identity(r: Seq<KeyView>, root: Hkey, path: Seq<char>) -> IdentityView {
    let at = |name: Seq<char>| registry::value_at(r, root, path, name);
    IdentityView {
        instance_id: opt_device_id(registry::as_sz(at(VALUE_DEVICE_INSTANCE_ID@))),
        hardware_ids: device_ids(opt_list(registry::as_multi(at(VALUE_DEVICE_HARDWARE_IDS@)))),
        product_name: opt_name(registry::as_sz(at(VALUE_DEVICE_PRODUCT_NAME@))),
        interface_name: Seq::empty(),
        endpoint_history: endpoint_history(opt_list(registry::as_multi(at(VALUE_ENDPOINT_HISTORY@)))),
    }
}

/// The identity kept in an installation record.
pub fn identity_from_key(key: &RegKey) -> (r: EndpointIdentity)
    ensures
        r@ == record_identity(key.registry@, key.root, key.path@),
{
    let ids = list_or_empty(key.read_multi_value(VALUE_DEVICE_HARDWARE_IDS));
    let history = list_or_empty(key.read_multi_value(VALUE_ENDPOINT_HISTORY));
    EndpointIdentity {
        instance_id: device_id_or_empty(key.read_sz(VALUE_DEVICE_INSTANCE_ID)),
        hardware_ids: normalize_device_ids(ids.as_slice()),
        product_name: name_or_empty(key.read_sz(VALUE_DEVICE_PRODUCT_NAME)),
        interface_name: String::new(),
        endpoint_history: normalize_endpoint_history(history.as_slice()),
    }
}

/// The identity kept in an endpoint's record below a given key; unknown when
/// there is no record.
pub fn read_stored_identity(
    registry: &Registry,
    device_guid: &str,
    child_apo_root: &str,
) -> (r: EndpointIdentity)
    ensures
        r@ == ({
            let path = registry::join(child_apo_root@, device_guid@);
            if registry::has_key(registry@, Hkey::LocalMachine, path) {
                record_identity(registry@, Hkey::LocalMachine, path)
            } else {
                unknown_identity()
            }
        }),
{
    let path = join_path(child_apo_root, device_guid);
    match RegKey::open(registry, Hkey::LocalMachine, path.as_str()) {
        Some(key) => identity_from_key(&key),
        None => EndpointIdentity::default(),
    }
}

/// The value of exactly this name.
pub open spec fn named_value(values: Seq<EntryView>, name: Seq<char>) -> Option<ValueView>
    decreases values.len(),
{
    if values.len() == 0 {
        None
    } else if values[0].name == name {
        Some(values[0].value)
    } else {
        named_value(values.drop_first(), name)
    }
}

proof fn lemma_named_value_at(values: Seq<EntryView>, name: Seq<char>, i: int)
    requires
        0 <= i <= values.len(),
        forall|j: int| 0 <= j < i ==> (#[trigger] values[j]).name != name,
        i < values.len() ==> values[i].name == name,
    ensures
        named_value(values, name) == (if i < values.len() {
            Some(values[i].value)
        } else {
            None
        }),
    decreases values.len(),
{
    if i > 0 {
        let t = values.drop_first();
        assert(values[0].name != name);
        assert forall|j: int| 0 <= j < i - 1 implies (#[trigger] t[j]).name != name by {
            assert(t[j] == values[j + 1]);
        }
        lemma_named_value_at(t, name, i - 1);
    }
}

/// The value of exactly this name.
pub fn find_named<'a>(values: &'a [RegEntry], name: &str) -> (r: Option<&'a RegValue>)
    ensures
        r is Some == named_value(registry::entries(values@), name@) is Some,
        r matches Some(v) ==> named_value(registry::entries(values@), name@) == Some(v@),
{
    let mut i: usize = 0;
    while i < values.len()
        invariant
            i <= values.len(),
            forall|j: int| 0 <= j < i ==> (#[trigger] registry::entries(values@)[j]).name != name@,
        decreases values.len() - i,
    {
        let e = &values[i];
        assert(registry::entries(values@)[i as int] == e@);
        if eq(e.name.as_str(), name) {
            proof {
                lemma_named_value_at(registry::entries(values@), name@, i as int);
            }
            return Some(&e.value);
        }
        i += 1;
    }
    proof {
        lemma_named_value_at(registry::entries(values@), name@, i as int);
    }
    None
}

/// The text of a value, or the first text of a list.
pub open spec fn first_text(v: Option<ValueView>) -> Option<Seq<char>> {
    match v {
        Some(ValueView::Sz(s)) => Some(s),
        Some(ValueView::MultiSz(l)) => if l.len() > 0 {
            Some(l[0])
        } else {
            None
        },
        _ => None,
    }
}

/// The texts of a value of either kind.
pub open spec fn all_texts(v: Option<ValueView>) -> Seq<Seq<char>> {
    match v {
        Some(ValueView::MultiSz(l)) => l,
        Some(ValueView::Sz(s)) => seq![s],
        _ => Seq::empty(),
    }
}

/// The text of a value, or the first text of a list.
pub fn read_string(value: Option<&RegValue>) -> (r: Option<String>)
    ensures
        ({
            let v = match value {
                Some(v) => Some(v@),
                None => None,
            };
            &&& r is Some == first_text(v) is Some
            &&& r matches Some(s) ==> first_text(v) == Some(s@)
        }),
{
    match value {
        Some(RegValue::Sz(s)) => Some(s.clone()),
        Some(RegValue::MultiSz(l)) => {
            if l.len() > 0 {
                assert(text::texts(l@)[0] == l@[0]@);
                Some(l[0].clone())
            } else {
                None
            }
        },
        _ => None,
    }
}

/// The texts of a value of either kind.
fn read_string_list(value: Option<&RegValue>) -> (r: Vec<String>)
    ensures
        text::texts(r@) == all_texts(
            match value {
                Some(v) => Some(v@),
                None => None,
            },
        ),
{
    match value {
        Some(RegValue::MultiSz(l)) => copy_texts(l.as_slice()),
        Some(RegValue::Sz(s)) => {
            let mut r: Vec<String> = Vec::new();
            r.push(s.clone());
            assert(text::texts(r@) =~= seq![s@]);
            r
        },
        _ => {
            let r: Vec<String> = Vec::new();
            assert(text::texts(r@) =~= Seq::empty());
            r
        },
    }
}

/// The identity kept in the values of a record.
pub open spec fn values_identity(values: Seq<EntryView>) -> IdentityView {
    let at = |name: Seq<char>| named_value(values, name);
    IdentityView {
        instance_id: opt_device_id(first_text(at(VALUE_DEVICE_INSTANCE_ID@))),
        hardware_ids: device_ids(all_texts(at(VALUE_DEVICE_HARDWARE_IDS@))),
        product_name: opt_name(first_text(at(VALUE_DEVICE_PRODUCT_NAME@))),
        interface_name: Seq::empty(),
        endpoint_history: endpoint_history(all_texts(at(VALUE_ENDPOINT_HISTORY@))),
    }
}

/// The identity kept in the values of a record.
pub fn identity_from_values(values: &[RegEntry]) -> (r: EndpointIdentity)
    ensures
        r@ == values_identity(registry::entries(values@)),
{
    let ids = read_string_list(find_named(values, VALUE_DEVICE_HARDWARE_IDS));
    let history = read_string_list(find_named(values, VALUE_ENDPOINT_HISTORY));
    EndpointIdentity {
        instance_id: device_id_or_empty(read_string(find_named(values, VALUE_DEVICE_INSTANCE_ID))),
        hardware_ids: normalize_device_ids(ids.as_slice()),
        product_name: name_or_empty(read_string(find_named(values, VALUE_DEVICE_PRODUCT_NAME))),
        interface_name: String::new(),
        endpoint_history: normalize_endpoint_history(history.as_slice()),
    }
}

// ---------------------------------------------------------------------------
// Writing
// ---------------------------------------------------------------------------
/// The change that sets a list of texts.
pub open spec fn op_set_multi(path: Seq<char>, name: Seq<char>, list: Seq<Seq<char>>) -> OpView {
    OpView::SetValue { root: Hkey::LocalMachine, path, name, value: ValueView::MultiSz(list) }
}

/// One change where a condition holds, none otherwise.
pub open spec fn op_if(cond: bool, op: OpView) -> Seq<OpView> {
    if cond {
        seq![op]
    } else {
        Seq::empty()
    }
}

/// The changes that write an identity into a record: each part that is known,
/// and the merged history if there is any.
pub open spec fn identity_ops(
    path: Seq<char>,
    id: IdentityView,
    history: Seq<Seq<char>>,
) -> Seq<OpView> {
    let merged = merged_history(seq![history]);
    op_if(
        id.instance_id.len() > 0,
        registry::op_set_sz(Hkey::LocalMachine, path, VALUE_DEVICE_INSTANCE_ID@, id.instance_id),
    ) + op_if(
        id.hardware_ids.len() > 0,
        op_set_multi(path, VALUE_DEVICE_HARDWARE_IDS@, id.hardware_ids),
    ) + op_if(
        id.product_name.len() > 0,
        registry::op_set_sz(Hkey::LocalMachine, path, VALUE_DEVICE_PRODUCT_NAME@, id.product_name),
    ) + op_if(merged.len() > 0, op_set_multi(path, VALUE_ENDPOINT_HISTORY@, merged))
}

/// Writes an identity into the record at a place of the local machine's hive.
pub fn write_identity_values(
    registry: &mut Registry,
    path: &str,
    identity: &EndpointIdentity,
    history: &[String],
)
    ensures
        registry::advanced(
            *old(registry),
            *final(registry),
            identity_ops(path@, identity@, text::texts(history@)),
        ),
{
    let ghost r0 = *registry;
    let ghost mut done = Seq::<OpView>::empty();
    proof {
        registry::lemma_advanced_refl(r0);
        assert(text::texts(identity.hardware_ids@).len() == identity.hardware_ids@.len());
    }
    if !identity.instance_id.as_str().is_empty() {
        let ghost r1 = *registry;
        let ghost op = registry::op_set_sz(
            Hkey::LocalMachine,
            path@,
            VALUE_DEVICE_INSTANCE_ID@,
            identity@.instance_id,
        );
        registry.set_sz(
            Hkey::LocalMachine,
            path,
            VALUE_DEVICE_INSTANCE_ID,
            identity.instance_id.as_str(),
        );
        proof {
            registry::lemma_advanced_trans(r0, r1, *registry, done, seq![op]);
            done = done + seq![op];
        }
    }
    let ghost d1 = done;
    if identity.hardware_ids.len() > 0 {
        let ghost r1 = *registry;
        let ghost op = op_set_multi(path@, VALUE_DEVICE_HARDWARE_IDS@, identity@.hardware_ids);
        let list = copy_texts(identity.hardware_ids.as_slice());
        registry.set_value(
            Hkey::LocalMachine,
            path,
            VALUE_DEVICE_HARDWARE_IDS,
            RegValue::MultiSz(list),
        );
        proof {
            registry::lemma_advanced_trans(r0, r1, *registry, done, seq![op]);
            done = done + seq![op];
        }
    }
    if !identity.product_name.as_str().is_empty() {
        let ghost r1 = *registry;
        let ghost op = registry::op_set_sz(
            Hkey::LocalMachine,
            path@,
            VALUE_DEVICE_PRODUCT_NAME@,
            identity@.product_name,
        );
        registry.set_sz(
            Hkey::LocalMachine,
            path,
            VALUE_DEVICE_PRODUCT_NAME,
            identity.product_name.as_str(),
        );
        proof {
            registry::lemma_advanced_trans(r0, r1, *registry, done, seq![op]);
            done = done + seq![op];
        }
    }
    let mut lists: Vec<Vec<String>> = Vec::new();
    lists.push(copy_texts(history));
    let merged = merge_endpoint_history(lists.as_slice());
    proof {
        assert(text_lists(lists@) =~= seq![text::texts(history@)]);
        assert(text::texts(merged@).len() == merged@.len());
    }
    if merged.len() > 0 {
        let ghost r1 = *registry;
        let ghost op = op_set_multi(
            path@,
            VALUE_ENDPOINT_HISTORY@,
            merged_history(seq![text::texts(history@)]),
        );
        registry.set_value(
            Hkey::LocalMachine,
            path,
            VALUE_ENDPOINT_HISTORY,
            RegValue::MultiSz(merged),
        );
        proof {
            registry::lemma_advanced_trans(r0, r1, *registry, done, seq![op]);
            done = done + seq![op];
        }
    }
    assert(done =~= identity_ops(path@, identity@, text::texts(history@)));
}

// ---------------------------------------------------------------------------
// Writing and reading
// ---------------------------------------------------------------------------
/// What one write, made where a condition holds, leaves of a value.
proof fn lemma_written_if(
    r: Seq<KeyView>,
    path: Seq<char>,
    name: Seq<char>,
    value: ValueView,
    cond: bool,
    other: Seq<char>,
)
    requires
        registry::has_key(r, Hkey::LocalMachine, path),
    ensures
        ({
            let op = OpView::SetValue { root: Hkey::LocalMachine, path, name, value };
            let after = registry::apply_all(r, op_if(cond, op));
            &&& registry::has_key(after, Hkey::LocalMachine, path)
            &&& registry::value_at(after, Hkey::LocalMachine, path, other) == (if cond
                && text::eq_ci(name, other) {
                Some(value)
            } else {
                registry::value_at(r, Hkey::LocalMachine, path, other)
            })
        }),
{
    let h = Hkey::LocalMachine;
    let op = OpView::SetValue { root: h, path, name, value };
    if cond {
        assert(seq![op].drop_last() =~= Seq::<OpView>::empty());
        assert(registry::apply_all(r, seq![op].drop_last()) == r);
        registry::law_value_changes_keep_keys(r, op, h, path);
        registry::law_read_after_write(r, h, path, name, value, h, path, other);
        assert(text::eq_ci(path, path));
    }
}

/// The names under which a record keeps an identity are different names.
proof fn lemma_names_differ()
    ensures
        ({
            let a = VALUE_DEVICE_INSTANCE_ID@;
            let b = VALUE_DEVICE_HARDWARE_IDS@;
            let c = VALUE_DEVICE_PRODUCT_NAME@;
            let d = VALUE_ENDPOINT_HISTORY@;
            &&& !text::eq_ci(a, b) && !text::eq_ci(a, c) && !text::eq_ci(a, d)
            &&& !text::eq_ci(b, a) && !text::eq_ci(b, c) && !text::eq_ci(b, d)
            &&& !text::eq_ci(c, a) && !text::eq_ci(c, b) && !text::eq_ci(c, d)
            &&& !text::eq_ci(d, a) && !text::eq_ci(d, b) && !text::eq_ci(d, c)
        }),
{
    reveal_strlit("DeviceInstanceId");
    reveal_strlit("DeviceHardwareIds");
    reveal_strlit("DeviceProductName");
    reveal_strlit("EndpointHistory");
    let a = text::ascii_lower(VALUE_DEVICE_INSTANCE_ID@);
    let b = text::ascii_lower(VALUE_DEVICE_HARDWARE_IDS@);
    let c = text::ascii_lower(VALUE_DEVICE_PRODUCT_NAME@);
    let d = text::ascii_lower(VALUE_ENDPOINT_HISTORY@);
    assert(a[6] == 'i');
    assert(b[6] == 'h');
    assert(c[6] == 'p');
    assert(d[6] == 'n');
}

/// A sorted list in which each text is the normal form of an endpoint identifier is
/// its own normal form.
proof fn lemma_history_is_normal(list: Seq<Seq<char>>)
    requires
        forall|i: int| 0 <= i < list.len() ==> endpoint_guid(#[trigger] list[i]) == Some(list[i]),
        forall|i: int, j: int|
            0 <= i < j < list.len() ==> #[trigger] list[i] != #[trigger] list[j],
    ensures
        endpoint_history(list) == list,
    decreases list.len(),
{
    if list.len() > 0 {
        let t = list.drop_last();
        assert forall|i: int| 0 <= i < t.len() implies endpoint_guid(#[trigger] t[i]) == Some(
            t[i],
        ) by {
            assert(t[i] == list[i]);
        }
        assert forall|i: int, j: int| 0 <= i < j < t.len() implies #[trigger] t[i]
            != #[trigger] t[j] by {
            assert(t[i] == list[i] && t[j] == list[j]);
        }
        lemma_history_is_normal(t);
        assert(!t.contains(list.last())) by {
            if t.contains(list.last()) {
                let k = choose|k: int| 0 <= k < t.len() && t[k] == list.last();
                assert(list[k] == list[list.len() - 1]);
            }
        }
        assert(endpoint_guid(list[list.len() - 1]) == Some(list.last()));
        assert(t.push(list.last()) =~= list);
    } else {
        assert(list =~= Seq::empty());
    }
}

/// A merged history reads back as it was written.
proof fn lemma_merged_is_normal(lists: Seq<Seq<Seq<char>>>)
    ensures
        endpoint_history(merged_history(lists)) == merged_history(lists),
{
    let m = merged_history(lists);
    law_merged_history(lists);
    assert forall|i: int| 0 <= i < m.len() implies endpoint_guid(#[trigger] m[i]) == Some(m[i]) by {
        assert(m.contains(m[i]));
        let k = choose|k: int| 0 <= k < lists.len() && names_endpoint(#[trigger] lists[k], m[i]);
        let j = choose|j: int|
            0 <= j < lists[k].len() && endpoint_guid(#[trigger] lists[k][j]) == Some(m[i]);
        law_endpoint_guid_idempotent(lists[k][j]);
    }
    assert forall|i: int, j: int| 0 <= i < j < m.len() implies #[trigger] m[i]
        != #[trigger] m[j] by {
        text::lemma_text_lt_irreflexive(m[i]);
    }
    lemma_history_is_normal(m);
}

/// Device identifiers in normal form are read back as they were written.
proof fn lemma_ids_are_normal(list: Seq<Seq<char>>)
    requires
        forall|i: int|
            0 <= i < list.len() ==> device_id(#[trigger] list[i]) == list[i] && list[i].len() > 0,
    ensures
        device_ids(list) == list,
    decreases list.len(),
{
    if list.len() > 0 {
        let t = list.drop_last();
        assert forall|i: int| 0 <= i < t.len() implies device_id(#[trigger] t[i]) == t[i]
            && t[i].len() > 0 by {
            assert(t[i] == list[i]);
        }
        lemma_ids_are_normal(t);
        assert(device_id(list[list.len() - 1]) == list.last());
        assert(t.push(list.last()) =~= list);
    } else {
        assert(list =~= Seq::empty());
    }
}

/// Whether the parts of an identity are in normal form.
pub open spec fn is_normal(id: IdentityView) -> bool {
    &&& device_id(id.instance_id) == id.instance_id
    &&& text::trim(id.product_name) == id.product_name
    &&& forall|i: int|
        0 <= i < id.hardware_ids.len() ==> device_id(#[trigger] id.hardware_ids[i])
            == id.hardware_ids[i] && id.hardware_ids[i].len() > 0
}

/// An identity in normal form reads back from a record as it was written: each part
/// that is known, and the merged history; of what is not known the record keeps what
/// it had.
pub proof fn law_identity_reads_back(
    r: Seq<KeyView>,
    path: Seq<char>,
    id: IdentityView,
    history: Seq<Seq<char>>,
)
    requires
        registry::has_key(r, Hkey::LocalMachine, path),
        is_normal(id),
    ensures
        ({
            let before = record_identity(r, Hkey::LocalMachine, path);
            let after = record_identity(
                registry::apply_all(r, identity_ops(path, id, history)),
                Hkey::LocalMachine,
                path,
            );
            let merged = merged_history(seq![history]);
            &&& after.instance_id == (if id.instance_id.len() > 0 {
                id.instance_id
            } else {
                before.instance_id
            })
            &&& after.hardware_ids == (if id.hardware_ids.len() > 0 {
                id.hardware_ids
            } else {
                before.hardware_ids
            })
            &&& after.product_name == (if id.product_name.len() > 0 {
                id.product_name
            } else {
                before.product_name
            })
            &&& after.endpoint_history == (if merged.len() > 0 {
                merged
            } else {
                before.endpoint_history
            })
        }),
{
    let merged = merged_history(seq![history]);
    let n1 = VALUE_DEVICE_INSTANCE_ID@;
    let n2 = VALUE_DEVICE_HARDWARE_IDS@;
    let n3 = VALUE_DEVICE_PRODUCT_NAME@;
    let n4 = VALUE_ENDPOINT_HISTORY@;
    let v1 = ValueView::Sz(id.instance_id);
    let v2 = ValueView::MultiSz(id.hardware_ids);
    let v3 = ValueView::Sz(id.product_name);
    let v4 = ValueView::MultiSz(merged);
    let c1 = id.instance_id.len() > 0;
    let c2 = id.hardware_ids.len() > 0;
    let c3 = id.product_name.len() > 0;
    let c4 = merged.len() > 0;
    let h = Hkey::LocalMachine;
    let o1 = op_if(c1, OpView::SetValue { root: h, path, name: n1, value: v1 });
    let o2 = op_if(c2, OpView::SetValue { root: h, path, name: n2, value: v2 });
    let o3 = op_if(c3, OpView::SetValue { root: h, path, name: n3, value: v3 });
    let o4 = op_if(c4, OpView::SetValue { root: h, path, name: n4, value: v4 });
    let r1 = registry::apply_all(r, o1);
    let r2 = registry::apply_all(r1, o2);
    let r3 = registry::apply_all(r2, o3);
    assert(identity_ops(path, id, history) =~= o1 + (o2 + (o3 + o4)));
    registry::lemma_apply_all_concat(r, o1, o2 + (o3 + o4));
    registry::lemma_apply_all_concat(r1, o2, o3 + o4);
    registry::lemma_apply_all_concat(r2, o3, o4);
    lemma_names_differ();
    lemma_written_if(r, path, n1, v1, c1, n1);
    lemma_written_if(r, path, n1, v1, c1, n2);
    lemma_written_if(r, path, n1, v1, c1, n3);
    lemma_written_if(r, path, n1, v1, c1, n4);
    lemma_written_if(r1, path, n2, v2, c2, n1);
    lemma_written_if(r1, path, n2, v2, c2, n2);
    lemma_written_if(r1, path, n2, v2, c2, n3);
    lemma_written_if(r1, path, n2, v2, c2, n4);
    lemma_written_if(r2, path, n3, v3, c3, n1);
    lemma_written_if(r2, path, n3, v3, c3, n2);
    lemma_written_if(r2, path, n3, v3, c3, n3);
    lemma_written_if(r2, path, n3, v3, c3, n4);
    lemma_written_if(r3, path, n4, v4, c4, n1);
    lemma_written_if(r3, path, n4, v4, c4, n2);
    lemma_written_if(r3, path, n4, v4, c4, n3);
    lemma_written_if(r3, path, n4, v4, c4, n4);
    lemma_ids_are_normal(id.hardware_ids);
    lemma_merged_is_normal(seq![history]);
}

// ---------------------------------------------------------------------------
// Normal forms of devices
// ---------------------------------------------------------------------------
/// Whether a text has no letter in lower case and no hash mark.
pub open spec fn is_upper_path(s: Seq<char>) -> bool {
    forall|i: int| 0 <= i < s.len() ==> !('a' <= #[trigger] s[i] <= 'z') && s[i] != '#'
}

proof fn lemma_strip_prefixes(s: Seq<char>)
    requires
        is_upper_path(s),
    ensures
        is_upper_path(strip_device_prefixes(s)),
    decreases s.len(),
{
    if has_device_prefix(s) && s.len() >= 4 {
        let t = s.subrange(4, s.len() as int);
        assert forall|i: int| 0 <= i < t.len() implies !('a' <= #[trigger] t[i] <= 'z') && t[i]
            != '#' by {
            assert(t[i] == s[i + 4]);
        }
        lemma_strip_prefixes(t);
    }
}

proof fn lemma_strip_start(s: Seq<char>, c: char)
    requires
        is_upper_path(s),
    ensures
        is_upper_path(text::strip_start(s, c)),
        text::strip_start(s, c).len() > 0 ==> text::strip_start(s, c)[0] != c,
    decreases s.len(),
{
    if s.len() > 0 && s[0] == c {
        let t = s.subrange(1, s.len() as int);
        assert forall|i: int| 0 <= i < t.len() implies !('a' <= #[trigger] t[i] <= 'z') && t[i]
            != '#' by {
            assert(t[i] == s[i + 1]);
        }
        lemma_strip_start(t, c);
    }
}

proof fn lemma_strip_end(s: Seq<char>, c: char)
    requires
        is_upper_path(s),
        s.len() > 0 ==> s[0] != c,
    ensures
        is_upper_path(text::strip_end(s, c)),
        text::strip_end(s, c).len() > 0 ==> text::strip_end(s, c)[0] != c && text::strip_end(
            s,
            c,
        ).last() != c,
    decreases s.len(),
{
    if s.len() > 0 && s.last() == c {
        let t = s.drop_last();
        assert forall|i: int| 0 <= i < t.len() implies !('a' <= #[trigger] t[i] <= 'z') && t[i]
            != '#' by {
            assert(t[i] == s[i]);
        }
        if t.len() > 0 {
            assert(t[0] == s[0]);
        }
        lemma_strip_end(t, c);
    }
}

/// The normal form of a device identifier has its letters in upper case, backslashes in
/// place of hash marks, and none of them at either end.
pub proof fn law_device_id_form(value: Seq<char>)
    ensures
        is_upper_path(device_id(value)),
        device_id(value).len() > 0 ==> device_id(value)[0] != '\\' && device_id(value).last()
            != '\\',
{
    let u = text::ascii_upper(text::replace_char(text::trim(value), '#', '\\'));
    lemma_strip_prefixes(u);
    lemma_strip_start(strip_device_prefixes(u), '\\');
    lemma_strip_end(text::strip_start(strip_device_prefixes(u), '\\'), '\\');
}

/// Device identifiers that differ only in the case of letters, or in hash marks where the
/// other has backslashes, have the same normal form.
pub proof fn law_device_id_is_shared(a: Seq<char>, b: Seq<char>)
    requires
        text::trim(a) == a,
        text::trim(b) == b,
        a.len() == b.len(),
        forall|i: int|
            0 <= i < a.len() ==> #[trigger] text::upper_char(a[i]) == text::upper_char(b[i]) || (a[i]
                == '#' && b[i] == '\\') || (a[i] == '\\' && b[i] == '#'),
    ensures
        device_id(a) == device_id(b),
{
    let x = text::ascii_upper(text::replace_char(a, '#', '\\'));
    let y = text::ascii_upper(text::replace_char(b, '#', '\\'));
    assert forall|i: int| 0 <= i < x.len() implies x[i] == y[i] by {
        assert(text::upper_char(a[i]) == text::upper_char(b[i]) || (a[i] == '#' && b[i] == '\\')
            || (a[i] == '\\' && b[i] == '#'));
    }
    assert(x =~= y);
}

/// The GUID in its last braces is what an endpoint identifier stands for, whatever stands
/// before it.
pub proof fn law_endpoint_guid_of_identifier(front: Seq<char>, c: Seq<char>)
    requires
        guid::is_guid_text(c),
        front.len() > 0 ==> !text::is_ws(front[0]),
    ensures
        endpoint_guid(front + c) == Some(text::ascii_lower(c)),
{
    let s = front + c;
    let n = front.len() as int;
    crate::guid::lemma_guid_text_inner(c);
    assert(c.len() == 38 && c[0] == '{' && c[37] == '}');
    if n > 0 {
        assert(s[0] == front[0]);
    } else {
        assert(s[0] == c[0]);
    }
    assert(s.last() == c[37]);
    text::lemma_trim_noop(s);
    assert forall|j: int| n + 1 <= j < s.len() implies s[j] != '{' by {
        assert(s[j] == c[j - n]);
    }
    text::lemma_last_index(s, '{', n + 1);
    let rest = s.subrange(n, s.len() as int);
    assert(rest =~= c);
    assert forall|j: int| 0 <= j < 37 implies c[j] != '}' by {}
    text::lemma_span_until(c, '}', 37);
    assert(c.subrange(0, 38) =~= c);
}

} // verus!
