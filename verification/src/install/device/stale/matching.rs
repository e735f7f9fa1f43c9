//! Matching records to active endpoints.

use vstd::prelude::*;
use crate::install::device::endpoint;
use crate::install::device::endpoint::query_endpoint;
use crate::install::device::identity;
use crate::install::device::identity::{
    normalize_device_id, read_endpoint_identity, EndpointIdentity, IdentityView,
};
use crate::install::device::info;
use crate::install::device::info::{
    enumerate_devices, find_endpoint_path, DeviceView, CAPTURE_PATH, RENDER_PATH,
};
use crate::registry;
use crate::registry::{copy_texts, join_path, Hkey, KeyView, RegKey, Registry};
use crate::text;
use crate::text::{eq, holds_text, lower};

verus! {

// ---------------------------------------------------------------------------
// Active endpoints
// ---------------------------------------------------------------------------
/// An active endpoint and the identity of its device.
#[derive(Clone, Debug, PartialEq, Eq)]
pub struct ActiveEndpoint {
    pub guid: String,
    pub name: String,
    pub identity: EndpointIdentity,
}

/// The contents of an active endpoint.
pub struct ActiveView {
    pub guid: Seq<char>,
    pub name: Seq<char>,
    pub identity: IdentityView,
}

impl View for ActiveEndpoint {
    type V = ActiveView;

    open spec fn view(&self) -> ActiveView {
        ActiveView { guid: self.guid@, name: self.name@, identity: self.identity@ }
    }
}

/// The contents of a list of active endpoints.
pub open spec fn actives(v: Seq<ActiveEndpoint>) -> Seq<ActiveView> {
    v.map_values(|e: ActiveEndpoint| e@)
}

/// The identity of the device of an endpoint, by its GUID.
pub open spec fn identity_of_guid(r: Seq<KeyView>, guid: Seq<char>) -> IdentityView {
    match info::endpoint_path(r, guid) {
        Some(p) => identity::live_identity(r, p),
        None => identity::unknown_identity(),
    }
}

/// The endpoints of some devices.
pub open spec fn active_of(r: Seq<KeyView>, list: Seq<DeviceView>) -> Seq<ActiveView>
    decreases list.len(),
{
    if list.len() == 0 {
        Seq::empty()
    } else {
        let rest = active_of(r, list.drop_last());
        match list.last().endpoint {
            Some(e) => rest.push(
                ActiveView {
                    guid: e.endpoint_guid,
                    name: e.friendly_name,
                    identity: identity_of_guid(r, e.endpoint_guid),
                },
            ),
            None => rest,
        }
    }
}

/// The active endpoints.
pub open spec fn active_set(r: Seq<KeyView>) -> Seq<ActiveView> {
    active_of(r, info::active_devices(r))
}

/// The active endpoints.
pub fn active_endpoints(registry: &Registry) -> (r: Vec<ActiveEndpoint>)
    ensures
        actives(r@) == active_set(registry@),
{
    let mut out: Vec<ActiveEndpoint> = Vec::new();
    let devices = match enumerate_devices(registry) {
        Ok(d) => d,
        Err(_) => Vec::new(),
    };
    let ghost all = info::devices(devices@);
    let mut i: usize = 0;
    assert(all.take(0) =~= Seq::empty());
    assert(actives(out@) =~= Seq::empty());
    while i < devices.len()
        invariant
            i <= devices.len(),
            all == info::devices(devices@),
            actives(out@) == active_of(registry@, all.take(i as int)),
        decreases devices.len() - i,
    {
        let ghost t = all.take(i + 1);
        let ghost before = actives(out@);
        let d = &devices[i];
        assert(t.drop_last() =~= all.take(i as int));
        assert(t.last() == d@);
        match &d.endpoint {
            Some(e) => {
                let found = match find_endpoint_path(registry, e.endpoint_guid.as_str()) {
                    Ok(path) => read_endpoint_identity(registry, path.as_str()),
                    Err(_) => EndpointIdentity::default(),
                };
                let ep = ActiveEndpoint {
                    guid: e.endpoint_guid.clone(),
                    name: e.friendly_name.clone(),
                    identity: found,
                };
                out.push(ep);
                assert(actives(out@) =~= before.push(ep@));
            },
            None => {},
        }
        i += 1;
    }
    assert(all.take(i as int) =~= all);
    out
}

// ---------------------------------------------------------------------------
// The index
// ---------------------------------------------------------------------------
/// How a record was matched to an endpoint.
#[derive(Clone, Copy, Debug, PartialEq, Eq, Structural)]
pub enum MatchSource {
    EndpointHistory,
    DeviceInstanceId,
    StoredIdentity,
    HardwareId,
}

impl MatchSource {
    /// The name of the source.
    pub open spec fn name_view(self) -> Seq<char> {
        match self {
            MatchSource::EndpointHistory => "endpoint_history"@,
            MatchSource::DeviceInstanceId => "device_instance_id"@,
            MatchSource::StoredIdentity => "stored_identity"@,
            MatchSource::HardwareId => "hardware_id"@,
        }
    }

    /// The name of the source.
    pub fn name(self) -> (r: &'static str)
        ensures
            r@ == self.name_view(),
    {
        match self {
            MatchSource::EndpointHistory => "endpoint_history",
            MatchSource::DeviceInstanceId => "device_instance_id",
            MatchSource::StoredIdentity => "stored_identity",
            MatchSource::HardwareId => "hardware_id",
        }
    }
}

/// What matching a record came to.
#[derive(Clone, Copy, Debug, PartialEq, Eq, Structural)]
pub enum MatchOutcome {
    /// One active endpoint, by its position, and how it was found.
    Matched(usize, MatchSource),
    /// More than one endpoint.
    Ambiguous,
    /// No endpoint.
    Unmatched,
}

/// What matching a record came to.
pub enum OutcomeView {
    Matched(int, MatchSource),
    Ambiguous,
    Unmatched,
}

impl View for MatchOutcome {
    type V = OutcomeView;

    open spec fn view(&self) -> OutcomeView {
        match self {
            MatchOutcome::Matched(i, s) => OutcomeView::Matched(*i as int, *s),
            MatchOutcome::Ambiguous => OutcomeView::Ambiguous,
            MatchOutcome::Unmatched => OutcomeView::Unmatched,
        }
    }
}

/// What an active endpoint is found by.
#[derive(Clone, Debug, PartialEq, Eq)]
pub struct EndpointKeys {
    /// The GUID, in lower case.
    pub guid: String,
    /// The product name, in the form that is compared.
    pub product: String,
    pub history: Vec<String>,
    pub instance: String,
    pub hardware: Vec<String>,
}

/// The contents of what an active endpoint is found by.
pub struct KeysView {
    pub guid: Seq<char>,
    pub product: Seq<char>,
    pub history: Seq<Seq<char>>,
    pub instance: Seq<char>,
    pub hardware: Seq<Seq<char>>,
}

impl View for EndpointKeys {
    type V = KeysView;

    open spec fn view(&self) -> KeysView {
        KeysView {
            guid: self.guid@,
            product: self.product@,
            history: text::texts(self.history@),
            instance: self.instance@,
            hardware: text::texts(self.hardware@),
        }
    }
}

/// The form in which product names are compared.
pub open spec fn product_form(id: IdentityView) -> Seq<char> {
    text::unicode_lower(text::trim(id.product_name))
}

/// What an active endpoint is found by.
pub open spec fn keys_of(a: ActiveView) -> KeysView {
    KeysView {
        guid: text::ascii_lower(a.guid),
        product: product_form(a.identity),
        history: a.identity.endpoint_history,
        instance: a.identity.instance_id,
        hardware: a.identity.hardware_ids,
    }
}

/// What to look an endpoint up by.
#[derive(Clone, Copy, Debug, PartialEq, Eq)]
pub enum Lookup<'a> {
    /// A former endpoint of the device.
    History(&'a str),
    /// The instance identifier.
    Instance(&'a str),
    /// A hardware identifier.
    Hardware(&'a str),
}

/// The contents of what to look an endpoint up by.
pub enum LookupView {
    History(Seq<char>),
    Instance(Seq<char>),
    Hardware(Seq<char>),
}

impl<'a> View for Lookup<'a> {
    type V = LookupView;

    open spec fn view(&self) -> LookupView {
        match self {
            Lookup::History(s) => LookupView::History(s@),
            Lookup::Instance(s) => LookupView::Instance(s@),
            Lookup::Hardware(s) => LookupView::Hardware(s@),
        }
    }
}

/// Whether an endpoint is found by something; nothing is found by an empty
/// instance identifier.
pub open spec fn found_by(k: KeysView, by: LookupView) -> bool {
    match by {
        LookupView::History(g) => k.history.contains(g),
        LookupView::Instance(id) => k.instance.len() > 0 && k.instance == id,
        LookupView::Hardware(id) => k.hardware.contains(id),
    }
}

/// The positions of the endpoints that are found by something.
pub open spec fn candidates(index: Seq<KeysView>, by: LookupView) -> Seq<int>
    decreases index.len(),
{
    if index.len() == 0 {
        Seq::empty()
    } else {
        let rest = candidates(index.drop_last(), by);
        if found_by(index.last(), by) {
            rest.push(index.len() - 1)
        } else {
            rest
        }
    }
}

/// The position of the last endpoint with a GUID.
pub open spec fn with_guid(index: Seq<KeysView>, guid: Seq<char>) -> Option<int>
    decreases index.len(),
{
    if index.len() == 0 {
        None
    } else if index.last().guid == guid {
        Some(index.len() - 1)
    } else {
        with_guid(index.drop_last(), guid)
    }
}

/// The positions of the endpoints with some GUIDs.
pub open spec fn with_guids(index: Seq<KeysView>, guids: Seq<Seq<char>>) -> Seq<int>
    decreases guids.len(),
{
    if guids.len() == 0 {
        Seq::empty()
    } else {
        let rest = with_guids(index, guids.drop_last());
        match with_guid(index, guids.last()) {
            Some(i) => rest.push(i),
            None => rest,
        }
    }
}

/// Positions as mathematical integers.
pub open spec fn ints(v: Seq<usize>) -> Seq<int> {
    v.map_values(|i: usize| i as int)
}

/// A list with a position added unless it is there.
pub open spec fn with_unique(list: Seq<int>, i: int) -> Seq<int> {
    if list.contains(i) {
        list
    } else {
        list.push(i)
    }
}

/// A list with positions added that are not there yet.
pub open spec fn with_all(list: Seq<int>, items: Seq<int>) -> Seq<int>
    decreases items.len(),
{
    if items.len() == 0 {
        list
    } else {
        with_unique(with_all(list, items.drop_last()), items.last())
    }
}

/// Adds a position to a list unless it is there.
pub fn push_unique(list: &mut Vec<usize>, value: usize)
    ensures
        ints(final(list)@) == with_unique(ints(old(list)@), value as int),
{
    let ghost before = ints(list@);
    let mut i: usize = 0;
    while i < list.len()
        invariant
            i <= list.len(),
            before == ints(list@),
            *list == *old(list),
            forall|j: int| 0 <= j < i ==> list@[j] != value,
        decreases list.len() - i,
    {
        if list[i] == value {
            assert(before[i as int] == value as int);
            return;
        }
        i += 1;
    }
    assert(!before.contains(value as int)) by {
        assert forall|j: int| 0 <= j < before.len() implies before[j] != value as int by {
            assert(before[j] == list@[j] as int);
        }
    }
    list.push(value);
    assert(ints(list@) =~= before.push(value as int));
}

/// The only position of a list; `None` when there are none or more.
pub fn unique_index(candidates: &[usize]) -> (r: Option<usize>)
    ensures
        r == (if candidates@.len() == 1 {
            Some(candidates@[0])
        } else {
            None
        }),
{
    if candidates.len() == 1 {
        Some(candidates[0])
    } else {
        None
    }
}

/// What one lookup comes to, where it finds anything.
pub open spec fn settled(found: Seq<int>, source: MatchSource) -> OutcomeView {
    if found.len() == 1 {
        OutcomeView::Matched(found[0], source)
    } else {
        OutcomeView::Ambiguous
    }
}

/// The positions of the endpoints that are found by any of some hardware
/// identifiers, each once.
pub open spec fn with_hardware(index: Seq<KeysView>, ids: Seq<Seq<char>>) -> Seq<int>
    decreases ids.len(),
{
    if ids.len() == 0 {
        Seq::empty()
    } else {
        with_all(
            with_hardware(index, ids.drop_last()),
            candidates(index, LookupView::Hardware(ids.last())),
        )
    }
}

/// Those of some positions at which the endpoint has a product name.
pub open spec fn with_product(index: Seq<KeysView>, list: Seq<int>, product: Seq<char>) -> Seq<int>
    decreases list.len(),
{
    if list.len() == 0 {
        Seq::empty()
    } else {
        let rest = with_product(index, list.drop_last(), product);
        if 0 <= list.last() < index.len() && index[list.last()].product == product {
            rest.push(list.last())
        } else {
            rest
        }
    }
}

/// The endpoints that have a hardware identifier in common with a record, and its
/// product name.
pub open spec fn by_hardware(index: Seq<KeysView>, stored: IdentityView) -> Seq<int> {
    with_product(index, with_hardware(index, stored.hardware_ids), product_form(stored))
}

/// What matching a record comes to: the first lookup that finds an endpoint
/// decides, and more than one endpoint is none.
pub open spec fn resolved(
    index: Seq<KeysView>,
    guid: Seq<char>,
    device_instance_id: Seq<char>,
    stored: IdentityView,
) -> OutcomeView {
    let history = candidates(index, LookupView::History(text::ascii_lower(guid)));
    let reverse = with_guids(index, stored.endpoint_history);
    let instance = if device_instance_id.len() > 0 {
        candidates(index, LookupView::Instance(device_instance_id))
    } else {
        Seq::empty()
    };
    let kept = if stored.instance_id.len() > 0 {
        candidates(index, LookupView::Instance(stored.instance_id))
    } else {
        Seq::empty()
    };
    let hardware = by_hardware(index, stored);
    if history.len() > 0 {
        settled(history, MatchSource::EndpointHistory)
    } else if reverse.len() > 0 {
        settled(reverse, MatchSource::EndpointHistory)
    } else if instance.len() > 0 {
        settled(instance, MatchSource::DeviceInstanceId)
    } else if kept.len() > 0 {
        settled(kept, MatchSource::StoredIdentity)
    } else if hardware.len() > 0 {
        settled(hardware, MatchSource::HardwareId)
    } else {
        OutcomeView::Unmatched
    }
}

/// The active endpoints, ready to be looked up.
#[derive(Clone, Debug, PartialEq, Eq)]
pub struct MatchIndex {
    pub endpoints: Vec<EndpointKeys>,
}

impl View for MatchIndex {
    type V = Seq<KeysView>;

    open spec fn view(&self) -> Seq<KeysView> {
        self.endpoints@.map_values(|k: EndpointKeys| k@)
    }
}

fn settle(found: &[usize], source: MatchSource) -> (r: MatchOutcome)
    requires
        found@.len() > 0,
    ensures
        r@ == settled(ints(found@), source),
{
    match unique_index(found) {
        Some(i) => MatchOutcome::Matched(i, source),
        None => MatchOutcome::Ambiguous,
    }
}

fn add_unique(list: &mut Vec<usize>, items: &[usize])
    ensures
        ints(final(list)@) == with_all(ints(old(list)@), ints(items@)),
{
    let ghost all = ints(items@);
    let ghost start = ints(list@);
    let mut i: usize = 0;
    assert(all.take(0) =~= Seq::empty());
    while i < items.len()
        invariant
            i <= items.len(),
            all == ints(items@),
            start == ints(old(list)@),
            ints(list@) == with_all(start, all.take(i as int)),
        decreases items.len() - i,
    {
        let ghost t = all.take(i + 1);
        assert(t.drop_last() =~= all.take(i as int));
        assert(t.last() == items@[i as int] as int);
        push_unique(list, items[i]);
        i += 1;
    }
    assert(all.take(i as int) =~= all);
}

impl MatchIndex {
    /// The index of some active endpoints.
    pub fn new(active: &[ActiveEndpoint]) -> (r: MatchIndex)
        ensures
            r@ == actives(active@).map_values(|a: ActiveView| keys_of(a)),
    {
        let mut endpoints: Vec<EndpointKeys> = Vec::new();
        let ghost all = actives(active@).map_values(|a: ActiveView| keys_of(a));
        let mut i: usize = 0;
        while i < active.len()
            invariant
                i <= active.len(),
                all == actives(active@).map_values(|a: ActiveView| keys_of(a)),
                endpoints@.len() == i,
                forall|j: int| 0 <= j < i ==> (#[trigger] endpoints@[j])@ == all[j],
            decreases active.len() - i,
        {
            let ep = &active[i];
            let k = EndpointKeys {
                guid: lower(ep.guid.as_str()),
                product: ep.identity.product_key(),
                history: copy_texts(ep.identity.endpoint_history.as_slice()),
                instance: ep.identity.instance_id.clone(),
                hardware: copy_texts(ep.identity.hardware_ids.as_slice()),
            };
            assert(actives(active@)[i as int] == ep@);
            endpoints.push(k);
            i += 1;
        }
        let r = MatchIndex { endpoints };
        assert(r@ =~= all);
        r
    }

    /// Whether an endpoint is found by something.
    fn is_found(k: &EndpointKeys, by: &Lookup) -> (r: bool)
        ensures
            r == found_by(k@, by@),
    {
        match by {
            Lookup::History(g) => holds_text(k.history.as_slice(), g),
            Lookup::Instance(id) => !k.instance.as_str().is_empty() && eq(k.instance.as_str(), id),
            Lookup::Hardware(id) => holds_text(k.hardware.as_slice(), id),
        }
    }

    /// The positions of the endpoints that are found by something.
    pub fn find(&self, by: &Lookup) -> (r: Vec<usize>)
        ensures
            ints(r@) == candidates(self@, by@),
    {
        let mut out: Vec<usize> = Vec::new();
        let mut i: usize = 0;
        assert(self@.take(0) =~= Seq::empty());
        assert(ints(out@) =~= Seq::empty());
        while i < self.endpoints.len()
            invariant
                i <= self.endpoints.len(),
                ints(out@) == candidates(self@.take(i as int), by@),
            decreases self.endpoints.len() - i,
        {
            let ghost t = self@.take(i + 1);
            let ghost before = ints(out@);
            assert(t.drop_last() =~= self@.take(i as int));
            assert(t.last() == self.endpoints@[i as int]@);
            if Self::is_found(&self.endpoints[i], by) {
                out.push(i);
                assert(ints(out@) =~= before.push(i as int));
            }
            i += 1;
        }
        assert(self@.take(i as int) =~= self@);
        out
    }

    /// The position of the last endpoint with a GUID.
    pub fn find_guid(&self, guid: &str) -> (r: Option<usize>)
        ensures
            with_guid(self@, guid@) == (match r {
                Some(i) => Some(i as int),
                None => None,
            }),
    {
        let mut i: usize = self.endpoints.len();
        assert(self@.take(i as int) =~= self@);
        while i > 0
            invariant
                i <= self.endpoints.len(),
                with_guid(self@, guid@) == with_guid(self@.take(i as int), guid@),
            decreases i,
        {
            i -= 1;
            let ghost t = self@.take(i + 1);
            assert(t.drop_last() =~= self@.take(i as int));
            assert(t.last() == self.endpoints@[i as int]@);
            if eq(self.endpoints[i].guid.as_str(), guid) {
                return Some(i);
            }
        }
        None
    }

    /// The positions of the endpoints with some GUIDs.
    fn find_guids(&self, guids: &[String]) -> (r: Vec<usize>)
        ensures
            ints(r@) == with_guids(self@, text::texts(guids@)),
    {
        let mut out: Vec<usize> = Vec::new();
        let ghost all = text::texts(guids@);
        let mut i: usize = 0;
        assert(all.take(0) =~= Seq::empty());
        assert(ints(out@) =~= Seq::empty());
        while i < guids.len()
            invariant
                i <= guids.len(),
                all == text::texts(guids@),
                ints(out@) == with_guids(self@, all.take(i as int)),
            decreases guids.len() - i,
        {
            let ghost t = all.take(i + 1);
            let ghost before = ints(out@);
            assert(t.drop_last() =~= all.take(i as int));
            assert(t.last() == guids@[i as int]@);
            match self.find_guid(guids[i].as_str()) {
                Some(n) => {
                    out.push(n);
                    assert(ints(out@) =~= before.push(n as int));
                },
                None => {},
            }
            i += 1;
        }
        assert(all.take(i as int) =~= all);
        out
    }

    /// The positions of the endpoints that are found by any of some hardware
    /// identifiers, each once.
    fn find_hardware(&self, ids: &[String]) -> (r: Vec<usize>)
        ensures
            ints(r@) == with_hardware(self@, text::texts(ids@)),
    {
        let mut out: Vec<usize> = Vec::new();
        let ghost all = text::texts(ids@);
        let mut i: usize = 0;
        assert(all.take(0) =~= Seq::empty());
        assert(ints(out@) =~= Seq::empty());
        while i < ids.len()
            invariant
                i <= ids.len(),
                all == text::texts(ids@),
                ints(out@) == with_hardware(self@, all.take(i as int)),
            decreases ids.len() - i,
        {
            let ghost t = all.take(i + 1);
            assert(t.drop_last() =~= all.take(i as int));
            assert(t.last() == ids@[i as int]@);
            let found = self.find(&Lookup::Hardware(ids[i].as_str()));
            add_unique(&mut out, found.as_slice());
            i += 1;
        }
        assert(all.take(i as int) =~= all);
        out
    }

    /// Those of some positions at which the endpoint has a product name.
    fn keep_product(&self, list: &[usize], product: &str) -> (r: Vec<usize>)
        ensures
            ints(r@) == with_product(self@, ints(list@), product@),
    {
        let mut out: Vec<usize> = Vec::new();
        let ghost all = ints(list@);
        let mut i: usize = 0;
        assert(all.take(0) =~= Seq::empty());
        assert(ints(out@) =~= Seq::empty());
        while i < list.len()
            invariant
                i <= list.len(),
                all == ints(list@),
                ints(out@) == with_product(self@, all.take(i as int), product@),
            decreases list.len() - i,
        {
            let ghost t = all.take(i + 1);
            let ghost before = ints(out@);
            let n: usize = list[i];
            assert(t.drop_last() =~= all.take(i as int));
            assert(t.last() == n as int);
            if n < self.endpoints.len() {
                assert(self@[n as int] == self.endpoints@[n as int]@);
                if eq(self.endpoints[n].product.as_str(), product) {
                    out.push(n);
                    assert(ints(out@) =~= before.push(n as int));
                }
            }
            i += 1;
        }
        assert(all.take(i as int) =~= all);
        out
    }

    fn find_by_hardware(&self, stored: &EndpointIdentity) -> (r: Vec<usize>)
        ensures
            ints(r@) == by_hardware(self@, stored@),
    {
        let found = self.find_hardware(stored.hardware_ids.as_slice());
        let product = stored.product_key();
        self.keep_product(found.as_slice(), product.as_str())
    }

    /// Matches a record to an active endpoint. The lookups are tried in order of
    /// how much they tell; the first that finds an endpoint decides.
    pub fn resolve(
        &self,
        guid: &str,
        device_instance_id: &str,
        stored: &EndpointIdentity,
    ) -> (r: MatchOutcome)
        ensures
            r@ == resolved(self@, guid@, device_instance_id@, stored@),
    {
        let key = lower(guid);
        let history = self.find(&Lookup::History(key.as_str()));
        assert(ints(history@).len() == history@.len());
        if history.len() > 0 {
            return settle(history.as_slice(), MatchSource::EndpointHistory);
        }
        let reverse = self.find_guids(stored.endpoint_history.as_slice());
        assert(ints(reverse@).len() == reverse@.len());
        if reverse.len() > 0 {
            return settle(reverse.as_slice(), MatchSource::EndpointHistory);
        }
        if !device_instance_id.is_empty() {
            let found = self.find(&Lookup::Instance(device_instance_id));
            assert(ints(found@).len() == found@.len());
            if found.len() > 0 {
                return settle(found.as_slice(), MatchSource::DeviceInstanceId);
            }
        }
        if !stored.instance_id.as_str().is_empty() {
            let found = self.find(&Lookup::Instance(stored.instance_id.as_str()));
            assert(ints(found@).len() == found@.len());
            if found.len() > 0 {
                return settle(found.as_slice(), MatchSource::StoredIdentity);
            }
        }
        let found = self.find_by_hardware(stored);
        assert(ints(found@).len() == found@.len());
        if found.len() > 0 {
            settle(found.as_slice(), MatchSource::HardwareId)
        } else {
            MatchOutcome::Unmatched
        }
    }
}

// ---------------------------------------------------------------------------
// The old endpoint
// ---------------------------------------------------------------------------
/// The instance identifier of the endpoint at a place.
pub open spec fn instance_at(r: Seq<KeyView>, path: Seq<char>) -> Option<Seq<char>> {
    let id = endpoint::endpoint_at(r, Hkey::LocalMachine, path).device_id;
    if registry::has_key(r, Hkey::LocalMachine, path) && id.len() > 0 {
        Some(identity::device_id(id))
    } else {
        None
    }
}

/// The instance identifier of an endpoint, whatever its state.
pub open spec fn instance_of_guid(r: Seq<KeyView>, guid: Seq<char>) -> Option<Seq<char>> {
    let render = instance_at(r, registry::join(RENDER_PATH@, guid));
    if render is Some {
        render
    } else {
        instance_at(r, registry::join(CAPTURE_PATH@, guid))
    }
}

fn read_instance(registry: &Registry, root: &str, guid: &str) -> (r: Option<String>)
    ensures
        instance_at(registry@, registry::join(root@, guid@)) == (match r {
            Some(s) => Some(s@),
            None => None,
        }),
{
    let path = join_path(root, guid);
    match RegKey::open(registry, Hkey::LocalMachine, path.as_str()) {
        Some(key) => match query_endpoint(&key) {
            Ok(Some(found)) => if found.device_id.as_str().is_empty() {
                None
            } else {
                Some(normalize_device_id(found.device_id.as_str()))
            },
            _ => None,
        },
        None => None,
    }
}

/// The instance identifier of an endpoint, whatever its state.
pub fn endpoint_device_instance_id(registry: &Registry, guid: &str) -> (r: Option<String>)
    ensures
        instance_of_guid(registry@, guid@) == (match r {
            Some(s) => Some(s@),
            None => None,
        }),
{
    match read_instance(registry, RENDER_PATH, guid) {
        Some(id) => Some(id),
        None => read_instance(registry, CAPTURE_PATH, guid),
    }
}

// ---------------------------------------------------------------------------
// What matching promises
// ---------------------------------------------------------------------------
/// Whether a lookup finds the endpoint at a position.
pub open spec fn finds(index: Seq<KeysView>, by: LookupView, i: int) -> bool {
    0 <= i < index.len() && found_by(index[i], by)
}

/// The candidates of a lookup are the endpoints that it finds, each once.
pub proof fn law_candidates(index: Seq<KeysView>, by: LookupView)
    ensures
        forall|i: int| #[trigger] candidates(index, by).contains(i) == finds(index, by, i),
        candidates(index, by).no_duplicates(),
    decreases index.len(),
{
    let all = candidates(index, by);
    if index.len() > 0 {
        let t = index.drop_last();
        let n = index.len() - 1;
        let rest = candidates(t, by);
        law_candidates(t, by);
        assert forall|i: int| #[trigger] all.contains(i) == finds(index, by, i) by {
            assert(rest.contains(i) == finds(t, by, i));
            if 0 <= i < n {
                assert(t[i] == index[i]);
            }
            if rest.contains(i) {
                let j = choose|j: int| 0 <= j < rest.len() && rest[j] == i;
                assert(all[j] == i);
            }
            if all.contains(i) && !rest.contains(i) {
                let j = choose|j: int| 0 <= j < all.len() && all[j] == i;
                assert(j == rest.len());
            }
            if i == n && found_by(index[i], by) {
                assert(all[all.len() - 1] == n);
            }
        }
        assert forall|k: int| 0 <= k < rest.len() implies rest[k] < n by {
            assert(rest.contains(rest[k]));
        }
    }
}

/// The one candidate of a lookup that has one.
proof fn lemma_only_candidate(index: Seq<KeysView>, by: LookupView)
    requires
        candidates(index, by).len() == 1,
    ensures
        0 <= candidates(index, by)[0] < index.len(),
        forall|j: int|
            0 <= j < index.len() ==> (#[trigger] found_by(index[j], by) == (j == candidates(
                index,
                by,
            )[0])),
{
    law_candidates(index, by);
    let c = candidates(index, by);
    assert(c.contains(c[0]));
    assert(finds(index, by, c[0]));
    assert forall|j: int| 0 <= j < index.len() implies (#[trigger] found_by(index[j], by) == (j
        == c[0])) by {
        if found_by(index[j], by) {
            assert(finds(index, by, j));
            assert(c.contains(j));
        }
    }
}

/// An endpoint that a record is matched to by an identifier is the only one that
/// has it: the instance identifier of the old endpoint, or the one in the record.
pub proof fn law_match_by_instance_is_unique(
    index: Seq<KeysView>,
    guid: Seq<char>,
    device_instance_id: Seq<char>,
    stored: IdentityView,
)
    ensures
        resolved(index, guid, device_instance_id, stored) matches OutcomeView::Matched(i, source)
            ==> {
            &&& source == MatchSource::DeviceInstanceId ==> 0 <= i < index.len() && forall|j: int|
                0 <= j < index.len() ==> ((#[trigger] index[j]).instance == device_instance_id) == (
                j == i)
            &&& source == MatchSource::StoredIdentity ==> 0 <= i < index.len() && forall|j: int|
                0 <= j < index.len() ==> ((#[trigger] index[j]).instance == stored.instance_id) == (
                j == i)
        },
{
    match resolved(index, guid, device_instance_id, stored) {
        OutcomeView::Matched(i, source) => {
            if source == MatchSource::DeviceInstanceId {
                let by = LookupView::Instance(device_instance_id);
                lemma_only_candidate(index, by);
                assert forall|j: int| 0 <= j < index.len() implies ((#[trigger] index[j]).instance
                    == device_instance_id) == (j == i) by {
                    assert(found_by(index[j], by) == (j == i));
                }
            }
            if source == MatchSource::StoredIdentity {
                let by = LookupView::Instance(stored.instance_id);
                lemma_only_candidate(index, by);
                assert forall|j: int| 0 <= j < index.len() implies ((#[trigger] index[j]).instance
                    == stored.instance_id) == (j == i) by {
                    assert(found_by(index[j], by) == (j == i));
                }
            }
        },
        _ => {},
    }
}

/// The endpoint that a record is matched to is an active one.
pub proof fn law_matches_are_active(
    index: Seq<KeysView>,
    guid: Seq<char>,
    device_instance_id: Seq<char>,
    stored: IdentityView,
)
    ensures
        resolved(index, guid, device_instance_id, stored) matches OutcomeView::Matched(i, _)
            ==> 0 <= i < index.len(),
{
    let a = LookupView::History(text::ascii_lower(guid));
    let b = LookupView::Instance(device_instance_id);
    let c = LookupView::Instance(stored.instance_id);
    lemma_candidates_in_range(index, a);
    lemma_candidates_in_range(index, b);
    lemma_candidates_in_range(index, c);
    lemma_with_guids_in_range(index, stored.endpoint_history);
    lemma_with_hardware_in_range(index, stored.hardware_ids);
    let found = with_hardware(index, stored.hardware_ids);
    lemma_with_product_in_range(index, found, product_form(stored));
}

/// Whether every position of a list is one of an endpoint.
pub open spec fn in_range(index: Seq<KeysView>, list: Seq<int>) -> bool {
    forall|i: int| 0 <= i < list.len() ==> 0 <= #[trigger] list[i] < index.len()
}

proof fn lemma_candidates_in_range(index: Seq<KeysView>, by: LookupView)
    ensures
        in_range(index, candidates(index, by)),
    decreases index.len(),
{
    if index.len() > 0 {
        lemma_candidates_in_range(index.drop_last(), by);
    }
}

proof fn lemma_with_guid_in_range(index: Seq<KeysView>, guid: Seq<char>)
    ensures
        with_guid(index, guid) matches Some(i) ==> 0 <= i < index.len(),
    decreases index.len(),
{
    if index.len() > 0 {
        lemma_with_guid_in_range(index.drop_last(), guid);
    }
}

proof fn lemma_with_guids_in_range(index: Seq<KeysView>, guids: Seq<Seq<char>>)
    ensures
        in_range(index, with_guids(index, guids)),
    decreases guids.len(),
{
    if guids.len() > 0 {
        lemma_with_guids_in_range(index, guids.drop_last());
        lemma_with_guid_in_range(index, guids.last());
    }
}

proof fn lemma_with_all_in_range(index: Seq<KeysView>, list: Seq<int>, items: Seq<int>)
    requires
        in_range(index, list),
        in_range(index, items),
    ensures
        in_range(index, with_all(list, items)),
    decreases items.len(),
{
    if items.len() > 0 {
        let t = items.drop_last();
        assert forall|i: int| 0 <= i < t.len() implies 0 <= #[trigger] t[i] < index.len() by {
            assert(t[i] == items[i]);
        }
        lemma_with_all_in_range(index, list, t);
        assert(0 <= items[items.len() - 1] < index.len());
    }
}

proof fn lemma_with_hardware_in_range(index: Seq<KeysView>, ids: Seq<Seq<char>>)
    ensures
        in_range(index, with_hardware(index, ids)),
    decreases ids.len(),
{
    if ids.len() > 0 {
        lemma_with_hardware_in_range(index, ids.drop_last());
        lemma_candidates_in_range(index, LookupView::Hardware(ids.last()));
        lemma_with_all_in_range(
            index,
            with_hardware(index, ids.drop_last()),
            candidates(index, LookupView::Hardware(ids.last())),
        );
    }
}

proof fn lemma_with_product_in_range(index: Seq<KeysView>, list: Seq<int>, product: Seq<char>)
    ensures
        in_range(index, with_product(index, list, product)),
    decreases list.len(),
{
    if list.len() > 0 {
        lemma_with_product_in_range(index, list.drop_last(), product);
    }
}

proof fn lemma_with_all(list: Seq<int>, items: Seq<int>)
    ensures
        forall|i: int| #[trigger]
            with_all(list, items).contains(i) == (list.contains(i) || items.contains(i)),
    decreases items.len(),
{
    if items.len() > 0 {
        let t = items.drop_last();
        lemma_with_all(list, t);
        let rest = with_all(list, t);
        assert forall|i: int| #[trigger]
            with_all(list, items).contains(i) == (list.contains(i) || items.contains(i)) by {
            assert(rest.contains(i) == (list.contains(i) || t.contains(i)));
            assert(items =~= t.push(items.last()));
            lemma_push_contains(t, items.last(), i);
            lemma_push_contains(rest, items.last(), i);
        }
    } else {
        assert forall|i: int| #[trigger]
            with_all(list, items).contains(i) == (list.contains(i) || items.contains(i)) by {}
    }
}

proof fn lemma_push_contains<A>(s: Seq<A>, x: A, y: A)
    ensures
        s.push(x).contains(y) == (s.contains(y) || x == y),
{
    if s.contains(y) {
        let k = choose|k: int| 0 <= k < s.len() && s[k] == y;
        assert(s.push(x)[k] == y);
    }
    assert(s.push(x)[s.len() as int] == x);
    if s.push(x).contains(y) && x != y {
        let k = choose|k: int| 0 <= k < s.push(x).len() && s.push(x)[k] == y;
        assert(s[k] == y);
    }
}

proof fn lemma_with_hardware(index: Seq<KeysView>, ids: Seq<Seq<char>>, i: int)
    ensures
        with_hardware(index, ids).contains(i) == (0 <= i < index.len() && shares_hardware(
            index[i],
            ids,
        )),
    decreases ids.len(),
{
    if ids.len() > 0 {
        let t = ids.drop_last();
        let by = LookupView::Hardware(ids.last());
        lemma_with_hardware(index, t, i);
        law_candidates(index, by);
        lemma_with_all(with_hardware(index, t), candidates(index, by));
        assert(candidates(index, by).contains(i) == finds(index, by, i));
        if 0 <= i < index.len() {
            let k = index[i];
            if shares_hardware(k, t) {
                let j = choose|j: int|
                    0 <= j < t.len() && k.hardware.contains(#[trigger] t[j]);
                assert(k.hardware.contains(ids[j]));
            }
            if k.hardware.contains(ids.last()) {
                assert(k.hardware.contains(ids[ids.len() - 1]));
            }
            if shares_hardware(k, ids) && !k.hardware.contains(ids.last()) {
                let j = choose|j: int|
                    0 <= j < ids.len() && k.hardware.contains(#[trigger] ids[j]);
                assert(k.hardware.contains(t[j]));
            }
        }
    }
}

proof fn lemma_with_product(index: Seq<KeysView>, list: Seq<int>, product: Seq<char>, i: int)
    ensures
        with_product(index, list, product).contains(i) == (list.contains(i) && 0 <= i
            < index.len() && index[i].product == product),
    decreases list.len(),
{
    if list.len() > 0 {
        let t = list.drop_last();
        lemma_with_product(index, t, product, i);
        assert(list =~= t.push(list.last()));
        lemma_push_contains(t, list.last(), i);
        lemma_push_contains(with_product(index, t, product), list.last(), i);
    }
}

/// Whether an endpoint has one of some hardware identifiers.
pub open spec fn shares_hardware(k: KeysView, ids: Seq<Seq<char>>) -> bool {
    exists|j: int| 0 <= j < ids.len() && k.hardware.contains(#[trigger] ids[j])
}

/// An endpoint that a record is matched to by its hardware is the only one that
/// has a hardware identifier in common with the record, and its product name.
pub proof fn law_match_by_hardware_is_unique(
    index: Seq<KeysView>,
    guid: Seq<char>,
    device_instance_id: Seq<char>,
    stored: IdentityView,
)
    ensures
        resolved(index, guid, device_instance_id, stored) matches OutcomeView::Matched(i, source)
            ==> (source == MatchSource::HardwareId ==> 0 <= i < index.len() && forall|j: int|
            0 <= j < index.len() ==> (shares_hardware(#[trigger] index[j], stored.hardware_ids)
                && index[j].product == product_form(stored)) == (j == i)),
{
    let c = by_hardware(index, stored);
    if c.len() == 1 {
        let found = with_hardware(index, stored.hardware_ids);
        assert forall|j: int| #[trigger] c.contains(j) == (0 <= j < index.len() && shares_hardware(
            index[j],
            stored.hardware_ids,
        ) && index[j].product == product_form(stored)) by {
            lemma_with_product(index, found, product_form(stored), j);
            lemma_with_hardware(index, stored.hardware_ids, j);
        }
        assert(c.contains(c[0]));
        assert forall|j: int| 0 <= j < index.len() implies (shares_hardware(
            #[trigger] index[j],
            stored.hardware_ids,
        ) && index[j].product == product_form(stored)) == (j == c[0]) by {
            assert(c.contains(j) == (j == c[0]));
        }
    }
}

/// A record whose GUID stands in the history of one endpoint is matched to it,
/// whatever else is known; one whose GUID stands in the histories of two is
/// matched to none.
pub proof fn law_history_decides(
    index: Seq<KeysView>,
    guid: Seq<char>,
    device_instance_id: Seq<char>,
    stored: IdentityView,
    i: int,
)
    requires
        0 <= i < index.len(),
        index[i].history.contains(text::ascii_lower(guid)),
    ensures
        resolved(index, guid, device_instance_id, stored) == (if exists|j: int|
            0 <= j < index.len() && j != i && (#[trigger] index[j]).history.contains(
                text::ascii_lower(guid),
            ) {
            OutcomeView::Ambiguous
        } else {
            OutcomeView::Matched(i, MatchSource::EndpointHistory)
        }),
{
    let by = LookupView::History(text::ascii_lower(guid));
    let c = candidates(index, by);
    law_candidates(index, by);
    assert(finds(index, by, i));
    assert(c.contains(i));
    if exists|j: int|
        0 <= j < index.len() && j != i && (#[trigger] index[j]).history.contains(
            text::ascii_lower(guid),
        ) {
        let j = choose|j: int|
            0 <= j < index.len() && j != i && (#[trigger] index[j]).history.contains(
                text::ascii_lower(guid),
            );
        assert(finds(index, by, j));
        assert(c.contains(j));
        let a = choose|a: int| 0 <= a < c.len() && c[a] == i;
        let b = choose|b: int| 0 <= b < c.len() && c[b] == j;
        assert(c.len() > 1);
    } else {
        if c.len() > 1 {
            let a = if c[0] == i {
                1int
            } else {
                0int
            };
            assert(c.contains(c[a]));
            assert(finds(index, by, c[a]));
            assert(c[0] != c[1]);
            assert(index[c[a]].history.contains(text::ascii_lower(guid)));
        }
    }
}

/// Whether an endpoint is one that a record names as a former endpoint of its device, or
/// one that has the endpoint of the record in its history.
pub open spec fn known_by_history(k: KeysView, guid: Seq<char>, stored: IdentityView) -> bool {
    k.history.contains(text::ascii_lower(guid)) || stored.endpoint_history.contains(k.guid)
}

/// Whether no endpoint is known by its history.
pub open spec fn no_history(index: Seq<KeysView>, guid: Seq<char>, stored: IdentityView) -> bool {
    forall|j: int| 0 <= j < index.len() ==> !known_by_history(#[trigger] index[j], guid, stored)
}

proof fn lemma_with_guid_none(index: Seq<KeysView>, guid: Seq<char>)
    requires
        forall|j: int| 0 <= j < index.len() ==> (#[trigger] index[j]).guid != guid,
    ensures
        with_guid(index, guid) is None,
    decreases index.len(),
{
    if index.len() > 0 {
        let t = index.drop_last();
        assert(index[index.len() - 1].guid != guid);
        assert forall|j: int| 0 <= j < t.len() implies (#[trigger] t[j]).guid != guid by {
            assert(t[j] == index[j]);
        }
        lemma_with_guid_none(t, guid);
    }
}

proof fn lemma_with_guids_none(index: Seq<KeysView>, guids: Seq<Seq<char>>)
    requires
        forall|j: int| 0 <= j < index.len() ==> !guids.contains((#[trigger] index[j]).guid),
    ensures
        with_guids(index, guids).len() == 0,
    decreases guids.len(),
{
    if guids.len() > 0 {
        let t = guids.drop_last();
        assert(guids =~= t.push(guids.last()));
        assert forall|j: int| 0 <= j < index.len() implies !t.contains((#[trigger] index[j]).guid) by {
            lemma_push_contains(t, guids.last(), index[j].guid);
        }
        assert forall|j: int| 0 <= j < index.len() implies (#[trigger] index[j]).guid
            != guids.last() by {
            lemma_push_contains(t, guids.last(), index[j].guid);
        }
        lemma_with_guids_none(index, t);
        lemma_with_guid_none(index, guids.last());
    }
}

proof fn lemma_no_candidates(index: Seq<KeysView>, by: LookupView)
    requires
        forall|j: int| 0 <= j < index.len() ==> !found_by(#[trigger] index[j], by),
    ensures
        candidates(index, by).len() == 0,
{
    law_candidates(index, by);
    let c = candidates(index, by);
    if c.len() > 0 {
        assert(c.contains(c[0]));
        assert(finds(index, by, c[0]));
    }
}

proof fn lemma_no_history(index: Seq<KeysView>, guid: Seq<char>, stored: IdentityView)
    requires
        no_history(index, guid, stored),
    ensures
        candidates(index, LookupView::History(text::ascii_lower(guid))).len() == 0,
        with_guids(index, stored.endpoint_history).len() == 0,
{
    let by = LookupView::History(text::ascii_lower(guid));
    assert forall|j: int| 0 <= j < index.len() implies !found_by(#[trigger] index[j], by) by {
        assert(!known_by_history(index[j], guid, stored));
    }
    lemma_no_candidates(index, by);
    assert forall|j: int| 0 <= j < index.len() implies !stored.endpoint_history.contains(
        (#[trigger] index[j]).guid,
    ) by {
        assert(!known_by_history(index[j], guid, stored));
    }
    lemma_with_guids_none(index, stored.endpoint_history);
}

proof fn lemma_settled(index: Seq<KeysView>, by: LookupView, source: MatchSource, i: int)
    requires
        0 <= i < index.len(),
        found_by(index[i], by),
    ensures
        candidates(index, by).len() > 0,
        settled(candidates(index, by), source) == (if exists|j: int|
            0 <= j < index.len() && j != i && found_by(#[trigger] index[j], by) {
            OutcomeView::Ambiguous
        } else {
            OutcomeView::Matched(i, source)
        }),
{
    let c = candidates(index, by);
    law_candidates(index, by);
    assert(finds(index, by, i));
    assert(c.contains(i));
    if exists|j: int| 0 <= j < index.len() && j != i && found_by(#[trigger] index[j], by) {
        let j = choose|j: int| 0 <= j < index.len() && j != i && found_by(#[trigger] index[j], by);
        assert(finds(index, by, j));
        assert(c.contains(j));
    } else if c.len() > 1 {
        let a = if c[0] == i {
            1int
        } else {
            0int
        };
        assert(c.contains(c[a]));
        assert(finds(index, by, c[a]));
        assert(c[0] != c[1]);
        assert(found_by(index[c[a]], by));
    }
}

/// A record whose device instance is that of one active endpoint, and of no other, is
/// matched to it where no history decides; where two have it, to none.
pub proof fn law_instance_decides(
    index: Seq<KeysView>,
    guid: Seq<char>,
    device_instance_id: Seq<char>,
    stored: IdentityView,
    i: int,
)
    requires
        no_history(index, guid, stored),
        0 <= i < index.len(),
        device_instance_id.len() > 0,
        index[i].instance == device_instance_id,
    ensures
        resolved(index, guid, device_instance_id, stored) == (if exists|j: int|
            0 <= j < index.len() && j != i && (#[trigger] index[j]).instance
                == device_instance_id {
            OutcomeView::Ambiguous
        } else {
            OutcomeView::Matched(i, MatchSource::DeviceInstanceId)
        }),
{
    let by = LookupView::Instance(device_instance_id);
    lemma_no_history(index, guid, stored);
    lemma_settled(index, by, MatchSource::DeviceInstanceId, i);
    if exists|j: int|
        0 <= j < index.len() && j != i && (#[trigger] index[j]).instance == device_instance_id {
        let j = choose|j: int|
            0 <= j < index.len() && j != i && (#[trigger] index[j]).instance
                == device_instance_id;
        assert(found_by(index[j], by));
    }
}

/// A record that stores the device instance of one active endpoint, and of no other, is
/// matched to it where no history and no instance of its own decide; where two have it,
/// to none.
pub proof fn law_stored_instance_decides(
    index: Seq<KeysView>,
    guid: Seq<char>,
    device_instance_id: Seq<char>,
    stored: IdentityView,
    i: int,
)
    requires
        no_history(index, guid, stored),
        forall|j: int|
            0 <= j < index.len() ==> (#[trigger] index[j]).instance != device_instance_id
                || device_instance_id.len() == 0,
        0 <= i < index.len(),
        stored.instance_id.len() > 0,
        index[i].instance == stored.instance_id,
    ensures
        resolved(index, guid, device_instance_id, stored) == (if exists|j: int|
            0 <= j < index.len() && j != i && (#[trigger] index[j]).instance
                == stored.instance_id {
            OutcomeView::Ambiguous
        } else {
            OutcomeView::Matched(i, MatchSource::StoredIdentity)
        }),
{
    let by = LookupView::Instance(stored.instance_id);
    lemma_no_history(index, guid, stored);
    if device_instance_id.len() > 0 {
        lemma_no_candidates(index, LookupView::Instance(device_instance_id));
    }
    lemma_settled(index, by, MatchSource::StoredIdentity, i);
    if exists|j: int|
        0 <= j < index.len() && j != i && (#[trigger] index[j]).instance == stored.instance_id {
        let j = choose|j: int|
            0 <= j < index.len() && j != i && (#[trigger] index[j]).instance
                == stored.instance_id;
        assert(found_by(index[j], by));
    }
}

/// A record that has nothing in common with any active endpoint is matched to none, and
/// none is said to be ambiguous.
pub proof fn law_nothing_in_common_is_unmatched(
    index: Seq<KeysView>,
    guid: Seq<char>,
    device_instance_id: Seq<char>,
    stored: IdentityView,
)
    requires
        no_history(index, guid, stored),
        forall|j: int|
            0 <= j < index.len() ==> {
                let k = #[trigger] index[j];
                &&& k.instance != device_instance_id || device_instance_id.len() == 0
                &&& k.instance != stored.instance_id || stored.instance_id.len() == 0
                &&& !(shares_hardware(k, stored.hardware_ids) && k.product == product_form(stored))
            },
    ensures
        resolved(index, guid, device_instance_id, stored) is Unmatched,
{
    lemma_no_history(index, guid, stored);
    if device_instance_id.len() > 0 {
        lemma_no_candidates(index, LookupView::Instance(device_instance_id));
    }
    if stored.instance_id.len() > 0 {
        lemma_no_candidates(index, LookupView::Instance(stored.instance_id));
    }
    let c = by_hardware(index, stored);
    if c.len() > 0 {
        let i = c[0];
        assert(c.contains(i));
        let found = with_hardware(index, stored.hardware_ids);
        lemma_with_product(index, found, product_form(stored), i);
        lemma_with_hardware(index, stored.hardware_ids, i);
        assert(shares_hardware(index[i], stored.hardware_ids));
    }
}

} // verus!
