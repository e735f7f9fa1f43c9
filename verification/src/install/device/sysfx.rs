//! The default effects that Windows attaches to a device, and how they are taken
//! over, kept taken over, and given back.
//!
//! Generic devices carry effect templates below their interface keys. Windows
//! copies a template back into an endpoint when it enumerates the device again,
//! so that changing the endpoint alone does not last. A template names a stream
//! effect and a mode effect; only Microsoft's own effects, and this library's,
//! are ever changed.

use vstd::prelude::*;
use crate::install::device::identity;
use crate::guid;
use crate::text;
use crate::registry;
use crate::install::device::slots::types;
use crate::error::{ErrorView, VxApoError};
use crate::guid::guid_to_string;
use crate::install::device::identity::PROPERTIES_KEY;
use crate::install::device::slots::{ApoSlot, InstallMode, FX_PROPERTIES_KEY};
use crate::object::vx_reg_props::{clsid_post_mix, clsid_pre_mix};
use crate::registry::{join_path, Hkey, KeyView, OpView, RegKey, Registry};
use crate::text::{
    concat2, concat3, contains, eq, eq_ignore_case, find_text, position_of, replace, sub_string,
    to_chars, to_lowercase, trim_text,
};

verus! {

/// The place of the device interface classes.
pub const DEVICE_CLASSES_ROOT: &'static str = "SYSTEM\\CurrentControlSet\\Control\\DeviceClasses";

/// The class of playback interfaces.
pub const KS_RENDER_CLASS: &'static str = "{65E8773E-8F56-11D0-A3B9-00A0C9223196}";

/// The class of audio interfaces.
pub const KS_AUDIO_CLASS: &'static str = "{6994AD04-93EF-11D0-A3CC-00A0C9223196}";

/// Template value: the node type that the template is for.
pub const PKEY_FX_ASSOCIATION: &'static str = "{D04E05A6-594B-4FB6-A80D-01AF5EED7D1D},0";

/// Template value: the stream effect.
pub const PKEY_FX_STREAM_EFFECT_CLSID: &'static str = "{D04E05A6-594B-4FB6-A80D-01AF5EED7D1D},5";

/// Template value: the mode effect.
pub const PKEY_FX_MODE_EFFECT_CLSID: &'static str = "{D04E05A6-594B-4FB6-A80D-01AF5EED7D1D},6";

/// The key below a template that holds the settings of Microsoft's effects.
pub const WMALFX_CONTEXT: &'static str = "{B13412EE-07AF-4C57-B08B-E327F8DB085B}";

/// Microsoft's stream effect.
pub const MS_CAPX_STREAM_CLSID: &'static str = "{C9453E73-8C5C-4463-9984-AF8BAB2F5447}";

/// Microsoft's mode effect.
pub const MS_CAPX_MODE_CLSID: &'static str = "{13AB3EBD-137E-4903-9D89-60BE8277FD17}";

/// Property: the instance identifier of the endpoint's device.
pub const PKEY_DEVICE_INSTANCE_ID: &'static str = "{B3F8FA53-0004-438E-9003-51A46E139BFC},2";

/// Property: the node type of the endpoint.
pub const PKEY_AUDIO_ENDPOINT_ASSOCIATION: &'static str =
    "{1DA5D803-D492-4EDD-8C23-E0C0FFEE7F0E},8";

/// Record value: what the templates held before they were taken over.
pub const SYSFX_BACKUP_VALUE: &'static str = "SysFxBackups";

/// The effect property by which Windows switches the whole chain off.
pub const DISABLE_SYSFX_VALUE: &'static str = "{1da5d803-d492-4edd-8c23-e0c0ffee7f0e},5";

/// How long the result of a template scan is good for, in milliseconds.
pub const SCAN_INTERVAL_MS: u64 = 30000;

/// A change of one template value: what it held, and what it is to hold.
#[derive(Clone, Debug, PartialEq, Eq)]
pub struct SysFxChange {
    pub key_path: String,
    pub value_name: String,
    /// What the value held; `None` when it was missing.
    pub original: Option<String>,
    /// What the value is to hold; `None` when it is to be deleted.
    pub target: Option<String>,
}

/// The contents of a change.
pub struct ChangeView {
    pub key_path: Seq<char>,
    pub value_name: Seq<char>,
    pub original: Option<Seq<char>>,
    pub target: Option<Seq<char>>,
}

/// The text in an optional string.
pub open spec fn opt(s: Option<String>) -> Option<Seq<char>> {
    match s {
        Some(s) => Some(s@),
        None => None,
    }
}

impl View for SysFxChange {
    type V = ChangeView;

    open spec fn view(&self) -> ChangeView {
        ChangeView {
            key_path: self.key_path@,
            value_name: self.value_name@,
            original: opt(self.original),
            target: opt(self.target),
        }
    }
}

/// The contents of a list of changes.
pub open spec fn changes(v: Seq<SysFxChange>) -> Seq<ChangeView> {
    v.map_values(|c: SysFxChange| c@)
}

/// What a template held before it was taken over.
#[derive(Clone, Debug, PartialEq, Eq)]
pub struct SysFxBackup {
    pub key_path: String,
    /// The stream effect; `None` when there was none to keep.
    pub stream: Option<String>,
    /// The mode effect; `None` when there was none to keep.
    pub mode: Option<String>,
}

/// The contents of a backup.
pub struct BackupView {
    pub key_path: Seq<char>,
    pub stream: Option<Seq<char>>,
    pub mode: Option<Seq<char>>,
}

impl View for SysFxBackup {
    type V = BackupView;

    open spec fn view(&self) -> BackupView {
        BackupView { key_path: self.key_path@, stream: opt(self.stream), mode: opt(self.mode) }
    }
}

/// The contents of a list of backups.
pub open spec fn backups(v: Seq<SysFxBackup>) -> Seq<BackupView> {
    v.map_values(|b: SysFxBackup| b@)
}

// ---------------------------------------------------------------------------
// Whose effect
// ---------------------------------------------------------------------------
/// Whether a text is Microsoft's stream effect.
pub open spec fn ms_stream(v: Option<Seq<char>>) -> bool {
    v matches Some(s) && text::eq_ci(s, MS_CAPX_STREAM_CLSID@)
}

/// Whether a text is Microsoft's mode effect.
pub open spec fn ms_mode(v: Option<Seq<char>>) -> bool {
    v matches Some(s) && text::eq_ci(s, MS_CAPX_MODE_CLSID@)
}

/// Whether a text is one of this library's own effects.
pub open spec fn own(v: Option<Seq<char>>) -> bool {
    v matches Some(s) && (text::eq_ci(s, guid::guid_text(clsid_pre_mix())) || text::eq_ci(
        s,
        guid::guid_text(clsid_post_mix()),
    ))
}

/// Whether a text is Microsoft's stream effect.
pub fn is_ms_stream_clsid(v: &str) -> (r: bool)
    ensures
        r == ms_stream(Some(v@)),
{
    eq_ignore_case(v, MS_CAPX_STREAM_CLSID)
}

/// Whether a text is Microsoft's mode effect.
pub fn is_ms_mode_clsid(v: &str) -> (r: bool)
    ensures
        r == ms_mode(Some(v@)),
{
    eq_ignore_case(v, MS_CAPX_MODE_CLSID)
}

/// Whether a text is one of this library's own effects.
pub fn is_vxapo_clsid(v: &str) -> (r: bool)
    ensures
        r == own(Some(v@)),
{
    let pre = guid_to_string(&clsid_pre_mix());
    let post = guid_to_string(&clsid_post_mix());
    eq_ignore_case(v, pre.as_str()) || eq_ignore_case(v, post.as_str())
}

fn opt_ms_stream(v: &Option<String>) -> (r: bool)
    ensures
        r == ms_stream(opt(*v)),
{
    match v {
        Some(s) => is_ms_stream_clsid(s.as_str()),
        None => false,
    }
}

fn opt_ms_mode(v: &Option<String>) -> (r: bool)
    ensures
        r == ms_mode(opt(*v)),
{
    match v {
        Some(s) => is_ms_mode_clsid(s.as_str()),
        None => false,
    }
}

fn opt_own(v: &Option<String>) -> (r: bool)
    ensures
        r == own(opt(*v)),
{
    match v {
        Some(s) => is_vxapo_clsid(s.as_str()),
        None => false,
    }
}

// ---------------------------------------------------------------------------
// Where the templates are
// ---------------------------------------------------------------------------
/// The device identifier and the node type of an endpoint, as its properties
/// give them.
pub fn endpoint_identity(endpoint_key: &RegKey) -> (r: (Option<String>, Option<String>))
    ensures
        opt(r.0) == registry::as_sz(endpoint_key.sub_value(PROPERTIES_KEY@, PKEY_DEVICE_INSTANCE_ID@)),
        opt(r.1) == registry::as_sz(
            endpoint_key.sub_value(PROPERTIES_KEY@, PKEY_AUDIO_ENDPOINT_ASSOCIATION@),
        ),
{
    match endpoint_key.open_sub_key(PROPERTIES_KEY) {
        Some(props) => (
            props.read_sz(PKEY_DEVICE_INSTANCE_ID),
            props.read_sz(PKEY_AUDIO_ENDPOINT_ASSOCIATION),
        ),
        None => (None, None),
    }
}

/// A device identifier without its numbered prefix.
pub open spec fn without_prefix(s: Seq<char>) -> Seq<char> {
    match text::find(s, "}."@) {
        Some(i) => s.subrange(i + 2, s.len() as int),
        None => s,
    }
}

/// The part of an interface key's name that a device identifier gives.
pub open spec fn instance_name(device_id: Seq<char>) -> Seq<char> {
    text::unicode_lower(text::replace_char(without_prefix(text::trim(device_id)), '\\', '#'))
}

/// The part of an interface key's name that a device identifier gives: without
/// its prefix, with hash marks as separators, in lower case.
pub fn normalize_device_id(device_id: &str) -> (r: String)
    ensures
        r@ == instance_name(device_id@),
        device_id.is_ascii() ==> r@ == ascii_instance_name(device_id@),
{
    proof {
        reveal_strlit("}.");
        lemma_trim_ascii(device_id@);
    }
    let trimmed = trim_text(device_id);
    let after = match find_text(trimmed.as_str(), "}.") {
        Some(i) => {
            let v = to_chars(trimmed.as_str());
            assert(i + 2 <= v.len());
            sub_string(v.as_slice(), i + 2, v.len())
        },
        None => trimmed,
    };
    let marked = replace(after.as_str(), '\\', '#');
    to_lowercase(marked.as_str())
}

/// The part of an interface key's name that an ASCII device identifier gives.
pub open spec fn ascii_instance_name(device_id: Seq<char>) -> Seq<char> {
    crate::text::ascii_lower(text::replace_char(without_prefix(text::trim(device_id)), '\\', '#'))
}

proof fn lemma_trim_ascii(s: Seq<char>)
    ensures
        vstd::utf8::is_ascii_chars(s) ==> vstd::utf8::is_ascii_chars(
            text::replace_char(without_prefix(text::trim(s)), '\\', '#'),
        ),
{
    if vstd::utf8::is_ascii_chars(s) {
        crate::text::lemma_trim_is_part(s);
        let t = text::trim(s);
        assert(vstd::utf8::is_ascii_chars(t));
        if text::find(t, "}."@) is Some {
            reveal_strlit("}.");
            crate::text::lemma_find_from(t, "}."@, 0);
        }
        assert(vstd::utf8::is_ascii_chars(without_prefix(t)));
    }
}

/// Whether a template is for a node type, and holds an effect or settings of
/// Microsoft's.
pub open spec fn template_matches(
    r: Seq<KeyView>,
    entry_path: Seq<char>,
    node_type: Option<Seq<char>>,
) -> bool {
    let at = |name: Seq<char>| registry::as_sz(registry::value_at(r, Hkey::LocalMachine, entry_path, name));
    &&& registry::has_key(r, Hkey::LocalMachine, entry_path)
    &&& (node_type matches Some(expected) ==> (at(PKEY_FX_ASSOCIATION@) matches Some(a) && text::eq_ci(
        a,
        expected,
    )))
    &&& (ms_stream(at(PKEY_FX_STREAM_EFFECT_CLSID@)) || ms_mode(at(PKEY_FX_MODE_EFFECT_CLSID@))
        || registry::has_key(r, Hkey::LocalMachine, registry::join(entry_path, WMALFX_CONTEXT@)))
}

fn matches_endpoint(registry: &Registry, entry_path: &str, node_type: Option<&str>) -> (r: bool)
    ensures
        r == template_matches(
            registry@,
            entry_path@,
            match node_type {
                Some(s) => Some(s@),
                None => None,
            },
        ),
{
    let key = match RegKey::open(registry, Hkey::LocalMachine, entry_path) {
        Some(k) => k,
        None => {
            return false;
        },
    };
    if let Some(expected) = node_type {
        match key.read_sz(PKEY_FX_ASSOCIATION) {
            Some(actual) => {
                if !eq_ignore_case(actual.as_str(), expected) {
                    return false;
                }
            },
            None => {
                return false;
            },
        }
    }
    let stream = key.read_sz(PKEY_FX_STREAM_EFFECT_CLSID);
    let mode = key.read_sz(PKEY_FX_MODE_EFFECT_CLSID);
    opt_ms_stream(&stream) || opt_ms_mode(&mode) || key.open_sub_key(WMALFX_CONTEXT).is_some()
}

/// The matching templates among some numbers below a template key.
pub open spec fn templates_among(
    r: Seq<KeyView>,
    msfx_root: Seq<char>,
    names: Seq<Seq<char>>,
    node_type: Option<Seq<char>>,
) -> Seq<Seq<char>>
    decreases names.len(),
{
    if names.len() == 0 {
        Seq::empty()
    } else {
        let rest = templates_among(r, msfx_root, names.drop_last(), node_type);
        let path = registry::join(msfx_root, names.last());
        if template_matches(r, path, node_type) {
            rest.push(path)
        } else {
            rest
        }
    }
}

/// The template key of a reference below an interface key.
pub open spec fn msfx_root(instance_path: Seq<char>, reference: Seq<char>) -> Seq<char> {
    registry::join(instance_path, reference) + "\\Device Parameters\\MSFX"@
}

/// The matching templates below some references of an interface key.
pub open spec fn templates_of_references(
    r: Seq<KeyView>,
    instance_path: Seq<char>,
    references: Seq<Seq<char>>,
    node_type: Option<Seq<char>>,
) -> Seq<Seq<char>>
    decreases references.len(),
{
    if references.len() == 0 {
        Seq::empty()
    } else {
        let rest = templates_of_references(r, instance_path, references.drop_last(), node_type);
        let root = msfx_root(instance_path, references.last());
        if registry::has_key(r, Hkey::LocalMachine, root) {
            rest + templates_among(r, root, registry::children(r, Hkey::LocalMachine, root), node_type)
        } else {
            rest
        }
    }
}

/// The matching templates below an interface key.
pub open spec fn templates_of_instance(
    r: Seq<KeyView>,
    instance_path: Seq<char>,
    node_type: Option<Seq<char>>,
) -> Seq<Seq<char>> {
    if registry::has_key(r, Hkey::LocalMachine, instance_path) {
        templates_of_references(
            r,
            instance_path,
            registry::children(r, Hkey::LocalMachine, instance_path),
            node_type,
        )
    } else {
        Seq::empty()
    }
}

fn collect_templates(
    registry: &Registry,
    root: &str,
    names: &[String],
    node_type: Option<&str>,
    result: &mut Vec<String>,
)
    ensures
        text::texts(final(result)@) == text::texts(old(result)@) + templates_among(
            registry@,
            root@,
            text::texts(names@),
            match node_type {
                Some(s) => Some(s@),
                None => None,
            },
        ),
{
    let ghost start = text::texts(result@);
    let ghost all = text::texts(names@);
    let ghost nt = match node_type {
        Some(s) => Some(s@),
        None => None,
    };
    let mut i: usize = 0;
    assert(all.take(0) =~= Seq::empty());
    assert(start + templates_among(registry@, root@, all.take(0), nt) =~= start);
    while i < names.len()
        invariant
            i <= names.len(),
            all == text::texts(names@),
            nt == (match node_type {
                Some(s) => Some(s@),
                None => None,
            }),
            start == text::texts(old(result)@),
            text::texts(result@) == start + templates_among(registry@, root@, all.take(i as int), nt),
        decreases names.len() - i,
    {
        let ghost t = all.take(i + 1);
        let ghost before = text::texts(result@);
        assert(t.drop_last() =~= all.take(i as int));
        assert(t.last() == names@[i as int]@);
        let path = join_path(root, names[i].as_str());
        if matches_endpoint(registry, path.as_str(), node_type) {
            result.push(path);
            assert(text::texts(result@) =~= before.push(path@));
            assert(text::texts(result@) =~= start + templates_among(registry@, root@, t, nt));
        }
        i += 1;
    }
    assert(all.take(i as int) =~= all);
}

/// Adds the matching templates below an interface key.
fn collect_msfx_from_instance(
    registry: &Registry,
    instance_path: &str,
    node_type: Option<&str>,
    result: &mut Vec<String>,
)
    ensures
        text::texts(final(result)@) == text::texts(old(result)@) + templates_of_instance(
            registry@,
            instance_path@,
            match node_type {
                Some(s) => Some(s@),
                None => None,
            },
        ),
{
    let ghost start = text::texts(result@);
    let ghost nt = match node_type {
        Some(s) => Some(s@),
        None => None,
    };
    let instance = match RegKey::open(registry, Hkey::LocalMachine, instance_path) {
        Some(k) => k,
        None => {
            assert(start + Seq::<Seq<char>>::empty() =~= start);
            return;
        },
    };
    let references = instance.enum_sub_keys();
    let ghost all = text::texts(references@);
    let mut i: usize = 0;
    assert(all.take(0) =~= Seq::empty());
    assert(start + templates_of_references(registry@, instance_path@, all.take(0), nt) =~= start);
    while i < references.len()
        invariant
            i <= references@.len(),
            all == text::texts(references@),
            nt == (match node_type {
                Some(s) => Some(s@),
                None => None,
            }),
            start == text::texts(old(result)@),
            text::texts(result@) == start + templates_of_references(
                registry@,
                instance_path@,
                all.take(i as int),
                nt,
            ),
        decreases references@.len() - i,
    {
        let ghost t = all.take(i + 1);
        assert(t.drop_last() =~= all.take(i as int));
        assert(t.last() == references@[i as int]@);
        let mut root = join_path(instance_path, references[i].as_str());
        root.append("\\Device Parameters\\MSFX");
        let ghost before = text::texts(result@);
        match RegKey::open(registry, Hkey::LocalMachine, root.as_str()) {
            Some(key) => {
                let indexes = key.enum_sub_keys();
                collect_templates(registry, root.as_str(), indexes.as_slice(), node_type, result);
                assert(text::texts(result@) =~= start + templates_of_references(
                    registry@,
                    instance_path@,
                    t,
                    nt,
                ));
            },
            None => {},
        }
        i += 1;
    }
    assert(all.take(i as int) =~= all);
}

/// The two usual names of a device's interface key in a class.
pub open spec fn usual_instance(class: Seq<char>, prefix: Seq<char>, name: Seq<char>) -> Seq<char> {
    registry::join(registry::join(DEVICE_CLASSES_ROOT@, class), prefix + name) + "#"@ + class
}

/// The matching templates below a device's usual interface keys in a class.
pub open spec fn usual_templates(
    r: Seq<KeyView>,
    class: Seq<char>,
    name: Seq<char>,
    node_type: Option<Seq<char>>,
) -> Seq<Seq<char>> {
    templates_of_instance(r, usual_instance(class, "##?#"@, name), node_type)
        + templates_of_instance(r, usual_instance(class, ""@, name), node_type)
}

/// The matching templates below those interface keys of a class whose names hold
/// a device's name.
pub open spec fn templates_of_instances(
    r: Seq<KeyView>,
    class_path: Seq<char>,
    instances: Seq<Seq<char>>,
    name: Seq<char>,
    node_type: Option<Seq<char>>,
) -> Seq<Seq<char>>
    decreases instances.len(),
{
    if instances.len() == 0 {
        Seq::empty()
    } else {
        let rest = templates_of_instances(r, class_path, instances.drop_last(), name, node_type);
        if text::find(text::unicode_lower(instances.last()), name) is Some {
            rest + templates_of_instance(r, registry::join(class_path, instances.last()), node_type)
        } else {
            rest
        }
    }
}

/// The matching templates of a class.
pub open spec fn templates_of_class(
    r: Seq<KeyView>,
    class: Seq<char>,
    name: Seq<char>,
    node_type: Option<Seq<char>>,
) -> Seq<Seq<char>> {
    let class_path = registry::join(DEVICE_CLASSES_ROOT@, class);
    if registry::has_key(r, Hkey::LocalMachine, class_path) {
        templates_of_instances(
            r,
            class_path,
            registry::children(r, Hkey::LocalMachine, class_path),
            name,
            node_type,
        )
    } else {
        Seq::empty()
    }
}

/// The templates of a device for a node type: those below its usual interface
/// keys, or, if there are none, those below any interface key that names it.
pub open spec fn msfx_entries(
    r: Seq<KeyView>,
    device_id: Option<Seq<char>>,
    node_type: Option<Seq<char>>,
) -> Seq<Seq<char>> {
    match device_id {
        None => Seq::empty(),
        Some(id) => {
            let name = instance_name(id);
            let usual = usual_templates(r, KS_RENDER_CLASS@, name, node_type) + usual_templates(
                r,
                KS_AUDIO_CLASS@,
                name,
                node_type,
            );
            if name.len() == 0 {
                Seq::empty()
            } else if usual.len() > 0 {
                usual
            } else {
                templates_of_class(r, KS_RENDER_CLASS@, name, node_type) + templates_of_class(
                    r,
                    KS_AUDIO_CLASS@,
                    name,
                    node_type,
                )
            }
        },
    }
}

/// Whether every place of a list is one of a template: there, and below the
/// device interfaces.
pub open spec fn all_templates(r: Seq<KeyView>, list: Seq<Seq<char>>) -> bool {
    forall|i: int| 0 <= i < list.len() ==> is_template(r, #[trigger] list[i])
}

/// Whether a place is there and below the device interfaces.
pub open spec fn is_template(r: Seq<KeyView>, path: Seq<char>) -> bool {
    registry::has_key(r, Hkey::LocalMachine, path) && DEVICE_CLASSES_ROOT@.is_prefix_of(path)
}

/// Every template that is found is there, below the device interfaces.
pub proof fn lemma_entries_present(
    r: Seq<KeyView>,
    device_id: Option<Seq<char>>,
    node_type: Option<Seq<char>>,
)
    ensures
        all_templates(r, msfx_entries(r, device_id, node_type)),
        all_present(r, msfx_entries(r, device_id, node_type)),
{
    match device_id {
        None => {},
        Some(id) => {
            let name = instance_name(id);
            lemma_usual_present(r, KS_RENDER_CLASS@, name, node_type);
            lemma_usual_present(r, KS_AUDIO_CLASS@, name, node_type);
            lemma_present_concat(
                r,
                usual_templates(r, KS_RENDER_CLASS@, name, node_type),
                usual_templates(r, KS_AUDIO_CLASS@, name, node_type),
            );
            lemma_class_present(r, KS_RENDER_CLASS@, name, node_type);
            lemma_class_present(r, KS_AUDIO_CLASS@, name, node_type);
            lemma_present_concat(
                r,
                templates_of_class(r, KS_RENDER_CLASS@, name, node_type),
                templates_of_class(r, KS_AUDIO_CLASS@, name, node_type),
            );
        },
    }
}

/// What stands below a place below the device interfaces stands there too.
proof fn lemma_longer_prefix(a: Seq<char>, b: Seq<char>)
    requires
        DEVICE_CLASSES_ROOT@.is_prefix_of(a),
        b.len() >= a.len(),
        b.subrange(0, a.len() as int) =~= a,
    ensures
        DEVICE_CLASSES_ROOT@.is_prefix_of(b),
{
    let n = DEVICE_CLASSES_ROOT@.len() as int;
    assert(b.subrange(0, n) =~= b.subrange(0, a.len() as int).subrange(0, n));
}

proof fn lemma_present_concat(r: Seq<KeyView>, a: Seq<Seq<char>>, b: Seq<Seq<char>>)
    requires
        all_templates(r, a),
        all_templates(r, b),
    ensures
        all_templates(r, a + b),
{
    let c = a + b;
    assert forall|i: int| 0 <= i < c.len() implies is_template(
        r,
        #[trigger] c[i],
    ) by {
        if i < a.len() {
            assert(c[i] == a[i]);
        } else {
            assert(c[i] == b[i - a.len()]);
        }
    }
}

proof fn lemma_among_present(
    r: Seq<KeyView>,
    root: Seq<char>,
    names: Seq<Seq<char>>,
    node_type: Option<Seq<char>>,
)
    requires
        DEVICE_CLASSES_ROOT@.is_prefix_of(root),
    ensures
        all_templates(r, templates_among(r, root, names, node_type)),
    decreases names.len(),
{
    if names.len() > 0 {
        lemma_among_present(r, root, names.drop_last(), node_type);
        lemma_longer_prefix(root, registry::join(root, names.last()));
    }
}

proof fn lemma_references_present(
    r: Seq<KeyView>,
    instance_path: Seq<char>,
    references: Seq<Seq<char>>,
    node_type: Option<Seq<char>>,
)
    requires
        DEVICE_CLASSES_ROOT@.is_prefix_of(instance_path),
    ensures
        all_templates(r, templates_of_references(r, instance_path, references, node_type)),
    decreases references.len(),
{
    if references.len() > 0 {
        lemma_references_present(r, instance_path, references.drop_last(), node_type);
        let root = msfx_root(instance_path, references.last());
        lemma_longer_prefix(instance_path, root);
        let names = registry::children(r, Hkey::LocalMachine, root);
        lemma_among_present(r, root, names, node_type);
        lemma_present_concat(
            r,
            templates_of_references(r, instance_path, references.drop_last(), node_type),
            templates_among(r, root, names, node_type),
        );
    }
}

proof fn lemma_instance_present(
    r: Seq<KeyView>,
    instance_path: Seq<char>,
    node_type: Option<Seq<char>>,
)
    requires
        DEVICE_CLASSES_ROOT@.is_prefix_of(instance_path),
    ensures
        all_templates(r, templates_of_instance(r, instance_path, node_type)),
{
    lemma_references_present(
        r,
        instance_path,
        registry::children(r, Hkey::LocalMachine, instance_path),
        node_type,
    );
}

proof fn lemma_usual_present(
    r: Seq<KeyView>,
    class: Seq<char>,
    name: Seq<char>,
    node_type: Option<Seq<char>>,
)
    ensures
        all_templates(r, usual_templates(r, class, name, node_type)),
{
    lemma_longer_prefix(DEVICE_CLASSES_ROOT@, usual_instance(class, "##?#"@, name));
    lemma_longer_prefix(DEVICE_CLASSES_ROOT@, usual_instance(class, ""@, name));
    lemma_instance_present(r, usual_instance(class, "##?#"@, name), node_type);
    lemma_instance_present(r, usual_instance(class, ""@, name), node_type);
    lemma_present_concat(
        r,
        templates_of_instance(r, usual_instance(class, "##?#"@, name), node_type),
        templates_of_instance(r, usual_instance(class, ""@, name), node_type),
    );
}

proof fn lemma_instances_present(
    r: Seq<KeyView>,
    class_path: Seq<char>,
    instances: Seq<Seq<char>>,
    name: Seq<char>,
    node_type: Option<Seq<char>>,
)
    requires
        DEVICE_CLASSES_ROOT@.is_prefix_of(class_path),
    ensures
        all_templates(r, templates_of_instances(r, class_path, instances, name, node_type)),
    decreases instances.len(),
{
    if instances.len() > 0 {
        lemma_instances_present(r, class_path, instances.drop_last(), name, node_type);
        let path = registry::join(class_path, instances.last());
        lemma_longer_prefix(class_path, path);
        lemma_instance_present(r, path, node_type);
        lemma_present_concat(
            r,
            templates_of_instances(r, class_path, instances.drop_last(), name, node_type),
            templates_of_instance(r, path, node_type),
        );
    }
}

proof fn lemma_class_present(
    r: Seq<KeyView>,
    class: Seq<char>,
    name: Seq<char>,
    node_type: Option<Seq<char>>,
)
    ensures
        all_templates(r, templates_of_class(r, class, name, node_type)),
{
    let class_path = registry::join(DEVICE_CLASSES_ROOT@, class);
    lemma_longer_prefix(DEVICE_CLASSES_ROOT@, class_path);
    lemma_instances_present(
        r,
        class_path,
        registry::children(r, Hkey::LocalMachine, class_path),
        name,
        node_type,
    );
}

fn collect_usual(
    registry: &Registry,
    class: &str,
    name: &str,
    node_type: Option<&str>,
    result: &mut Vec<String>,
)
    ensures
        text::texts(final(result)@) == text::texts(old(result)@) + usual_templates(
            registry@,
            class@,
            name@,
            match node_type {
                Some(s) => Some(s@),
                None => None,
            },
        ),
{
    let class_path = join_path(DEVICE_CLASSES_ROOT, class);
    let marked = concat2("##?#", name);
    let plain = concat2("", name);
    let first = join_path(class_path.as_str(), marked.as_str());
    let first = concat3(first.as_str(), "#", class);
    let second = join_path(class_path.as_str(), plain.as_str());
    let second = concat3(second.as_str(), "#", class);
    collect_msfx_from_instance(registry, first.as_str(), node_type, result);
    collect_msfx_from_instance(registry, second.as_str(), node_type, result);
    assert(text::texts(result@) =~= text::texts(old(result)@) + usual_templates(
        registry@,
        class@,
        name@,
        match node_type {
            Some(s) => Some(s@),
            None => None,
        },
    ));
}

fn collect_class(
    registry: &Registry,
    class: &str,
    name: &str,
    node_type: Option<&str>,
    result: &mut Vec<String>,
)
    ensures
        text::texts(final(result)@) == text::texts(old(result)@) + templates_of_class(
            registry@,
            class@,
            name@,
            match node_type {
                Some(s) => Some(s@),
                None => None,
            },
        ),
{
    let ghost start = text::texts(result@);
    let ghost nt = match node_type {
        Some(s) => Some(s@),
        None => None,
    };
    let class_path = join_path(DEVICE_CLASSES_ROOT, class);
    let key = match RegKey::open(registry, Hkey::LocalMachine, class_path.as_str()) {
        Some(k) => k,
        None => {
            assert(start + Seq::<Seq<char>>::empty() =~= start);
            return;
        },
    };
    let instances = key.enum_sub_keys();
    let ghost all = text::texts(instances@);
    let mut i: usize = 0;
    assert(all.take(0) =~= Seq::empty());
    assert(start + templates_of_instances(registry@, class_path@, all.take(0), name@, nt) =~= start);
    while i < instances.len()
        invariant
            i <= instances@.len(),
            all == text::texts(instances@),
            nt == (match node_type {
                Some(s) => Some(s@),
                None => None,
            }),
            start == text::texts(old(result)@),
            text::texts(result@) == start + templates_of_instances(
                registry@,
                class_path@,
                all.take(i as int),
                name@,
                nt,
            ),
        decreases instances@.len() - i,
    {
        let ghost t = all.take(i + 1);
        assert(t.drop_last() =~= all.take(i as int));
        assert(t.last() == instances@[i as int]@);
        let lowered = to_lowercase(instances[i].as_str());
        if contains(lowered.as_str(), name) {
            let path = join_path(class_path.as_str(), instances[i].as_str());
            collect_msfx_from_instance(registry, path.as_str(), node_type, result);
            assert(text::texts(result@) =~= start + templates_of_instances(
                registry@,
                class_path@,
                t,
                name@,
                nt,
            ));
        }
        i += 1;
    }
    assert(all.take(i as int) =~= all);
}

/// The places of a device's templates for a node type. Without a device
/// identifier there are none; without a node type every type matches.
pub fn find_msfx_entries(
    registry: &Registry,
    device_id: Option<&str>,
    node_type: Option<&str>,
) -> (r: Result<Vec<String>, VxApoError>)
    ensures
        r matches Ok(list) && text::texts(list@) == msfx_entries(
            registry@,
            match device_id {
                Some(s) => Some(s@),
                None => None,
            },
            match node_type {
                Some(s) => Some(s@),
                None => None,
            },
        ),
{
    let mut result: Vec<String> = Vec::new();
    assert(text::texts(result@) =~= Seq::empty());
    let id = match device_id {
        Some(id) => id,
        None => {
            return Ok(result);
        },
    };
    let name = normalize_device_id(id);
    if name.as_str().is_empty() {
        return Ok(result);
    }
    let ghost nt = match node_type {
        Some(s) => Some(s@),
        None => None,
    };
    collect_usual(registry, KS_RENDER_CLASS, name.as_str(), node_type, &mut result);
    collect_usual(registry, KS_AUDIO_CLASS, name.as_str(), node_type, &mut result);
    assert(text::texts(result@) =~= usual_templates(registry@, KS_RENDER_CLASS@, name@, nt)
        + usual_templates(registry@, KS_AUDIO_CLASS@, name@, nt));
    assert(text::texts(result@).len() == result@.len());
    if result.len() > 0 {
        return Ok(result);
    }
    let mut result: Vec<String> = Vec::new();
    assert(text::texts(result@) =~= Seq::empty());
    collect_class(registry, KS_RENDER_CLASS, name.as_str(), node_type, &mut result);
    collect_class(registry, KS_AUDIO_CLASS, name.as_str(), node_type, &mut result);
    assert(text::texts(result@) =~= templates_of_class(registry@, KS_RENDER_CLASS@, name@, nt)
        + templates_of_class(registry@, KS_AUDIO_CLASS@, name@, nt));
    Ok(result)
}

// ---------------------------------------------------------------------------
// Plans
// ---------------------------------------------------------------------------
/// The text that a template holds under a name.
pub open spec fn held(r: Seq<KeyView>, path: Seq<char>, name: Seq<char>) -> Option<Seq<char>> {
    registry::as_sz(registry::value_at(r, Hkey::LocalMachine, path, name))
}

/// One change where a condition holds, none otherwise.
pub open spec fn change_if(
    cond: bool,
    key_path: Seq<char>,
    value_name: Seq<char>,
    original: Option<Seq<char>>,
    target: Option<Seq<char>>,
) -> Seq<ChangeView> {
    if cond {
        seq![ChangeView { key_path, value_name, original, target }]
    } else {
        Seq::empty()
    }
}

/// The changes that take one template over: Microsoft's stream effect gives way
/// to this library's; Microsoft's mode effect gives way to it where the mode
/// asks for one, and is deleted otherwise, as is an own one left there.
pub open spec fn takeover_of(
    r: Seq<KeyView>,
    path: Seq<char>,
    mode: InstallMode,
    install_premix: bool,
    install_postmix: bool,
) -> Seq<ChangeView> {
    let stream = held(r, path, PKEY_FX_STREAM_EFFECT_CLSID@);
    let effect = held(r, path, PKEY_FX_MODE_EFFECT_CLSID@);
    let known = ms_stream(stream) || own(stream) || registry::has_key(
        r,
        Hkey::LocalMachine,
        registry::join(path, WMALFX_CONTEXT@),
    );
    let replaces_mode = mode == InstallMode::SfxMfx && install_postmix;
    if !known {
        Seq::empty()
    } else {
        change_if(
            install_premix && ms_stream(stream) && !own(stream),
            path,
            PKEY_FX_STREAM_EFFECT_CLSID@,
            stream,
            Some(guid::guid_text(clsid_pre_mix())),
        ) + (if replaces_mode {
            change_if(
                ms_mode(effect) && !own(effect),
                path,
                PKEY_FX_MODE_EFFECT_CLSID@,
                effect,
                Some(guid::guid_text(clsid_post_mix())),
            )
        } else {
            change_if(
                ms_mode(effect) || own(effect),
                path,
                PKEY_FX_MODE_EFFECT_CLSID@,
                effect,
                None,
            )
        })
    }
}

/// The changes that take some templates over, one after the other.
pub open spec fn takeover_plan(
    r: Seq<KeyView>,
    paths: Seq<Seq<char>>,
    mode: InstallMode,
    install_premix: bool,
    install_postmix: bool,
) -> Seq<ChangeView>
    decreases paths.len(),
{
    if paths.len() == 0 {
        Seq::empty()
    } else {
        takeover_plan(r, paths.drop_last(), mode, install_premix, install_postmix) + takeover_of(
            r,
            paths.last(),
            mode,
            install_premix,
            install_postmix,
        )
    }
}

/// Whether `p` is the first of some places where there is no key.
pub open spec fn first_missing(r: Seq<KeyView>, paths: Seq<Seq<char>>, p: Seq<char>) -> bool {
    exists|i: int|
        #![trigger paths[i]]
        0 <= i < paths.len() && paths[i] == p && !registry::has_key(r, Hkey::LocalMachine, p) && forall|j: int|
            #![trigger paths[j]]
            0 <= j < i ==> registry::has_key(r, Hkey::LocalMachine, paths[j])
}

/// Whether there is a key at each of some places.
pub open spec fn all_present(r: Seq<KeyView>, paths: Seq<Seq<char>>) -> bool {
    forall|i: int| 0 <= i < paths.len() ==> registry::has_key(r, Hkey::LocalMachine, #[trigger] paths[i])
}

fn copy_opt(v: &Option<String>) -> (r: Option<String>)
    ensures
        opt(r) == opt(*v),
{
    match v {
        Some(s) => Some(s.clone()),
        None => None,
    }
}

fn push_change(
    out: &mut Vec<SysFxChange>,
    key_path: &str,
    value_name: &str,
    original: &Option<String>,
    target: Option<String>,
)
    ensures
        changes(final(out)@) == changes(old(out)@) + change_if(
            true,
            key_path@,
            value_name@,
            opt(*original),
            opt(target),
        ),
{
    let ghost before = changes(out@);
    out.push(
        SysFxChange {
            key_path: key_path.to_owned(),
            value_name: value_name.to_owned(),
            original: copy_opt(original),
            target,
        },
    );
    assert(changes(out@) =~= before + change_if(
        true,
        key_path@,
        value_name@,
        opt(*original),
        opt(target),
    ));
}

fn takeover_one(
    key: &RegKey,
    mode: InstallMode,
    install_premix: bool,
    install_postmix: bool,
    out: &mut Vec<SysFxChange>,
)
    requires
        key.root == Hkey::LocalMachine,
    ensures
        changes(final(out)@) == changes(old(out)@) + takeover_of(
            key.registry@,
            key.path@,
            mode,
            install_premix,
            install_postmix,
        ),
{
    let ghost before = changes(out@);
    let stream = key.read_sz(PKEY_FX_STREAM_EFFECT_CLSID);
    let effect = key.read_sz(PKEY_FX_MODE_EFFECT_CLSID);
    let has_context = key.open_sub_key(WMALFX_CONTEXT).is_some();
    let stream_is_ms = opt_ms_stream(&stream);
    let stream_is_own = opt_own(&stream);
    if !(stream_is_ms || stream_is_own || has_context) {
        assert(changes(out@) =~= before + Seq::<ChangeView>::empty());
        return;
    }
    let path = key.path.as_str();
    if install_premix && stream_is_ms && !stream_is_own {
        push_change(
            out,
            path,
            PKEY_FX_STREAM_EFFECT_CLSID,
            &stream,
            Some(guid_to_string(&clsid_pre_mix())),
        );
    }
    let mode_is_ms = opt_ms_mode(&effect);
    let mode_is_own = opt_own(&effect);
    if mode == InstallMode::SfxMfx && install_postmix {
        if mode_is_ms && !mode_is_own {
            push_change(
                out,
                path,
                PKEY_FX_MODE_EFFECT_CLSID,
                &effect,
                Some(guid_to_string(&clsid_post_mix())),
            );
        }
    } else if mode_is_ms || mode_is_own {
        push_change(out, path, PKEY_FX_MODE_EFFECT_CLSID, &effect, None);
    }
    assert(changes(out@) =~= before + takeover_of(
        key.registry@,
        key.path@,
        mode,
        install_premix,
        install_postmix,
    ));
}

/// The changes that take templates over; an error at the first that is missing.
pub fn plan_msfx_takeover(
    registry: &Registry,
    paths: &[String],
    mode: InstallMode,
    install_premix: bool,
    install_postmix: bool,
) -> (r: Result<Vec<SysFxChange>, VxApoError>)
    ensures
        match r {
            Ok(plan) => all_present(registry@, text::texts(paths@)) && changes(plan@) == takeover_plan(
                registry@,
                text::texts(paths@),
                mode,
                install_premix,
                install_postmix,
            ),
            Err(e) => e@ matches ErrorView::KeyNotFound(p) && first_missing(
                registry@,
                text::texts(paths@),
                p,
            ),
        },
{
    let mut out: Vec<SysFxChange> = Vec::new();
    let ghost all = text::texts(paths@);
    let mut i: usize = 0;
    assert(all.take(0) =~= Seq::empty());
    assert(changes(out@) =~= Seq::empty());
    while i < paths.len()
        invariant
            i <= paths.len(),
            all == text::texts(paths@),
            forall|j: int| 0 <= j < i ==> registry::has_key(registry@, Hkey::LocalMachine, #[trigger] all[j]),
            changes(out@) == takeover_plan(
                registry@,
                all.take(i as int),
                mode,
                install_premix,
                install_postmix,
            ),
        decreases paths.len() - i,
    {
        let ghost t = all.take(i + 1);
        assert(t.drop_last() =~= all.take(i as int));
        assert(t.last() == paths@[i as int]@);
        assert(all[i as int] == paths@[i as int]@);
        match RegKey::open(registry, Hkey::LocalMachine, paths[i].as_str()) {
            Some(key) => {
                takeover_one(&key, mode, install_premix, install_postmix, &mut out);
            },
            None => {
                assert(first_missing(registry@, all, paths@[i as int]@));
                return Err(VxApoError::KeyNotFound(paths[i].clone()));
            },
        }
        i += 1;
    }
    assert(all.take(i as int) =~= all);
    Ok(out)
}

/// Whether a value may be put back: it is missing, or this library's own.
pub open spec fn vacant(v: Option<Seq<char>>) -> bool {
    v is None || own(v)
}

/// The change that gives one value of a template back, if it may be: what it
/// held before, or nothing where there was nothing to keep.
pub open spec fn restore_value(
    path: Seq<char>,
    name: Seq<char>,
    current: Option<Seq<char>>,
    kept: Option<Seq<char>>,
) -> Seq<ChangeView> {
    match kept {
        Some(original) => change_if(vacant(current), path, name, current, Some(original)),
        None => change_if(own(current), path, name, current, None),
    }
}

/// The changes that give one template back.
pub open spec fn restore_of(r: Seq<KeyView>, b: BackupView) -> Seq<ChangeView> {
    restore_value(
        b.key_path,
        PKEY_FX_STREAM_EFFECT_CLSID@,
        held(r, b.key_path, PKEY_FX_STREAM_EFFECT_CLSID@),
        b.stream,
    ) + restore_value(
        b.key_path,
        PKEY_FX_MODE_EFFECT_CLSID@,
        held(r, b.key_path, PKEY_FX_MODE_EFFECT_CLSID@),
        b.mode,
    )
}

/// The changes that give some templates back, one after the other.
pub open spec fn restore_plan(r: Seq<KeyView>, list: Seq<BackupView>) -> Seq<ChangeView>
    decreases list.len(),
{
    if list.len() == 0 {
        Seq::empty()
    } else {
        restore_plan(r, list.drop_last()) + restore_of(r, list.last())
    }
}

/// The places that some backups are of.
pub open spec fn backup_paths(list: Seq<BackupView>) -> Seq<Seq<char>> {
    list.map_values(|b: BackupView| b.key_path)
}

fn restore_one_value(
    out: &mut Vec<SysFxChange>,
    path: &str,
    name: &str,
    current: Option<String>,
    kept: &Option<String>,
)
    ensures
        changes(final(out)@) == changes(old(out)@) + restore_value(
            path@,
            name@,
            opt(current),
            opt(*kept),
        ),
{
    let ghost before = changes(out@);
    match kept {
        Some(original) => {
            if current.is_none() || opt_own(&current) {
                push_change(out, path, name, &current, Some(original.clone()));
            }
        },
        None => {
            if opt_own(&current) {
                push_change(out, path, name, &current, None);
            }
        },
    }
    assert(changes(out@) =~= before + restore_value(path@, name@, opt(current), opt(*kept)));
}

/// The changes that give templates back as the backups say; an error at the
/// first template that is missing. An effect that is neither missing nor this
/// library's own is left alone.
pub fn plan_msfx_restore(registry: &Registry, list: &[SysFxBackup]) -> (r: Result<
    Vec<SysFxChange>,
    VxApoError,
>)
    ensures
        match r {
            Ok(plan) => all_present(registry@, backup_paths(backups(list@))) && changes(plan@)
                == restore_plan(registry@, backups(list@)),
            Err(e) => e@ matches ErrorView::KeyNotFound(p) && first_missing(
                registry@,
                backup_paths(backups(list@)),
                p,
            ),
        },
{
    let mut out: Vec<SysFxChange> = Vec::new();
    let ghost all = backups(list@);
    let ghost paths = backup_paths(all);
    let mut i: usize = 0;
    assert(all.take(0) =~= Seq::empty());
    assert(changes(out@) =~= Seq::empty());
    while i < list.len()
        invariant
            i <= list.len(),
            all == backups(list@),
            paths == backup_paths(all),
            forall|j: int|
                0 <= j < i ==> registry::has_key(registry@, Hkey::LocalMachine, #[trigger] paths[j]),
            changes(out@) == restore_plan(registry@, all.take(i as int)),
        decreases list.len() - i,
    {
        let b = &list[i];
        let ghost t = all.take(i + 1);
        let ghost before = changes(out@);
        assert(t.drop_last() =~= all.take(i as int));
        assert(t.last() == b@);
        assert(paths[i as int] == b@.key_path);
        match RegKey::open(registry, Hkey::LocalMachine, b.key_path.as_str()) {
            Some(key) => {
                let current_stream = key.read_sz(PKEY_FX_STREAM_EFFECT_CLSID);
                let current_mode = key.read_sz(PKEY_FX_MODE_EFFECT_CLSID);
                restore_one_value(
                    &mut out,
                    b.key_path.as_str(),
                    PKEY_FX_STREAM_EFFECT_CLSID,
                    current_stream,
                    &b.stream,
                );
                restore_one_value(
                    &mut out,
                    b.key_path.as_str(),
                    PKEY_FX_MODE_EFFECT_CLSID,
                    current_mode,
                    &b.mode,
                );
                assert(changes(out@) =~= before + restore_of(registry@, b@));
            },
            None => {
                assert(first_missing(registry@, paths, b@.key_path));
                return Err(VxApoError::KeyNotFound(b.key_path.clone()));
            },
        }
        i += 1;
    }
    assert(all.take(i as int) =~= all);
    Ok(out)
}

/// The changes that give one template Microsoft's effects, where it holds this
/// library's.
pub open spec fn default_of(r: Seq<KeyView>, path: Seq<char>) -> Seq<ChangeView> {
    let stream = held(r, path, PKEY_FX_STREAM_EFFECT_CLSID@);
    let effect = held(r, path, PKEY_FX_MODE_EFFECT_CLSID@);
    change_if(
        own(stream),
        path,
        PKEY_FX_STREAM_EFFECT_CLSID@,
        stream,
        Some(MS_CAPX_STREAM_CLSID@),
    ) + change_if(
        own(stream) && effect is None,
        path,
        PKEY_FX_MODE_EFFECT_CLSID@,
        None,
        Some(MS_CAPX_MODE_CLSID@),
    ) + change_if(
        own(effect),
        path,
        PKEY_FX_MODE_EFFECT_CLSID@,
        effect,
        Some(MS_CAPX_MODE_CLSID@),
    )
}

/// The changes that give some templates Microsoft's effects.
pub open spec fn defaults_plan(r: Seq<KeyView>, paths: Seq<Seq<char>>) -> Seq<ChangeView>
    decreases paths.len(),
{
    if paths.len() == 0 {
        Seq::empty()
    } else {
        defaults_plan(r, paths.drop_last()) + default_of(r, paths.last())
    }
}

/// The changes that give templates Microsoft's effects, where they hold this
/// library's and there is no backup; an error at the first that is missing.
pub fn plan_msfx_restore_defaults(registry: &Registry, paths: &[String]) -> (r: Result<
    Vec<SysFxChange>,
    VxApoError,
>)
    ensures
        match r {
            Ok(plan) => all_present(registry@, text::texts(paths@)) && changes(plan@) == defaults_plan(
                registry@,
                text::texts(paths@),
            ),
            Err(e) => e@ matches ErrorView::KeyNotFound(p) && first_missing(
                registry@,
                text::texts(paths@),
                p,
            ),
        },
{
    let mut out: Vec<SysFxChange> = Vec::new();
    let ghost all = text::texts(paths@);
    let mut i: usize = 0;
    assert(all.take(0) =~= Seq::empty());
    assert(changes(out@) =~= Seq::empty());
    while i < paths.len()
        invariant
            i <= paths.len(),
            all == text::texts(paths@),
            forall|j: int| 0 <= j < i ==> registry::has_key(registry@, Hkey::LocalMachine, #[trigger] all[j]),
            changes(out@) == defaults_plan(registry@, all.take(i as int)),
        decreases paths.len() - i,
    {
        let ghost t = all.take(i + 1);
        let ghost before = changes(out@);
        assert(t.drop_last() =~= all.take(i as int));
        assert(t.last() == paths@[i as int]@);
        assert(all[i as int] == paths@[i as int]@);
        let path = paths[i].as_str();
        match RegKey::open(registry, Hkey::LocalMachine, path) {
            Some(key) => {
                let stream = key.read_sz(PKEY_FX_STREAM_EFFECT_CLSID);
                let effect = key.read_sz(PKEY_FX_MODE_EFFECT_CLSID);
                if opt_own(&stream) {
                    push_change(
                        &mut out,
                        path,
                        PKEY_FX_STREAM_EFFECT_CLSID,
                        &stream,
                        Some(MS_CAPX_STREAM_CLSID.to_owned()),
                    );
                    if effect.is_none() {
                        push_change(
                            &mut out,
                            path,
                            PKEY_FX_MODE_EFFECT_CLSID,
                            &None,
                            Some(MS_CAPX_MODE_CLSID.to_owned()),
                        );
                    }
                }
                if opt_own(&effect) {
                    push_change(
                        &mut out,
                        path,
                        PKEY_FX_MODE_EFFECT_CLSID,
                        &effect,
                        Some(MS_CAPX_MODE_CLSID.to_owned()),
                    );
                }
                assert(changes(out@) =~= before + default_of(registry@, path@));
            },
            None => {
                assert(first_missing(registry@, all, paths@[i as int]@));
                return Err(VxApoError::KeyNotFound(paths[i].clone()));
            },
        }
        i += 1;
    }
    assert(all.take(i as int) =~= all);
    Ok(out)
}

// ---------------------------------------------------------------------------
// Backups
// ---------------------------------------------------------------------------
/// Where the backup of a place stands; the length if there is none.
pub open spec fn backup_index(list: Seq<BackupView>, path: Seq<char>) -> int
    decreases list.len(),
{
    if list.len() == 0 || list[0].key_path == path {
        0
    } else {
        1 + backup_index(list.drop_first(), path)
    }
}

/// A backup with what a change found.
pub open spec fn noted(b: BackupView, c: ChangeView) -> BackupView {
    if c.value_name == PKEY_FX_STREAM_EFFECT_CLSID@ {
        BackupView { stream: c.original, ..b }
    } else if c.value_name == PKEY_FX_MODE_EFFECT_CLSID@ {
        BackupView { mode: c.original, ..b }
    } else {
        b
    }
}

/// Backups with what one more change found.
pub open spec fn add_change(list: Seq<BackupView>, c: ChangeView) -> Seq<BackupView> {
    let i = backup_index(list, c.key_path);
    if i < list.len() {
        list.update(i, noted(list[i], c))
    } else {
        list.push(noted(BackupView { key_path: c.key_path, stream: None, mode: None }, c))
    }
}

/// What changes found, one backup for each place.
pub open spec fn backups_of(list: Seq<ChangeView>) -> Seq<BackupView>
    decreases list.len(),
{
    if list.len() == 0 {
        Seq::empty()
    } else {
        add_change(backups_of(list.drop_last()), list.last())
    }
}

/// The position of a backup is one of the list, or its end.
pub proof fn lemma_backup_index_range(list: Seq<BackupView>, path: Seq<char>)
    ensures
        0 <= backup_index(list, path) <= list.len(),
    decreases list.len(),
{
    if list.len() > 0 {
        lemma_backup_index_range(list.drop_first(), path);
    }
}

proof fn lemma_backup_index(list: Seq<BackupView>, path: Seq<char>, i: int)
    requires
        0 <= i <= list.len(),
        forall|j: int| 0 <= j < i ==> (#[trigger] list[j]).key_path != path,
        i < list.len() ==> list[i].key_path == path,
    ensures
        backup_index(list, path) == i,
    decreases list.len(),
{
    if i > 0 {
        let t = list.drop_first();
        assert(list[0].key_path != path);
        assert forall|j: int| 0 <= j < i - 1 implies (#[trigger] t[j]).key_path != path by {
            assert(t[j] == list[j + 1]);
        }
        lemma_backup_index(t, path, i - 1);
    }
}

fn note_change(out: &mut Vec<SysFxBackup>, c: &SysFxChange)
    ensures
        backups(final(out)@) == add_change(backups(old(out)@), c@),
{
    let ghost before = backups(out@);
    let mut i: usize = 0;
    while i < out.len() && !eq(out[i].key_path.as_str(), c.key_path.as_str())
        invariant
            i <= out@.len(),
            out@ == old(out)@,
            before == backups(out@),
            forall|j: int| 0 <= j < i ==> (#[trigger] before[j]).key_path != c@.key_path,
        decreases out@.len() - i,
    {
        assert(before[i as int] == out@[i as int]@);
        i += 1;
    }
    proof {
        if i < out@.len() {
            assert(before[i as int] == out@[i as int]@);
        }
        lemma_backup_index(before, c@.key_path, i as int);
    }
    let kept = copy_opt(&c.original);
    let mut entry = if i < out.len() {
        SysFxBackup {
            key_path: out[i].key_path.clone(),
            stream: copy_opt(&out[i].stream),
            mode: copy_opt(&out[i].mode),
        }
    } else {
        SysFxBackup { key_path: c.key_path.clone(), stream: None, mode: None }
    };
    if eq(c.value_name.as_str(), PKEY_FX_STREAM_EFFECT_CLSID) {
        entry.stream = kept;
    } else if eq(c.value_name.as_str(), PKEY_FX_MODE_EFFECT_CLSID) {
        entry.mode = kept;
    }
    let ghost e = entry@;
    if i < out.len() {
        out[i] = entry;
        assert(backups(out@) =~= before.update(i as int, e));
    } else {
        out.push(entry);
        assert(backups(out@) =~= before.push(e));
    }
}

/// What changes found, one backup for each place, in the order of the places'
/// first changes.
pub fn changes_to_backups(list: &[SysFxChange]) -> (r: Vec<SysFxBackup>)
    ensures
        backups(r@) == backups_of(changes(list@)),
{
    let mut out: Vec<SysFxBackup> = Vec::new();
    let ghost all = changes(list@);
    let mut i: usize = 0;
    assert(all.take(0) =~= Seq::empty());
    assert(backups(out@) =~= Seq::empty());
    while i < list.len()
        invariant
            i <= list.len(),
            all == changes(list@),
            backups(out@) == backups_of(all.take(i as int)),
        decreases list.len() - i,
    {
        let ghost t = all.take(i + 1);
        assert(t.drop_last() =~= all.take(i as int));
        assert(t.last() == list@[i as int]@);
        note_change(&mut out, &list[i]);
        i += 1;
    }
    assert(all.take(i as int) =~= all);
    out
}

/// A kept effect in a line; a hyphen where there is none.
pub open spec fn or_dash(v: Option<Seq<char>>) -> Seq<char> {
    match v {
        Some(s) => s,
        None => "-"@,
    }
}

/// The line of a backup: place, stream effect and mode effect, with bars between
/// them.
pub open spec fn backup_line(b: BackupView) -> Seq<char> {
    b.key_path + "|"@ + or_dash(b.stream) + "|"@ + or_dash(b.mode)
}

/// The lines of backups.
pub fn encode_backups(list: &[SysFxBackup]) -> (r: Vec<String>)
    ensures
        text::texts(r@) == backups(list@).map_values(|b: BackupView| backup_line(b)),
{
    let mut out: Vec<String> = Vec::new();
    let mut i: usize = 0;
    while i < list.len()
        invariant
            i <= list.len(),
            out@.len() == i,
            forall|j: int| 0 <= j < i ==> (#[trigger] out@[j])@ == backup_line(list@[j]@),
        decreases list.len() - i,
    {
        let b = &list[i];
        let stream = match &b.stream {
            Some(s) => s.clone(),
            None => "-".to_owned(),
        };
        let mode = match &b.mode {
            Some(s) => s.clone(),
            None => "-".to_owned(),
        };
        let head = concat3(b.key_path.as_str(), "|", stream.as_str());
        let line = concat3(head.as_str(), "|", mode.as_str());
        out.push(line);
        i += 1;
    }
    assert(text::texts(out@) =~= backups(list@).map_values(|b: BackupView| backup_line(b)));
    out
}

/// A kept effect read from a line.
pub open spec fn un_dash(s: Seq<char>) -> Option<Seq<char>> {
    if s == "-"@ {
        None
    } else {
        Some(s)
    }
}

/// The backup that a line gives; `None` when it has fewer than two bars.
pub open spec fn line_backup(s: Seq<char>) -> Option<BackupView> {
    let n = text::span_until(s, '|');
    let rest = s.subrange(n + 1, s.len() as int);
    let m = text::span_until(rest, '|');
    if n < s.len() && m < rest.len() {
        Some(
            BackupView {
                key_path: s.subrange(0, n),
                stream: un_dash(rest.subrange(0, m)),
                mode: un_dash(rest.subrange(m + 1, rest.len() as int)),
            },
        )
    } else {
        None
    }
}

/// The backups that lines give; lines with fewer than two bars are left out.
pub open spec fn line_backups(lines: Seq<Seq<char>>) -> Seq<BackupView>
    decreases lines.len(),
{
    if lines.len() == 0 {
        Seq::empty()
    } else {
        let rest = line_backups(lines.drop_last());
        match line_backup(lines.last()) {
            Some(b) => rest.push(b),
            None => rest,
        }
    }
}

fn undash(s: String) -> (r: Option<String>)
    ensures
        opt(r) == un_dash(s@),
{
    if eq(s.as_str(), "-") {
        None
    } else {
        Some(s)
    }
}

#[verifier::spinoff_prover]
fn decode_line(line: &str) -> (r: Option<SysFxBackup>)
    ensures
        r is Some == line_backup(line@) is Some,
        r matches Some(b) ==> line_backup(line@) == Some(b@),
{
    let v = to_chars(line);
    assert(v@.subrange(0, v@.len() as int) =~= v@);
    let n = position_of(v.as_slice(), '|', 0);
    assert(n == text::span_until(line@, '|'));
    if n == v.len() {
        return None;
    }
    let ghost rest = line@.subrange(n + 1, line@.len() as int);
    let e = position_of(v.as_slice(), '|', n + 1);
    assert(e - n - 1 == text::span_until(rest, '|'));
    if e == v.len() {
        return None;
    }
    let stream = sub_string(v.as_slice(), n + 1, e);
    let mode = sub_string(v.as_slice(), e + 1, v.len());
    assert(stream@ =~= rest.subrange(0, e - n - 1));
    assert(mode@ =~= rest.subrange(e - n - 1 + 1, rest.len() as int));
    Some(
        SysFxBackup {
            key_path: sub_string(v.as_slice(), 0, n),
            stream: undash(stream),
            mode: undash(mode),
        },
    )
}

/// The backups that lines give; lines with fewer than two bars are left out.
pub fn decode_backups(values: &[String]) -> (r: Vec<SysFxBackup>)
    ensures
        backups(r@) == line_backups(text::texts(values@)),
{
    let mut out: Vec<SysFxBackup> = Vec::new();
    let ghost all = text::texts(values@);
    let mut i: usize = 0;
    assert(all.take(0) =~= Seq::empty());
    assert(backups(out@) =~= Seq::empty());
    while i < values.len()
        invariant
            i <= values.len(),
            all == text::texts(values@),
            backups(out@) == line_backups(all.take(i as int)),
        decreases values.len() - i,
    {
        let ghost t = all.take(i + 1);
        let ghost before = backups(out@);
        assert(t.drop_last() =~= all.take(i as int));
        assert(t.last() == values@[i as int]@);
        match decode_line(values[i].as_str()) {
            Some(b) => {
                out.push(b);
                assert(backups(out@) =~= before.push(b@));
            },
            None => {},
        }
        i += 1;
    }
    assert(all.take(i as int) =~= all);
    out
}

/// Whether a kept effect survives being written as a part of a line.
pub open spec fn writable(v: Option<Seq<char>>) -> bool {
    v matches Some(s) ==> s != "-"@
}

/// A backup whose place and stream effect hold no bar, and whose effects are not
/// a lone hyphen, is read back from its line as it was.
pub proof fn law_backup_line_round_trip(b: BackupView)
    requires
        !b.key_path.contains('|'),
        b.stream matches Some(s) ==> !s.contains('|'),
        writable(b.stream),
        writable(b.mode),
    ensures
        line_backup(backup_line(b)) == Some(b),
{
    reveal_strlit("|");
    reveal_strlit("-");
    let s = backup_line(b);
    let n = b.key_path.len() as int;
    let stream = or_dash(b.stream);
    let mode = or_dash(b.mode);
    let m = stream.len() as int;
    assert forall|j: int| 0 <= j < n implies s[j] != '|' by {
        assert(s[j] == b.key_path[j]);
        assert(b.key_path.contains(b.key_path[j]));
    }
    assert(s[n] == '|');
    crate::text::lemma_span_until(s, '|', n);
    let rest = s.subrange(n + 1, s.len() as int);
    assert forall|j: int| 0 <= j < m implies rest[j] != '|' by {
        assert(rest[j] == stream[j]);
        if b.stream is Some {
            assert(stream.contains(stream[j]));
        }
    }
    assert(rest[m] == '|');
    crate::text::lemma_span_until(rest, '|', m);
    assert(s.subrange(0, n) =~= b.key_path);
    assert(rest.subrange(0, m) =~= stream);
    assert(rest.subrange(m + 1, rest.len() as int) =~= mode);
}

/// Backups are read back from their lines as they were, in the same order.
pub proof fn law_backups_round_trip(list: Seq<BackupView>)
    requires
        forall|i: int|
            0 <= i < list.len() ==> {
                &&& !(#[trigger] list[i]).key_path.contains('|')
                &&& (list[i].stream matches Some(s) ==> !s.contains('|'))
                &&& writable(list[i].stream)
                &&& writable(list[i].mode)
            },
    ensures
        line_backups(list.map_values(|b: BackupView| backup_line(b))) == list,
    decreases list.len(),
{
    let lines = list.map_values(|b: BackupView| backup_line(b));
    if list.len() == 0 {
        assert(line_backups(lines) =~= list);
    } else {
        let t = list.drop_last();
        assert forall|i: int| 0 <= i < t.len() implies {
            &&& !(#[trigger] t[i]).key_path.contains('|')
            &&& (t[i].stream matches Some(s) ==> !s.contains('|'))
            &&& writable(t[i].stream)
            &&& writable(t[i].mode)
        } by {
            assert(t[i] == list[i]);
        }
        law_backups_round_trip(t);
        let b = list[list.len() - 1];
        law_backup_line_round_trip(b);
        assert(lines.drop_last() =~= t.map_values(|b: BackupView| backup_line(b)));
        assert(lines.last() == backup_line(b));
        assert(line_backups(lines) =~= list);
    }
}

// ---------------------------------------------------------------------------
// Keeping templates taken over
// ---------------------------------------------------------------------------
/// What one template needs.
#[derive(Clone, Copy, Debug, PartialEq, Eq, Structural)]
pub enum HealAction {
    /// Nothing.
    Noop,
    /// This library's stream effect in place of Microsoft's, and no mode effect
    /// of Microsoft's.
    ReplaceStreamDeleteMode,
    /// No mode effect of Microsoft's.
    DeleteModeOnly,
}

/// What a template needs: its stream effect is replaced if it is Microsoft's;
/// its mode effect goes if it is Microsoft's, or was, as the settings show.
pub open spec fn heal_action(
    stream: Option<Seq<char>>,
    mode: Option<Seq<char>>,
    has_context: bool,
) -> HealAction {
    if ms_stream(stream) {
        HealAction::ReplaceStreamDeleteMode
    } else if ms_mode(mode) || (has_context && own(stream) && mode is None) {
        HealAction::DeleteModeOnly
    } else {
        HealAction::Noop
    }
}

/// What a template needs, given its two effects and whether it holds settings of
/// Microsoft's.
pub fn msfx_heal_action(stream: Option<&str>, mode: Option<&str>, has_context: bool) -> (r:
    HealAction)
    ensures
        r == heal_action(
            match stream {
                Some(s) => Some(s@),
                None => None,
            },
            match mode {
                Some(s) => Some(s@),
                None => None,
            },
            has_context,
        ),
{
    let stream_is_ms = match stream {
        Some(s) => is_ms_stream_clsid(s),
        None => false,
    };
    let mode_is_ms = match mode {
        Some(s) => is_ms_mode_clsid(s),
        None => false,
    };
    let stream_is_own = match stream {
        Some(s) => is_vxapo_clsid(s),
        None => false,
    };
    if stream_is_ms {
        return HealAction::ReplaceStreamDeleteMode;
    }
    if mode_is_ms || (has_context && stream_is_own && mode.is_none()) {
        return HealAction::DeleteModeOnly;
    }
    HealAction::Noop
}

/// The changes that a template needs.
pub open spec fn heal_ops(r: Seq<KeyView>, path: Seq<char>) -> Seq<OpView> {
    let stream = held(r, path, PKEY_FX_STREAM_EFFECT_CLSID@);
    let mode = held(r, path, PKEY_FX_MODE_EFFECT_CLSID@);
    let action = heal_action(
        stream,
        mode,
        registry::has_key(r, Hkey::LocalMachine, registry::join(path, WMALFX_CONTEXT@)),
    );
    identity::op_if(
        registry::has_key(r, Hkey::LocalMachine, path) && action == HealAction::ReplaceStreamDeleteMode,
        registry::op_set_sz(
            Hkey::LocalMachine,
            path,
            PKEY_FX_STREAM_EFFECT_CLSID@,
            guid::guid_text(clsid_pre_mix()),
        ),
    ) + identity::op_if(
        registry::has_key(r, Hkey::LocalMachine, path) && action != HealAction::Noop && ms_mode(mode),
        OpView::DeleteValue {
            root: Hkey::LocalMachine,
            path,
            name: PKEY_FX_MODE_EFFECT_CLSID@,
        },
    )
}

/// The changes that some templates need, each as the changes before it left it.
pub open spec fn heal_all_ops(r: Seq<KeyView>, paths: Seq<Seq<char>>) -> Seq<OpView>
    decreases paths.len(),
{
    if paths.len() == 0 {
        Seq::empty()
    } else {
        let before = heal_all_ops(r, paths.drop_last());
        before + heal_ops(registry::apply_all(r, before), paths.last())
    }
}

/// Whether one of an endpoint's slots holds one of this library's effects.
pub open spec fn managed(r: Seq<KeyView>, fx_path: Seq<char>) -> bool {
    exists|i: int|
        0 <= i < 5 && own(held(r, fx_path, types::slot_name(#[trigger] types::all_slots()[i])))
}

/// The changes that switch an endpoint's effects on.
pub open spec fn enable_ops(fx_path: Seq<char>) -> Seq<OpView> {
    seq![
        OpView::DeleteValue {
            root: Hkey::LocalMachine,
            path: fx_path,
            name: crate::install::device::info::DISABLE_ENHANCEMENTS_VALUE@,
        },
        OpView::DeleteValue { root: Hkey::LocalMachine, path: fx_path, name: DISABLE_SYSFX_VALUE@ },
    ]
}

/// When the templates of an endpoint were last scanned.
#[derive(Clone, Debug, PartialEq, Eq)]
pub struct ScanEntry {
    pub endpoint_path: String,
    pub at_ms: u64,
}

/// When the templates of each endpoint were last scanned.
#[derive(Clone, Debug, PartialEq, Eq)]
pub struct ScanCache {
    pub entries: Vec<ScanEntry>,
}

/// The time of an endpoint's last scan.
pub open spec fn last_scan(list: Seq<ScanEntry>, path: Seq<char>) -> Option<u64>
    decreases list.len(),
{
    if list.len() == 0 {
        None
    } else if list.last().endpoint_path@ == path {
        Some(list.last().at_ms)
    } else {
        last_scan(list.drop_last(), path)
    }
}

/// Whether an endpoint's last scan is recent enough to do without another.
pub open spec fn recently_scanned(last: Option<u64>, now_ms: u64) -> bool {
    last matches Some(t) && now_ms < t + SCAN_INTERVAL_MS
}

impl ScanCache {
    /// A cache in which no scan is noted.
    pub fn new() -> (c: ScanCache)
        ensures
            forall|path: Seq<char>| #[trigger] last_scan(c.entries@, path) is None,
    {
        ScanCache { entries: Vec::new() }
    }

    fn last(&self, path: &str) -> (r: Option<u64>)
        ensures
            r == last_scan(self.entries@, path@),
    {
        let mut i: usize = self.entries.len();
        assert(self.entries@.take(i as int) =~= self.entries@);
        while i > 0
            invariant
                i <= self.entries@.len(),
                last_scan(self.entries@, path@) == last_scan(self.entries@.take(i as int), path@),
            decreases i,
        {
            let e = &self.entries[i - 1];
            let ghost t = self.entries@.take(i as int);
            assert(t.last() == e);
            assert(t.drop_last() =~= self.entries@.take(i - 1));
            if eq(e.endpoint_path.as_str(), path) {
                return Some(e.at_ms);
            }
            i -= 1;
        }
        None
    }

    fn note(&mut self, path: &str, now_ms: u64)
        ensures
            forall|p: Seq<char>| #[trigger]
                last_scan(final(self).entries@, p) == (if p == path@ {
                    Some(now_ms)
                } else {
                    last_scan(old(self).entries@, p)
                }),
    {
        let ghost before = self.entries@;
        let mut i: usize = self.entries.len();
        while i > 0
            invariant
                i <= self.entries@.len(),
                self.entries@ == old(self).entries@,
                before == self.entries@,
                forall|j: int|
                    i <= j < before.len() ==> (#[trigger] before[j]).endpoint_path@ != path@,
            decreases i,
        {
            if eq(self.entries[i - 1].endpoint_path.as_str(), path) {
                let kept = self.entries[i - 1].endpoint_path.clone();
                let e = ScanEntry { endpoint_path: kept, at_ms: now_ms };
                self.entries[i - 1] = e;
                proof {
                    assert forall|p: Seq<char>| #[trigger]
                        last_scan(self.entries@, p) == (if p == path@ {
                            Some(now_ms)
                        } else {
                            last_scan(before, p)
                        }) by {
                        lemma_last_scan_update(before, i - 1, e, p);
                    }
                }
                return;
            }
            i -= 1;
        }
        self.entries.push(ScanEntry { endpoint_path: path.to_owned(), at_ms: now_ms });
        assert(self.entries@.drop_last() =~= before);
    }
}

/// Renewing the last note of an endpoint renews its time, and no other.
proof fn lemma_last_scan_update(list: Seq<ScanEntry>, k: int, e: ScanEntry, p: Seq<char>)
    requires
        0 <= k < list.len(),
        e.endpoint_path@ == list[k].endpoint_path@,
        forall|j: int|
            k < j < list.len() ==> (#[trigger] list[j]).endpoint_path@ != e.endpoint_path@,
    ensures
        last_scan(list.update(k, e), p) == (if p == e.endpoint_path@ {
            Some(e.at_ms)
        } else {
            last_scan(list, p)
        }),
    decreases list.len(),
{
    let u = list.update(k, e);
    if k < list.len() - 1 {
        assert(u.drop_last() =~= list.drop_last().update(k, e));
        lemma_last_scan_update(list.drop_last(), k, e, p);
    } else {
        assert(u.drop_last() =~= list.drop_last());
    }
}

/// The changes that keep an endpoint's templates taken over.
pub open spec fn keep_ops(r: Seq<KeyView>, endpoint_path: Seq<char>, recent: bool) -> Seq<OpView> {
    let fx_path = registry::join(endpoint_path, FX_PROPERTIES_KEY@);
    let r1 = registry::apply_all(r, enable_ops(fx_path));
    let props = registry::join(endpoint_path, PROPERTIES_KEY@);
    if !registry::has_key(r, Hkey::LocalMachine, fx_path) || !managed(r, fx_path) {
        Seq::empty()
    } else if recent || !registry::has_key(r1, Hkey::LocalMachine, endpoint_path) {
        enable_ops(fx_path)
    } else {
        enable_ops(fx_path) + heal_all_ops(
            r1,
            msfx_entries(
                r1,
                held(r1, props, PKEY_DEVICE_INSTANCE_ID@),
                held(r1, props, PKEY_AUDIO_ENDPOINT_ASSOCIATION@),
            ),
        )
    }
}

/// Whether the templates of an endpoint are due to be scanned.
pub open spec fn scan_due(r: Seq<KeyView>, endpoint_path: Seq<char>, recent: bool) -> bool {
    let fx_path = registry::join(endpoint_path, FX_PROPERTIES_KEY@);
    registry::has_key(r, Hkey::LocalMachine, fx_path) && managed(r, fx_path) && !recent
}

fn fx_is_managed(registry: &Registry, fx_path: &str) -> (r: bool)
    ensures
        r == managed(registry@, fx_path@),
{
    let mut i: usize = 0;
    proof {
        assert(ApoSlot::ALL@ =~= types::all_slots());
    }
    while i < 5
        invariant
            i <= 5,
            ApoSlot::ALL@ == types::all_slots(),
            forall|j: int|
                0 <= j < i ==> !own(held(registry@, fx_path@, types::slot_name(#[trigger] types::all_slots()[j]))),
        decreases 5 - i,
    {
        let slot = ApoSlot::ALL[i];
        assert(slot == types::all_slots()[i as int]);
        let name = slot.value_name();
        let v = registry.get_sz(Hkey::LocalMachine, fx_path, name.as_str());
        if opt_own(&v) {
            return true;
        }
        i += 1;
    }
    false
}

fn heal_one(registry: &mut Registry, path: &str)
    ensures
        registry::advanced(*old(registry), *final(registry), heal_ops(old(registry)@, path@)),
{
    let ghost r0 = *registry;
    proof {
        registry::lemma_advanced_refl(r0);
    }
    if !registry.holds_key(Hkey::LocalMachine, path) {
        assert(heal_ops(r0@, path@) =~= Seq::empty());
        return;
    }
    let stream = registry.get_sz(Hkey::LocalMachine, path, PKEY_FX_STREAM_EFFECT_CLSID);
    let mode = registry.get_sz(Hkey::LocalMachine, path, PKEY_FX_MODE_EFFECT_CLSID);
    let context = join_path(path, WMALFX_CONTEXT);
    let has_context = registry.holds_key(Hkey::LocalMachine, context.as_str());
    let action = msfx_heal_action(
        match &stream {
            Some(s) => Some(s.as_str()),
            None => None,
        },
        match &mode {
            Some(s) => Some(s.as_str()),
            None => None,
        },
        has_context,
    );
    let ghost mut done = Seq::<OpView>::empty();
    if action == HealAction::ReplaceStreamDeleteMode {
        let text = guid_to_string(&clsid_pre_mix());
        registry.set_sz(Hkey::LocalMachine, path, PKEY_FX_STREAM_EFFECT_CLSID, text.as_str());
        proof {
            done = seq![
                registry::op_set_sz(
                    Hkey::LocalMachine,
                    path@,
                    PKEY_FX_STREAM_EFFECT_CLSID@,
                    guid::guid_text(clsid_pre_mix()),
                ),
            ];
        }
    }
    if action != HealAction::Noop && opt_ms_mode(&mode) {
        let ghost r1 = *registry;
        let ghost op = OpView::DeleteValue {
            root: Hkey::LocalMachine,
            path: path@,
            name: PKEY_FX_MODE_EFFECT_CLSID@,
        };
        registry.delete_value(Hkey::LocalMachine, path, PKEY_FX_MODE_EFFECT_CLSID);
        proof {
            registry::lemma_advanced_trans(r0, r1, *registry, done, seq![op]);
            done = done + seq![op];
        }
    }
    assert(done =~= heal_ops(r0@, path@));
}

/// Keeps an endpoint's templates taken over, where this library manages the
/// endpoint: its effects are switched on, and, unless its templates were scanned
/// less than [`SCAN_INTERVAL_MS`] ago, each template gets what it needs. An
/// error when the endpoint itself is missing.
pub fn ensure_takeover_for_endpoint(
    registry: &mut Registry,
    cache: &mut ScanCache,
    now_ms: u64,
    endpoint_path: &str,
) -> (r: Result<(), VxApoError>)
    ensures
        ({
            let recent = recently_scanned(
                last_scan(old(cache).entries@, endpoint_path@),
                now_ms,
            );
            let due = scan_due(old(registry)@, endpoint_path@, recent);
            &&& registry::advanced(
                *old(registry),
                *final(registry),
                keep_ops(old(registry)@, endpoint_path@, recent),
            )
            &&& r is Err == (due && !registry::has_key(final(registry)@, Hkey::LocalMachine, endpoint_path@))
            &&& r matches Err(e) ==> e@ == ErrorView::KeyNotFound(endpoint_path@)
            &&& due ==> forall|p: Seq<char>| #[trigger]
                last_scan(final(cache).entries@, p) == (if p == endpoint_path@ {
                    Some(now_ms)
                } else {
                    last_scan(old(cache).entries@, p)
                })
            &&& !due ==> *final(cache) == *old(cache)
        }),
{
    let ghost r0 = *registry;
    let fx_path = join_path(endpoint_path, FX_PROPERTIES_KEY);
    proof {
        registry::lemma_advanced_refl(r0);
    }
    if !registry.holds_key(Hkey::LocalMachine, fx_path.as_str()) {
        return Ok(());
    }
    if !fx_is_managed(registry, fx_path.as_str()) {
        return Ok(());
    }
    registry.delete_value(
        Hkey::LocalMachine,
        fx_path.as_str(),
        crate::install::device::info::DISABLE_ENHANCEMENTS_VALUE,
    );
    let ghost ra = *registry;
    registry.delete_value(Hkey::LocalMachine, fx_path.as_str(), DISABLE_SYSFX_VALUE);
    let ghost r1 = *registry;
    proof {
        let e = enable_ops(fx_path@);
        registry::lemma_advanced_trans(r0, ra, r1, seq![e[0]], seq![e[1]]);
        assert(seq![e[0]] + seq![e[1]] =~= e);
        // Deleting values keeps every key in place.
        lemma_enable_keeps_keys(r0@, fx_path@, endpoint_path@);
    }
    let last = cache.last(endpoint_path);
    let recent = match last {
        Some(t) => now_ms < t || now_ms - t < SCAN_INTERVAL_MS,
        None => false,
    };
    if recent {
        return Ok(());
    }
    cache.note(endpoint_path, now_ms);
    let (device_id, node_type) = match RegKey::open(registry, Hkey::LocalMachine, endpoint_path) {
        Some(key) => endpoint_identity(&key),
        None => {
            return Err(VxApoError::KeyNotFound(endpoint_path.to_owned()));
        },
    };
    let paths = match find_msfx_entries(
        registry,
        match &device_id {
            Some(s) => Some(s.as_str()),
            None => None,
        },
        match &node_type {
            Some(s) => Some(s.as_str()),
            None => None,
        },
    ) {
        Ok(p) => p,
        Err(e) => {
            return Err(e);
        },
    };
    let ghost all = text::texts(paths@);
    let mut i: usize = 0;
    assert(all.take(0) =~= Seq::empty());
    proof {
        registry::lemma_advanced_refl(r1);
    }
    while i < paths.len()
        invariant
            i <= paths@.len(),
            all == text::texts(paths@),
            registry::advanced(r1, *registry, heal_all_ops(r1@, all.take(i as int))),
        decreases paths@.len() - i,
    {
        let ghost t = all.take(i + 1);
        let ghost rb = *registry;
        assert(t.drop_last() =~= all.take(i as int));
        assert(t.last() == paths@[i as int]@);
        heal_one(registry, paths[i].as_str());
        proof {
            registry::lemma_advanced_trans(
                r1,
                rb,
                *registry,
                heal_all_ops(r1@, all.take(i as int)),
                heal_ops(rb@, t.last()),
            );
        }
        i += 1;
    }
    assert(all.take(i as int) =~= all);
    proof {
        registry::lemma_advanced_trans(r0, r1, *registry, enable_ops(fx_path@), heal_all_ops(r1@, all));
        lemma_heal_keeps_keys(r1@, all, endpoint_path@);
    }
    Ok(())
}

proof fn lemma_enable_keeps_keys(r: Seq<KeyView>, fx_path: Seq<char>, path: Seq<char>)
    ensures
        registry::has_key(registry::apply_all(r, enable_ops(fx_path)), Hkey::LocalMachine, path) == registry::has_key(
            r,
            Hkey::LocalMachine,
            path,
        ),
{
    let e = enable_ops(fx_path);
    assert(e.drop_last() =~= seq![e[0]]);
    assert(e.drop_last().drop_last() =~= Seq::<OpView>::empty());
    let a = registry::apply_all(r, e.drop_last().drop_last());
    assert(a == r);
    let b = registry::apply_all(r, e.drop_last());
    assert(b == registry::apply(r, e[0]));
    crate::registry::law_value_changes_keep_keys(r, e[0], Hkey::LocalMachine, path);
    crate::registry::law_value_changes_keep_keys(b, e[1], Hkey::LocalMachine, path);
}

/// Changes of values alone keep every key in place.
pub proof fn lemma_value_ops_keep_keys(r: Seq<KeyView>, ops: Seq<OpView>, root: Hkey, path: Seq<char>)
    requires
        forall|i: int|
            0 <= i < ops.len() ==> (#[trigger] ops[i]) is SetValue || ops[i] is DeleteValue,
    ensures
        registry::has_key(registry::apply_all(r, ops), root, path) == registry::has_key(r, root, path),
    decreases ops.len(),
{
    if ops.len() > 0 {
        let t = ops.drop_last();
        assert forall|i: int| 0 <= i < t.len() implies (#[trigger] t[i]) is SetValue
            || t[i] is DeleteValue by {
            assert(t[i] == ops[i]);
        }
        lemma_value_ops_keep_keys(r, t, root, path);
        assert(ops[ops.len() - 1] is SetValue || ops[ops.len() - 1] is DeleteValue);
        crate::registry::law_value_changes_keep_keys(registry::apply_all(r, t), ops.last(), root, path);
    }
}

proof fn lemma_heal_keeps_keys(r: Seq<KeyView>, paths: Seq<Seq<char>>, path: Seq<char>)
    ensures
        registry::has_key(registry::apply_all(r, heal_all_ops(r, paths)), Hkey::LocalMachine, path) == registry::has_key(
            r,
            Hkey::LocalMachine,
            path,
        ),
    decreases paths.len(),
{
    if paths.len() > 0 {
        let before = heal_all_ops(r, paths.drop_last());
        let r1 = registry::apply_all(r, before);
        let ops = heal_ops(r1, paths.last());
        lemma_heal_keeps_keys(r, paths.drop_last(), path);
        registry::lemma_apply_all_concat(r, before, ops);
        lemma_value_ops_keep_keys(r1, ops, Hkey::LocalMachine, path);
    }
}

// ---------------------------------------------------------------------------
// Making changes
// ---------------------------------------------------------------------------
/// The registry change that a template change stands for.
pub open spec fn change_op(c: ChangeView) -> OpView {
    match c.target {
        Some(t) => registry::op_set_sz(Hkey::LocalMachine, c.key_path, c.value_name, t),
        None => OpView::DeleteValue {
            root: Hkey::LocalMachine,
            path: c.key_path,
            name: c.value_name,
        },
    }
}

/// The registry changes that template changes stand for.
pub open spec fn change_ops(list: Seq<ChangeView>) -> Seq<OpView> {
    list.map_values(|c: ChangeView| change_op(c))
}

/// Makes template changes, one after the other.
pub fn make_changes(registry: &mut Registry, list: &[SysFxChange])
    ensures
        registry::advanced(*old(registry), *final(registry), change_ops(changes(list@))),
{
    let ghost r0 = *registry;
    let ghost all = changes(list@);
    let mut i: usize = 0;
    assert(change_ops(all.take(0)) =~= Seq::empty());
    proof {
        registry::lemma_advanced_refl(r0);
    }
    while i < list.len()
        invariant
            i <= list.len(),
            all == changes(list@),
            registry::advanced(r0, *registry, change_ops(all.take(i as int))),
        decreases list.len() - i,
    {
        let c = &list[i];
        let ghost rb = *registry;
        match &c.target {
            Some(t) => registry.set_sz(
                Hkey::LocalMachine,
                c.key_path.as_str(),
                c.value_name.as_str(),
                t.as_str(),
            ),
            None => registry.delete_value(
                Hkey::LocalMachine,
                c.key_path.as_str(),
                c.value_name.as_str(),
            ),
        }
        proof {
            registry::lemma_advanced_trans(
                r0,
                rb,
                *registry,
                change_ops(all.take(i as int)),
                seq![change_op(c@)],
            );
            assert(change_ops(all.take(i + 1)) =~= change_ops(all.take(i as int)) + seq![
                change_op(c@),
            ]);
        }
        i += 1;
    }
    assert(all.take(i as int) =~= all);
}

// ---------------------------------------------------------------------------
// Laws
// ---------------------------------------------------------------------------
/// The names of a template's two effects differ, in whatever case.
proof fn lemma_effect_names()
    ensures
        !text::eq_ci(PKEY_FX_STREAM_EFFECT_CLSID@, PKEY_FX_MODE_EFFECT_CLSID@),
        !text::eq_ci(PKEY_FX_MODE_EFFECT_CLSID@, PKEY_FX_STREAM_EFFECT_CLSID@),
{
    reveal_strlit("{D04E05A6-594B-4FB6-A80D-01AF5EED7D1D},5");
    reveal_strlit("{D04E05A6-594B-4FB6-A80D-01AF5EED7D1D},6");
    let a = text::ascii_lower(PKEY_FX_STREAM_EFFECT_CLSID@);
    let b = text::ascii_lower(PKEY_FX_MODE_EFFECT_CLSID@);
    assert(a[39] == '5');
    assert(b[39] == '6');
}

proof fn lemma_one_change(r: Seq<KeyView>, c: ChangeView, name: Seq<char>)
    requires
        registry::has_key(r, Hkey::LocalMachine, c.key_path),
    ensures
        ({
            let r1 = registry::apply(r, change_op(c));
            &&& registry::has_key(r1, Hkey::LocalMachine, c.key_path)
            &&& held(r1, c.key_path, name) == (if text::eq_ci(c.value_name, name) {
                c.target
            } else {
                held(r, c.key_path, name)
            })
        }),
{
    registry::law_value_changes_keep_keys(r, change_op(c), Hkey::LocalMachine, c.key_path);
    match c.target {
        Some(t) => registry::law_read_after_write(
            r,
            Hkey::LocalMachine,
            c.key_path,
            c.value_name,
            crate::registry::ValueView::Sz(t),
            Hkey::LocalMachine,
            c.key_path,
            name,
        ),
        None => registry::law_deleted_value_is_gone(
            r,
            Hkey::LocalMachine,
            c.key_path,
            c.value_name,
            Hkey::LocalMachine,
            c.key_path,
            name,
        ),
    }
}

/// What the two effects of a template are after at most one change of each.
proof fn lemma_two_changes(
    r: Seq<KeyView>,
    path: Seq<char>,
    a: Seq<ChangeView>,
    b: Seq<ChangeView>,
)
    requires
        registry::has_key(r, Hkey::LocalMachine, path),
        a.len() <= 1,
        b.len() <= 1,
        a.len() == 1 ==> a[0].key_path == path && a[0].value_name == PKEY_FX_STREAM_EFFECT_CLSID@,
        b.len() == 1 ==> b[0].key_path == path && b[0].value_name == PKEY_FX_MODE_EFFECT_CLSID@,
    ensures
        ({
            let r1 = registry::apply_all(r, change_ops(a + b));
            &&& registry::has_key(r1, Hkey::LocalMachine, path)
            &&& held(r1, path, PKEY_FX_STREAM_EFFECT_CLSID@) == (if a.len() == 1 {
                a[0].target
            } else {
                held(r, path, PKEY_FX_STREAM_EFFECT_CLSID@)
            })
            &&& held(r1, path, PKEY_FX_MODE_EFFECT_CLSID@) == (if b.len() == 1 {
                b[0].target
            } else {
                held(r, path, PKEY_FX_MODE_EFFECT_CLSID@)
            })
        }),
{
    lemma_effect_names();
    let oa = change_ops(a);
    let ob = change_ops(b);
    assert(change_ops(a + b) =~= oa + ob);
    registry::lemma_apply_all_concat(r, oa, ob);
    let ra = registry::apply_all(r, oa);
    if a.len() == 1 {
        assert(oa.drop_last() =~= Seq::<OpView>::empty());
        assert(registry::apply_all(r, oa.drop_last()) == r);
        assert(ra == registry::apply(r, change_op(a[0])));
        lemma_one_change(r, a[0], PKEY_FX_STREAM_EFFECT_CLSID@);
        lemma_one_change(r, a[0], PKEY_FX_MODE_EFFECT_CLSID@);
    }
    let rb = registry::apply_all(ra, ob);
    if b.len() == 1 {
        assert(ob.drop_last() =~= Seq::<OpView>::empty());
        assert(registry::apply_all(ra, ob.drop_last()) == ra);
        assert(rb == registry::apply(ra, change_op(b[0])));
        lemma_one_change(ra, b[0], PKEY_FX_STREAM_EFFECT_CLSID@);
        lemma_one_change(ra, b[0], PKEY_FX_MODE_EFFECT_CLSID@);
    }
}

/// Taking a template over changes Microsoft's effects and this library's alone,
/// and puts only this library's in their place.
pub proof fn law_takeover_spares_others(
    r: Seq<KeyView>,
    path: Seq<char>,
    mode: InstallMode,
    install_premix: bool,
    install_postmix: bool,
)
    ensures
        forall|i: int|
            #![trigger takeover_of(r, path, mode, install_premix, install_postmix)[i]]
            0 <= i < takeover_of(r, path, mode, install_premix, install_postmix).len() ==> {
                let c = takeover_of(r, path, mode, install_premix, install_postmix)[i];
                &&& c.key_path == path
                &&& ms_stream(c.original) || ms_mode(c.original) || own(c.original)
                &&& c.target is None || own(c.target)
            },
{
}

/// Healing a template changes no effect but Microsoft's.
pub proof fn law_heal_spares_others(r: Seq<KeyView>, path: Seq<char>)
    ensures
        ({
            let r1 = registry::apply_all(r, heal_ops(r, path));
            let stream = held(r, path, PKEY_FX_STREAM_EFFECT_CLSID@);
            let mode = held(r, path, PKEY_FX_MODE_EFFECT_CLSID@);
            &&& !ms_stream(stream) ==> held(r1, path, PKEY_FX_STREAM_EFFECT_CLSID@) == stream
            &&& !ms_mode(mode) ==> held(r1, path, PKEY_FX_MODE_EFFECT_CLSID@) == mode
        }),
{
    if registry::has_key(r, Hkey::LocalMachine, path) {
        lemma_healed(r, path);
    } else {
        assert(heal_ops(r, path) =~= Seq::empty());
    }
}

/// What healing leaves of a template's two effects.
proof fn lemma_healed(r: Seq<KeyView>, path: Seq<char>)
    requires
        registry::has_key(r, Hkey::LocalMachine, path),
    ensures
        ({
            let r1 = registry::apply_all(r, heal_ops(r, path));
            let stream = held(r, path, PKEY_FX_STREAM_EFFECT_CLSID@);
            let mode = held(r, path, PKEY_FX_MODE_EFFECT_CLSID@);
            &&& held(r1, path, PKEY_FX_STREAM_EFFECT_CLSID@) == (if ms_stream(stream) {
                Some(guid::guid_text(clsid_pre_mix()))
            } else {
                stream
            })
            &&& held(r1, path, PKEY_FX_MODE_EFFECT_CLSID@) == (if ms_mode(mode) {
                None
            } else {
                mode
            })
        }),
{
    let stream = held(r, path, PKEY_FX_STREAM_EFFECT_CLSID@);
    let mode = held(r, path, PKEY_FX_MODE_EFFECT_CLSID@);
    let action = heal_action(
        stream,
        mode,
        registry::has_key(r, Hkey::LocalMachine, registry::join(path, WMALFX_CONTEXT@)),
    );
    let a = change_if(
        action == HealAction::ReplaceStreamDeleteMode,
        path,
        PKEY_FX_STREAM_EFFECT_CLSID@,
        stream,
        Some(guid::guid_text(clsid_pre_mix())),
    );
    let b = change_if(
        action != HealAction::Noop && ms_mode(mode),
        path,
        PKEY_FX_MODE_EFFECT_CLSID@,
        mode,
        None,
    );
    assert(heal_ops(r, path) =~= change_ops(a + b));
    lemma_two_changes(r, path, a, b);
}

/// A healed template holds no effect of Microsoft's, and needs nothing that would
/// change it again.
pub proof fn law_heal_is_complete(r: Seq<KeyView>, path: Seq<char>)
    requires
        registry::has_key(r, Hkey::LocalMachine, path),
    ensures
        ({
            let r1 = registry::apply_all(r, heal_ops(r, path));
            &&& !ms_stream(held(r1, path, PKEY_FX_STREAM_EFFECT_CLSID@))
            &&& !ms_mode(held(r1, path, PKEY_FX_MODE_EFFECT_CLSID@))
            &&& heal_ops(r1, path) == Seq::<OpView>::empty()
        }),
{
    lemma_healed(r, path);
    lemma_own_not_microsoft();
    let r1 = registry::apply_all(r, heal_ops(r, path));
    assert(heal_ops(r1, path) =~= Seq::empty());
}

/// This library's stream effect is not Microsoft's.
proof fn lemma_own_not_microsoft()
    ensures
        !ms_stream(Some(guid::guid_text(clsid_pre_mix()))),
{
    let t = guid::guid_text(clsid_pre_mix());
    reveal_strlit("{C9453E73-8C5C-4463-9984-AF8BAB2F5447}");
    guid::law_guid_text_round_trip(clsid_pre_mix());
    reveal_with_fuel(guid::hex_digits, 9);
    assert(t[1] == 'A');
    let a = text::ascii_lower(t);
    let b = text::ascii_lower(MS_CAPX_STREAM_CLSID@);
    assert(a[1] == 'a');
    assert(b[1] == 'c');
}

/// What taking a template over leaves of its two effects. A template of Microsoft's,
/// or of this library's, gets this library's stream effect in place of Microsoft's
/// where one is installed before mixing. Its mode effect gives way to this library's
/// where one is installed there, and is deleted otherwise; the effects of others stay.
pub proof fn law_takeover_takes_effect(
    r: Seq<KeyView>,
    path: Seq<char>,
    mode: InstallMode,
    install_premix: bool,
    install_postmix: bool,
)
    requires
        registry::has_key(r, Hkey::LocalMachine, path),
    ensures
        ({
            let r1 = registry::apply_all(
                r,
                change_ops(takeover_of(r, path, mode, install_premix, install_postmix)),
            );
            let stream = held(r, path, PKEY_FX_STREAM_EFFECT_CLSID@);
            let effect = held(r, path, PKEY_FX_MODE_EFFECT_CLSID@);
            let stream1 = held(r1, path, PKEY_FX_STREAM_EFFECT_CLSID@);
            let effect1 = held(r1, path, PKEY_FX_MODE_EFFECT_CLSID@);
            let settings = registry::has_key(
                r,
                Hkey::LocalMachine,
                path + "\\"@ + "{B13412EE-07AF-4C57-B08B-E327F8DB085B}"@,
            );
            let known = ms_stream(stream) || own(stream) || settings;
            &&& install_premix && ms_stream(stream) ==> stream1 == Some(
                guid::guid_text(clsid_pre_mix()),
            )
            &&& !install_premix || !ms_stream(stream) ==> stream1 == stream
            &&& known && ms_mode(effect) && mode is SfxMfx && install_postmix ==> effect1 == Some(
                guid::guid_text(clsid_post_mix()),
            )
            &&& known && ms_mode(effect) && !(mode is SfxMfx && install_postmix) ==> effect1 is None
            &&& known && own(effect) && !(mode is SfxMfx && install_postmix) ==> effect1 is None
            &&& !known || (!ms_mode(effect) && !own(effect)) ==> effect1 == effect
            &&& own(effect) && mode is SfxMfx && install_postmix ==> effect1 == effect
        }),
{
    let stream = held(r, path, PKEY_FX_STREAM_EFFECT_CLSID@);
    let effect = held(r, path, PKEY_FX_MODE_EFFECT_CLSID@);
    lemma_effects_apart(stream);
    lemma_effects_apart(effect);
    let known = ms_stream(stream) || own(stream) || registry::has_key(
        r,
        Hkey::LocalMachine,
        registry::join(path, WMALFX_CONTEXT@),
    );
    let a = change_if(
        known && install_premix && ms_stream(stream) && !own(stream),
        path,
        PKEY_FX_STREAM_EFFECT_CLSID@,
        stream,
        Some(guid::guid_text(clsid_pre_mix())),
    );
    let replaces_mode = mode == InstallMode::SfxMfx && install_postmix;
    let b = if replaces_mode {
        change_if(
            known && ms_mode(effect) && !own(effect),
            path,
            PKEY_FX_MODE_EFFECT_CLSID@,
            effect,
            Some(guid::guid_text(clsid_post_mix())),
        )
    } else {
        change_if(
            known && (ms_mode(effect) || own(effect)),
            path,
            PKEY_FX_MODE_EFFECT_CLSID@,
            effect,
            None,
        )
    };
    assert(takeover_of(r, path, mode, install_premix, install_postmix) =~= a + b);
    lemma_two_changes(r, path, a, b);
}

/// No effect of Microsoft's is one of this library's.
proof fn lemma_effects_apart(v: Option<Seq<char>>)
    ensures
        own(v) ==> !ms_stream(v) && !ms_mode(v),
{
    let pre = guid::guid_text(clsid_pre_mix());
    let post = guid::guid_text(clsid_post_mix());
    reveal_strlit("{C9453E73-8C5C-4463-9984-AF8BAB2F5447}");
    reveal_strlit("{13AB3EBD-137E-4903-9D89-60BE8277FD17}");
    guid::law_guid_text_round_trip(clsid_pre_mix());
    guid::law_guid_text_round_trip(clsid_post_mix());
    reveal_with_fuel(guid::hex_digits, 9);
    assert(pre[1] == 'A' && post[1] == 'D');
    assert(text::ascii_lower(pre)[1] == 'a');
    assert(text::ascii_lower(post)[1] == 'd');
    assert(text::ascii_lower(MS_CAPX_STREAM_CLSID@)[1] == 'c');
    assert(text::ascii_lower(MS_CAPX_MODE_CLSID@)[1] == '1');
}

/// A template that held this library's stream effect gets Microsoft's back, and
/// Microsoft's mode effect where it held none or this library's; nothing of this
/// library's is left in it, and the effects of others stay.
pub proof fn law_defaults_leave_nothing_own(r: Seq<KeyView>, path: Seq<char>)
    requires
        registry::has_key(r, Hkey::LocalMachine, path),
    ensures
        ({
            let r1 = registry::apply_all(r, change_ops(default_of(r, path)));
            let stream = held(r, path, PKEY_FX_STREAM_EFFECT_CLSID@);
            let effect = held(r, path, PKEY_FX_MODE_EFFECT_CLSID@);
            let stream1 = held(r1, path, PKEY_FX_STREAM_EFFECT_CLSID@);
            let effect1 = held(r1, path, PKEY_FX_MODE_EFFECT_CLSID@);
            &&& !own(stream1) && !own(effect1)
            &&& own(stream) ==> stream1 == Some("{C9453E73-8C5C-4463-9984-AF8BAB2F5447}"@)
            &&& !own(stream) ==> stream1 == stream
            &&& own(effect) || (own(stream) && effect is None) ==> effect1 == Some(
                "{13AB3EBD-137E-4903-9D89-60BE8277FD17}"@,
            )
            &&& !own(effect) && (!own(stream) || effect is Some) ==> effect1 == effect
        }),
{
    let stream = held(r, path, PKEY_FX_STREAM_EFFECT_CLSID@);
    let effect = held(r, path, PKEY_FX_MODE_EFFECT_CLSID@);
    lemma_effects_apart(Some(MS_CAPX_STREAM_CLSID@));
    lemma_effects_apart(Some(MS_CAPX_MODE_CLSID@));
    let a = change_if(
        own(stream),
        path,
        PKEY_FX_STREAM_EFFECT_CLSID@,
        stream,
        Some(MS_CAPX_STREAM_CLSID@),
    );
    let b = change_if(
        own(effect) || (own(stream) && effect is None),
        path,
        PKEY_FX_MODE_EFFECT_CLSID@,
        effect,
        Some(MS_CAPX_MODE_CLSID@),
    );
    assert(default_of(r, path) =~= a + b);
    lemma_two_changes(r, path, a, b);
}

/// Giving a template back puts what was kept of each effect where this library's
/// stands or none does, deletes this library's where nothing was kept, and leaves the
/// effects of others.
pub proof fn law_restore_gives_back(r: Seq<KeyView>, b: BackupView)
    requires
        registry::has_key(r, Hkey::LocalMachine, b.key_path),
    ensures
        ({
            let r1 = registry::apply_all(r, change_ops(restore_of(r, b)));
            let stream = held(r, b.key_path, PKEY_FX_STREAM_EFFECT_CLSID@);
            let effect = held(r, b.key_path, PKEY_FX_MODE_EFFECT_CLSID@);
            let stream1 = held(r1, b.key_path, PKEY_FX_STREAM_EFFECT_CLSID@);
            let effect1 = held(r1, b.key_path, PKEY_FX_MODE_EFFECT_CLSID@);
            &&& stream is None || own(stream) ==> stream1 == b.stream
            &&& stream is Some && !own(stream) ==> stream1 == stream
            &&& effect is None || own(effect) ==> effect1 == b.mode
            &&& effect is Some && !own(effect) ==> effect1 == effect
        }),
{
    let stream = held(r, b.key_path, PKEY_FX_STREAM_EFFECT_CLSID@);
    let effect = held(r, b.key_path, PKEY_FX_MODE_EFFECT_CLSID@);
    lemma_two_changes(
        r,
        b.key_path,
        restore_value(b.key_path, PKEY_FX_STREAM_EFFECT_CLSID@, stream, b.stream),
        restore_value(b.key_path, PKEY_FX_MODE_EFFECT_CLSID@, effect, b.mode),
    );
}

/// An endpoint that holds none of this library's effects is left alone; one that does
/// has its effects switched on, scanned lately or not.
pub proof fn law_only_own_endpoints_are_kept(
    r: Seq<KeyView>,
    endpoint_path: Seq<char>,
    recent: bool,
)
    ensures
        ({
            let fx = endpoint_path + "\\"@ + FX_PROPERTIES_KEY@;
            let holds_own = exists|i: int|
                0 <= i < 5 && own(
                    held(r, fx, types::slot_name(#[trigger] types::all_slots()[i])),
                );
            let ops = keep_ops(r, endpoint_path, recent);
            &&& !registry::has_key(r, Hkey::LocalMachine, fx) || !holds_own ==> ops.len() == 0
            &&& registry::has_key(r, Hkey::LocalMachine, fx) && holds_own ==> ops.len() >= 2
                && ops[0] == (OpView::DeleteValue {
                root: Hkey::LocalMachine,
                path: fx,
                name: "DisableEnhancements"@,
            }) && ops[1] == (OpView::DeleteValue {
                root: Hkey::LocalMachine,
                path: fx,
                name: "{1da5d803-d492-4edd-8c23-e0c0ffee7f0e},5"@,
            })
        }),
{
}

/// A scan is recent for half a minute after it was made, and not from then on.
pub proof fn law_scans_grow_old(at_ms: u64, now_ms: u64)
    ensures
        recently_scanned(Some(at_ms), now_ms) <==> now_ms < at_ms + 30_000,
        !recently_scanned(None, now_ms),
{
}

} // verus!
