//! What finding the templates of a device promises.
//!
//! The laws here speak of the places and values of the registry alone: which
//! templates are found for a device and a node type, and which are not.

use vstd::prelude::*;
use crate::install::device::sysfx;
use crate::registry;
use crate::registry::{Hkey, KeyView};
use crate::text;

verus! {

/// Whether the name of an interface key of a class is one of a device: one of the
/// two usual names, or one that holds the name of the device in whatever case.
pub open spec fn names_device(class: Seq<char>, instance: Seq<char>, name: Seq<char>) -> bool {
    ||| is_usual(class, instance, name)
    ||| exists|i: int| text::occurs_at(text::unicode_lower(instance), name, i)
}

/// Whether the name of an interface key of a class is one of the two usual ones of
/// a device.
pub open spec fn is_usual(class: Seq<char>, instance: Seq<char>, name: Seq<char>) -> bool {
    instance == "##?#"@ + name + "#"@ + class || instance == name + "#"@ + class
}

/// Whether a class is one that templates are looked for in.
pub open spec fn is_searched(class: Seq<char>) -> bool {
    class == "{65E8773E-8F56-11D0-A3B9-00A0C9223196}"@ || class
        == "{6994AD04-93EF-11D0-A3CC-00A0C9223196}"@
}

/// The place of an interface key.
pub open spec fn interface_path(class: Seq<char>, instance: Seq<char>) -> Seq<char> {
    "SYSTEM\\CurrentControlSet\\Control\\DeviceClasses"@ + "\\"@ + class + "\\"@ + instance
}

/// The place that holds the templates of a reference below an interface key.
pub open spec fn templates_path(
    class: Seq<char>,
    instance: Seq<char>,
    reference: Seq<char>,
) -> Seq<char> {
    interface_path(class, instance) + "\\"@ + reference + "\\Device Parameters\\MSFX"@
}

/// Whether a place is that of a template below an interface key of a device.
pub open spec fn is_of_device(path: Seq<char>, name: Seq<char>) -> bool {
    exists|class: Seq<char>, instance: Seq<char>, reference: Seq<char>, index: Seq<char>|
        is_searched(class) && names_device(class, instance, name) && path == #[trigger] place(
            class,
            instance,
            reference,
            index,
        )
}

/// The place of a template.
pub open spec fn place(
    class: Seq<char>,
    instance: Seq<char>,
    reference: Seq<char>,
    index: Seq<char>,
) -> Seq<char> {
    templates_path(class, instance, reference) + "\\"@ + index
}

/// Whether a template names a node type.
pub open spec fn is_for(r: Seq<KeyView>, path: Seq<char>, node_type: Seq<char>) -> bool {
    registry::as_sz(
        registry::value_at(
            r,
            Hkey::LocalMachine,
            path,
            "{D04E05A6-594B-4FB6-A80D-01AF5EED7D1D},0"@,
        ),
    ) matches Some(a) && text::eq_ci(a, node_type)
}

/// Whether a template holds Microsoft's stream effect.
pub open spec fn holds_stream(r: Seq<KeyView>, path: Seq<char>) -> bool {
    registry::as_sz(
        registry::value_at(
            r,
            Hkey::LocalMachine,
            path,
            "{D04E05A6-594B-4FB6-A80D-01AF5EED7D1D},5"@,
        ),
    ) matches Some(a) && text::eq_ci(a, "{C9453E73-8C5C-4463-9984-AF8BAB2F5447}"@)
}

/// Whether a template holds Microsoft's mode effect.
pub open spec fn holds_mode(r: Seq<KeyView>, path: Seq<char>) -> bool {
    registry::as_sz(
        registry::value_at(
            r,
            Hkey::LocalMachine,
            path,
            "{D04E05A6-594B-4FB6-A80D-01AF5EED7D1D},6"@,
        ),
    ) matches Some(a) && text::eq_ci(a, "{13AB3EBD-137E-4903-9D89-60BE8277FD17}"@)
}

/// Whether a template has the settings of Microsoft's effects below it.
pub open spec fn holds_settings(r: Seq<KeyView>, path: Seq<char>) -> bool {
    registry::has_key(
        r,
        Hkey::LocalMachine,
        path + "\\"@ + "{B13412EE-07AF-4C57-B08B-E327F8DB085B}"@,
    )
}

/// Whether a template holds something of Microsoft's.
pub open spec fn holds_microsoft(r: Seq<KeyView>, path: Seq<char>) -> bool {
    holds_stream(r, path) || holds_mode(r, path) || holds_settings(r, path)
}

/// Whether a place holds a template for a node type with something of
/// Microsoft's; without a node type every one is meant.
pub open spec fn is_wanted(r: Seq<KeyView>, path: Seq<char>, node_type: Option<Seq<char>>) -> bool {
    &&& registry::has_key(r, Hkey::LocalMachine, path)
    &&& node_type matches Some(t) ==> is_for(r, path, t)
    &&& holds_microsoft(r, path)
}

proof fn lemma_wanted(r: Seq<KeyView>, path: Seq<char>, node_type: Option<Seq<char>>)
    ensures
        sysfx::template_matches(r, path, node_type) == is_wanted(r, path, node_type),
{
}

proof fn lemma_places(
    class: Seq<char>,
    instance: Seq<char>,
    reference: Seq<char>,
    index: Seq<char>,
)
    ensures
        interface_path(class, instance) == registry::join(
            registry::join(sysfx::DEVICE_CLASSES_ROOT@, class),
            instance,
        ),
        templates_path(class, instance, reference) == sysfx::msfx_root(
            interface_path(class, instance),
            reference,
        ),
        place(class, instance, reference, index) == registry::join(
            templates_path(class, instance, reference),
            index,
        ),
{
}

proof fn lemma_usual_places(class: Seq<char>, name: Seq<char>)
    ensures
        sysfx::usual_instance(class, "##?#"@, name) == interface_path(
            class,
            "##?#"@ + name + "#"@ + class,
        ),
        sysfx::usual_instance(class, ""@, name) == interface_path(class, name + "#"@ + class),
{
    reveal_strlit("");
    assert(""@ + name =~= name);
    assert(sysfx::usual_instance(class, "##?#"@, name) =~= interface_path(
        class,
        "##?#"@ + name + "#"@ + class,
    ));
    assert(sysfx::usual_instance(class, ""@, name) =~= interface_path(class, name + "#"@ + class));
}

// ---------------------------------------------------------------------------
// Nothing else is found
// ---------------------------------------------------------------------------
/// Whether all the places of a list hold templates of a device for a node type.
pub open spec fn all_wanted(
    r: Seq<KeyView>,
    list: Seq<Seq<char>>,
    name: Seq<char>,
    node_type: Option<Seq<char>>,
) -> bool {
    forall|i: int|
        0 <= i < list.len() ==> is_wanted(r, #[trigger] list[i], node_type) && is_of_device(
            list[i],
            name,
        )
}

proof fn lemma_all_concat(
    r: Seq<KeyView>,
    a: Seq<Seq<char>>,
    b: Seq<Seq<char>>,
    name: Seq<char>,
    node_type: Option<Seq<char>>,
)
    requires
        all_wanted(r, a, name, node_type),
        all_wanted(r, b, name, node_type),
    ensures
        all_wanted(r, a + b, name, node_type),
{
    let c = a + b;
    assert forall|i: int| 0 <= i < c.len() implies is_wanted(r, #[trigger] c[i], node_type)
        && is_of_device(c[i], name) by {
        if i < a.len() {
            assert(c[i] == a[i]);
        } else {
            assert(c[i] == b[i - a.len()]);
        }
    }
}

proof fn lemma_among(
    r: Seq<KeyView>,
    class: Seq<char>,
    instance: Seq<char>,
    reference: Seq<char>,
    indexes: Seq<Seq<char>>,
    name: Seq<char>,
    node_type: Option<Seq<char>>,
)
    requires
        is_searched(class),
        names_device(class, instance, name),
    ensures
        all_wanted(
            r,
            sysfx::templates_among(
                r,
                templates_path(class, instance, reference),
                indexes,
                node_type,
            ),
            name,
            node_type,
        ),
    decreases indexes.len(),
{
    if indexes.len() > 0 {
        lemma_among(r, class, instance, reference, indexes.drop_last(), name, node_type);
        lemma_places(class, instance, reference, indexes.last());
        let path = place(class, instance, reference, indexes.last());
        lemma_wanted(r, path, node_type);
        assert(is_of_device(path, name));
    }
}

proof fn lemma_references(
    r: Seq<KeyView>,
    class: Seq<char>,
    instance: Seq<char>,
    references: Seq<Seq<char>>,
    name: Seq<char>,
    node_type: Option<Seq<char>>,
)
    requires
        is_searched(class),
        names_device(class, instance, name),
    ensures
        all_wanted(
            r,
            sysfx::templates_of_references(
                r,
                interface_path(class, instance),
                references,
                node_type,
            ),
            name,
            node_type,
        ),
    decreases references.len(),
{
    if references.len() > 0 {
        let path = interface_path(class, instance);
        lemma_references(r, class, instance, references.drop_last(), name, node_type);
        lemma_places(class, instance, references.last(), Seq::empty());
        let root = templates_path(class, instance, references.last());
        let indexes = registry::children(r, Hkey::LocalMachine, root);
        lemma_among(r, class, instance, references.last(), indexes, name, node_type);
        lemma_all_concat(
            r,
            sysfx::templates_of_references(r, path, references.drop_last(), node_type),
            sysfx::templates_among(r, root, indexes, node_type),
            name,
            node_type,
        );
    }
}

proof fn lemma_instance(
    r: Seq<KeyView>,
    class: Seq<char>,
    instance: Seq<char>,
    name: Seq<char>,
    node_type: Option<Seq<char>>,
)
    requires
        is_searched(class),
        names_device(class, instance, name),
    ensures
        all_wanted(
            r,
            sysfx::templates_of_instance(r, interface_path(class, instance), node_type),
            name,
            node_type,
        ),
{
    let path = interface_path(class, instance);
    lemma_references(
        r,
        class,
        instance,
        registry::children(r, Hkey::LocalMachine, path),
        name,
        node_type,
    );
}

proof fn lemma_usual(
    r: Seq<KeyView>,
    class: Seq<char>,
    name: Seq<char>,
    node_type: Option<Seq<char>>,
)
    requires
        is_searched(class),
    ensures
        all_wanted(r, sysfx::usual_templates(r, class, name, node_type), name, node_type),
{
    lemma_usual_places(class, name);
    lemma_instance(r, class, "##?#"@ + name + "#"@ + class, name, node_type);
    lemma_instance(r, class, name + "#"@ + class, name, node_type);
    lemma_all_concat(
        r,
        sysfx::templates_of_instance(
            r,
            interface_path(class, "##?#"@ + name + "#"@ + class),
            node_type,
        ),
        sysfx::templates_of_instance(r, interface_path(class, name + "#"@ + class), node_type),
        name,
        node_type,
    );
}

proof fn lemma_instances(
    r: Seq<KeyView>,
    class: Seq<char>,
    instances: Seq<Seq<char>>,
    name: Seq<char>,
    node_type: Option<Seq<char>>,
)
    requires
        is_searched(class),
    ensures
        all_wanted(
            r,
            sysfx::templates_of_instances(
                r,
                registry::join(sysfx::DEVICE_CLASSES_ROOT@, class),
                instances,
                name,
                node_type,
            ),
            name,
            node_type,
        ),
    decreases instances.len(),
{
    if instances.len() > 0 {
        let class_path = registry::join(sysfx::DEVICE_CLASSES_ROOT@, class);
        lemma_instances(r, class, instances.drop_last(), name, node_type);
        let instance = instances.last();
        let lowered = text::unicode_lower(instance);
        match text::find(lowered, name) {
            Some(k) => {
                text::lemma_find_from(lowered, name, 0);
                assert(text::occurs_at(lowered, name, k));
                assert(names_device(class, instance, name));
                lemma_places(class, instance, Seq::empty(), Seq::empty());
                lemma_instance(r, class, instance, name, node_type);
                lemma_all_concat(
                    r,
                    sysfx::templates_of_instances(
                        r,
                        class_path,
                        instances.drop_last(),
                        name,
                        node_type,
                    ),
                    sysfx::templates_of_instance(r, interface_path(class, instance), node_type),
                    name,
                    node_type,
                );
            },
            None => {},
        }
    }
}

proof fn lemma_class(
    r: Seq<KeyView>,
    class: Seq<char>,
    name: Seq<char>,
    node_type: Option<Seq<char>>,
)
    requires
        is_searched(class),
    ensures
        all_wanted(r, sysfx::templates_of_class(r, class, name, node_type), name, node_type),
{
    let class_path = registry::join(sysfx::DEVICE_CLASSES_ROOT@, class);
    lemma_instances(
        r,
        class,
        registry::children(r, Hkey::LocalMachine, class_path),
        name,
        node_type,
    );
}

proof fn lemma_found(
    r: Seq<KeyView>,
    device_id: Seq<char>,
    node_type: Option<Seq<char>>,
)
    ensures
        all_wanted(
            r,
            sysfx::msfx_entries(r, Some(device_id), node_type),
            sysfx::instance_name(device_id),
            node_type,
        ),
{
    let name = sysfx::instance_name(device_id);
    let render = sysfx::KS_RENDER_CLASS@;
    let audio = sysfx::KS_AUDIO_CLASS@;
    lemma_usual(r, render, name, node_type);
    lemma_usual(r, audio, name, node_type);
    lemma_all_concat(
        r,
        sysfx::usual_templates(r, render, name, node_type),
        sysfx::usual_templates(r, audio, name, node_type),
        name,
        node_type,
    );
    lemma_class(r, render, name, node_type);
    lemma_class(r, audio, name, node_type);
    lemma_all_concat(
        r,
        sysfx::templates_of_class(r, render, name, node_type),
        sysfx::templates_of_class(r, audio, name, node_type),
        name,
        node_type,
    );
}

/// Every template that is found for a node type is there, names that node type
/// without regard to case, holds an effect or settings of Microsoft's, and stands
/// below an interface key of the device.
pub proof fn law_found_templates_name_the_node_type(
    r: Seq<KeyView>,
    device_id: Seq<char>,
    node_type: Seq<char>,
    i: int,
)
    requires
        0 <= i < sysfx::msfx_entries(r, Some(device_id), Some(node_type)).len(),
    ensures
        ({
            let path = sysfx::msfx_entries(r, Some(device_id), Some(node_type))[i];
            &&& registry::has_key(r, Hkey::LocalMachine, path)
            &&& registry::as_sz(
                registry::value_at(
                    r,
                    Hkey::LocalMachine,
                    path,
                    "{D04E05A6-594B-4FB6-A80D-01AF5EED7D1D},0"@,
                ),
            ) matches Some(association) && text::eq_ci(association, node_type)
            &&& holds_stream(r, path) || holds_mode(r, path) || holds_settings(r, path)
            &&& is_of_device(path, sysfx::instance_name(device_id))
        }),
{
    lemma_found(r, device_id, Some(node_type));
}

/// Without a node type, every template that is found is there, holds an effect or
/// settings of Microsoft's, and stands below an interface key of the device.
pub proof fn law_found_templates_are_of_the_device(
    r: Seq<KeyView>,
    device_id: Seq<char>,
    i: int,
)
    requires
        0 <= i < sysfx::msfx_entries(r, Some(device_id), None).len(),
    ensures
        ({
            let path = sysfx::msfx_entries(r, Some(device_id), None)[i];
            &&& registry::has_key(r, Hkey::LocalMachine, path)
            &&& holds_stream(r, path) || holds_mode(r, path) || holds_settings(r, path)
            &&& is_of_device(path, sysfx::instance_name(device_id))
        }),
{
    lemma_found(r, device_id, None);
}

/// Without a device there are no templates.
pub proof fn law_no_device_no_templates(r: Seq<KeyView>, node_type: Option<Seq<char>>)
    ensures
        sysfx::msfx_entries(r, None, node_type).len() == 0,
{
}

// ---------------------------------------------------------------------------
// Everything is found
// ---------------------------------------------------------------------------
proof fn lemma_contains_left(a: Seq<Seq<char>>, b: Seq<Seq<char>>, x: Seq<char>)
    requires
        a.contains(x),
    ensures
        (a + b).contains(x),
{
    let k = choose|k: int| 0 <= k < a.len() && a[k] == x;
    assert((a + b)[k] == x);
}

proof fn lemma_contains_right(a: Seq<Seq<char>>, b: Seq<Seq<char>>, x: Seq<char>)
    requires
        b.contains(x),
    ensures
        (a + b).contains(x),
{
    let k = choose|k: int| 0 <= k < b.len() && b[k] == x;
    assert((a + b)[a.len() + k] == x);
}

proof fn lemma_contains_push(a: Seq<Seq<char>>, y: Seq<char>, x: Seq<char>)
    requires
        a.contains(x) || y == x,
    ensures
        a.push(y).contains(x),
{
    if a.contains(x) {
        let k = choose|k: int| 0 <= k < a.len() && a[k] == x;
        assert(a.push(y)[k] == x);
    } else {
        assert(a.push(y)[a.len() as int] == x);
    }
}

proof fn lemma_contains_before(a: Seq<Seq<char>>, x: Seq<char>)
    requires
        a.contains(x),
    ensures
        a.len() > 0,
        a.last() == x || a.drop_last().contains(x),
{
    let k = choose|k: int| 0 <= k < a.len() && a[k] == x;
    if k < a.len() - 1 {
        assert(a.drop_last()[k] == x);
    }
}

proof fn lemma_among_has(
    r: Seq<KeyView>,
    root: Seq<char>,
    indexes: Seq<Seq<char>>,
    index: Seq<char>,
    node_type: Option<Seq<char>>,
)
    requires
        indexes.contains(index),
        is_wanted(r, registry::join(root, index), node_type),
    ensures
        sysfx::templates_among(r, root, indexes, node_type).contains(registry::join(root, index)),
    decreases indexes.len(),
{
    lemma_contains_before(indexes, index);
    let path = registry::join(root, index);
    lemma_wanted(r, path, node_type);
    let rest = sysfx::templates_among(r, root, indexes.drop_last(), node_type);
    if indexes.last() == index {
        lemma_contains_push(rest, path, path);
    } else {
        lemma_among_has(r, root, indexes.drop_last(), index, node_type);
        lemma_contains_push(rest, registry::join(root, indexes.last()), path);
    }
}

proof fn lemma_references_have(
    r: Seq<KeyView>,
    instance_path: Seq<char>,
    references: Seq<Seq<char>>,
    reference: Seq<char>,
    index: Seq<char>,
    node_type: Option<Seq<char>>,
)
    requires
        references.contains(reference),
        ({
            let root = sysfx::msfx_root(instance_path, reference);
            &&& registry::has_key(r, Hkey::LocalMachine, root)
            &&& registry::children(r, Hkey::LocalMachine, root).contains(index)
            &&& is_wanted(r, registry::join(root, index), node_type)
        }),
    ensures
        sysfx::templates_of_references(r, instance_path, references, node_type).contains(
            registry::join(sysfx::msfx_root(instance_path, reference), index),
        ),
    decreases references.len(),
{
    lemma_contains_before(references, reference);
    let root = sysfx::msfx_root(instance_path, reference);
    let path = registry::join(root, index);
    let rest = sysfx::templates_of_references(r, instance_path, references.drop_last(), node_type);
    let last = sysfx::msfx_root(instance_path, references.last());
    let more = sysfx::templates_among(
        r,
        last,
        registry::children(r, Hkey::LocalMachine, last),
        node_type,
    );
    if references.last() == reference {
        lemma_among_has(
            r,
            root,
            registry::children(r, Hkey::LocalMachine, root),
            index,
            node_type,
        );
        lemma_contains_right(rest, more, path);
    } else {
        lemma_references_have(
            r,
            instance_path,
            references.drop_last(),
            reference,
            index,
            node_type,
        );
        lemma_contains_left(rest, more, path);
    }
}

/// Whether a template stands below an interface key: the keys on the way to it are
/// there, and it is listed below them.
pub open spec fn is_listed(
    r: Seq<KeyView>,
    class: Seq<char>,
    instance: Seq<char>,
    reference: Seq<char>,
    index: Seq<char>,
) -> bool {
    let hklm = Hkey::LocalMachine;
    let at = interface_path(class, instance);
    let templates = templates_path(class, instance, reference);
    &&& registry::has_key(r, hklm, at)
    &&& registry::children(r, hklm, at).contains(reference)
    &&& registry::has_key(r, hklm, templates)
    &&& registry::children(r, hklm, templates).contains(index)
}

proof fn lemma_instance_has(
    r: Seq<KeyView>,
    class: Seq<char>,
    instance: Seq<char>,
    reference: Seq<char>,
    index: Seq<char>,
    node_type: Option<Seq<char>>,
)
    requires
        is_listed(r, class, instance, reference, index),
        is_wanted(r, place(class, instance, reference, index), node_type),
    ensures
        sysfx::templates_of_instance(r, interface_path(class, instance), node_type).contains(
            place(class, instance, reference, index),
        ),
{
    lemma_places(class, instance, reference, index);
    let at = interface_path(class, instance);
    lemma_references_have(
        r,
        at,
        registry::children(r, Hkey::LocalMachine, at),
        reference,
        index,
        node_type,
    );
}

proof fn lemma_usual_has(
    r: Seq<KeyView>,
    class: Seq<char>,
    instance: Seq<char>,
    reference: Seq<char>,
    index: Seq<char>,
    name: Seq<char>,
    node_type: Option<Seq<char>>,
)
    requires
        is_usual(class, instance, name),
        is_listed(r, class, instance, reference, index),
        is_wanted(r, place(class, instance, reference, index), node_type),
    ensures
        sysfx::usual_templates(r, class, name, node_type).contains(
            place(class, instance, reference, index),
        ),
{
    lemma_usual_places(class, name);
    lemma_instance_has(r, class, instance, reference, index, node_type);
    let a = sysfx::templates_of_instance(
        r,
        interface_path(class, "##?#"@ + name + "#"@ + class),
        node_type,
    );
    let b = sysfx::templates_of_instance(
        r,
        interface_path(class, name + "#"@ + class),
        node_type,
    );
    let path = place(class, instance, reference, index);
    if instance == "##?#"@ + name + "#"@ + class {
        lemma_contains_left(a, b, path);
    } else {
        lemma_contains_right(a, b, path);
    }
}

/// Every template below a usual interface key of a device that names the node type
/// without regard to case, and holds an effect or settings of Microsoft's, is
/// found.
pub proof fn law_templates_of_the_node_type_are_found(
    r: Seq<KeyView>,
    device_id: Seq<char>,
    node_type: Seq<char>,
    class: Seq<char>,
    instance: Seq<char>,
    reference: Seq<char>,
    index: Seq<char>,
)
    requires
        sysfx::instance_name(device_id).len() > 0,
        is_searched(class),
        is_usual(class, instance, sysfx::instance_name(device_id)),
        is_listed(r, class, instance, reference, index),
        registry::has_key(r, Hkey::LocalMachine, place(class, instance, reference, index)),
        is_for(r, place(class, instance, reference, index), node_type),
        holds_stream(r, place(class, instance, reference, index)) || holds_mode(
            r,
            place(class, instance, reference, index),
        ) || holds_settings(r, place(class, instance, reference, index)),
    ensures
        sysfx::msfx_entries(r, Some(device_id), Some(node_type)).contains(
            place(class, instance, reference, index),
        ),
{
    let name = sysfx::instance_name(device_id);
    lemma_usual_in(r, name, Some(node_type), class, instance, reference, index);
}

proof fn lemma_usual_in(
    r: Seq<KeyView>,
    name: Seq<char>,
    node_type: Option<Seq<char>>,
    class: Seq<char>,
    instance: Seq<char>,
    reference: Seq<char>,
    index: Seq<char>,
)
    requires
        is_searched(class),
        is_usual(class, instance, name),
        is_listed(r, class, instance, reference, index),
        is_wanted(r, place(class, instance, reference, index), node_type),
    ensures
        (sysfx::usual_templates(r, sysfx::KS_RENDER_CLASS@, name, node_type)
            + sysfx::usual_templates(r, sysfx::KS_AUDIO_CLASS@, name, node_type)).contains(
            place(class, instance, reference, index),
        ),
{
    let path = place(class, instance, reference, index);
    let a = sysfx::usual_templates(r, sysfx::KS_RENDER_CLASS@, name, node_type);
    let b = sysfx::usual_templates(r, sysfx::KS_AUDIO_CLASS@, name, node_type);
    lemma_usual_has(r, class, instance, reference, index, name, node_type);
    if class == sysfx::KS_RENDER_CLASS@ {
        lemma_contains_left(a, b, path);
    } else {
        lemma_contains_right(a, b, path);
    }
}

/// Without a node type, every template below a usual interface key of a device that
/// holds an effect or settings of Microsoft's is found.
pub proof fn law_templates_of_any_node_type_are_found(
    r: Seq<KeyView>,
    device_id: Seq<char>,
    class: Seq<char>,
    instance: Seq<char>,
    reference: Seq<char>,
    index: Seq<char>,
)
    requires
        sysfx::instance_name(device_id).len() > 0,
        is_searched(class),
        is_usual(class, instance, sysfx::instance_name(device_id)),
        is_listed(r, class, instance, reference, index),
        registry::has_key(r, Hkey::LocalMachine, place(class, instance, reference, index)),
        holds_microsoft(r, place(class, instance, reference, index)),
    ensures
        sysfx::msfx_entries(r, Some(device_id), None).contains(
            place(class, instance, reference, index),
        ),
{
    let name = sysfx::instance_name(device_id);
    lemma_usual_in(r, name, None, class, instance, reference, index);
}

proof fn lemma_instances_have(
    r: Seq<KeyView>,
    class: Seq<char>,
    instances: Seq<Seq<char>>,
    instance: Seq<char>,
    reference: Seq<char>,
    index: Seq<char>,
    name: Seq<char>,
    node_type: Option<Seq<char>>,
)
    requires
        instances.contains(instance),
        text::find(text::unicode_lower(instance), name) is Some,
        is_listed(r, class, instance, reference, index),
        is_wanted(r, place(class, instance, reference, index), node_type),
    ensures
        sysfx::templates_of_instances(
            r,
            registry::join(sysfx::DEVICE_CLASSES_ROOT@, class),
            instances,
            name,
            node_type,
        ).contains(place(class, instance, reference, index)),
    decreases instances.len(),
{
    lemma_contains_before(instances, instance);
    let class_path = registry::join(sysfx::DEVICE_CLASSES_ROOT@, class);
    let path = place(class, instance, reference, index);
    let rest = sysfx::templates_of_instances(
        r,
        class_path,
        instances.drop_last(),
        name,
        node_type,
    );
    let more = sysfx::templates_of_instance(
        r,
        registry::join(class_path, instances.last()),
        node_type,
    );
    if instances.last() == instance {
        lemma_places(class, instance, reference, index);
        lemma_instance_has(r, class, instance, reference, index, node_type);
        lemma_contains_right(rest, more, path);
    } else {
        lemma_instances_have(
            r,
            class,
            instances.drop_last(),
            instance,
            reference,
            index,
            name,
            node_type,
        );
        lemma_contains_left(rest, more, path);
    }
}

/// Whether a place is below a usual interface key of a device.
pub open spec fn is_below_usual(path: Seq<char>, name: Seq<char>) -> bool {
    exists|class: Seq<char>, instance: Seq<char>, reference: Seq<char>, index: Seq<char>|
        is_searched(class) && is_usual(class, instance, name) && path == #[trigger] place(
            class,
            instance,
            reference,
            index,
        )
}

proof fn lemma_usual_below(
    r: Seq<KeyView>,
    class: Seq<char>,
    instance: Seq<char>,
    name: Seq<char>,
    node_type: Option<Seq<char>>,
    i: int,
)
    requires
        is_searched(class),
        is_usual(class, instance, name),
        0 <= i < sysfx::templates_of_instance(r, interface_path(class, instance), node_type).len(),
    ensures
        is_below_usual(
            sysfx::templates_of_instance(r, interface_path(class, instance), node_type)[i],
            name,
        ),
{
    let at = interface_path(class, instance);
    lemma_references_below(
        r,
        class,
        instance,
        registry::children(r, Hkey::LocalMachine, at),
        name,
        node_type,
        i,
    );
}

proof fn lemma_references_below(
    r: Seq<KeyView>,
    class: Seq<char>,
    instance: Seq<char>,
    references: Seq<Seq<char>>,
    name: Seq<char>,
    node_type: Option<Seq<char>>,
    i: int,
)
    requires
        is_searched(class),
        is_usual(class, instance, name),
        0 <= i < sysfx::templates_of_references(
            r,
            interface_path(class, instance),
            references,
            node_type,
        ).len(),
    ensures
        is_below_usual(
            sysfx::templates_of_references(
                r,
                interface_path(class, instance),
                references,
                node_type,
            )[i],
            name,
        ),
    decreases references.len(),
{
    let at = interface_path(class, instance);
    let rest = sysfx::templates_of_references(r, at, references.drop_last(), node_type);
    if i < rest.len() {
        lemma_references_below(r, class, instance, references.drop_last(), name, node_type, i);
    } else {
        let root = templates_path(class, instance, references.last());
        lemma_places(class, instance, references.last(), Seq::empty());
        lemma_among_below(
            r,
            class,
            instance,
            references.last(),
            registry::children(r, Hkey::LocalMachine, root),
            name,
            node_type,
            i - rest.len(),
        );
    }
}

proof fn lemma_among_below(
    r: Seq<KeyView>,
    class: Seq<char>,
    instance: Seq<char>,
    reference: Seq<char>,
    indexes: Seq<Seq<char>>,
    name: Seq<char>,
    node_type: Option<Seq<char>>,
    i: int,
)
    requires
        is_searched(class),
        is_usual(class, instance, name),
        0 <= i < sysfx::templates_among(
            r,
            templates_path(class, instance, reference),
            indexes,
            node_type,
        ).len(),
    ensures
        is_below_usual(
            sysfx::templates_among(
                r,
                templates_path(class, instance, reference),
                indexes,
                node_type,
            )[i],
            name,
        ),
    decreases indexes.len(),
{
    let root = templates_path(class, instance, reference);
    let rest = sysfx::templates_among(r, root, indexes.drop_last(), node_type);
    if i < rest.len() {
        lemma_among_below(
            r,
            class,
            instance,
            reference,
            indexes.drop_last(),
            name,
            node_type,
            i,
        );
    } else {
        lemma_places(class, instance, reference, indexes.last());
        assert(registry::join(root, indexes.last()) == place(
            class,
            instance,
            reference,
            indexes.last(),
        ));
    }
}

/// Where no template is found below the usual interface keys of a device, every
/// template is found that stands below any interface key whose name holds that of
/// the device, names the node type, and holds an effect or settings of
/// Microsoft's.
pub proof fn law_unusual_templates_are_found(
    r: Seq<KeyView>,
    device_id: Seq<char>,
    node_type: Seq<char>,
    class: Seq<char>,
    instance: Seq<char>,
    reference: Seq<char>,
    index: Seq<char>,
)
    requires
        sysfx::instance_name(device_id).len() > 0,
        is_searched(class),
        registry::has_key(
            r,
            Hkey::LocalMachine,
            "SYSTEM\\CurrentControlSet\\Control\\DeviceClasses"@ + "\\"@ + class,
        ),
        registry::children(
            r,
            Hkey::LocalMachine,
            "SYSTEM\\CurrentControlSet\\Control\\DeviceClasses"@ + "\\"@ + class,
        ).contains(instance),
        exists|k: int|
            0 <= k && text::occurs_at(
                text::unicode_lower(instance),
                sysfx::instance_name(device_id),
                k,
            ),
        is_listed(r, class, instance, reference, index),
        registry::has_key(r, Hkey::LocalMachine, place(class, instance, reference, index)),
        is_for(r, place(class, instance, reference, index), node_type),
        holds_microsoft(r, place(class, instance, reference, index)),
    ensures
        ({
            let found = sysfx::msfx_entries(r, Some(device_id), Some(node_type));
            ||| found.contains(place(class, instance, reference, index))
            ||| exists|i: int|
                0 <= i < found.len() && is_below_usual(
                    #[trigger] found[i],
                    sysfx::instance_name(device_id),
                )
        }),
{
    let name = sysfx::instance_name(device_id);
    let nt = Some(node_type);
    let render = sysfx::KS_RENDER_CLASS@;
    let audio = sysfx::KS_AUDIO_CLASS@;
    let found = sysfx::msfx_entries(r, Some(device_id), nt);
    let usual = sysfx::usual_templates(r, render, name, nt) + sysfx::usual_templates(
        r,
        audio,
        name,
        nt,
    );
    let path = place(class, instance, reference, index);
    if usual.len() > 0 {
        lemma_first_usual(r, name, nt);
        assert(is_below_usual(found[0], name));
    } else {
        let lowered = text::unicode_lower(instance);
        let k = choose|k: int| 0 <= k && text::occurs_at(lowered, name, k);
        lemma_find_none(lowered, name, 0, k);
        let class_path = registry::join(sysfx::DEVICE_CLASSES_ROOT@, class);
        lemma_instances_have(
            r,
            class,
            registry::children(r, Hkey::LocalMachine, class_path),
            instance,
            reference,
            index,
            name,
            nt,
        );
        let a = sysfx::templates_of_class(r, render, name, nt);
        let b = sysfx::templates_of_class(r, audio, name, nt);
        if class == render {
            lemma_contains_left(a, b, path);
        } else {
            lemma_contains_right(a, b, path);
        }
    }
}

proof fn lemma_find_none(s: Seq<char>, pat: Seq<char>, i: int, k: int)
    requires
        0 <= i <= k,
        text::occurs_at(s, pat, k),
    ensures
        text::find_from(s, pat, i) is Some,
    decreases k - i,
{
    if i < k {
        lemma_find_none(s, pat, i + 1, k);
    }
}

proof fn lemma_first_usual(r: Seq<KeyView>, name: Seq<char>, node_type: Option<Seq<char>>)
    requires
        (sysfx::usual_templates(r, sysfx::KS_RENDER_CLASS@, name, node_type)
            + sysfx::usual_templates(r, sysfx::KS_AUDIO_CLASS@, name, node_type)).len() > 0,
    ensures
        is_below_usual(
            (sysfx::usual_templates(r, sysfx::KS_RENDER_CLASS@, name, node_type)
                + sysfx::usual_templates(r, sysfx::KS_AUDIO_CLASS@, name, node_type))[0],
            name,
        ),
{
    let render = sysfx::KS_RENDER_CLASS@;
    let audio = sysfx::KS_AUDIO_CLASS@;
    let a = sysfx::usual_templates(r, render, name, node_type);
    if a.len() > 0 {
        lemma_first_usual_of(r, render, name, node_type);
    } else {
        lemma_first_usual_of(r, audio, name, node_type);
    }
}

proof fn lemma_first_usual_of(
    r: Seq<KeyView>,
    class: Seq<char>,
    name: Seq<char>,
    node_type: Option<Seq<char>>,
)
    requires
        is_searched(class),
        sysfx::usual_templates(r, class, name, node_type).len() > 0,
    ensures
        is_below_usual(sysfx::usual_templates(r, class, name, node_type)[0], name),
{
    lemma_usual_places(class, name);
    let marked = "##?#"@ + name + "#"@ + class;
    let plain = name + "#"@ + class;
    let a = sysfx::templates_of_instance(r, interface_path(class, marked), node_type);
    if a.len() > 0 {
        lemma_usual_below(r, class, marked, name, node_type, 0);
    } else {
        lemma_usual_below(r, class, plain, name, node_type, 0);
    }
}

} // verus!
