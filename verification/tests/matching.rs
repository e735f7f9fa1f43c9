use vxapo_driver::install::device::identity::EndpointIdentity;
use vxapo_driver::install::device::stale::detect::StaleRecord;
use vxapo_driver::install::device::stale::matching::{
    unique_index, ActiveEndpoint, MatchIndex, MatchOutcome, MatchSource,
};
use vxapo_driver::install::device::stale::migrate::{
    choose_config_source, choose_snapshot_source,
};
use vxapo_driver::install::device::stale::{FileStat, Files, GuidFiles};

const OLD: &str = "{AAAAAAAA-0000-0000-0000-000000000001}";
const NEW: &str = "{BBBBBBBB-0000-0000-0000-000000000002}";

fn identity(instance: &str, hardware: &str, product: &str, history: &str) -> EndpointIdentity {
    let list = |s: &str| if s.is_empty() { Vec::new() } else { vec![s.to_string()] };
    EndpointIdentity {
        instance_id: instance.to_string(),
        hardware_ids: list(hardware),
        product_name: product.to_string(),
        endpoint_history: list(history),
        ..EndpointIdentity::default()
    }
}

fn active(n: u32, identity: EndpointIdentity) -> ActiveEndpoint {
    ActiveEndpoint {
        guid: format!("{{CCCCCCCC-0000-0000-0000-{n:012}}}"),
        name: format!("endpoint {n}"),
        identity,
    }
}

fn resolve(list: &[ActiveEndpoint], instance: &str, stored: &EndpointIdentity) -> MatchOutcome {
    MatchIndex::new(list).resolve(OLD, instance, stored)
}

#[test]
fn the_history_of_an_endpoint_decides() {
    let old = OLD.to_lowercase();
    let list = [
        active(1, identity(r"USB\A", "", "", "")),
        active(2, identity(r"USB\B", "", "", &old)),
    ];
    let none = EndpointIdentity::default();
    assert_eq!(
        resolve(&list, r"USB\A", &none),
        MatchOutcome::Matched(1, MatchSource::EndpointHistory)
    );
    let twice = [
        active(1, identity(r"USB\A", "", "", &old)),
        active(2, identity(r"USB\B", "", "", &old)),
    ];
    assert_eq!(resolve(&twice, r"USB\A", &none), MatchOutcome::Ambiguous);
}

#[test]
fn the_device_decides_next() {
    let list = [
        active(1, identity(r"USB\A", "", "", "")),
        active(2, identity(r"USB\B", "", "", "")),
    ];
    let none = EndpointIdentity::default();
    assert_eq!(
        resolve(&list, r"USB\B", &none),
        MatchOutcome::Matched(1, MatchSource::DeviceInstanceId)
    );
    assert_eq!(
        resolve(&list, "", &identity(r"USB\A", "", "", "")),
        MatchOutcome::Matched(0, MatchSource::StoredIdentity)
    );
    assert_eq!(resolve(&list, "", &none), MatchOutcome::Unmatched);
}

#[test]
fn hardware_decides_last_and_products_tell_it_apart() {
    let list = [
        active(1, identity(r"USB\A", r"USB\HW", "Alpha", "")),
        active(2, identity(r"USB\B", r"USB\HW", "Beta", "")),
    ];
    assert_eq!(
        resolve(&list, "", &identity("", r"USB\HW", "BETA", "")),
        MatchOutcome::Matched(1, MatchSource::HardwareId)
    );
    assert_eq!(resolve(&list, "", &identity("", r"USB\HW", "Gamma", "")), MatchOutcome::Unmatched);
    assert_eq!(resolve(&list, "", &identity("", r"USB\HW", "", "")), MatchOutcome::Unmatched);
    assert_eq!(resolve(&list, "", &identity("", r"USB\HX", "Beta", "")), MatchOutcome::Unmatched);
    let twins = [
        active(1, identity(r"USB\A", r"USB\HW", "Alpha", "")),
        active(2, identity(r"USB\B", r"USB\HW", "Alpha", "")),
    ];
    assert_eq!(
        resolve(&twins, "", &identity("", r"USB\HW", "Alpha", "")),
        MatchOutcome::Ambiguous
    );
    assert_eq!(unique_index(&[7]), Some(7));
    assert_eq!(unique_index(&[7, 8]), None);
    assert_eq!(unique_index(&[]), None);
}

/// One endpoint with the hardware but another product is not the old one.
#[test]
fn another_product_is_not_matched() {
    let list = [active(1, identity(r"USB\A", r"USB\HW", "Alpha", ""))];
    assert_eq!(
        resolve(&list, "", &identity("", r"USB\HW", "Beta", "")),
        MatchOutcome::Unmatched
    );
}

fn record(guid: &str, config: Option<u64>, snapshot: Option<u64>) -> StaleRecord {
    let stat = |t: u64| FileStat { mtime_ms: Some(t), len: 100 };
    StaleRecord {
        guid: guid.to_string(),
        device_instance_id: String::new(),
        config: config.map(stat),
        snapshot: snapshot.map(stat),
        info_values: Vec::new(),
    }
}

fn target_files(len: u64) -> Files {
    Files {
        config_dirs: Vec::new(),
        snapshot_names: Vec::new(),
        entries: vec![GuidFiles {
            guid: NEW.to_string(),
            config: Some(FileStat { mtime_ms: Some(50), len }),
            snapshot: None,
        }],
    }
}

/// The configuration written last is taken, and the snapshot written first.
#[test]
fn sources_are_chosen_by_their_times() {
    let group = [record("{1}", Some(10), Some(10)), record("{2}", Some(30), Some(30))];
    let small = target_files(10);
    assert_eq!(choose_config_source(&group, &small, NEW, None).unwrap().guid, "{2}");
    assert_eq!(choose_snapshot_source(&group, &small, NEW, None).unwrap().guid, "{1}");
    assert_eq!(choose_config_source(&group, &target_files(500), NEW, None).unwrap().guid, NEW);
    assert_eq!(choose_config_source(&group, &small, NEW, Some("{1}")).unwrap().guid, "{1}");
    assert_eq!(choose_config_source(&group, &small, NEW, Some("{9}")), None);
    assert_eq!(choose_snapshot_source(&[], &small, NEW, None), None);
}
