use vxapo_driver::install::device::endpoint::{EndpointInfo, EndpointState, Flow};

#[test]
fn state_from_active() {
    assert_eq!(EndpointState::from(1), EndpointState::Active);
}

#[test]
fn state_from_disabled() {
    assert_eq!(EndpointState::from(2), EndpointState::Disabled);
}

#[test]
fn state_from_not_present() {
    assert_eq!(EndpointState::from(4), EndpointState::NotPresent);
}

#[test]
fn state_from_unknown() {
    assert_eq!(EndpointState::from(99), EndpointState::Unknown(99));
    assert_eq!(EndpointState::from(0), EndpointState::Unknown(0));
}

#[test]
fn flow_equality() {
    assert_eq!(Flow::Render, Flow::Render);
    assert_eq!(Flow::Capture, Flow::Capture);
    assert_ne!(Flow::Render, Flow::Capture);
}

#[test]
fn detect_flow_default_is_render() {
    assert_eq!(Flow::Render as u8, 0);
    assert_eq!(Flow::Capture as u8, 1);
}

#[test]
fn all_standard_states_covered() {
    let states = [
        EndpointState::Active,
        EndpointState::Disabled,
        EndpointState::NotPresent,
    ];
    assert_eq!(states.len(), 3);
    for (i, s) in states.iter().enumerate() {
        for (j, s2) in states.iter().enumerate() {
            if i == j {
                assert_eq!(s, s2);
            } else {
                assert_ne!(s, s2);
            }
        }
    }
}

#[test]
fn endpoint_info_clone() {
    let info = EndpointInfo {
        device_id: "test".to_string(),
        friendly_name: "Device".to_string(),
        state: EndpointState::Disabled,
        flow: Flow::Capture,
        endpoint_guid: String::new(),
    };
    let cloned = info.clone();
    assert_eq!(info.device_id, cloned.device_id);
    assert_eq!(info.friendly_name, cloned.friendly_name);
    assert_eq!(info.state, cloned.state);
    assert_eq!(info.flow, cloned.flow);
}

#[test]
fn endpoint_state_roundtrip() {
    for val in [1u32, 2, 4] {
        let state = EndpointState::from(val);
        assert_ne!(state, EndpointState::Unknown(val));
    }
    for val in [0u32, 3, 5, 8, 100, 0xFFFFFFFF] {
        let state = EndpointState::from(val);
        assert_eq!(state, EndpointState::Unknown(val));
    }
}
