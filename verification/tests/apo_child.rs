use vxapo_driver::host::instance::apo_child::{ChildApo, QueryReply, SetupStep};
use vxapo_driver::hresult::{E_FAIL, E_POINTER, S_OK};

fn null_child_apo() -> ChildApo {
    ChildApo {
        iapo_ptr: 0,
        iapo_rt_ptr: 0,
        iapo_cfg_ptr: 0,
    }
}

#[test]
fn null_child_is_not_valid() {
    let apo = null_child_apo();
    assert!(!apo.is_valid());
}

#[test]
fn null_child_get_latency_returns_zero() {
    let apo = null_child_apo();
    assert_eq!(apo.get_latency(777), 0);
}

#[test]
fn null_child_calc_input_frames_passthrough() {
    let apo = null_child_apo();
    assert_eq!(apo.calc_input_frames(480, 777), 480);
}

#[test]
fn null_child_calc_output_frames_passthrough() {
    let apo = null_child_apo();
    assert_eq!(apo.calc_output_frames(480, 777), 480);
}

#[test]
fn null_child_reset_returns_error() {
    let apo = null_child_apo();
    assert_eq!(apo.reset(S_OK), E_POINTER);
}

#[test]
fn null_child_unlock_returns_error() {
    let apo = null_child_apo();
    assert_eq!(apo.unlock_for_process(S_OK), E_POINTER);
}

#[test]
fn null_child_drop_safely() {
    let mut apo = null_child_apo();
    assert!(apo.release().is_empty());
}

/// The three interfaces are asked for in turn; the first failure gives back what was held.
#[test]
fn child_setup_releases_what_it_holds() {
    let good = |p: usize| QueryReply { hr: S_OK, ptr: p };
    let bad = QueryReply { hr: E_FAIL, ptr: 0 };
    assert!(matches!(ChildApo::create(E_FAIL, &[]), SetupStep::Failed { hr: E_FAIL, .. }));
    assert!(matches!(ChildApo::create(S_OK, &[]), SetupStep::Query(_)));
    match ChildApo::create(S_OK, &[good(16), good(32), good(48)]) {
        SetupStep::Ready(child) => {
            assert!(child.is_valid());
            assert_eq!((child.iapo_ptr, child.iapo_rt_ptr, child.iapo_cfg_ptr), (16, 32, 48));
        }
        other => panic!("expected Ready, got {:?}", other),
    }
    match ChildApo::create(S_OK, &[good(16), good(32), bad]) {
        SetupStep::Failed { hr, release } => {
            assert_eq!(hr, E_FAIL);
            assert!(release.contains(&16) && release.contains(&32));
        }
        other => panic!("expected Failed, got {:?}", other),
    }
}

/// A child that is there answers for itself, and is released in reverse, once.
#[test]
fn child_answers_and_is_released_once() {
    let mut apo = ChildApo { iapo_ptr: 16, iapo_rt_ptr: 32, iapo_cfg_ptr: 48 };
    assert_eq!(apo.get_latency(777), 777);
    assert_eq!(apo.calc_input_frames(480, 500), 500);
    assert_eq!(apo.calc_output_frames(480, 460), 460);
    assert_eq!(apo.reset(E_FAIL), E_FAIL);
    assert_eq!(apo.lock_for_process(S_OK), S_OK);
    assert_eq!(apo.release(), vec![48, 32, 16]);
    assert!(!apo.is_valid());
    assert!(apo.release().is_empty());
}
