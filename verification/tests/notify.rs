use vxapo_driver::host::installation::notify::notify_audio_service_changed;

#[test]
fn notify_does_not_panic() {
    notify_audio_service_changed();
}
