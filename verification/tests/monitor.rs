use anytls::monitor::PathMonitor;

#[test]
fn one_monitor_is_made() {
    let mut watch = PathMonitor::new();
    assert!(!watch.stop_monitor());
    assert!(watch.start_monitor());
    assert!(watch.monitor_made(true));
    assert!(!watch.start_monitor());
    assert!(watch.stop_monitor());
    assert!(!watch.stop_monitor());
    assert!(!watch.start_monitor());
    assert!(!watch.stop_monitor());
}

#[test]
fn a_monitor_that_could_not_be_made() {
    let mut watch = PathMonitor::new();
    assert!(watch.start_monitor());
    assert!(!watch.monitor_made(false));
    assert!(!watch.stop_monitor());
    assert!(!watch.start_monitor());
}
