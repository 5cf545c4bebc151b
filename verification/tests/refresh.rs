use nalumina_link::i18n::I18n;
use nalumina_link::refresh::{RefreshEvent, RefreshFlow};
use nalumina_link::status::{RefreshError, UiStatus};

#[test]
fn refresh_flow_starts_once_and_reports_outcomes() {
    let i18n = I18n::from_default_en();
    let mut status = UiStatus::new(&i18n);
    let mut flow = RefreshFlow::new();
    assert!(!flow.is_inflight());
    assert!(flow.start(true, &mut status, &i18n));
    assert_eq!(status.text(), "Refreshing nodes...");
    assert!(!flow.start(true, &mut status, &i18n));
    assert!(!flow.poll(RefreshEvent::Pending, &mut status, &i18n));
    assert!(flow.is_inflight());
    assert!(flow.poll(RefreshEvent::Loaded(3), &mut status, &i18n));
    assert_eq!(status.text(), "Loaded 3 nodes");
    assert!(!flow.is_inflight());
    assert!(!flow.poll(RefreshEvent::Disconnected, &mut status, &i18n));
    assert_eq!(status.text(), "Loaded 3 nodes");
}

#[test]
fn silent_refresh_keeps_status_and_failures_are_reported() {
    let i18n = I18n::from_default_en();
    let mut status = UiStatus::new(&i18n);
    let mut flow = RefreshFlow::new();
    assert!(flow.start(false, &mut status, &i18n));
    assert_eq!(status.text(), "Ready");
    let error = RefreshError::node_discovery("no daemon".to_string());
    assert!(!flow.poll(RefreshEvent::Failed(error), &mut status, &i18n));
    assert_eq!(status.text(), "Refresh failed (node discovery): no daemon");
    assert!(flow.start(false, &mut status, &i18n));
    assert!(!flow.poll(RefreshEvent::Disconnected, &mut status, &i18n));
    assert_eq!(status.text(), "Refresh worker disconnected");
}
