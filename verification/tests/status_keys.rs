use nalumina_link::i18n::I18n;
use nalumina_link::status::{RefreshError, RefreshErrorSource, StatusKey, UiStatus};

#[test]
fn status_keys_map_to_expected_translation_ids() {
    assert_eq!(StatusKey::Ready.as_str(), "status.ready");
    assert_eq!(StatusKey::RefreshingNodes.as_str(), "status.refreshing_nodes");
    assert_eq!(StatusKey::LoadedNodes.as_str(), "status.loaded_nodes");
    assert_eq!(StatusKey::RefreshFailed.as_str(), "status.refresh_failed");
    assert_eq!(StatusKey::RefreshDisconnected.as_str(), "status.refresh_disconnected");
    assert_eq!(StatusKey::DoctorMessage.as_str(), "doctor.message");
    assert_eq!(
        StatusKey::RefreshErrorSourceNodeDiscovery.as_str(),
        "status.refresh_error_source.node_discovery"
    );
}

#[test]
fn scene_applied_key_maps_to_its_translation_id() {
    assert_eq!(StatusKey::SceneApplied.as_str(), "status.scene_applied");
}

fn catalog() -> I18n {
    I18n::from_content(
        r#"{"status.ready": "Ready", "status.refreshing_nodes": "Refreshing",
            "status.loaded_nodes": "Loaded {{count}} nodes",
            "status.refresh_failed": "Failed in {{source}}: {{error}}",
            "status.refresh_error_source.node_discovery": "discovery",
            "status.refresh_disconnected": "Gone", "doctor.message": "All good"}"#,
    )
}

#[test]
fn status_follows_the_refresh_cycle() {
    let i18n = catalog();
    let mut status = UiStatus::new(&i18n);
    assert_eq!(status.text(), "Ready");
    status.set_refreshing(&i18n);
    assert_eq!(status.text(), "Refreshing");
    status.set_loaded_nodes(&i18n, 12);
    assert_eq!(status.text(), "Loaded 12 nodes");
    status.set_refresh_failed(&i18n, RefreshError::node_discovery("no daemon".to_string()));
    assert_eq!(status.text(), "Failed in discovery: no daemon");
    status.set_refresh_disconnected(&i18n);
    assert_eq!(status.text(), "Gone");
    status.set_doctor_message(&i18n);
    assert_eq!(status.text(), "All good");
}

#[test]
fn status_shows_missing_keys_in_braces() {
    let i18n = I18n::from_content("{}");
    let mut status = UiStatus::new(&i18n);
    assert_eq!(status.text(), "{status.ready}");
    status.set_loaded_nodes(&i18n, 3);
    assert_eq!(status.text(), "{status.loaded_nodes}");
}

#[test]
fn refresh_error_from_node_discovery() {
    let error = RefreshError::node_discovery("connection refused".to_string());
    assert_eq!(error.source, RefreshErrorSource::NodeDiscovery);
    assert_eq!(error.source.status_key(), StatusKey::RefreshErrorSourceNodeDiscovery);
    assert_eq!(error.message, "connection refused");
}
