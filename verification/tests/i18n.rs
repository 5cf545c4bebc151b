use nalumina_link::catalog::{DEFAULT_DE, DEFAULT_EN};
use nalumina_link::i18n::{default_for_code, language_code, I18n};

#[test]
fn text_returns_translation_or_key_in_braces() {
    let i18n = I18n::from_content(r#"{"greeting": "Hello"}"#);
    assert_eq!(i18n.text("greeting"), "Hello");
    assert_eq!(i18n.text("farewell"), "{farewell}");
    assert!(i18n.has_key("greeting"));
    assert!(!i18n.has_key("farewell"));
}

#[test]
fn text_with_fills_every_placeholder() {
    let i18n = I18n::from_content(
        r#"{"route": "Monitor {{monitor}} / Stream {{stream}} / again {{monitor}}"}"#,
    );
    let text = i18n.text_with(
        "route",
        &[("monitor", "72%".to_string()), ("stream", "50%".to_string())],
    );
    assert_eq!(text, "Monitor 72% / Stream 50% / again 72%");
}

#[test]
fn text_with_without_placeholders_is_text() {
    let i18n = I18n::from_content(r#"{"a": "x {{y}} z"}"#);
    assert_eq!(i18n.text_with("a", &[]), i18n.text("a"));
    assert_eq!(i18n.text_with("a", &[("other", "v".to_string())]), "x {{y}} z");
    assert_eq!(i18n.text_with("missing", &[("missing", "v".to_string())]), "{missing}");
}

#[test]
fn invalid_catalog_falls_back_to_english() {
    let i18n = I18n::from_content("not json");
    assert_eq!(i18n.text("status.ready"), "Ready");
    let english = I18n::from_default_en();
    assert_eq!(english.text("ui.bus.monitor"), "Monitor Mix");
}

#[test]
fn resolve_prefers_file_then_builtin_language_then_english() {
    let from_file = I18n::resolve(Some(r#"{"status.ready": "Prêt"}"#), "fr");
    assert_eq!(from_file.text("status.ready"), "Prêt");
    let german = I18n::resolve(None, "de");
    assert_eq!(german.text("status.ready"), "Bereit");
    let other = I18n::resolve(None, "fr");
    assert_eq!(other.text("status.ready"), "Ready");
}

#[test]
fn default_for_code_knows_german_and_english() {
    assert_eq!(default_for_code("de"), Some(DEFAULT_DE));
    assert_eq!(default_for_code("en"), Some(DEFAULT_EN));
    assert_eq!(default_for_code("fr"), None);
    assert_eq!(default_for_code(""), None);
}

#[test]
fn language_code_prefers_own_variable_then_locale() {
    assert_eq!(language_code(Some("de_DE.UTF-8"), Some("en_US.UTF-8")), "de");
    assert_eq!(language_code(None, Some("en_US.UTF-8")), "en");
    assert_eq!(language_code(None, Some("FR-ca")), "fr");
    assert_eq!(language_code(None, None), "en");
    assert_eq!(language_code(Some(""), Some("de_DE")), "en");
    assert_eq!(language_code(Some(".UTF-8"), None), "en");
    assert_eq!(language_code(Some("C"), None), "c");
}
