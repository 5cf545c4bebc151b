use nalumina_link::text::trim;
use nalumina_link::labels::{avatar_label, channel_label, source_choice_label, truncate_label};

#[test]
fn truncate_label_keeps_short_names() {
    assert_eq!(truncate_label("Mic", 5), "Mic");
    assert_eq!(truncate_label("Micro", 5), "Micro");
}

#[test]
fn truncate_label_cuts_long_names_with_ellipsis() {
    assert_eq!(truncate_label("Microphone", 5), "Micr…");
    assert_eq!(truncate_label("Microphone", 1), "…");
    assert_eq!(truncate_label("Microphone", 0), "…");
    // three characters but six bytes: too long for four bytes, yet fewer
    // characters than the three that would be kept
    assert_eq!(truncate_label("äöü", 4), "äöü…");
}

#[test]
fn source_choice_label_uses_card_width() {
    let long = "alsa_input.usb-Focusrite_Scarlett_Solo";
    assert_eq!(source_choice_label(long), "alsa_input.usb-Focusrite_Sc…");
    assert_eq!(source_choice_label("Built-in Audio"), "Built-in Audio");
}

#[test]
fn avatar_label_takes_two_letters_upper_case() {
    assert_eq!(avatar_label("monitor mix"), "MO");
    assert_eq!(avatar_label("1 x-ray"), "XR");
    assert_eq!(avatar_label("a"), "A");
    assert_eq!(avatar_label("123 !"), "?");
    assert_eq!(avatar_label(""), "?");
}

#[test]
fn channel_label_cuts_after_fourteen_characters() {
    assert_eq!(channel_label("short"), "short");
    assert_eq!(channel_label("exactly14chars"), "exactly14chars");
    assert_eq!(channel_label("alsa_output.pci-0000"), "alsa_output.pc...");
}

#[test]
fn trim_removes_unicode_white_space_at_both_ends() {
    assert_eq!(trim(" \u{a0}x y\u{2003}\n"), "x y");
    assert_eq!(trim("\u{3000}\t"), "");
    assert_eq!(trim("a\u{200b}"), "a\u{200b}");
}
