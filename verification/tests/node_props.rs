use nalumina_link::node_props::{
    capture_peaks, channels_from_labels, channels_from_position_map, decode_peak_samples, meter_channel_count,
    node_entry_from_props, node_line, numeric_tokens, parse_channel_labels, tokenize, NodeEntry,
    TokenClass,
};

#[test]
fn parse_channel_labels_splits_and_upper_cases() {
    assert_eq!(parse_channel_labels("[ fl, FR ]"), vec!["FL", "FR"]);
    assert_eq!(parse_channel_labels("aux_0 aux_1"), vec!["AUX_", "AUX_"]);
    assert_eq!(parse_channel_labels("MONO"), vec!["MONO"]);
    assert!(parse_channel_labels("[ 1, 2 ]").is_empty());
}

#[test]
fn numeric_tokens_keep_number_characters() {
    assert_eq!(numeric_tokens("[ 0.5, -1e-3 ]"), vec!["0.5", "-1e-3"]);
    assert_eq!(numeric_tokens("volume=80"), vec!["e", "80"]);
    assert!(numeric_tokens("").is_empty());
    assert_eq!(tokenize("a1b22", TokenClass::Number), vec!["1", "22"]);
}

#[test]
fn channel_count_from_position_maps() {
    assert_eq!(channels_from_position_map("[ MONO ]"), Some(1));
    assert_eq!(channels_from_position_map("[ stereo ]"), Some(2));
    assert_eq!(channels_from_position_map("[ FL, FR, FC, LFE, RL, RR ]"), Some(6));
    assert_eq!(channels_from_position_map("[ FL ]"), None);
    assert_eq!(channels_from_position_map(""), None);
    let many: Vec<String> = (0..70).map(|_| "X".to_string()).collect();
    assert_eq!(channels_from_labels(&many), Some(64));
}

#[test]
fn decode_peak_samples_reads_little_endian_frames() {
    // stereo frames: (100, -200), (-32768, 5)
    let bytes = [100u8, 0, 0x38, 0xff, 0x00, 0x80, 5, 0];
    assert_eq!(decode_peak_samples(&bytes, 2), (32768, 200));
    // mono repeats the left peak on the right
    assert_eq!(decode_peak_samples(&bytes, 1), (32768, 32768));
    // a trailing partial frame is ignored
    assert_eq!(decode_peak_samples(&[1u8, 0, 9], 1), (1, 1));
    assert_eq!(decode_peak_samples(&[], 2), (0, 0));
    assert_eq!(decode_peak_samples(&[7u8, 0, 1, 0], 0), (7, 0));
}

#[test]
fn meter_channel_count_is_one_or_two() {
    assert_eq!(meter_channel_count(None), 2);
    assert_eq!(meter_channel_count(Some(0)), 1);
    assert_eq!(meter_channel_count(Some(1)), 1);
    assert_eq!(meter_channel_count(Some(6)), 2);
}

#[test]
fn node_entries_and_their_lines() {
    let unnamed = node_entry_from_props(42, None, None);
    assert_eq!(unnamed.id, 42);
    assert_eq!(unnamed.name, "<unnamed>");
    assert_eq!(unnamed.description, "");
    assert_eq!(node_line(&unnamed), "42: <unnamed>");
    let mic = node_entry_from_props(7, Some("alsa_input"), Some("Microphone"));
    assert_eq!(node_line(&mic), "7: alsa_input (Microphone)");
    let entry = NodeEntry { id: 0, name: "x".to_string(), description: String::new() };
    assert_eq!(node_line(&entry), "0: x");
}

#[test]
fn capture_peaks_needs_four_bytes() {
    assert_eq!(capture_peaks(&[], 2), None);
    assert_eq!(capture_peaks(&[0x10, 0x00, 0x20], 1), None);
    assert_eq!(
        capture_peaks(&[0x10, 0x00, 0xF0, 0xFF, 0x00, 0x80, 0x05, 0x00], 2),
        Some((32768, 16))
    );
    assert_eq!(capture_peaks(&[0x10, 0x00, 0x00, 0x01], 1), Some((256, 256)));
}
