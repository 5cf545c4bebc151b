use nalumina_link::cli::{help_lines, parse_command, render_nodes, CliCommand};
use nalumina_link::i18n::I18n;
use nalumina_link::node_props::NodeEntry;

#[test]
fn commands_by_first_argument() {
    assert_eq!(parse_command(None), CliCommand::Ui);
    assert_eq!(parse_command(Some("ui")), CliCommand::Ui);
    assert_eq!(parse_command(Some("list-nodes")), CliCommand::ListNodes);
    assert_eq!(parse_command(Some("doctor")), CliCommand::Doctor);
    assert_eq!(parse_command(Some("help")), CliCommand::Help);
    assert_eq!(parse_command(Some("Help")), CliCommand::Unknown("Help".to_string()));
}

#[test]
fn help_has_subtitle_blank_line_usage_and_commands() {
    let i18n = I18n::from_content(r#"{"cli.subtitle": "S", "cli.usage": "U"}"#);
    assert_eq!(
        help_lines(&i18n),
        vec!["S", "", "U", "{cli.help}", "{cli.doctor}", "{cli.ui}", "{cli.list_nodes}"]
    );
}

#[test]
fn node_listing_lines() {
    let i18n = I18n::from_default_en();
    assert_eq!(render_nodes(&i18n, &[]), vec!["No PipeWire nodes found."]);
    let nodes = vec![
        NodeEntry { id: 31, name: "alsa_output".to_string(), description: "Speakers".to_string() },
        NodeEntry { id: 4294967295, name: "x".to_string(), description: String::new() },
    ];
    assert_eq!(render_nodes(&i18n, &nodes), vec!["31: alsa_output (Speakers)", "4294967295: x"]);
}
