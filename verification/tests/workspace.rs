use nalumina_link::i18n::I18n;
use nalumina_link::node_props::NodeEntry;
use nalumina_link::workspace::{node_choices, source_label, MixerWorkspace, NodeChoice};

fn english() -> I18n {
    I18n::from_default_en()
}

fn nodes() -> Vec<NodeChoice> {
    vec![
        NodeChoice { id: 40, name: "USB Microphone".to_string() },
        NodeChoice { id: 41, name: "Browser".to_string() },
    ]
}

fn ids(channels: &[nalumina_link::workspace::InputChannel]) -> Vec<u32> {
    channels.iter().map(|c| c.id).collect()
}

#[test]
fn fresh_workspace_has_six_inputs_and_two_buses() {
    let i18n = english();
    let ws = MixerWorkspace::new(&i18n);
    assert_eq!(ids(ws.input_channels()), vec![1, 2, 3, 4, 5, 6]);
    assert_eq!(ws.input_channels()[0].name, "Input 1");
    assert_eq!(ws.input_channels()[5].name, "Input 6");
    assert!(ws.input_channels().iter().all(|c| c.source_node_id.is_none()));
    assert_eq!(ws.mix_bus_count(), 2);
    assert_eq!(ws.mix_bus_names(), &vec!["Monitor Mix".to_string(), "Stream Mix".to_string()]);
    assert_eq!(ws.visible_channel_limit(), 10);
    assert_eq!(ws.node_filter(), "");
}

#[test]
fn add_input_channel_uses_next_id() {
    let i18n = english();
    let mut ws = MixerWorkspace::new(&i18n);
    assert_eq!(ws.add_input_channel(&i18n), 7);
    assert_eq!(ws.add_input_channel(&i18n), 8);
    assert_eq!(ws.input_channels().len(), 8);
    assert_eq!(ws.input_channels()[7].name, "Input 8");
}

#[test]
fn mix_bus_count_changes_resize_names() {
    let i18n = english();
    let mut ws = MixerWorkspace::new(&i18n);
    ws.set_mix_bus_count(&i18n, 6);
    assert_eq!(
        ws.mix_bus_names(),
        &vec![
            "Monitor Mix".to_string(),
            "Stream Mix".to_string(),
            "Chat Mix".to_string(),
            "FX Return".to_string(),
            "Mix 5".to_string(),
            "Mix 6".to_string(),
        ]
    );
    ws.set_mix_bus_count(&i18n, 1);
    assert_eq!(ws.mix_bus_names(), &vec!["Monitor Mix".to_string()]);
    ws.set_mix_bus_count(&i18n, 0);
    assert_eq!(ws.mix_bus_count(), 1);
    ws.set_mix_bus_count(&i18n, 50);
    assert_eq!(ws.mix_bus_count(), 8);
    assert_eq!(ws.mix_bus_names().len(), 8);
    ws.sync_mix_bus_names(&i18n);
    assert_eq!(ws.mix_bus_names().len(), 8);
}

#[test]
fn mix_bus_label_falls_back_to_default_name() {
    let i18n = english();
    let ws = MixerWorkspace::new(&i18n);
    assert_eq!(ws.mix_bus_label(&i18n, 1), "Stream Mix");
    assert_eq!(ws.mix_bus_label(&i18n, 2), "Chat Mix");
    assert_eq!(ws.mix_bus_label(&i18n, 9), "Mix 10");
    assert_eq!(MixerWorkspace::default_mix_bus_name(&i18n, 3), "FX Return");
    assert_eq!(MixerWorkspace::default_mix_bus_names(&i18n, 0), Vec::<String>::new());
}

#[test]
fn set_channel_source_and_labels() {
    let i18n = english();
    let mut ws = MixerWorkspace::new(&i18n);
    assert!(ws.set_channel_source(2, Some(40)));
    assert!(!ws.set_channel_source(99, Some(41)));
    assert_eq!(ws.input_channels()[1].source_node_id, Some(40));
    assert_eq!(ws.source_node_ids(), vec![40]);
    assert_eq!(source_label(&i18n, &nodes(), Some(40)), "USB Microphone");
    assert_eq!(source_label(&i18n, &nodes(), Some(77)), "Unassigned");
    assert_eq!(source_label(&i18n, &nodes(), None), "Unassigned");
    assert!(ws.set_channel_source(2, None));
    assert!(ws.source_node_ids().is_empty());
}

#[test]
fn default_microphone_goes_to_first_free_channel() {
    let i18n = english();
    let mut ws = MixerWorkspace::new(&i18n);
    ws.set_channel_source(1, Some(41));
    ws.apply_default_devices(Some(40));
    assert_eq!(ws.input_channels()[1].source_node_id, Some(40));
    ws.apply_default_devices(None);
    assert_eq!(ws.source_node_ids(), vec![41, 40]);
}

#[test]
fn visible_channels_follow_filter_and_limit() {
    let i18n = english();
    let mut ws = MixerWorkspace::new(&i18n);
    ws.set_channel_source(3, Some(40));
    assert_eq!(ids(&ws.visible_input_channels(&i18n, &nodes())), vec![1, 2, 3, 4, 5, 6]);
    ws.set_node_filter("  MICRO ".to_string());
    assert_eq!(ids(&ws.visible_input_channels(&i18n, &nodes())), vec![3]);
    ws.set_node_filter("input 5".to_string());
    assert_eq!(ids(&ws.visible_input_channels(&i18n, &nodes())), vec![5]);
    ws.set_node_filter("unassigned".to_string());
    assert_eq!(ids(&ws.visible_input_channels(&i18n, &nodes())), vec![1, 2, 4, 5, 6]);
    ws.set_visible_channel_limit(2);
    assert_eq!(ids(&ws.visible_input_channels(&i18n, &nodes())), vec![1, 2]);
    ws.set_node_filter("6".to_string());
    assert_eq!(ids(&ws.visible_input_channels(&i18n, &nodes())), vec![6]);
    ws.set_visible_channel_limit(0);
    assert_eq!(ws.visible_channel_limit(), 1);
    ws.set_visible_channel_limit(100);
    assert_eq!(ws.visible_channel_limit(), 24);
}

#[test]
fn node_choices_keep_ids_and_names() {
    let entries = vec![
        NodeEntry { id: 3, name: "a".to_string(), description: "d".to_string() },
        NodeEntry { id: 9, name: "b".to_string(), description: String::new() },
    ];
    let choices = node_choices(&entries);
    assert_eq!(choices.len(), 2);
    assert_eq!((choices[0].id, choices[0].name.as_str()), (3, "a"));
    assert_eq!((choices[1].id, choices[1].name.as_str()), (9, "b"));
}

#[test]
fn blank_filter_shows_first_channels() {
    let i18n = english();
    let mut ws = MixerWorkspace::new(&i18n);
    ws.set_visible_channel_limit(3);
    ws.set_node_filter(" \t\u{3000}\u{a0}".to_string());
    assert_eq!(ids(&ws.visible_input_channels(&i18n, &nodes())), vec![1, 2, 3]);
}
