use nalumina_link::channel_state::{default_sends, ChannelStateStore, ChannelStripState};

fn defaults() -> ChannelStripState<f32> {
    ChannelStripState {
        level: 0.5,
        muted: false,
        sends: vec![0.8, 0.6],
    }
}

#[test]
fn load_or_default_initializes_missing_node_state() {
    let mut store: ChannelStateStore<f32> = ChannelStateStore::new();
    let state = store.load_or_default(10, defaults());

    assert_eq!(state.level, 0.5);
    assert_eq!(state.sends[0], 0.8);
    assert_eq!(state.sends[1], 0.6);
    assert!(!state.muted);
}

#[test]
fn store_overrides_previous_values() {
    let mut store: ChannelStateStore<f32> = ChannelStateStore::new();
    let mut state = store.load_or_default(77, defaults());
    state.level = 0.9;
    state.sends[0] = 0.2;
    state.sends[1] = 0.3;
    state.muted = true;
    store.store(77, state);

    let reloaded = store.load_or_default(77, defaults());
    assert_eq!(reloaded.level, 0.9);
    assert_eq!(reloaded.sends[0], 0.2);
    assert_eq!(reloaded.sends[1], 0.3);
    assert!(reloaded.muted);
}

#[test]
fn effective_mix_respects_selected_bus_and_mute() {
    let mut store: ChannelStateStore<f32> = ChannelStateStore::new();
    let state = ChannelStripState {
        level: 0.75,
        muted: false,
        sends: vec![0.4, 0.9],
    };
    store.store(5, state.clone());

    let monitor_mix = store.effective_mix(5, 0, 0.0, |level, send| level * send);
    let stream_mix = store.effective_mix(5, 1, 0.0, |level, send| level * send);
    assert!((monitor_mix - 0.3).abs() < f32::EPSILON);
    assert!((stream_mix - 0.675).abs() < f32::EPSILON);

    store.store(
        5,
        ChannelStripState {
            muted: true,
            ..state
        },
    );
    assert_eq!(store.effective_mix(5, 0, 0.0, |level, send| level * send), 0.0);
    assert_eq!(store.effective_mix(5, 1, 0.0, |level, send| level * send), 0.0);
}

#[test]
fn load_or_default_resizes_sends_when_bus_count_changes() {
    let mut store: ChannelStateStore<f32> = ChannelStateStore::new();

    store.store(
        9,
        ChannelStripState {
            level: 0.5,
            muted: false,
            sends: vec![0.7, 0.4],
        },
    );

    let expanded = store.load_or_default(
        9,
        ChannelStripState {
            level: 0.5,
            muted: false,
            sends: vec![1.0, 0.8, 0.6],
        },
    );

    assert_eq!(expanded.sends, vec![0.7, 0.4, 0.6]);

    let collapsed = store.load_or_default(
        9,
        ChannelStripState {
            level: 0.5,
            muted: false,
            sends: vec![1.0],
        },
    );

    assert_eq!(collapsed.sends, vec![0.7]);
}

#[test]
fn effective_mix_of_unknown_channel_or_missing_bus() {
    let mut store: ChannelStateStore<f32> = ChannelStateStore::new();
    assert_eq!(store.effective_mix(1, 0, 0.0, |level, send| level * send), 0.0);
    store.store(1, ChannelStripState { level: 0.5, muted: false, sends: vec![0.5] });
    assert_eq!(store.effective_mix(1, 0, 0.0, |level, send| level * send), 0.25);
    assert_eq!(store.effective_mix(1, 3, 0.0, |level, send| level * send), 0.0);
}

#[test]
fn ensure_defaults_keeps_level_and_mute_but_resizes() {
    let mut store: ChannelStateStore<f32> = ChannelStateStore::new();
    store.store(4, ChannelStripState { level: 0.1, muted: true, sends: vec![0.3, 0.2, 0.1] });
    store.ensure_defaults(4, defaults());
    store.ensure_defaults(4, defaults());
    let state = store.load_or_default(4, defaults());
    assert_eq!(state.level, 0.1);
    assert!(state.muted);
    assert_eq!(state.sends, vec![0.3, 0.2]);
}

#[test]
fn meter_value_is_silent_when_muted() {
    let mut state = defaults();
    assert_eq!(state.meter_value(0.0), 0.5);
    state.muted = true;
    assert_eq!(state.meter_value(0.0), 0.0);
}

#[test]
fn normalized_with_pads_from_defaults() {
    let state: ChannelStripState<f32> = ChannelStripState { level: 0.2, muted: false, sends: vec![0.1] };
    let wider = ChannelStripState { level: 1.0, muted: true, sends: vec![0.9, 0.8, 0.7] };
    let normalized = state.normalized_with(&wider);
    assert_eq!(normalized.level, 0.2);
    assert!(!normalized.muted);
    assert_eq!(normalized.sends, vec![0.1, 0.8, 0.7]);
    assert_eq!(state.duplicate().sends, vec![0.1]);
}

#[test]
fn default_sends_put_monitor_and_stream_first() {
    assert_eq!(default_sends(0, 1.0_f32, 0.82, 0.9), Vec::<f32>::new());
    assert_eq!(default_sends(1, 1.0_f32, 0.82, 0.9), vec![1.0]);
    assert_eq!(default_sends(4, 1.0_f32, 0.82, 0.9), vec![1.0, 0.82, 0.9, 0.9]);
}

#[test]
fn ensure_defaults_for_all_gives_every_channel_the_bus_count() {
    let mut store: ChannelStateStore<f32> = ChannelStateStore::new();
    store.store(
        1,
        ChannelStripState {
            level: 0.3,
            muted: true,
            sends: vec![0.1, 0.2],
        },
    );
    let four = |level: f32| ChannelStripState {
        level,
        muted: false,
        sends: default_sends(4, 0.8, 0.6, 0.0),
    };
    store.ensure_defaults_for_all(vec![(1, four(0.5)), (2, four(0.7))]);

    let first = store.load_or_default(1, four(0.5));
    assert_eq!(first.level, 0.3);
    assert!(first.muted);
    assert_eq!(first.sends, vec![0.1, 0.2, 0.0, 0.0]);

    let second = store.load_or_default(2, defaults());
    assert_eq!(second.level, 0.7);
    assert!(!second.muted);
    assert_eq!(second.sends, vec![0.8, 0.6]);
}
