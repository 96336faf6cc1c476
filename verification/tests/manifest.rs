use win_widgets::manifest::{
    replace_widget, set_widget_settings, sync_widgets, take_widget, widget_id, widget_settings,
    widgets_data, FoundWidget, Manifest, SettingValue, WidgetConfig, WidgetInfo,
    WidgetSettingDefinition, DEFAULT_POSITION_BITS,
};

fn setting(key: &str, value: &str) -> SettingValue {
    SettingValue { key: key.to_string(), value_json: value.to_string() }
}

fn definition(key: &str, default: &str) -> WidgetSettingDefinition {
    WidgetSettingDefinition {
        key: key.to_string(),
        label: key.to_uppercase(),
        setting_type: "text".to_string(),
        default_json: default.to_string(),
        description: None,
        placeholder: None,
        min_bits: None,
        max_bits: None,
        step_bits: None,
        options: None,
    }
}

fn info(defs: Vec<WidgetSettingDefinition>) -> WidgetInfo {
    WidgetInfo {
        name: "Clock".to_string(),
        version: "1.0".to_string(),
        author: "Ann".to_string(),
        description: "Shows time".to_string(),
        default_width_bits: 200f64.to_bits(),
        default_height_bits: 100f64.to_bits(),
        interactive: true,
        settings: defs,
    }
}

fn found(path: &str, defs: Vec<WidgetSettingDefinition>) -> FoundWidget {
    FoundWidget { relative_path: path.to_string(), info: info(defs) }
}

fn config(id: &str, label: &str, settings: Vec<SettingValue>) -> WidgetConfig {
    WidgetConfig {
        id: id.to_string(),
        window_label: label.to_string(),
        enabled: false,
        width_bits: 10f64.to_bits(),
        height_bits: 20f64.to_bits(),
        x_bits: 1.5f64.to_bits(),
        y_bits: 2.5f64.to_bits(),
        interactive: false,
        settings,
    }
}

#[test]
fn default_position_is_forty() {
    assert_eq!(DEFAULT_POSITION_BITS, 40.0f64.to_bits());
}

#[test]
fn widget_ids_use_forward_slashes() {
    assert_eq!(widget_id("pack\\clock"), "pack/clock");
    assert_eq!(widget_id("pack/clock"), "pack/clock");
}

#[test]
fn new_widget_gets_defaults() {
    let m = sync_widgets(
        Manifest { widgets: Vec::new() },
        &vec![found("me\\clock", vec![definition("k1", "1"), definition("k2", "\"x\"")])],
    );
    assert_eq!(
        m.widgets,
        vec![WidgetConfig {
            id: "me/clock".to_string(),
            window_label: "me/clock".to_string(),
            enabled: true,
            width_bits: 200f64.to_bits(),
            height_bits: 100f64.to_bits(),
            x_bits: 40f64.to_bits(),
            y_bits: 40f64.to_bits(),
            interactive: true,
            settings: vec![setting("k1", "1"), setting("k2", "\"x\"")],
        }]
    );
}

#[test]
fn new_widget_takes_last_default_of_repeated_key() {
    let m = sync_widgets(
        Manifest { widgets: Vec::new() },
        &vec![found("w", vec![definition("k", "1"), definition("k", "2")])],
    );
    assert_eq!(m.widgets[0].settings, vec![setting("k", "2")]);
}

#[test]
fn known_widget_keeps_saved_values_and_gains_missing_keys() {
    let m = sync_widgets(
        Manifest { widgets: vec![config("w", "w", vec![setting("k1", "5")])] },
        &vec![found("w", vec![definition("k1", "1"), definition("k2", "2"), definition("k2", "3")])],
    );
    let mut expected = config("w", "w", vec![setting("k1", "5"), setting("k2", "2")]);
    expected.enabled = false;
    assert_eq!(m.widgets, vec![expected]);
}

#[test]
fn widgets_whose_folder_is_gone_are_dropped() {
    let m = sync_widgets(
        Manifest {
            widgets: vec![config("gone", "gone", vec![]), config("kept", "kept", vec![])],
        },
        &vec![found("kept", vec![])],
    );
    assert_eq!(m.widgets, vec![config("kept", "kept", vec![])]);
}

#[test]
fn sync_is_idempotent() {
    let start = Manifest {
        widgets: vec![
            config("a", "a", vec![setting("x", "1")]),
            config("old", "old", vec![]),
            config("a", "a2", vec![]),
        ],
    };
    let folders = vec![found("a", vec![definition("y", "2")]), found("b\\c", vec![definition("z", "3")])];
    let once = sync_widgets(start, &folders);
    let twice = sync_widgets(once.clone(), &folders);
    assert_eq!(once, twice);
    assert_eq!(once.widgets.len(), 3);
    assert_eq!(once.widgets[0].settings, vec![setting("x", "1"), setting("y", "2")]);
    assert_eq!(once.widgets[1].settings, Vec::<SettingValue>::new());
    assert_eq!(once.widgets[2].id, "b/c");
}

#[test]
fn settings_read_after_write() {
    let mut m = Manifest {
        widgets: vec![config("a", "win-a", vec![setting("x", "1")]), config("b", "win-b", vec![])],
    };
    assert_eq!(set_widget_settings(&mut m, "win-b", vec![setting("y", "true")]), Ok(()));
    assert_eq!(widget_settings(&m, "win-b"), Ok(vec![setting("y", "true")]));
    assert_eq!(widget_settings(&m, "win-a"), Ok(vec![setting("x", "1")]));
}

#[test]
fn settings_of_unknown_window() {
    let mut m = Manifest { widgets: vec![config("a", "win-a", vec![])] };
    assert_eq!(widget_settings(&m, "nope"), Err("Widget 'nope' not found".to_string()));
    assert_eq!(
        set_widget_settings(&mut m, "nope", vec![]),
        Err("Widget 'nope' not found".to_string())
    );
    assert_eq!(m.widgets, vec![config("a", "win-a", vec![])]);
}

#[test]
fn replace_widget_by_window() {
    let mut m = Manifest { widgets: vec![config("a", "win-a", vec![]), config("b", "win-b", vec![])] };
    let mut updated = config("a", "win-a", vec![setting("k", "1")]);
    updated.enabled = true;
    assert_eq!(replace_widget(&mut m, updated.clone()), Ok(()));
    assert_eq!(m.widgets[0], updated);
    assert_eq!(
        replace_widget(&mut m, config("c", "win-c", vec![])),
        Err("Widget not found: win-c".to_string())
    );
}

#[test]
fn take_widget_by_id() {
    let m = Manifest { widgets: vec![config("a", "win-a", vec![]), config("b", "win-b", vec![])] };
    assert_eq!(take_widget(m.clone(), "b"), Ok(config("b", "win-b", vec![])));
    assert_eq!(take_widget(m, "zzz"), Err("Widget not found: zzz".to_string()));
}

#[test]
fn widgets_data_joins_configuration_and_description() {
    let m = Manifest { widgets: vec![config("a", "win-a", vec![setting("k", "1")])] };
    let d = widgets_data(m, vec![info(vec![definition("k", "0")])]);
    assert_eq!(d.len(), 1);
    assert_eq!(d[0].id, "a");
    assert_eq!(d[0].window_label, "win-a");
    assert_eq!(d[0].name, "Clock");
    assert_eq!(d[0].version, "1.0");
    assert_eq!(d[0].x_bits, 1.5f64.to_bits());
    assert_eq!(d[0].settings, vec![setting("k", "1")]);
    assert_eq!(d[0].setting_definitions, vec![definition("k", "0")]);
}

#[test]
fn saved_settings_read_back_after_sync_with_missing_defaults() {
    let mut m = Manifest {
        widgets: vec![config("a", "win-a", vec![setting("x", "1")]), config("b", "win-b", vec![])],
    };
    assert_eq!(set_widget_settings(&mut m, "win-a", vec![setting("x", "7")]), Ok(()));
    let m = sync_widgets(
        m,
        &vec![found("b", vec![]), found("a", vec![definition("x", "0"), definition("y", "2")])],
    );
    assert_eq!(widget_settings(&m, "win-a"), Ok(vec![setting("x", "7"), setting("y", "2")]));
}

#[test]
fn saved_settings_of_a_later_widget_with_the_same_id_read_back_as_saved() {
    let mut m = Manifest {
        widgets: vec![config("a", "win-a", vec![]), config("a", "win-a2", vec![])],
    };
    assert_eq!(set_widget_settings(&mut m, "win-a2", vec![setting("z", "9")]), Ok(()));
    let m = sync_widgets(m, &vec![found("a", vec![definition("y", "2")])]);
    assert_eq!(widget_settings(&m, "win-a2"), Ok(vec![setting("z", "9")]));
    assert_eq!(widget_settings(&m, "win-a"), Ok(vec![setting("y", "2")]));
}
