use snart_laser::common::config::{
    AppConfig, BindingId, DeviceConfig, KeyBindings, MouseBindings, ScrollAction, MAX_RECENT_FILES,
};
use snart_laser::common::types::{tool_icon, AirAssist, DeviceType, LayerMode, ToolType, Units};

#[test]
fn default_key_bindings() {
    let k = KeyBindings::default();
    assert_eq!(k.get(BindingId::TempPan), "Space");
    assert_eq!(k.get(BindingId::ToolSelect), "s");
    assert_eq!(k.get(BindingId::ToolPolyline), "");
    assert_eq!(k.get(BindingId::DeleteSelected), "Delete");
    assert_eq!(k.get(BindingId::ZoomIn), "=");
    assert_eq!(k.get(BindingId::ZoomReset), "0");
}

#[test]
fn binding_set_then_get() {
    let mut k = KeyBindings::default();
    k.set(BindingId::ToolLine, "L".to_owned());
    assert_eq!(k.get(BindingId::ToolLine), "L");
    assert_eq!(k.get(BindingId::ToolRect), "r");
    assert_eq!(k.get(BindingId::TempPan), "Space");
}

#[test]
fn binding_labels_and_order() {
    let all = BindingId::all();
    assert_eq!(all.len(), 11);
    assert_eq!(all[0], BindingId::TempPan);
    assert_eq!(all[10], BindingId::ZoomReset);
    assert_eq!(BindingId::TempPan.label(), "Pan (hold)");
    assert_eq!(BindingId::ZoomReset.label(), "Zoom reset");
    assert_eq!(BindingId::DeleteSelected.label(), "Delete selected");
}

#[test]
fn mouse_bindings() {
    assert_eq!(MouseBindings::default().scroll, ScrollAction::Zoom);
    assert_eq!(ScrollAction::Zoom.label(), "Zoom");
    assert_eq!(ScrollAction::PanVertical.label(), "Pan vertical");
}

fn app_config(files: &[&str]) -> AppConfig {
    AppConfig {
        last_directory: "/tmp".to_owned(),
        recent_files: files.iter().map(|s| s.to_string()).collect(),
        theme: "dark".to_owned(),
    }
}

#[test]
fn recent_file_moves_to_front() {
    let mut c = app_config(&["a", "b", "c"]);
    c.add_recent_file("b");
    assert_eq!(c.recent_files, vec!["b", "a", "c"]);
    c.add_recent_file("d");
    assert_eq!(c.recent_files, vec!["d", "b", "a", "c"]);
    assert_eq!(c.last_directory, "/tmp");
}

#[test]
fn recent_files_keep_ten() {
    let names: Vec<String> = (0..10).map(|i| format!("f{i}")).collect();
    let refs: Vec<&str> = names.iter().map(|s| s.as_str()).collect();
    let mut c = app_config(&refs);
    c.add_recent_file("new");
    assert_eq!(c.recent_files.len(), MAX_RECENT_FILES);
    assert_eq!(c.recent_files[0], "new");
    assert_eq!(c.recent_files[9], "f8");
}

#[test]
fn recent_file_duplicates_removed() {
    let mut c = app_config(&["x", "y", "x"]);
    c.add_recent_file("x");
    assert_eq!(c.recent_files, vec!["x", "y"]);
}

#[test]
fn active_profile_is_clamped() {
    let mut d = DeviceConfig::with_profile("one");
    assert_eq!(*d.active(), "one");
    d.profiles.push("two");
    d.active_profile = 7;
    assert_eq!(*d.active(), "two");
    d.active_profile = 0;
    *d.active_mut() = "uno";
    assert_eq!(d.profiles, vec!["uno", "two"]);
}

#[test]
fn type_labels() {
    assert_eq!(DeviceType::default(), DeviceType::GrblLaser);
    assert_eq!(DeviceType::VevorSmart1.label(), "Vevor Smart 1");
    assert_eq!(DeviceType::all().len(), 6);
    assert_eq!(DeviceType::all()[2], DeviceType::VinylCutter);
    assert_eq!(LayerMode::OffsetFill.label(), "Offset Fill");
    assert_eq!(LayerMode::all(), &[LayerMode::Line, LayerMode::Fill, LayerMode::OffsetFill, LayerMode::Image]);
    assert_eq!(ToolType::Measure.label(), "Measure");
    assert_eq!(ToolType::all().len(), 7);
    assert_eq!(ToolType::all()[6], ToolType::Bezier);
    assert_eq!(AirAssist::Auto.label(), "Auto");
    assert_eq!(AirAssist::all(), &[AirAssist::Off, AirAssist::On, AirAssist::Auto]);
    assert_eq!(Units::default(), Units::Mm);
}

#[test]
fn tool_icons() {
    assert_eq!(tool_icon(ToolType::Select), "↖");
    assert_eq!(tool_icon(ToolType::Rectangle), "▭");
    assert_eq!(tool_icon(ToolType::Bezier), "⌢");
    assert_eq!(tool_icon(ToolType::Text), "?");
    assert_eq!(tool_icon(ToolType::Measure), "?");
}
