use console::codec::{parse_record_json, parse_session_json, record_json, session_json};
use console::plugin::utils::{
    is_plugin_library, parse_setting_value, parse_setting_value_given, plugin_candidates, validate_config, SettingValue,
};
use console::plugin::{
    PluginCategory, PluginConfig, PluginError, PluginManager, PluginMetadata, PluginSetting, PluginStatus, SettingType,
};
use console::storage::utils::{calculate_data_hash, compress_telemetry_data, validate_data_integrity};
use console::storage::{backups_to_remove, csv_export, format_file_size, order_backups, Storage, StorageStats};
use console::telemetry::utils::interpolate_telemetry;
use console::telemetry::TelemetryData;
use console::text::{centi_string, signed_string};
use console::ui::{custom_color_for_section, Rgb, SectionKind};
use console::{add, clamp};

fn metadata_named(name: &str) -> PluginMetadata {
    PluginMetadata {
        name: name.to_string(),
        version: "1.0.0".to_string(),
        author: "Tester".to_string(),
        description: "test".to_string(),
        category: PluginCategory::Speedometer,
        dependencies: vec![],
        settings: vec![],
    }
}

fn healthy_record() -> TelemetryData {
    let mut d = TelemetryData::with_timestamp(1_700_000_000);
    d.speed = 7500;
    d.rpm = 400000;
    d.engine_temp = 18500;
    d.fuel_level = 6000;
    d.gear = 3;
    d.battery_voltage = 1250;
    d.oil_pressure = 3000;
    d.tire_pressure_fl = 3500;
    d.tire_pressure_fr = 3500;
    d.tire_pressure_rl = 3500;
    d.tire_pressure_rr = 3500;
    d
}

#[test]
fn healthy_record_is_valid_without_alerts() {
    let d = healthy_record();
    assert!(d.is_valid());
    assert!(d.get_alerts().is_empty());
    assert_eq!(d.gear_string(), "3");
}

#[test]
fn hot_engine_alerts_but_stays_valid() {
    let mut d = healthy_record();
    d.engine_temp = 25000;
    assert!(d.is_valid());
    assert_eq!(d.get_alerts(), vec!["Engine temperature high!".to_string()]);
    assert_eq!(d.engine_temp_status(), "Hot");
}

#[test]
fn every_alert_in_order() {
    let mut d = TelemetryData::with_timestamp(0);
    d.engine_temp = 23000;
    d.battery_voltage = 1000;
    d.oil_pressure = 500;
    d.rpm = 200000;
    d.fuel_level = 900;
    assert_eq!(
        d.get_alerts(),
        vec![
            "Engine temperature high!".to_string(),
            "Low tire pressure detected".to_string(),
            "Low battery voltage".to_string(),
            "Low oil pressure".to_string(),
            "Low fuel level".to_string(),
        ]
    );
}

#[test]
fn validity_ranges_edges() {
    let mut d = healthy_record();
    d.speed = 20000;
    assert!(d.is_valid());
    d.speed = 20001;
    assert!(!d.is_valid());
    d.speed = 0;
    d.battery_voltage = 799;
    assert!(!d.is_valid());
    d.battery_voltage = 800;
    d.gear = 7;
    assert!(!d.is_valid());
    d.gear = -1;
    assert!(d.is_valid());
    d.brake_pressure = 200001;
    assert!(!d.is_valid());
}

#[test]
fn gear_and_status_texts() {
    let mut d = TelemetryData::with_timestamp(0);
    d.gear = 9;
    assert_eq!(d.gear_string(), "?");
    d.gear = 6;
    assert_eq!(d.gear_string(), "6");
    assert_eq!(d.engine_status(), "Stopped");
    d.engine_temp = 15999;
    assert_eq!(d.engine_temp_status(), "Cold");
    assert!(!d.is_engine_temp_normal());
    d.engine_temp = 22000;
    assert_eq!(d.engine_temp_status(), "Normal");
    assert!(d.is_engine_temp_normal());
}

#[test]
fn lowest_and_low_tire() {
    let mut d = healthy_record();
    assert!(!d.has_low_tire_pressure());
    d.tire_pressure_rl = 2999;
    assert!(d.has_low_tire_pressure());
    assert_eq!(d.lowest_tire_pressure(), 2999);
}

#[test]
fn new_record_is_stamped_with_the_clock() {
    let d = TelemetryData::new();
    assert!(d.timestamp > 1_600_000_000);
    let mut e = TelemetryData::with_timestamp(5);
    e.update_timestamp();
    assert!(e.timestamp > 1_600_000_000);
}

#[test]
fn compress_keeps_ends_and_drops_flat_middle() {
    let mut s = vec![TelemetryData::with_timestamp(1); 5];
    s[4].speed = 500;
    s[4].timestamp = 5;
    let c = compress_telemetry_data(&s);
    assert_eq!(c.len(), 3);
    assert_eq!(c[0], s[0]);
    assert_eq!(c[1], s[3]);
    assert_eq!(c[2], s[4]);
}

#[test]
fn compress_keeps_short_sessions() {
    let s = vec![TelemetryData::with_timestamp(1), TelemetryData::with_timestamp(2)];
    assert_eq!(compress_telemetry_data(&s), s);
    assert!(compress_telemetry_data(&[]).is_empty());
}

#[test]
fn compress_keeps_gear_changes() {
    let mut s = vec![TelemetryData::with_timestamp(1); 4];
    s[2].gear = 2;
    s[3].gear = 2;
    let c = compress_telemetry_data(&s);
    assert_eq!(c.len(), 4);
}

#[test]
fn hash_detects_changed_channel() {
    let d = healthy_record();
    let h = calculate_data_hash(&d);
    assert!(validate_data_integrity(&d, h));
    let mut e = d;
    e.speed += 1;
    assert!(!validate_data_integrity(&e, h));
    let mut g = d;
    g.gear = 4;
    assert_ne!(calculate_data_hash(&g), h);
    let mut f = d;
    f.fuel_level = 0;
    assert_eq!(calculate_data_hash(&f), h);
}

#[test]
fn storage_names() {
    let s = Storage::new("data.json");
    assert_eq!(s.file_path, "data.json");
    assert_eq!(s.backup_dir, "data.json.backups");
    assert_eq!(s.session_file("42"), "data.json.session_42");
    assert_eq!(s.session_file_at(1700000000), "data.json.session_1700000000");
    assert_eq!(s.backup_file("backup_1.json"), "data.json.backups/backup_1.json");
    assert_eq!(s.backup_file_at(1700000001), "data.json.backups/backup_1700000001.json");
    assert_eq!(Storage::backup_name_at(0), "backup_0.json");
}

#[test]
fn backups_are_json_names_in_order() {
    let entries = vec![
        "backup_30.json".to_string(),
        "notes.txt".to_string(),
        "backup_10.json".to_string(),
        ".json".to_string(),
        "backup_20.json".to_string(),
    ];
    assert_eq!(
        order_backups(entries),
        vec!["backup_10.json".to_string(), "backup_20.json".to_string(), "backup_30.json".to_string()]
    );
}

#[test]
fn clean_two_of_five_backups_removes_three_oldest() {
    let backups: Vec<String> = (1..=5).map(|i| format!("backup_170000000{}.json", i)).collect();
    let doomed = backups_to_remove(&backups, 2);
    assert_eq!(doomed.len(), 3);
    assert_eq!(doomed, backups[0..3].to_vec());
    assert_eq!(backups.len() - doomed.len(), 2);
}

#[test]
fn clean_keeps_all_when_few() {
    let backups = vec!["backup_1.json".to_string(), "backup_2.json".to_string()];
    assert!(backups_to_remove(&backups, 2).is_empty());
    assert!(backups_to_remove(&backups, 5).is_empty());
    assert_eq!(backups_to_remove(&backups, 0), backups);
}

#[test]
fn csv_export_has_header_and_row() {
    let mut d = TelemetryData::with_timestamp(1700000000);
    d.speed = 7550;
    d.rpm = 400000;
    d.engine_temp = -5;
    d.gear = -1;
    d.battery_voltage = 1205;
    assert_eq!(
        csv_export(&d),
        "timestamp,speed,rpm,engine_temp,fuel_level,battery_voltage,oil_pressure,throttle_position,brake_pressure,gear,acceleration,brake_temperature,tire_pressure_fl,tire_pressure_fr,tire_pressure_rl,tire_pressure_rr\n1700000000,75.5,4000,-0.05,0,12.05,0,0,0,-1,0,0,0,0,0,0\n"
    );
}

#[test]
fn decimal_texts() {
    assert_eq!(centi_string(7500), "75");
    assert_eq!(centi_string(1250), "12.5");
    assert_eq!(centi_string(-1), "-0.01");
    assert_eq!(centi_string(i64::MIN), "-92233720368547758.08");
    assert_eq!(signed_string(-42), "-42");
    assert_eq!(signed_string(0), "0");
}

#[test]
fn file_sizes_in_binary_units() {
    assert_eq!(format_file_size(0), "0.0 B");
    assert_eq!(format_file_size(1023), "1023.0 B");
    assert_eq!(format_file_size(1024), "1.0 KB");
    assert_eq!(format_file_size(1536), "1.5 KB");
    assert_eq!(format_file_size(1280), "1.2 KB");
    assert_eq!(format_file_size(1048576), "1.0 MB");
    assert_eq!(format_file_size(5 * 1073741824), "5.0 GB");
    assert_eq!(format_file_size(u64::MAX), "17179869184.0 GB");
}

#[test]
fn recent_by_age() {
    let stats = StorageStats { main_file_size: 10, main_file_modified: 1000, backup_count: 0 };
    assert!(stats.is_recent_at(1005, 10));
    assert!(!stats.is_recent_at(1010, 10));
    assert!(stats.is_recent_at(900, 1));
    assert!(!stats.is_recent_at(900, 0));
    assert!(!stats.is_recent(0));
}

#[test]
fn record_round_trip_through_text() {
    let mut d = healthy_record();
    d.latitude = Some(40712800);
    d.longitude = Some(-74006000);
    d.acceleration = -35;
    let text = record_json(&d);
    assert!(text.starts_with("{\"speed\":75.00,\"rpm\":4000.00,"));
    assert!(text.contains("\"latitude\":40.712800,\"longitude\":-74.006000,\"altitude\":null"));
    assert_eq!(parse_record_json(&text), Some(d));
}

#[test]
fn record_reads_spaced_and_short_numbers() {
    let d = TelemetryData::with_timestamp(7);
    let text = record_json(&d).replace(":", " : ").replace(",", ",\n  ").replace("0.00", "0");
    assert_eq!(parse_record_json(&text), Some(d));
}

#[test]
fn corrupt_records_are_refused() {
    let text = record_json(&healthy_record());
    assert_eq!(parse_record_json(""), None);
    assert_eq!(parse_record_json(&text[..text.len() - 1]), None);
    assert_eq!(parse_record_json(&text.replace("\"rpm\"", "\"rpn\"")), None);
    assert_eq!(parse_record_json(&text.replace("75.00", "75.001")), None);
    assert_eq!(parse_record_json(&text.replace("\"gear\":3", "\"gear\":null")), None);
    assert_eq!(parse_record_json(&text.replace("\"gear\":3", "\"gear\":99999999999")), None);
    assert_eq!(parse_record_json(&format!("{} x", text)), None);
}

#[test]
fn session_round_trip_through_text() {
    let mut a = healthy_record();
    a.altitude = Some(1234);
    let b = TelemetryData::with_timestamp(1_700_000_005);
    let records = vec![a, b, a];
    let text = session_json(&records);
    assert!(text.starts_with("[{") && text.ends_with("}]"));
    assert_eq!(parse_session_json(&text), Some(records));
    assert_eq!(session_json(&[]), "[]");
    assert_eq!(parse_session_json(" [ ] "), Some(vec![]));
    assert_eq!(parse_session_json("[,]"), None);
}

#[test]
fn interpolation_halfway_and_positions() {
    let mut a = TelemetryData::with_timestamp(100);
    let mut b = TelemetryData::with_timestamp(200);
    a.speed = 1000;
    b.speed = 0;
    a.latitude = Some(10);
    b.longitude = Some(20);
    a.altitude = Some(0);
    b.altitude = Some(101);
    b.gear = 4;
    let m = interpolate_telemetry(&a, &b, 500);
    assert_eq!(m.speed, 500);
    assert_eq!(m.timestamp, 150);
    assert_eq!(m.latitude, Some(10));
    assert_eq!(m.longitude, Some(20));
    assert_eq!(m.altitude, Some(50));
    assert_eq!(m.gear, 0);
    assert_eq!(interpolate_telemetry(&a, &b, 0), TelemetryData { gear: 0, ..a }.clone_with(&b));
}

trait CloneWith {
    fn clone_with(self, end: &TelemetryData) -> TelemetryData;
}

impl CloneWith for TelemetryData {
    fn clone_with(self, end: &TelemetryData) -> TelemetryData {
        TelemetryData {
            latitude: self.latitude.or(end.latitude),
            longitude: self.longitude.or(end.longitude),
            altitude: self.altitude.or(end.altitude),
            ..self
        }
    }
}

#[test]
fn setting_values_parse_by_kind() {
    assert_eq!(parse_setting_value(&SettingType::Integer, "+42"), Ok(SettingValue::Integer(42)));
    assert_eq!(parse_setting_value(&SettingType::Integer, "-2147483648"), Ok(SettingValue::Integer(i32::MIN)));
    assert!(parse_setting_value(&SettingType::Integer, "2147483648").unwrap_err().starts_with("Invalid integer: "));
    assert!(parse_setting_value(&SettingType::Integer, "4 2").unwrap_err().starts_with("Invalid integer: "));
    assert_eq!(parse_setting_value(&SettingType::Boolean, "false"), Ok(SettingValue::Boolean(false)));
    assert!(parse_setting_value(&SettingType::Boolean, "True").unwrap_err().starts_with("Invalid boolean: "));
    assert_eq!(parse_setting_value(&SettingType::String, "x y"), Ok(SettingValue::Text("x y".to_string())));
    assert_eq!(parse_setting_value(&SettingType::Color, "#1a2B3c"), Ok(SettingValue::Color("#1a2B3c".to_string())));
    assert_eq!(
        parse_setting_value(&SettingType::Color, "#12345g"),
        Err("Invalid color format. Use #RRGGBB".to_string())
    );
    assert!(parse_setting_value(&SettingType::Color, "123456").is_err());
}

#[test]
fn float_settings_follow_std_syntax() {
    for ok in ["3.14", "-0.5", ".5", "5.", "1e10", "2E-3", "+inf", "Infinity", "-NaN", "7"] {
        assert_eq!(parse_setting_value(&SettingType::Float, ok), Ok(SettingValue::Float(ok.to_string())), "{}", ok);
        assert!(ok.parse::<f64>().is_ok());
    }
    for bad in ["", ".", "1e", "e5", "1.2.3", "abc", " 1", "infinit", "0x10", "1e+"] {
        assert!(parse_setting_value(&SettingType::Float, bad).unwrap_err().starts_with("Invalid float: "), "{}", bad);
        assert!(bad.parse::<f64>().is_err());
    }
}

#[test]
fn file_settings_need_an_existing_path() {
    assert_eq!(
        parse_setting_value(&SettingType::File, "/no/such/file/here"),
        Err("File not found: /no/such/file/here".to_string())
    );
    assert_eq!(parse_setting_value(&SettingType::File, "/"), Ok(SettingValue::File("/".to_string())));
    assert_eq!(
        parse_setting_value_given(&SettingType::File, "a.png", true),
        Ok(SettingValue::File("a.png".to_string()))
    );
}

#[test]
fn missing_required_setting_is_named() {
    let mut metadata = PluginMetadata::default();
    for (name, required) in [("a", false), ("b", true), ("c", true)] {
        metadata.settings.push(PluginSetting {
            name: name.to_string(),
            value_type: SettingType::String,
            default_value: String::new(),
            description: String::new(),
            required,
        });
    }
    let mut config = PluginConfig::new();
    config.insert("c".to_string(), "1".to_string());
    assert_eq!(validate_config(&metadata, &config), Err("Required setting 'b' is missing".to_string()));
    config.insert("b".to_string(), "2".to_string());
    assert_eq!(validate_config(&metadata, &config), Ok(()));
}

#[test]
fn config_map_replaces_values() {
    let mut c = PluginConfig::new();
    c.insert("k".to_string(), "1".to_string());
    c.insert("j".to_string(), "2".to_string());
    c.insert("k".to_string(), "3".to_string());
    assert_eq!(c.len(), 2);
    assert_eq!(c.get("k"), Some(&"3".to_string()));
    assert!(c.contains_key("j"));
    assert!(!c.contains_key("x"));
    assert_eq!(c.duplicate().get("j"), Some(&"2".to_string()));
}

#[test]
fn duplicate_plugin_name_is_refused() {
    let mut m = PluginManager::new();
    assert_eq!(m.add_plugin(metadata_named("Speedometer"), true), Ok(()));
    assert_eq!(
        m.add_plugin(metadata_named("Speedometer"), false),
        Err(PluginError::DuplicateName("Speedometer".to_string()))
    );
    assert_eq!(m.get_all_metadata().len(), 1);
    assert!(m.is_enabled("Speedometer"));
}

#[test]
fn enable_disable_round_trip() {
    let mut m = PluginManager::new();
    m.add_plugin(metadata_named("A"), false).unwrap();
    assert!(!m.is_enabled("A"));
    assert!(matches!(m.get_plugin("A").unwrap().status, PluginStatus::Disabled));
    m.enable_plugin("A").unwrap();
    m.enable_plugin("A").unwrap();
    assert_eq!(m.get_enabled_plugins(), &["A".to_string()]);
    assert!(matches!(m.get_plugin("A").unwrap().status, PluginStatus::Ready));
    m.disable_plugin("A").unwrap();
    assert!(!m.is_enabled("A"));
    assert!(m.get_enabled_plugins().is_empty());
    assert_eq!(m.enable_plugin("B"), Err(PluginError::NotFound("B".to_string())));
    assert_eq!(m.disable_plugin("B"), Err(PluginError::NotFound("B".to_string())));
}

#[test]
fn delivery_reaches_enabled_in_order_despite_failures() {
    let mut m = PluginManager::new();
    m.add_plugin(metadata_named("A"), true).unwrap();
    m.add_plugin(metadata_named("B"), false).unwrap();
    m.add_plugin(metadata_named("C"), true).unwrap();
    assert_eq!(m.delivery_order(), vec![0, 2]);
    m.record_failure(0, "boom".to_string());
    assert!(matches!(&m.get_plugin("A").unwrap().status, PluginStatus::Error(msg) if msg == "boom"));
    assert_eq!(m.delivery_order(), vec![0, 2]);
    m.disable_plugin("A").unwrap();
    assert!(matches!(m.get_plugin("A").unwrap().status, PluginStatus::Error(_)));
    assert_eq!(m.delivery_order(), vec![2]);
}

#[test]
fn remove_plugin_hands_back_its_record() {
    let mut m = PluginManager::new();
    m.add_plugin(metadata_named("A"), true).unwrap();
    m.add_plugin(metadata_named("B"), true).unwrap();
    let e = m.remove_plugin("A").unwrap();
    assert_eq!(e.metadata.name, "A");
    assert_eq!(m.position("B"), Some(0));
    assert_eq!(m.get_enabled_plugins(), &["B".to_string()]);
    assert!(matches!(m.remove_plugin("A"), Err(PluginError::NotFound(_))));
}

#[test]
fn saved_configs_apply_by_name() {
    let mut m = PluginManager::new();
    m.add_plugin(metadata_named("A"), true).unwrap();
    let mut ca = PluginConfig::new();
    ca.insert("units".to_string(), "kmh".to_string());
    let mut cz = PluginConfig::new();
    cz.insert("x".to_string(), "1".to_string());
    m.load_configs(vec![("A".to_string(), ca), ("Z".to_string(), cz)]);
    assert_eq!(m.get_plugin("A").unwrap().config.get("units"), Some(&"kmh".to_string()));
    m.add_plugin(metadata_named("Z"), true).unwrap();
    assert_eq!(m.get_plugin("Z").unwrap().config.get("x"), Some(&"1".to_string()));
    let mut cb = PluginConfig::new();
    cb.insert("y".to_string(), "2".to_string());
    m.set_config("A", cb).unwrap();
    let exported = m.export_configs();
    assert_eq!(exported.len(), 2);
    assert_eq!(exported[0].0, "A");
    assert_eq!(exported[0].1.get("y"), Some(&"2".to_string()));
    assert!(m.set_config("Q", PluginConfig::new()).is_err());
}

#[test]
fn section_colors_by_kind() {
    assert_eq!(SectionKind::from_id("media"), SectionKind::Media);
    assert_eq!(custom_color_for_section("messages"), Rgb { r: 40, g: 40, b: 80 });
    assert_eq!(custom_color_for_section("stats"), Rgb { r: 40, g: 60, b: 60 });
    assert_eq!(custom_color_for_section("whatever"), Rgb { r: 30, g: 30, b: 40 });
}

#[test]
fn small_arithmetic() {
    assert_eq!(add(2, 3), 5);
    assert_eq!(clamp(5, 0, 3), 3);
    assert_eq!(clamp(-5, 0, 3), 0);
    assert_eq!(clamp(2, 0, 3), 2);
}

#[test]
fn plugin_libraries_by_extension() {
    assert!(is_plugin_library("speedometer.so"));
    assert!(is_plugin_library("gauges.dll"));
    assert!(is_plugin_library("libmap.dylib"));
    assert!(!is_plugin_library(".so"));
    assert!(!is_plugin_library("notes.txt"));
    assert!(!is_plugin_library("so"));
    let entries = vec!["b.so".to_string(), "readme.md".to_string(), "a.dll".to_string()];
    assert_eq!(plugin_candidates(&entries), vec!["b.so".to_string(), "a.dll".to_string()]);
}
