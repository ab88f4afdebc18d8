use console::plugin::utils;
use console::plugin::{PluginCategory, PluginConfig, PluginManager, PluginMetadata, PluginSetting, SettingType};
use console::storage::utils as storage_utils;
use console::telemetry::utils as telemetry_utils;
use console::telemetry::TelemetryData;

fn mock_metadata() -> PluginMetadata {
    PluginMetadata {
        name: "Mock Plugin".to_string(),
        version: "1.0.0".to_string(),
        author: "Test Author".to_string(),
        description: "A mock plugin for testing".to_string(),
        category: PluginCategory::Speedometer,
        dependencies: vec![],
        settings: vec![],
    }
}

#[test]
fn test_telemetry_data() {
    let mut telemetry = TelemetryData::new();

    assert_eq!(telemetry.speed, 0, "Default speed should be 0.0");
    assert_eq!(telemetry.rpm, 0, "Default RPM should be 0.0");
    assert_eq!(telemetry.engine_temp, 0, "Default engine temp should be 0.0");
    assert_eq!(telemetry.fuel_level, 0, "Default fuel level should be 0.0");

    telemetry.speed = 6000;
    telemetry.rpm = 300000;
    telemetry.engine_temp = 18000;
    telemetry.fuel_level = 7500;

    assert_eq!(telemetry.speed, 6000, "Speed should be updated to 60.0");
    assert_eq!(telemetry.rpm, 300000, "RPM should be updated to 3000.0");
    assert_eq!(telemetry.engine_temp, 18000, "Engine temp should be updated to 180.0");
    assert_eq!(telemetry.fuel_level, 7500, "Fuel level should be updated to 75.0");

    telemetry.rpm = 0;
    assert!(!telemetry.is_engine_running(), "Engine should not be running at 0 RPM");
    telemetry.rpm = 50000;
    assert!(telemetry.is_engine_running(), "Engine should be running at 500 RPM");

    telemetry.speed = 0;
    assert!(!telemetry.is_moving(), "Vehicle should not be moving at 0 speed");
    telemetry.speed = 500;
    assert!(telemetry.is_moving(), "Vehicle should be moving at 5 mph");

    assert_eq!(telemetry.engine_status(), "Running");

    telemetry.gear = 3;
    assert_eq!(telemetry.gear_string(), "3");
    telemetry.gear = -1;
    assert_eq!(telemetry.gear_string(), "R");
    telemetry.gear = 0;
    assert_eq!(telemetry.gear_string(), "N");
}

#[test]
fn test_telemetry_validation() {
    let mut telemetry = TelemetryData::new();

    telemetry.battery_voltage = 1250;
    assert!(telemetry.is_valid(), "Default telemetry should be valid");

    telemetry.speed = 25000;
    assert!(!telemetry.is_valid(), "Speed > 200 should be invalid");

    telemetry.speed = 6000;
    telemetry.rpm = 1500000;
    assert!(!telemetry.is_valid(), "RPM > 10000 should be invalid");

    telemetry.rpm = 300000;
    telemetry.engine_temp = 35000;
    assert!(!telemetry.is_valid(), "Engine temp > 300 should be invalid");

    telemetry.engine_temp = 18000;
    telemetry.fuel_level = 15000;
    assert!(!telemetry.is_valid(), "Fuel level > 100 should be invalid");
}

#[test]
fn test_telemetry_alerts() {
    let mut telemetry = TelemetryData::new();

    telemetry.engine_temp = 18000;
    telemetry.fuel_level = 5000;
    telemetry.battery_voltage = 1250;
    telemetry.oil_pressure = 3000;
    telemetry.tire_pressure_fl = 3500;
    telemetry.tire_pressure_fr = 3500;
    telemetry.tire_pressure_rl = 3500;
    telemetry.tire_pressure_rr = 3500;
    assert!(telemetry.get_alerts().is_empty(), "Should have no alerts for normal values");

    telemetry.engine_temp = 25000;
    let alerts = telemetry.get_alerts();
    assert!(alerts.iter().any(|a| a.contains("temperature")), "Should have temperature alert");

    telemetry.engine_temp = 18000;
    telemetry.fuel_level = 500;
    let alerts = telemetry.get_alerts();
    assert!(alerts.iter().any(|a| a.contains("fuel")), "Should have fuel alert");

    telemetry.fuel_level = 7500;
    telemetry.battery_voltage = 1000;
    let alerts = telemetry.get_alerts();
    assert!(alerts.iter().any(|a| a.contains("battery")), "Should have battery alert");
}

#[test]
fn test_telemetry_utils() {
    let start = TelemetryData::new();
    let mut end = TelemetryData::new();
    end.speed = 10000;
    end.rpm = 500000;

    let interpolated = telemetry_utils::interpolate_telemetry(&start, &end, 500);
    assert_eq!(interpolated.speed, 5000, "Interpolated speed should be 50.0");
    assert_eq!(interpolated.rpm, 250000, "Interpolated RPM should be 2500.0");
}

#[test]
fn test_storage_utils() {
    let mut data_points = vec![TelemetryData::new(), TelemetryData::new(), TelemetryData::new()];
    data_points[1].speed = 5000;
    data_points[2].speed = 10000;

    let compressed = storage_utils::compress_telemetry_data(&data_points);
    assert!(compressed.len() <= data_points.len(), "Compressed data should not be longer");

    let test_data = TelemetryData::new();
    let hash = storage_utils::calculate_data_hash(&test_data);
    assert!(storage_utils::validate_data_integrity(&test_data, hash), "Data integrity should be valid");
}

#[test]
fn test_plugin_utils() {
    let mut metadata = PluginMetadata::default();
    metadata.settings.push(PluginSetting {
        name: "test_setting".to_string(),
        value_type: SettingType::String,
        default_value: "default".to_string(),
        description: "Test setting".to_string(),
        required: true,
    });

    let mut config = PluginConfig::new();
    config.insert("test_setting".to_string(), "test_value".to_string());

    assert!(utils::validate_config(&metadata, &config).is_ok(), "Valid config should pass validation");

    let result = utils::parse_setting_value(&SettingType::Integer, "42");
    assert!(result.is_ok(), "Valid integer should parse successfully");

    let result = utils::parse_setting_value(&SettingType::Float, "3.14");
    assert!(result.is_ok(), "Valid float should parse successfully");

    let result = utils::parse_setting_value(&SettingType::Boolean, "true");
    assert!(result.is_ok(), "Valid boolean should parse successfully");
}

#[test]
fn test_plugin_loading() {
    let mut plugin_manager = PluginManager::new();

    assert!(plugin_manager.add_plugin(mock_metadata(), true).is_ok());

    let metadata = plugin_manager.get_all_metadata();
    assert_eq!(metadata.len(), 1, "Should have one plugin");
    assert_eq!(metadata[0].name, "Mock Plugin", "Plugin name should match");

    assert!(plugin_manager.enable_plugin("Mock Plugin").is_ok(), "Should enable plugin");
    assert!(plugin_manager.get_enabled_plugins().contains(&"Mock Plugin".to_string()));

    assert!(plugin_manager.disable_plugin("Mock Plugin").is_ok(), "Should disable plugin");
    assert!(!plugin_manager.get_enabled_plugins().contains(&"Mock Plugin".to_string()));
}
