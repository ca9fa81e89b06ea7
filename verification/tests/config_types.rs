use open_telemetry_exporter::config::{
    Config, Exporter, LogExporterConfig, SystemExporterConfig,
};

#[test]
fn test_log_exporter_config_debug() {
    let log_config = LogExporterConfig {
        filename: "/test/path.log".to_string(),
    };

    let debug_string = format!("{:?}", log_config);
    assert!(debug_string.contains("LogExporterConfig"));
    assert!(debug_string.contains("/test/path.log"));
}

#[test]
fn test_system_exporter_config_debug() {
    let system_config = SystemExporterConfig {};

    let debug_string = format!("{:?}", system_config);
    assert!(debug_string.contains("SystemExporterConfig"));
}

#[test]
fn test_config_debug() {
    let config = Config {
        metrics_endpoint: "https://test.com/metrics".to_string(),
        metrics_token: "test_token".to_string(),
        logs_endpoint: "https://test.com/logs".to_string(),
        logs_token: "test_logs_token".to_string(),
        exporters: vec![
            Exporter::System(SystemExporterConfig {}),
            Exporter::Log(LogExporterConfig {
                filename: "/test.log".to_string(),
            }),
        ],
    };

    let debug_string = format!("{:?}", config);
    assert!(debug_string.contains("Config"));
    assert!(debug_string.contains("https://test.com/metrics"));
    assert!(debug_string.contains("test_token"));
}
