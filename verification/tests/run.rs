use open_telemetry_exporter::attributes::base_attributes;
use open_telemetry_exporter::config::{Exporter as ExporterConfig, LogExporterConfig, SystemExporterConfig};
use open_telemetry_exporter::exporter::ExportError;
use open_telemetry_exporter::otlp::{authorization_header, POLL_INTERVAL_SECS, SERVICE_NAME};
use open_telemetry_exporter::record::Severity;
use open_telemetry_exporter::run::{
    on_service_control, service_report, setup_steps, ControlReply, ExportLoop, GlobEntry,
    LoopAction, LoopEvent, LoopPhase, ServiceControl, ServiceState, SetupStep,
};

fn describe(steps: &[SetupStep]) -> Vec<String> {
    steps
        .iter()
        .map(|s| match s {
            SetupStep::Log(l) => format!("{:?}: {}", l.severity, l.message),
            SetupStep::AddSystemExporter => "add system".to_string(),
            SetupStep::AddLogExporter(p) => format!("add log {}", p),
        })
        .collect()
}

#[test]
fn base_attributes_hold_the_host_name() {
    let with = base_attributes(Some("web-1".to_string()));
    assert_eq!(with.len(), 1);
    assert_eq!(with[0].key, "hostname");
    assert_eq!(with[0].value, "web-1");
    assert!(base_attributes(None).is_empty());
}

#[test]
fn authorization_uses_bearer_token() {
    let (name, value) = authorization_header("logs_token_456");
    assert_eq!(name, "Authorization");
    assert_eq!(value, "Bearer logs_token_456");
    assert_eq!(SERVICE_NAME, "exporter");
}

#[test]
fn system_entry_is_announced_and_added() {
    let steps = setup_steps(&ExporterConfig::System(SystemExporterConfig {}), &vec![]);
    assert_eq!(
        describe(&steps),
        vec!["Info: Adding system metrics exporter", "add system"]
    );
}

#[test]
fn log_entry_adds_each_matching_file() {
    let config = ExporterConfig::Log(LogExporterConfig { filename: "/tmp/*.log".to_string() });
    let entries = vec![
        GlobEntry::Path {
            display: "/tmp/app.log".to_string(),
            debug: format!("{:?}", std::path::PathBuf::from("/tmp/app.log")),
        },
        GlobEntry::Error("GlobError { path: \"/tmp/x\" }".to_string()),
        GlobEntry::Path {
            display: "/tmp/it's \"hi\".log".to_string(),
            debug: format!("{:?}", std::path::PathBuf::from("/tmp/it's \"hi\".log")),
        },
    ];
    let steps = setup_steps(&config, &entries);
    assert_eq!(
        describe(&steps),
        vec![
            "Info: Adding new log file for \"/tmp/app.log\"",
            "add log /tmp/app.log",
            "Error: GlobError { path: \"/tmp/x\" }",
            format!(
                "Info: Adding new log file for {:?}",
                std::path::PathBuf::from("/tmp/it's \"hi\".log")
            )
            .as_str(),
            "add log /tmp/it's \"hi\".log",
        ]
    );
    assert!(setup_steps(&config, &vec![]).is_empty());
}

#[test]
fn loop_exports_each_exporter_then_sleeps() {
    let mut control = ExportLoop::new(2);
    assert_eq!(control.pending(), LoopAction::CheckRunning);
    let (log, action) = control.step(LoopEvent::Running(true));
    assert!(log.is_none());
    assert_eq!(action, LoopAction::Export(0));
    let (log, action) = control.step(LoopEvent::Exported(Err(ExportError {
        message: "No such file or directory (os error 2)".to_string(),
    })));
    let log = log.unwrap();
    assert_eq!(log.severity, Severity::Error);
    assert_eq!(log.message, "Exporter error: No such file or directory (os error 2)");
    assert_eq!(action, LoopAction::Export(1));
    let (log, action) = control.step(LoopEvent::Exported(Ok(())));
    assert!(log.is_none());
    assert_eq!(action, LoopAction::Sleep(POLL_INTERVAL_SECS));
    assert_eq!(POLL_INTERVAL_SECS, 3);
    let (_, action) = control.step(LoopEvent::Woke);
    assert_eq!(action, LoopAction::CheckRunning);
    let (_, action) = control.step(LoopEvent::Running(false));
    assert_eq!(action, LoopAction::Stop);
    assert_eq!(control.phase, LoopPhase::Stopped);
    let (log, action) = control.step(LoopEvent::Running(true));
    assert!(log.is_none());
    assert_eq!(action, LoopAction::Stop);
}

#[test]
fn loop_without_exporters_only_sleeps() {
    let mut control = ExportLoop::new(0);
    let (_, action) = control.step(LoopEvent::Running(true));
    assert_eq!(action, LoopAction::Sleep(3));
    let (_, action) = control.step(LoopEvent::Woke);
    assert_eq!(action, LoopAction::CheckRunning);
}

#[test]
fn loop_repeats_its_request_on_an_unexpected_event() {
    let mut control = ExportLoop::new(1);
    let (log, action) = control.step(LoopEvent::Woke);
    assert!(log.is_none());
    assert_eq!(action, LoopAction::CheckRunning);
    control.step(LoopEvent::Running(true));
    let (log, action) = control.step(LoopEvent::Running(true));
    assert!(log.is_none());
    assert_eq!(action, LoopAction::Export(0));
}

#[test]
fn service_control_stop_clears_running_flag() {
    assert_eq!(on_service_control(ServiceControl::Stop), (ControlReply::NoError, Some(false)));
    assert_eq!(on_service_control(ServiceControl::Other), (ControlReply::NotImplemented, None));
    let running = service_report(ServiceState::Running);
    assert!(running.accepts_stop);
    assert_eq!(running.exit_code, 0);
    let stopped = service_report(ServiceState::Stopped);
    assert!(!stopped.accepts_stop);
    assert_eq!(stopped.state, ServiceState::Stopped);
}
