use open_telemetry_exporter::attributes::{base_attributes, Attribute};
use open_telemetry_exporter::system::{
    cpu_attributes, disk_readings, memory_readings, network_readings, system_info_reading,
    DiskInfo, Gauge, GaugeReading, IpAddress, NetworkInfo, OsInfo,
};

fn pairs(attributes: &[Attribute]) -> Vec<(String, String)> {
    attributes
        .iter()
        .map(|a| (a.key.clone(), a.value.clone()))
        .collect()
}

fn p(k: &str, v: &str) -> (String, String) {
    (k.to_string(), v.to_string())
}

fn summary(r: &GaugeReading) -> (Gauge, u64, Vec<(String, String)>) {
    (r.gauge, r.value, pairs(&r.attributes))
}

#[test]
fn gauge_names_match_the_documented_metrics() {
    assert_eq!(Gauge::MemoryUsed.name(), "system.memory.used");
    assert_eq!(Gauge::MemoryTotal.name(), "system.memory.total");
    assert_eq!(Gauge::CpuUsage.name(), "system.cpu.usage");
    assert_eq!(Gauge::SystemInfo.name(), "system.info");
    assert_eq!(Gauge::DiskTotalSpace.name(), "system.disk.total_space");
    assert_eq!(Gauge::DiskUsedSpace.name(), "system.disk.used_space");
    assert_eq!(Gauge::NetworkReceived.name(), "system.network.received");
    assert_eq!(Gauge::NetworkTransmitted.name(), "system.network.transmitted");
    assert_eq!(
        Gauge::MemoryUsed.description(),
        "The amount of memory that is currently used in bytes"
    );
    assert_eq!(Gauge::CpuUsage.description(), "The cpu usage percentage");
}

#[test]
fn memory_readings_carry_base_attributes() {
    let base = base_attributes(Some("box".to_string()));
    let readings = memory_readings(&base, 300, 1000);
    assert_eq!(readings.len(), 2);
    assert_eq!(summary(&readings[0]), (Gauge::MemoryUsed, 300, vec![p("hostname", "box")]));
    assert_eq!(summary(&readings[1]), (Gauge::MemoryTotal, 1000, vec![p("hostname", "box")]));
}

#[test]
fn cpu_attributes_name_the_cpu() {
    let base = base_attributes(Some("box".to_string()));
    assert_eq!(
        pairs(&cpu_attributes(&base, "global")),
        vec![p("hostname", "box"), p("cpu", "global")]
    );
    assert_eq!(pairs(&cpu_attributes(&base_attributes(None), "cpu3")), vec![p("cpu", "cpu3")]);
}

#[test]
fn disk_readings_report_used_then_total() {
    let base = base_attributes(None);
    let disks = vec![
        DiskInfo {
            name: "sda1".to_string(),
            file_system: "ext4".to_string(),
            mount_point: "/".to_string(),
            kind: "SSD".to_string(),
            total_space: 500,
            available_space: 120,
        },
        DiskInfo {
            name: "sdb".to_string(),
            file_system: "xfs".to_string(),
            mount_point: "/data".to_string(),
            kind: "HDD".to_string(),
            total_space: 80,
            available_space: 80,
        },
    ];
    let readings = disk_readings(&base, &disks);
    let attrs0 = vec![p("name", "sda1"), p("file_system", "ext4"), p("mount_point", "/"), p("kind", "SSD")];
    let attrs1 = vec![p("name", "sdb"), p("file_system", "xfs"), p("mount_point", "/data"), p("kind", "HDD")];
    let got: Vec<_> = readings.iter().map(summary).collect();
    assert_eq!(
        got,
        vec![
            (Gauge::DiskUsedSpace, 380, attrs0.clone()),
            (Gauge::DiskTotalSpace, 500, attrs0),
            (Gauge::DiskUsedSpace, 0, attrs1.clone()),
            (Gauge::DiskTotalSpace, 80, attrs1),
        ]
    );
}

#[test]
fn network_readings_list_every_address() {
    let base = base_attributes(Some("h".to_string()));
    let networks = vec![NetworkInfo {
        interface: "eth0".to_string(),
        mac_address: "00:11:22:33:44:55".to_string(),
        addresses: vec![
            IpAddress::V4("10.0.0.2".to_string()),
            IpAddress::V6("fe80::1".to_string()),
        ],
        total_received: 42,
        total_transmitted: 7,
    }];
    let readings = network_readings(&base, &networks);
    let attrs = vec![
        p("hostname", "h"),
        p("interface", "eth0"),
        p("mac_address", "00:11:22:33:44:55"),
        p("ipv4", "10.0.0.2"),
        p("ipv6", "fe80::1"),
    ];
    let got: Vec<_> = readings.iter().map(summary).collect();
    assert_eq!(
        got,
        vec![
            (Gauge::NetworkReceived, 42, attrs.clone()),
            (Gauge::NetworkTransmitted, 7, attrs),
        ]
    );
}

#[test]
fn system_info_defaults_missing_versions_to_empty() {
    let base = base_attributes(Some("h".to_string()));
    let info = OsInfo {
        os: "linux".to_string(),
        arch: "x86_64".to_string(),
        family: "unix".to_string(),
        distribution: "debian".to_string(),
        os_version: Some("12".to_string()),
        long_os_version: None,
        kernel_version: Some("6.1.0".to_string()),
    };
    let reading = system_info_reading(&base, &info);
    assert_eq!(
        summary(&reading),
        (
            Gauge::SystemInfo,
            1,
            vec![
                p("hostname", "h"),
                p("os", "linux"),
                p("arch", "x86_64"),
                p("os_family", "unix"),
                p("distribution", "debian"),
                p("os_version", "12"),
                p("long_os_version", ""),
                p("kernel_version", "6.1.0"),
            ]
        )
    );
}
