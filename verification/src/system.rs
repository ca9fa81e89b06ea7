//! The gauges of the system exporter and the readings it records from a
//! snapshot of the machine.

use vstd::prelude::*;
use vstd::string::StringExecFns;

use crate::attributes::{extended, pairs, Attribute};

verus! {

/// A gauge that the system exporter records.
#[derive(Debug, Clone, Copy, PartialEq, Eq, Structural)]
pub enum Gauge {
    MemoryUsed,
    MemoryTotal,
    CpuUsage,
    SystemInfo,
    DiskTotalSpace,
    DiskUsedSpace,
    NetworkReceived,
    NetworkTransmitted,
}

/// The metric name of a gauge.
pub open spec fn gauge_name(g: Gauge) -> Seq<char> {
    match g {
        Gauge::MemoryUsed => "system.memory.used"@,
        Gauge::MemoryTotal => "system.memory.total"@,
        Gauge::CpuUsage => "system.cpu.usage"@,
        Gauge::SystemInfo => "system.info"@,
        Gauge::DiskTotalSpace => "system.disk.total_space"@,
        Gauge::DiskUsedSpace => "system.disk.used_space"@,
        Gauge::NetworkReceived => "system.network.received"@,
        Gauge::NetworkTransmitted => "system.network.transmitted"@,
    }
}

/// The description of a gauge.
pub open spec fn gauge_description(g: Gauge) -> Seq<char> {
    match g {
        Gauge::MemoryUsed => "The amount of memory that is currently used in bytes"@,
        Gauge::MemoryTotal => "The total amount of memory in the system in bytes"@,
        Gauge::CpuUsage => "The cpu usage percentage"@,
        Gauge::SystemInfo => "The system information"@,
        Gauge::DiskTotalSpace => "The total space for a disk in bytes"@,
        Gauge::DiskUsedSpace => "The used space for a disk in bytes"@,
        Gauge::NetworkReceived =>
            "The total amount of data received by the network interface in bytes"@,
        Gauge::NetworkTransmitted =>
            "The total amount of data transmitted by the network interface in bytes"@,
    }
}

impl Gauge {
    /// The metric name of this gauge.
    pub fn name(&self) -> (s: &'static str)
        ensures
            s@ == gauge_name(*self),
    {
        match self {
            Gauge::MemoryUsed => "system.memory.used",
            Gauge::MemoryTotal => "system.memory.total",
            Gauge::CpuUsage => "system.cpu.usage",
            Gauge::SystemInfo => "system.info",
            Gauge::DiskTotalSpace => "system.disk.total_space",
            Gauge::DiskUsedSpace => "system.disk.used_space",
            Gauge::NetworkReceived => "system.network.received",
            Gauge::NetworkTransmitted => "system.network.transmitted",
        }
    }

    /// The description of this gauge.
    pub fn description(&self) -> (s: &'static str)
        ensures
            s@ == gauge_description(*self),
    {
        match self {
            Gauge::MemoryUsed => "The amount of memory that is currently used in bytes",
            Gauge::MemoryTotal => "The total amount of memory in the system in bytes",
            Gauge::CpuUsage => "The cpu usage percentage",
            Gauge::SystemInfo => "The system information",
            Gauge::DiskTotalSpace => "The total space for a disk in bytes",
            Gauge::DiskUsedSpace => "The used space for a disk in bytes",
            Gauge::NetworkReceived =>
                "The total amount of data received by the network interface in bytes",
            Gauge::NetworkTransmitted =>
                "The total amount of data transmitted by the network interface in bytes",
        }
    }
}

/// A value recorded on a gauge, with the attributes it is recorded with.
#[derive(Debug)]
pub struct GaugeReading {
    pub gauge: Gauge,
    pub value: u64,
    pub attributes: Vec<Attribute>,
}

impl View for GaugeReading {
    type V = (Gauge, u64, Seq<(Seq<char>, Seq<char>)>);

    open spec fn view(&self) -> (Gauge, u64, Seq<(Seq<char>, Seq<char>)>) {
        (self.gauge, self.value, pairs(self.attributes@))
    }
}

/// The views of a list of readings.
pub open spec fn reading_views(v: Seq<GaugeReading>) -> Seq<(Gauge, u64, Seq<(Seq<char>, Seq<char>)>)> {
    v.map_values(|r: GaugeReading| r@)
}

/// A disk as the system reports it.
#[derive(Debug)]
pub struct DiskInfo {
    pub name: String,
    pub file_system: String,
    pub mount_point: String,
    /// The disk kind, as its debug form prints it.
    pub kind: String,
    pub total_space: u64,
    pub available_space: u64,
}

/// An address of a network interface, in its textual form.
#[derive(Debug)]
pub enum IpAddress {
    V4(String),
    V6(String),
}

/// A network interface as the system reports it.
#[derive(Debug)]
pub struct NetworkInfo {
    pub interface: String,
    pub mac_address: String,
    pub addresses: Vec<IpAddress>,
    pub total_received: u64,
    pub total_transmitted: u64,
}

/// What the system reports about its operating system.
#[derive(Debug)]
pub struct OsInfo {
    pub os: String,
    pub arch: String,
    pub family: String,
    pub distribution: String,
    pub os_version: Option<String>,
    pub long_os_version: Option<String>,
    pub kernel_version: Option<String>,
}

/// The text of an optional value, empty when there is none.
pub open spec fn text_or_empty(o: Option<String>) -> Seq<char> {
    match o {
        Some(s) => s@,
        None => Seq::empty(),
    }
}

/// The attributes that describe a disk.
pub open spec fn disk_pairs(d: DiskInfo) -> Seq<(Seq<char>, Seq<char>)> {
    seq![
        ("name"@, d.name@),
        ("file_system"@, d.file_system@),
        ("mount_point"@, d.mount_point@),
        ("kind"@, d.kind@),
    ]
}

/// The attribute that an address of an interface becomes.
pub open spec fn address_pair(a: IpAddress) -> (Seq<char>, Seq<char>) {
    match a {
        IpAddress::V4(s) => ("ipv4"@, s@),
        IpAddress::V6(s) => ("ipv6"@, s@),
    }
}

/// The attributes that describe a network interface: its name, its MAC
/// address and each of its addresses, in order.
pub open spec fn network_pairs(n: NetworkInfo) -> Seq<(Seq<char>, Seq<char>)> {
    seq![("interface"@, n.interface@), ("mac_address"@, n.mac_address@)]
        + n.addresses@.map_values(|a: IpAddress| address_pair(a))
}

/// The attributes of the system information gauge, after the base ones.
pub open spec fn os_pairs(info: OsInfo) -> Seq<(Seq<char>, Seq<char>)> {
    seq![
        ("os"@, info.os@),
        ("arch"@, info.arch@),
        ("os_family"@, info.family@),
        ("distribution"@, info.distribution@),
        ("os_version"@, text_or_empty(info.os_version)),
        ("long_os_version"@, text_or_empty(info.long_os_version)),
        ("kernel_version"@, text_or_empty(info.kernel_version)),
    ]
}

fn text_or_default(o: &Option<String>) -> (s: String)
    ensures
        s@ == text_or_empty(*o),
{
    match o {
        Some(v) => v.clone(),
        None => String::new(),
    }
}

/// The reading of the system information gauge: the value 1, with the base
/// attributes followed by the operating system's description.
pub fn system_info_reading(base: &Vec<Attribute>, info: &OsInfo) -> (r: GaugeReading)
    ensures
        r@ == (Gauge::SystemInfo, 1u64, pairs(base@) + os_pairs(*info)),
{
    let extra = vec![
        Attribute { key: String::from_str("os"), value: info.os.clone() },
        Attribute { key: String::from_str("arch"), value: info.arch.clone() },
        Attribute { key: String::from_str("os_family"), value: info.family.clone() },
        Attribute { key: String::from_str("distribution"), value: info.distribution.clone() },
        Attribute { key: String::from_str("os_version"), value: text_or_default(&info.os_version) },
        Attribute {
            key: String::from_str("long_os_version"),
            value: text_or_default(&info.long_os_version),
        },
        Attribute {
            key: String::from_str("kernel_version"),
            value: text_or_default(&info.kernel_version),
        },
    ];
    let attributes = extended(base, extra);
    let r = GaugeReading { gauge: Gauge::SystemInfo, value: 1, attributes };
    assert(pairs(r.attributes@) =~= pairs(base@) + os_pairs(*info));
    r
}

/// The readings of the memory gauges: used memory, then total memory, each
/// with the base attributes.
pub fn memory_readings(base: &Vec<Attribute>, used: u64, total: u64) -> (r: Vec<GaugeReading>)
    ensures
        reading_views(r@) == seq![
            (Gauge::MemoryUsed, used, pairs(base@)),
            (Gauge::MemoryTotal, total, pairs(base@)),
        ],
{
    let mut r: Vec<GaugeReading> = Vec::new();
    r.push(GaugeReading { gauge: Gauge::MemoryUsed, value: used, attributes: extended(base, Vec::new()) });
    r.push(GaugeReading { gauge: Gauge::MemoryTotal, value: total, attributes: extended(base, Vec::new()) });
    assert(base@ + Seq::<Attribute>::empty() =~= base@);
    assert(reading_views(r@) =~= seq![
        (Gauge::MemoryUsed, used, pairs(base@)),
        (Gauge::MemoryTotal, total, pairs(base@)),
    ]);
    r
}

/// The attributes of a CPU usage reading: the base attributes and the CPU's
/// name (`global` for the whole machine).
pub fn cpu_attributes(base: &Vec<Attribute>, cpu: &str) -> (r: Vec<Attribute>)
    ensures
        pairs(r@) == pairs(base@) + seq![("cpu"@, cpu@)],
{
    let r = extended(base, vec![Attribute::new("cpu", cpu)]);
    assert(pairs(r@) =~= pairs(base@) + seq![("cpu"@, cpu@)]);
    r
}

/// Whether the system reports no disk with more space available than it has.
pub open spec fn disks_consistent(disks: Seq<DiskInfo>) -> bool {
    forall|i: int| 0 <= i < disks.len() ==> #[trigger] disks[i].available_space <= disks[i].total_space
}

fn disk_attributes(d: &DiskInfo) -> (r: Vec<Attribute>)
    ensures
        pairs(r@) == disk_pairs(*d),
{
    let r = vec![
        Attribute { key: String::from_str("name"), value: d.name.clone() },
        Attribute { key: String::from_str("file_system"), value: d.file_system.clone() },
        Attribute { key: String::from_str("mount_point"), value: d.mount_point.clone() },
        Attribute { key: String::from_str("kind"), value: d.kind.clone() },
    ];
    assert(pairs(r@) =~= disk_pairs(*d));
    r
}

/// The readings of the disk gauges: for each disk in turn, its used space
/// (total less available) and then its total space, each with the base
/// attributes followed by the disk's description.
pub fn disk_readings(base: &Vec<Attribute>, disks: &Vec<DiskInfo>) -> (r: Vec<GaugeReading>)
    requires
        disks_consistent(disks@),
    ensures
        r@.len() == 2 * disks@.len(),
        forall|i: int|
            0 <= i < disks@.len() ==> {
                let d = #[trigger] disks@[i];
                &&& r@[2 * i]@ == (
                    Gauge::DiskUsedSpace,
                    (d.total_space - d.available_space) as u64,
                    pairs(base@) + disk_pairs(d),
                )
                &&& r@[2 * i + 1]@ == (Gauge::DiskTotalSpace, d.total_space, pairs(base@)
                    + disk_pairs(d))
            },
{
    let mut r: Vec<GaugeReading> = Vec::new();
    for i in 0..disks.len()
        invariant
            disks_consistent(disks@),
            r@.len() == 2 * i,
            forall|j: int|
                0 <= j < i ==> {
                    let d = #[trigger] disks@[j];
                    &&& r@[2 * j]@ == (
                        Gauge::DiskUsedSpace,
                        (d.total_space - d.available_space) as u64,
                        pairs(base@) + disk_pairs(d),
                    )
                    &&& r@[2 * j + 1]@ == (Gauge::DiskTotalSpace, d.total_space, pairs(base@)
                        + disk_pairs(d))
                },
    {
        let d = &disks[i];
        assert(d.available_space <= d.total_space);
        let total_space = d.total_space;
        let used = total_space - d.available_space;
        let attributes = disk_attributes(d);
        let used_attributes = extended(base, attributes);
        let total_attributes = extended(base, disk_attributes(d));
        let ghost prev = r@;
        r.push(GaugeReading { gauge: Gauge::DiskUsedSpace, value: used, attributes: used_attributes });
        r.push(
            GaugeReading { gauge: Gauge::DiskTotalSpace, value: total_space, attributes: total_attributes },
        );
        proof {
            assert(pairs(used_attributes@) =~= pairs(base@) + disk_pairs(*d));
            assert(pairs(total_attributes@) =~= pairs(base@) + disk_pairs(*d));
            assert forall|j: int| 0 <= j < i + 1 implies {
                let d = #[trigger] disks@[j];
                &&& r@[2 * j]@ == (
                    Gauge::DiskUsedSpace,
                    (d.total_space - d.available_space) as u64,
                    pairs(base@) + disk_pairs(d),
                )
                &&& r@[2 * j + 1]@ == (Gauge::DiskTotalSpace, d.total_space, pairs(base@)
                    + disk_pairs(d))
            } by {
                if j < i {
                    assert(r@[2 * j] == prev[2 * j]);
                    assert(r@[2 * j + 1] == prev[2 * j + 1]);
                }
            }
        }
    }
    r
}

fn network_attributes(n: &NetworkInfo) -> (r: Vec<Attribute>)
    ensures
        pairs(r@) == network_pairs(*n),
{
    let mut r = vec![
        Attribute { key: String::from_str("interface"), value: n.interface.clone() },
        Attribute { key: String::from_str("mac_address"), value: n.mac_address.clone() },
    ];
    let ghost head = seq![("interface"@, n.interface@), ("mac_address"@, n.mac_address@)];
    assert(pairs(r@) =~= head);
    for i in 0..n.addresses.len()
        invariant
            pairs(r@) == head + n.addresses@.take(i as int).map_values(
                |a: IpAddress| address_pair(a),
            ),
    {
        let attribute = match &n.addresses[i] {
            IpAddress::V4(ip) => Attribute { key: String::from_str("ipv4"), value: ip.clone() },
            IpAddress::V6(ip) => Attribute { key: String::from_str("ipv6"), value: ip.clone() },
        };
        let ghost prev = r@;
        r.push(attribute);
        proof {
            assert(attribute@ == address_pair(n.addresses@[i as int]));
            assert(n.addresses@.take(i + 1).map_values(|a: IpAddress| address_pair(a))
                =~= n.addresses@.take(i as int).map_values(|a: IpAddress| address_pair(a)).push(
                address_pair(n.addresses@[i as int]),
            ));
            assert(pairs(r@) =~= pairs(prev).push(attribute@));
        }
    }
    assert(n.addresses@.take(n.addresses@.len() as int) =~= n.addresses@);
    r
}

/// The readings of the network gauges: for each interface in turn, the
/// bytes it received and then the bytes it transmitted, each with the base
/// attributes followed by the interface's description.
pub fn network_readings(base: &Vec<Attribute>, networks: &Vec<NetworkInfo>) -> (r: Vec<
    GaugeReading,
>)
    ensures
        r@.len() == 2 * networks@.len(),
        forall|i: int|
            0 <= i < networks@.len() ==> {
                let n = #[trigger] networks@[i];
                &&& r@[2 * i]@ == (Gauge::NetworkReceived, n.total_received, pairs(base@)
                    + network_pairs(n))
                &&& r@[2 * i + 1]@ == (Gauge::NetworkTransmitted, n.total_transmitted, pairs(
                    base@,
                ) + network_pairs(n))
            },
{
    let mut r: Vec<GaugeReading> = Vec::new();
    for i in 0..networks.len()
        invariant
            r@.len() == 2 * i,
            forall|j: int|
                0 <= j < i ==> {
                    let n = #[trigger] networks@[j];
                    &&& r@[2 * j]@ == (Gauge::NetworkReceived, n.total_received, pairs(base@)
                        + network_pairs(n))
                    &&& r@[2 * j + 1]@ == (Gauge::NetworkTransmitted, n.total_transmitted, pairs(
                        base@,
                    ) + network_pairs(n))
                },
    {
        let n = &networks[i];
        let received_attributes = extended(base, network_attributes(n));
        let transmitted_attributes = extended(base, network_attributes(n));
        let ghost prev = r@;
        r.push(
            GaugeReading {
                gauge: Gauge::NetworkReceived,
                value: n.total_received,
                attributes: received_attributes,
            },
        );
        r.push(
            GaugeReading {
                gauge: Gauge::NetworkTransmitted,
                value: n.total_transmitted,
                attributes: transmitted_attributes,
            },
        );
        proof {
            assert(pairs(received_attributes@) =~= pairs(base@) + network_pairs(*n));
            assert(pairs(transmitted_attributes@) =~= pairs(base@) + network_pairs(*n));
            assert forall|j: int| 0 <= j < i + 1 implies {
                let n = #[trigger] networks@[j];
                &&& r@[2 * j]@ == (Gauge::NetworkReceived, n.total_received, pairs(base@)
                    + network_pairs(n))
                &&& r@[2 * j + 1]@ == (Gauge::NetworkTransmitted, n.total_transmitted, pairs(
                    base@,
                ) + network_pairs(n))
            } by {
                if j < i {
                    assert(r@[2 * j] == prev[2 * j]);
                    assert(r@[2 * j + 1] == prev[2 * j + 1]);
                }
            }
        }
    }
    r
}

/// The gauges carry the metric names and descriptions that the service
/// documents: each gauge's name and description are the documented ones.
pub proof fn law_documented_gauges()
    ensures
        gauge_name(Gauge::MemoryUsed) == "system.memory.used"@,
        gauge_description(Gauge::MemoryUsed)
            == "The amount of memory that is currently used in bytes"@,
        gauge_name(Gauge::MemoryTotal) == "system.memory.total"@,
        gauge_description(Gauge::MemoryTotal) == "The total amount of memory in the system in bytes"@,
        gauge_name(Gauge::CpuUsage) == "system.cpu.usage"@,
        gauge_description(Gauge::CpuUsage) == "The cpu usage percentage"@,
        gauge_name(Gauge::SystemInfo) == "system.info"@,
        gauge_description(Gauge::SystemInfo) == "The system information"@,
        gauge_name(Gauge::DiskTotalSpace) == "system.disk.total_space"@,
        gauge_description(Gauge::DiskTotalSpace) == "The total space for a disk in bytes"@,
        gauge_name(Gauge::DiskUsedSpace) == "system.disk.used_space"@,
        gauge_description(Gauge::DiskUsedSpace) == "The used space for a disk in bytes"@,
        gauge_name(Gauge::NetworkReceived) == "system.network.received"@,
        gauge_description(Gauge::NetworkReceived)
            == "The total amount of data received by the network interface in bytes"@,
        gauge_name(Gauge::NetworkTransmitted) == "system.network.transmitted"@,
        gauge_description(Gauge::NetworkTransmitted)
            == "The total amount of data transmitted by the network interface in bytes"@,
{
}

/// An interface is described by its name, then its MAC address, then one
/// attribute per address, in the order of its addresses: `ipv4` or `ipv6`
/// by the kind of address, with the address's text. No address is dropped,
/// repeated or reordered.
pub proof fn law_network_attributes(n: NetworkInfo)
    ensures
        network_pairs(n).len() == 2 + n.addresses@.len(),
        network_pairs(n)[0] == ("interface"@, n.interface@),
        network_pairs(n)[1] == ("mac_address"@, n.mac_address@),
        forall|k: int|
            0 <= k < n.addresses@.len() ==> match #[trigger] n.addresses@[k] {
                IpAddress::V4(ip) => network_pairs(n)[2 + k] == ("ipv4"@, ip@),
                IpAddress::V6(ip) => network_pairs(n)[2 + k] == ("ipv6"@, ip@),
            },
{
    assert forall|k: int| 0 <= k < n.addresses@.len() implies match #[trigger] n.addresses@[k] {
        IpAddress::V4(ip) => network_pairs(n)[2 + k] == ("ipv4"@, ip@),
        IpAddress::V6(ip) => network_pairs(n)[2 + k] == ("ipv6"@, ip@),
    } by {
        assert(network_pairs(n)[2 + k] == address_pair(n.addresses@[k]));
    }
}

/// Each reading of the network gauges carries every address of its
/// interface: after the base attributes come the interface's name, its MAC
/// address and one attribute per address, so a reading has exactly as many
/// attributes as the base ones plus two plus the interface's addresses.
pub proof fn law_network_readings_carry_every_address(base: Seq<Attribute>, n: NetworkInfo)
    ensures
        (pairs(base) + network_pairs(n)).len() == base.len() + 2 + n.addresses@.len(),
        forall|k: int|
            0 <= k < n.addresses@.len() ==> (pairs(base) + network_pairs(n))[base.len() + 2 + k]
                == address_pair(#[trigger] n.addresses@[k]),
{
    law_network_attributes(n);
}

/// Each attribute of the system information carries its own field of the
/// operating system's description: `os`, `arch`, `os_family` and
/// `distribution` their texts, and each of `os_version`, `long_os_version`
/// and `kernel_version` the text of its own optional field, empty when the
/// system reports none, whatever the other fields hold.
pub proof fn law_os_attributes(info: OsInfo)
    ensures
        os_pairs(info).len() == 7,
        os_pairs(info)[0] == ("os"@, info.os@),
        os_pairs(info)[1] == ("arch"@, info.arch@),
        os_pairs(info)[2] == ("os_family"@, info.family@),
        os_pairs(info)[3] == ("distribution"@, info.distribution@),
        info.os_version matches Some(v) ==> os_pairs(info)[4] == ("os_version"@, v@),
        info.os_version is None ==> os_pairs(info)[4] == ("os_version"@, Seq::<char>::empty()),
        info.long_os_version matches Some(v) ==> os_pairs(info)[5] == ("long_os_version"@, v@),
        info.long_os_version is None ==> os_pairs(info)[5] == (
            "long_os_version"@,
            Seq::<char>::empty(),
        ),
        info.kernel_version matches Some(v) ==> os_pairs(info)[6] == ("kernel_version"@, v@),
        info.kernel_version is None ==> os_pairs(info)[6] == (
            "kernel_version"@,
            Seq::<char>::empty(),
        ),
{
}

/// A disk is described by its own name, file system, mount point and kind,
/// in that order.
pub proof fn law_disk_attributes(d: DiskInfo)
    ensures
        disk_pairs(d).len() == 4,
        disk_pairs(d)[0] == ("name"@, d.name@),
        disk_pairs(d)[1] == ("file_system"@, d.file_system@),
        disk_pairs(d)[2] == ("mount_point"@, d.mount_point@),
        disk_pairs(d)[3] == ("kind"@, d.kind@),
{
}

} // verus!
