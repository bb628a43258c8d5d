use pulseagent::config::HostMetricsConfig;
use pulseagent::signal::MetricKind;
use pulseagent::signal::MetricSample;
use pulseagent::signal::Reading;
use pulseagent::sources::host_metrics::disk_metrics;
use pulseagent::sources::host_metrics::drive_metrics;
use pulseagent::sources::host_metrics::ignored;
use pulseagent::sources::host_metrics::load_metrics;
use pulseagent::sources::host_metrics::memory_metrics;
use pulseagent::sources::host_metrics::network_metrics;
use pulseagent::sources::host_metrics::parse_diskstats;
use pulseagent::sources::host_metrics::parse_proc_stat;
use pulseagent::sources::host_metrics::processor_metrics;
use pulseagent::sources::host_metrics::Collector;
use pulseagent::sources::host_metrics::DiskInfo;
use pulseagent::sources::host_metrics::DriveCounters;
use pulseagent::sources::host_metrics::HostMetricsSource;
use pulseagent::sources::host_metrics::InterfaceCounters;
use pulseagent::sources::host_metrics::MemoryInfo;
use pulseagent::sources::host_metrics::ProcessorTimes;
use pulseagent::strmap::Labels;

fn double(r: &Reading) -> f64 {
    match r {
        Reading::Bits(b) => f64::from_bits(*b),
        Reading::Count(n) => *n as f64,
        Reading::Ratio { units, per } => *units as f64 / *per as f64,
        Reading::Gap { of, less } => *of as f64 - *less as f64,
        Reading::Scaled { literal, times, per } => {
            literal.parse::<f64>().unwrap() * *times as f64 / *per as f64
        }
    }
}

fn extra() -> Labels {
    let mut m = Labels::new();
    m.insert("dc".into(), "eu".into());
    m
}

fn summary(samples: &[MetricSample], label: &str) -> Vec<(String, String, f64)> {
    samples
        .iter()
        .map(|s| {
            assert_eq!(s.labels.get("dc").unwrap(), "eu");
            assert_eq!(s.timestamp_ms, 9);
            let v = s.labels.get(label).cloned().unwrap_or_default();
            (s.name.clone(), v, double(&s.value))
        })
        .collect()
}

fn row(name: &str, label: &str, value: f64) -> (String, String, f64) {
    (name.to_string(), label.to_string(), value)
}

#[test]
fn proc_stat_has_a_counter_for_each_cpu_and_mode() {
    let stat = "cpu  10 20 30 40 50 60 70 80 0 0\ncpu0 150 2 3 400 x 6 7 8 9 10\ncpu12 1 2\nintr 5 6\n";
    let samples = parse_proc_stat(stat, 9, &extra()).unwrap();
    assert_eq!(samples.len(), 10);
    let modes: Vec<(String, String, f64)> = summary(&samples, "mode");
    let name = "node_cpu_seconds_total";
    assert_eq!(modes[0], row(name, "user", 1.5));
    assert_eq!(modes[1], row(name, "nice", 0.02));
    assert_eq!(modes[2], row(name, "system", 0.03));
    assert_eq!(modes[3], row(name, "idle", 4.0));
    // what is no number counts as zero
    assert_eq!(modes[4], row(name, "iowait", 0.0));
    assert_eq!(modes[5], row(name, "irq", 0.06));
    assert_eq!(modes[6], row(name, "softirq", 0.07));
    assert_eq!(modes[7], row(name, "steal", 0.08));
    assert_eq!(samples[0].labels.get("cpu").unwrap(), "0");
    assert_eq!(samples[8].labels.get("cpu").unwrap(), "12");
    assert!(samples.iter().all(|s| s.kind == MetricKind::Counter));
}

#[test]
fn proc_stat_without_cpus_is_none() {
    assert!(parse_proc_stat("", 9, &extra()).is_none());
    assert!(parse_proc_stat("cpu 1 2 3\nctxt 4\n", 9, &extra()).is_none());
}

#[test]
fn system_time_leaves_out_the_idle_time() {
    let times = vec![
        ProcessorTimes { idle: 10_000_000, kernel: 30_000_000, user: 5_000_000 },
        ProcessorTimes { idle: 20_000_000, kernel: 10_000_000, user: 0 },
    ];
    assert!(times.iter().all(ProcessorTimes::fits));
    let samples = processor_metrics(&times, 9, &extra()).unwrap();
    let name = "node_cpu_seconds_total";
    assert_eq!(
        summary(&samples, "mode"),
        [
            row(name, "idle", 1.0),
            row(name, "user", 0.5),
            row(name, "system", 2.0),
            row(name, "idle", 2.0),
            row(name, "user", 0.0),
            row(name, "system", 0.0),
        ]
    );
    assert_eq!(samples[5].labels.get("cpu").unwrap(), "1");
    assert!(processor_metrics(&vec![], 9, &extra()).is_none());
    assert!(!ProcessorTimes { idle: i64::MIN, kernel: 1, user: 0 }.fits());
}

#[test]
fn memory_is_reported_in_bytes() {
    let info = MemoryInfo { total: 100, available: 60, free: 40, total_swap: 10, used_swap: 4 };
    let samples = memory_metrics(&info, 9, &extra());
    assert_eq!(
        summary(&samples, "none"),
        [
            row("node_memory_MemTotal_bytes", "", 100.0),
            row("node_memory_MemAvailable_bytes", "", 60.0),
            row("node_memory_MemFree_bytes", "", 40.0),
            row("node_memory_SwapTotal_bytes", "", 10.0),
            row("node_memory_SwapFree_bytes", "", 6.0),
        ]
    );
    let odd = MemoryInfo { total_swap: 1, used_swap: 2, ..info };
    assert_eq!(double(&memory_metrics(&odd, 9, &extra())[4].value), 0.0);
}

#[test]
fn filesystems_report_what_is_used() {
    let disks = vec![DiskInfo {
        device: "/dev/sda1".into(),
        mountpoint: "/".into(),
        total: 1000,
        available: 250,
    }];
    let samples = disk_metrics(&disks, 9, &extra());
    assert_eq!(
        summary(&samples, "mountpoint"),
        [
            row("node_filesystem_size_bytes", "/", 1000.0),
            row("node_filesystem_avail_bytes", "/", 250.0),
            row("node_filesystem_used_bytes", "/", 750.0),
        ]
    );
    assert_eq!(samples[0].labels.get("device").unwrap(), "/dev/sda1");
}

#[test]
fn partitions_and_pseudo_devices_are_ignored() {
    for d in ["loop0", "ram1", "dm-0", "sr0", "sda1", "nvme0n1p2", "mmcblk0p1"] {
        assert!(ignored(&d.chars().collect::<Vec<char>>()), "{d}");
    }
    for d in ["sda", "nvme0n1", "mmcblk0", "vda1", "md0", ""] {
        assert!(!ignored(&d.chars().collect::<Vec<char>>()), "{d}");
    }
}

#[test]
fn diskstats_counts_sectors_of_512_bytes() {
    let stats = "   8       0 sda 100 1 200 3 50 2 80 4 0 5 6\n   8       1 sda1 1 1 1 1 1 1 1 1 1 1 1\n 8 16 sdb 1 2 3\n";
    let samples = parse_diskstats(stats, 9, &extra());
    assert_eq!(
        summary(&samples, "device"),
        [
            row("node_disk_read_bytes_total", "sda", 200.0 * 512.0),
            row("node_disk_written_bytes_total", "sda", 80.0 * 512.0),
            row("node_disk_reads_completed_total", "sda", 100.0),
            row("node_disk_writes_completed_total", "sda", 50.0),
        ]
    );
    assert!(samples.iter().all(|s| s.kind == MetricKind::Counter));
}

#[test]
fn physical_drives_are_numbered() {
    let drives = vec![DriveCounters {
        index: 3,
        bytes_read: 10,
        bytes_written: 20,
        reads: 1,
        writes: 2,
    }];
    let samples = drive_metrics(&drives, 9, &extra());
    assert_eq!(
        summary(&samples, "device"),
        [
            row("node_disk_read_bytes_total", "PhysicalDrive3", 10.0),
            row("node_disk_written_bytes_total", "PhysicalDrive3", 20.0),
            row("node_disk_reads_completed_total", "PhysicalDrive3", 1.0),
            row("node_disk_writes_completed_total", "PhysicalDrive3", 2.0),
        ]
    );
}

fn interface(name: &str) -> InterfaceCounters {
    InterfaceCounters {
        name: name.into(),
        received: 1,
        transmitted: 2,
        packets_received: 3,
        packets_transmitted: 4,
    }
}

#[test]
fn the_loopback_interface_is_left_out() {
    let samples = network_metrics(
        &vec![interface("lo"), interface("eth0"), interface("loopback")],
        9,
        &extra(),
    );
    assert_eq!(
        summary(&samples, "device"),
        [
            row("node_network_receive_bytes_total", "eth0", 1.0),
            row("node_network_transmit_bytes_total", "eth0", 2.0),
            row("node_network_receive_packets_total", "eth0", 3.0),
            row("node_network_transmit_packets_total", "eth0", 4.0),
        ]
    );
}

#[test]
fn load_averages_are_gauges() {
    let samples = load_metrics(
        0.5f64.to_bits(),
        1.25f64.to_bits(),
        2.0f64.to_bits(),
        9,
        &extra(),
    );
    assert_eq!(
        summary(&samples, "none"),
        [row("node_load1", "", 0.5), row("node_load5", "", 1.25), row("node_load15", "", 2.0)]
    );
    assert!(samples.iter().all(|s| s.kind == MetricKind::Gauge));
}

#[test]
fn all_collectors_run_by_default() {
    let source = HostMetricsSource::new(HostMetricsConfig::default());
    let all = source.collectors();
    assert_eq!(all.len(), 6);
    assert!(matches!(all[0], Collector::Cpu));
    assert!(matches!(all[3], Collector::DiskIo));
    assert_eq!(source.interval_secs(), 15);
    let some = HostMetricsSource::new(HostMetricsConfig {
        collectors: vec!["load".into(), "gpu".into()],
        ..Default::default()
    })
    .collectors();
    assert!(matches!(some[0], Collector::Load));
    assert!(matches!(&some[1], Collector::Unknown(n) if n == "gpu"));
}
