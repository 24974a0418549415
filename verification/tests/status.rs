use zeroclaw::status::{
    format_brief_status, format_decimal, format_human_status, format_uptime,
    generate_status_report, generate_status_report_at, memory_usage_from_status, output_format, parse_u64, uptime_from_proc,
    OutputFormat, StatusReport, StatusSources,
};

fn test_sources() -> StatusSources {
    StatusSources {
        version: "0.7.1".to_string(),
        workspace: "/tmp/zeroclaw-status-test".to_string(),
        config_path: "/tmp/zeroclaw-status-test/config.toml".to_string(),
        uptime: "unknown".to_string(),
        service_running: false,
        observability: "none".to_string(),
        autonomy_level: "Supervised".to_string(),
        runtime: "native".to_string(),
        default_provider: Some("anthropic".to_string()),
        default_model: Some("sonnet-large".to_string()),
        memory_backend: "sqlite".to_string(),
        auto_save: true,
        channels: vec![("telegram".to_string(), true), ("discord".to_string(), false)],
        memory_usage_mb: Some(6),
        disk_available_gb: Some("12.5".to_string()),
    }
}

fn fixed_report() -> StatusReport {
    generate_status_report_at(test_sources(), 0, 0)
}

#[test]
fn test_generate_status_report() {
    let report = generate_status_report(test_sources());

    assert_eq!(report.version, "0.7.1");
    assert_eq!(report.provider.default_provider, "anthropic");
    assert_eq!(report.provider.default_model, "sonnet-large");
    assert!(report.workspace.contains("zeroclaw"));
}

#[test]
fn generate_status_report_defaults_and_channels() {
    let mut s = test_sources();
    s.default_provider = None;
    s.default_model = None;
    let report = generate_status_report(s);
    assert_eq!(report.provider.default_provider, "openrouter");
    assert_eq!(report.provider.default_model, "(default)");
    assert!(report.channels.cli);
    assert_eq!(report.channels.configured_channels, vec!["telegram".to_string()]);
    assert!(report.timestamp_secs > 1_600_000_000);
}

#[test]
fn test_format_human_status() {
    let report = generate_status_report(test_sources());
    let output = format_human_status(&report);

    assert!(output.contains("ZeroClaw Status"));
    assert!(output.contains("Provider:"));
    assert!(output.contains("Memory:"));
}

#[test]
fn human_status_exact_lines() {
    let output = format_human_status(&fixed_report());
    assert!(output.starts_with("🦀 ZeroClaw Status\n\nVersion:     "));
    assert!(output.contains("Timestamp:   1970-01-01 00:00:00 UTC\n"));
    assert!(output.contains("🟢 Service:       stopped\n"));
    assert!(output.contains("🧠 Memory:         sqlite (auto-save: on)\n"));
    assert!(output.contains("  CLI:      ✅ always\n  telegram  ✅ configured\n"));
    assert!(output.ends_with("Resources:\n  Memory:   6 MB\n  Disk:     12.5 GB available\n"));
}

#[test]
fn test_format_brief_status() {
    let report = generate_status_report(test_sources());
    let output = format_brief_status(&report);

    assert!(output.contains("ZeroClaw v"));
    assert!(output.contains("Provider:"));
    assert!(output.contains("Memory:"));
    assert!(output.contains("Service:"));
}

#[test]
fn brief_status_exact() {
    let output = format_brief_status(&fixed_report());
    assert_eq!(
        output,
        "ZeroClaw v0.7.1 | 00:00:00 | Provider: anthropic | Memory: sqlite | Service: ❌"
    );
}

#[test]
fn test_get_uptime() {
    let uptime = uptime_from_proc(Some("350735.47 234388.90\n".to_string()));
    // Should return either a formatted string or "unknown"
    assert!(!uptime.is_empty());
    assert_eq!(uptime, "4d 1h 25m");
    assert!(!uptime_from_proc(None).is_empty());
}

#[test]
fn uptime_texts() {
    assert_eq!(uptime_from_proc(None), "unknown");
    assert_eq!(uptime_from_proc(Some("350735.47 1.0".to_string())), "4d 1h 25m");
    assert_eq!(uptime_from_proc(Some("93784.56 180000.10\n".to_string())), "1d 2h 3m");
    assert_eq!(uptime_from_proc(Some("59.99 1.0".to_string())), "0m 59s");
    assert_eq!(uptime_from_proc(Some(".5 1.0".to_string())), "unknown");
    assert_eq!(uptime_from_proc(Some("up 1.0".to_string())), "unknown");
    assert_eq!(uptime_from_proc(Some("  93784 5\n".to_string())), "1d 2h 3m");
    assert_eq!(uptime_from_proc(Some("".to_string())), "unknown");
    assert_eq!(format_uptime(3 * 3600 + 5 * 60), "3h 5m");
    assert_eq!(format_uptime(125), "2m 5s");
    assert_eq!(format_uptime(0), "0m 0s");
}

#[test]
fn test_get_memory_usage() {
    let status = "Name:\tcargo\nVmPeak:\t  100 kB\nVmRSS:\t    6144 kB\nThreads:\t1\n";
    let mem = memory_usage_from_status(Some(status.to_string()));
    assert!(mem.is_some());
    assert_eq!(mem, Some(6));
}

#[test]
fn memory_usage_edge_cases() {
    assert_eq!(memory_usage_from_status(None), None);
    assert_eq!(memory_usage_from_status(Some("VmRSS: lots kB\nVmRSS: 2048 kB\n".to_string())), Some(2));
    assert_eq!(memory_usage_from_status(Some("VmRSS:\n".to_string())), None);
    assert_eq!(memory_usage_from_status(Some(" VmRSS: 2048 kB".to_string())), None);
}

#[test]
fn test_run_status_json() {
    assert_eq!(output_format("json"), OutputFormat::Json);
}

#[test]
fn test_run_status_brief() {
    assert_eq!(output_format("brief"), OutputFormat::Brief);
    assert_eq!(output_format("human"), OutputFormat::Human);
    assert_eq!(output_format("JSON"), OutputFormat::Human);
}

#[test]
fn decimal_round_trip() {
    for n in [0u64, 7, 10, 99, 1024, u64::MAX] {
        assert_eq!(format_decimal(n), n.to_string());
        assert_eq!(parse_u64(&format_decimal(n)), Some(n));
    }
    assert_eq!(parse_u64("+15"), Some(15));
    assert_eq!(parse_u64("+"), None);
    assert_eq!(parse_u64(""), None);
    assert_eq!(parse_u64("-1"), None);
    assert_eq!(parse_u64("18446744073709551616"), None);
    assert_eq!(parse_u64("1.5"), None);
}

#[test]
fn report_at_given_time() {
    let report = generate_status_report_at(test_sources(), 93784, 5);
    assert_eq!(report.timestamp_secs, 93784);
    assert_eq!(report.timestamp_nanos, 5);
    assert_eq!(report.version, "0.7.1");
    assert!(format_brief_status(&report).contains(" | 02:03:04 | "));
    let before_epoch = generate_status_report_at(test_sources(), -1, 0);
    assert!(format_brief_status(&before_epoch).contains(" | 23:59:59 | "));
    let human = format_human_status(&report);
    assert!(human.contains("Timestamp:   1970-01-02 02:03:04 UTC\n"));
}
