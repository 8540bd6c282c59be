use ssh_core::error::CoreError;
use ssh_core::health::{apply_probe, parse_probe, tcp_report, HealthReport, MemFigures, TcpOutcome, PROBE_CMD};
use ssh_core::number::is_number_at;
use ssh_core::registry::{monitor_interval, Registry, HEALTH_HISTORY_CAP};

const PROBE_OUTPUT: &str = " 12:00:00 up 5 days,  3:14,  2 users,  load average: 0.52, 0.58, 0.59\n@@\n0.52 0.58 0.59 1/389 12345\n@@\n16777216 8388608\n@@\n42%\n";

fn blank_report(host_id: &str, timestamp: u64) -> HealthReport {
    HealthReport {
        host_id: host_id.to_string(),
        timestamp,
        reachable: true,
        latency_ms: None,
        ssh_ok: true,
        uptime: None,
        load_avg: None,
        mem_figures: None,
        disk_used_pct: None,
        error: None,
    }
}

fn figures(r: &HealthReport) -> Option<(String, String)> {
    r.mem_figures.as_ref().map(|f: &MemFigures| (f.total.clone(), f.used.clone()))
}

fn pair(total: &str, used: &str) -> Option<(String, String)> {
    Some((total.to_string(), used.to_string()))
}

#[test]
fn health_parse_probe_defensively() {
    let mut report = HealthReport {
        host_id: "h".into(),
        timestamp: 0,
        reachable: true,
        latency_ms: None,
        ssh_ok: true,
        uptime: None,
        load_avg: None,
        mem_figures: None,
        disk_used_pct: None,
        error: None,
    };
    // Garbage output should not panic or produce values.
    parse_probe("", &mut report);
    assert!(report.load_avg.is_none());
    parse_probe("@@@@@@", &mut report);
    assert!(report.mem_figures.is_none());
    parse_probe("up @@ x y @@ 0 0 @@ nope", &mut report);
    assert!(report.disk_used_pct.is_none());
}

#[test]
fn health_parse_probe_full_output() {
    let mut report = blank_report("h", 7);
    parse_probe(PROBE_OUTPUT, &mut report);
    assert_eq!(report.load_avg.as_deref(), Some("0.52 0.58 0.59"));
    assert_eq!(figures(&report), pair("16777216", "8388608"));
    assert_eq!(report.disk_used_pct.as_deref(), Some("42"));
    let uptime = report.uptime.unwrap();
    assert!(uptime.contains("up 5 days"));
    assert_eq!(uptime, "12:00:00 up 5 days,  3:14,  2 users,  load average: 0.52, 0.58, 0.59");
    assert_eq!(report.host_id, "h");
    assert_eq!(report.timestamp, 7);
}

#[test]
fn health_parse_probe_partial_sections() {
    let mut report = blank_report("h", 0);
    parse_probe("  up a while  ", &mut report);
    assert_eq!(report.uptime.as_deref(), Some("up a while"));
    assert!(report.load_avg.is_none());

    // Two load figures are not enough; memory takes the first two numbers.
    let mut report = blank_report("h", 0);
    parse_probe("x @@ 0.1 0.2 @@ total: 0 used: 5 9 @@ 17.5%", &mut report);
    assert!(report.load_avg.is_none());
    assert_eq!(figures(&report), pair("0", "5"));
    assert_eq!(report.disk_used_pct.as_deref(), Some("17.5"));

    // One number is not enough.
    let mut report = blank_report("h", 0);
    parse_probe("@@ @@ 100 @@ 5", &mut report);
    assert!(report.mem_figures.is_none());
    assert!(report.disk_used_pct.is_none());
}

#[test]
fn health_parse_probe_keeps_earlier_values() {
    let mut report = blank_report("h", 0);
    parse_probe(PROBE_OUTPUT, &mut report);
    parse_probe("@@ junk @@ nothing here @@ none", &mut report);
    assert_eq!(report.load_avg.as_deref(), Some("0.52 0.58 0.59"));
    assert_eq!(figures(&report), pair("16777216", "8388608"));
    assert_eq!(report.disk_used_pct.as_deref(), Some("42"));
}

#[test]
fn health_numbers_as_floats_read_them() {
    let accepted = [
        "0", "-3", "+4", "1.", ".5", "1.5e3", "2E-4", "1e+7", "inf", "-INF", "Infinity", "nan", "NaN",
        "123456789012345678901234567890", "1e99999",
    ];
    for t in accepted {
        let v: Vec<char> = t.chars().collect();
        assert!(is_number_at(&v, 0, v.len()), "{t} should be a number");
        assert!(t.parse::<f64>().is_ok());
    }
    let refused = ["", "+", ".", "e5", "1e", "1e+", "1.2.3", "12a", "infin", "nana", "0x10", " 1"];
    for t in refused {
        let v: Vec<char> = t.chars().collect();
        assert!(!is_number_at(&v, 0, v.len()), "{t} should not be a number");
        assert!(t.parse::<f64>().is_err());
    }
}

#[test]
fn health_parse_probe_special_numbers() {
    let mut report = blank_report("h", 0);
    parse_probe("@@ @@ inf NaN @@ -inf%", &mut report);
    assert_eq!(figures(&report), pair("inf", "NaN"));
    assert_eq!(report.disk_used_pct.as_deref(), Some("-inf"));

    let mut report = blank_report("h", 0);
    parse_probe("@@ @@ 1.6777216e7 8.388608E6 @@ 4.2e1%", &mut report);
    assert_eq!(figures(&report), pair("1.6777216e7", "8.388608E6"));
    assert_eq!(report.disk_used_pct.as_deref(), Some("4.2e1"));

    // No exponent digits: not a number.
    let mut report = blank_report("h", 0);
    parse_probe("@@ @@ 1e99 5 @@ 1e%", &mut report);
    assert_eq!(figures(&report), pair("1e99", "5"));
    assert!(report.disk_used_pct.is_none());
}

#[test]
fn health_tcp_report_outcomes() {
    let ok = tcp_report("h1".to_string(), 5, TcpOutcome::Connected { latency_ms: 12 });
    assert!(ok.reachable);
    assert_eq!(ok.latency_ms, Some(12));
    assert!(!ok.ssh_ok);
    assert!(ok.error.is_none());

    let failed = tcp_report("h1".to_string(), 5, TcpOutcome::Failed { message: "refused".to_string() });
    assert!(!failed.reachable);
    assert_eq!(failed.error.as_deref(), Some("connect failed: refused"));

    let timed_out = tcp_report("h1".to_string(), 5, TcpOutcome::TimedOut);
    assert!(!timed_out.reachable);
    assert_eq!(timed_out.error.as_deref(), Some("connect timed out"));
    assert_eq!(timed_out.host_id, "h1");
    assert_eq!(timed_out.timestamp, 5);
}

#[test]
fn health_apply_probe_result() {
    let mut report = tcp_report("h".to_string(), 1, TcpOutcome::Connected { latency_ms: 3 });
    apply_probe(&mut report, Ok(PROBE_OUTPUT.to_string()));
    assert!(report.ssh_ok);
    assert_eq!(report.load_avg.as_deref(), Some("0.52 0.58 0.59"));

    let mut report = tcp_report("h".to_string(), 1, TcpOutcome::Connected { latency_ms: 3 });
    apply_probe(&mut report, Err(CoreError::Ssh("channel closed".to_string())));
    assert!(!report.ssh_ok);
    assert_eq!(report.error.as_deref(), Some("probe failed: ssh error: channel closed"));
}

#[test]
fn health_probe_command_sections() {
    assert_eq!(PROBE_CMD.matches("echo @@").count(), 3);
    assert!(PROBE_CMD.starts_with("uptime"));
}

#[test]
fn health_history_keeps_newest_reports() {
    let mut reg = Registry::new();
    for t in 0..(HEALTH_HISTORY_CAP as u64 + 5) {
        reg.record_health(blank_report("a", t));
    }
    reg.record_health(blank_report("b", 1000));
    let a = reg.get_health_history("a");
    assert_eq!(a.len(), HEALTH_HISTORY_CAP);
    assert_eq!(a[0].timestamp, 5);
    assert_eq!(a[a.len() - 1].timestamp, HEALTH_HISTORY_CAP as u64 + 4);
    let b = reg.get_health_history("b");
    assert_eq!(b.len(), 1);
    assert_eq!(b[0].timestamp, 1000);
    assert!(reg.get_health_history("nobody").is_empty());
}

#[test]
fn health_monitor_interval_clamped() {
    assert_eq!(monitor_interval(0), 5);
    assert_eq!(monitor_interval(60), 60);
    assert_eq!(monitor_interval(1_000_000), 86400);
}
