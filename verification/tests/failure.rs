use zeroclaw::failure::{
    classify_category, fingerprint, get_failure, kind_from_name, list_failures, parse_kind,
    parse_severity, severity_from_name,
    record_failure, record_failure_at, recovery_hint, resolve_failure, resolve_failure_at,
    FailureFilter, FailureKind, FailureRegistry, FailureSeverity,
};
use zeroclaw::string_map::StringMap;

fn ctx(pairs: &[(&str, &str)]) -> StringMap {
    let mut m = StringMap::new();
    for (k, v) in pairs {
        m.insert(k.to_string(), v.to_string());
    }
    m
}

#[test]
fn record_and_list_failure() {
    let mut registry = FailureRegistry::new();
    let id = record_failure(
        &mut registry,
        FailureKind::Config,
        FailureSeverity::High,
        "invalid config".to_string(),
        StringMap::new(),
    );
    assert!(id.starts_with("fail_"));

    let list = list_failures(
        &registry,
        &FailureFilter {
            kind: Some(FailureKind::Config),
            min_severity: Some(FailureSeverity::Low),
            unresolved_only: true,
            limit: 10,
        },
    );
    assert!(!list.is_empty());
    assert_eq!(list[0].kind, FailureKind::Config);
}

#[test]
fn resolve_marks_record() {
    let mut registry = FailureRegistry::new();
    let id = record_failure(
        &mut registry,
        FailureKind::Tool,
        FailureSeverity::Medium,
        "tool missing".to_string(),
        StringMap::new(),
    );
    assert!(resolve_failure(&mut registry, &id, Some("installed dependency".to_string())));

    let list = list_failures(
        &registry,
        &FailureFilter { unresolved_only: true, limit: 100, ..FailureFilter::default() },
    );
    assert!(list.into_iter().all(|r| r.id != id));
}

#[test]
fn record_id_shape() {
    let mut registry = FailureRegistry::new();
    let id = record_failure(
        &mut registry,
        FailureKind::Memory,
        FailureSeverity::Low,
        "x".to_string(),
        StringMap::new(),
    );
    assert_eq!(id.chars().count(), 41);
    assert!(id.starts_with("fail_"));
    let rec = get_failure(&registry, &id).unwrap();
    assert_eq!(rec.id, id);
    assert!(!rec.first_seen.is_empty());
    assert_eq!(rec.first_seen, rec.last_seen);
}

#[test]
fn record_twice_bumps_same_record() {
    let mut registry = FailureRegistry::new();
    let id1 = record_failure_at(
        &mut registry,
        FailureKind::Provider,
        FailureSeverity::Medium,
        "timeout".to_string(),
        &ctx(&[("a", "1")]),
        "2026-01-01T00:00:00Z".to_string(),
        "fail_one".to_string(),
    );
    assert_eq!(id1, "fail_one");
    let id2 = record_failure_at(
        &mut registry,
        FailureKind::Provider,
        FailureSeverity::Critical,
        "timeout".to_string(),
        &ctx(&[("a", "2"), ("b", "3")]),
        "2026-01-02T00:00:00Z".to_string(),
        "fail_two".to_string(),
    );
    assert_eq!(id2, "fail_one");
    let rec = get_failure(&registry, "fail_one").unwrap();
    assert_eq!(rec.occurrences, 2);
    assert_eq!(rec.severity, FailureSeverity::Critical);
    assert_eq!(rec.first_seen, "2026-01-01T00:00:00Z");
    assert_eq!(rec.last_seen, "2026-01-02T00:00:00Z");
    assert_eq!(rec.context.get("a"), Some("2".to_string()));
    assert_eq!(rec.context.get("b"), Some("3".to_string()));
    assert_eq!(rec.context.get("fingerprint"), Some("Provider::timeout".to_string()));
    assert!(get_failure(&registry, "fail_two").is_none());

    // a lower severity does not lower the record's severity
    record_failure_at(
        &mut registry,
        FailureKind::Provider,
        FailureSeverity::Low,
        "timeout".to_string(),
        &StringMap::new(),
        "2026-01-03T00:00:00Z".to_string(),
        "fail_three".to_string(),
    );
    let rec = get_failure(&registry, "fail_one").unwrap();
    assert_eq!(rec.severity, FailureSeverity::Critical);
    assert_eq!(rec.occurrences, 3);
}

#[test]
fn record_after_resolve_starts_fresh() {
    let mut registry = FailureRegistry::new();
    let a = record_failure_at(
        &mut registry,
        FailureKind::Session,
        FailureSeverity::High,
        "corrupt".to_string(),
        &StringMap::new(),
        "t1".to_string(),
        "fail_a".to_string(),
    );
    assert!(resolve_failure_at(&mut registry, &a, Some("fixed".to_string()), "t2".to_string()));
    let rec = get_failure(&registry, "fail_a").unwrap();
    assert!(rec.resolved);
    assert_eq!(rec.resolution, Some("fixed".to_string()));
    assert_eq!(rec.last_seen, "t2");
    let b = record_failure_at(
        &mut registry,
        FailureKind::Session,
        FailureSeverity::High,
        "corrupt".to_string(),
        &StringMap::new(),
        "t3".to_string(),
        "fail_b".to_string(),
    );
    assert_eq!(b, "fail_b");
    assert_eq!(get_failure(&registry, "fail_b").unwrap().occurrences, 1);
    assert!(!resolve_failure_at(&mut registry, "fail_missing", None, "t4".to_string()));
}

#[test]
fn list_orders_by_last_seen_then_id_and_limits() {
    let mut registry = FailureRegistry::new();
    let kinds = [
        (FailureKind::Tool, "m1", "t2", "fail_c"),
        (FailureKind::Tool, "m2", "t3", "fail_b"),
        (FailureKind::Config, "m3", "t2", "fail_a"),
        (FailureKind::Memory, "m4", "t1", "fail_d"),
    ];
    for (k, m, t, id) in kinds.iter() {
        record_failure_at(
            &mut registry,
            *k,
            FailureSeverity::Medium,
            m.to_string(),
            &StringMap::new(),
            t.to_string(),
            id.to_string(),
        );
    }
    let all = list_failures(&registry, &FailureFilter::default());
    let ids: Vec<String> = all.iter().map(|r| r.id.clone()).collect();
    assert_eq!(ids, vec!["fail_b", "fail_a", "fail_c", "fail_d"]);

    let two = list_failures(&registry, &FailureFilter { limit: 2, ..FailureFilter::default() });
    let ids: Vec<String> = two.iter().map(|r| r.id.clone()).collect();
    assert_eq!(ids, vec!["fail_b", "fail_a"]);

    let tools = list_failures(
        &registry,
        &FailureFilter { kind: Some(FailureKind::Tool), ..FailureFilter::default() },
    );
    assert_eq!(tools.len(), 2);

    let severe = list_failures(
        &registry,
        &FailureFilter { min_severity: Some(FailureSeverity::High), ..FailureFilter::default() },
    );
    assert!(severe.is_empty());
}

#[test]
fn list_default_limit_is_twenty() {
    let mut registry = FailureRegistry::new();
    for i in 0..25 {
        record_failure_at(
            &mut registry,
            FailureKind::Unknown,
            FailureSeverity::Low,
            format!("m{}", i),
            &StringMap::new(),
            format!("t{:02}", i),
            format!("fail_{:02}", i),
        );
    }
    let list = list_failures(&registry, &FailureFilter::default());
    assert_eq!(list.len(), 20);
    assert_eq!(list[0].id, "fail_24");
    assert_eq!(list[19].id, "fail_05");
}

#[test]
fn parse_names() {
    assert_eq!(parse_severity(" HIGH "), Some(FailureSeverity::High));
    assert_eq!(parse_severity("Warning"), Some(FailureSeverity::Medium));
    assert_eq!(parse_severity("error"), Some(FailureSeverity::High));
    assert_eq!(parse_severity("fatal"), None);
    assert_eq!(parse_kind("\tTools\n"), Some(FailureKind::Tool));
    assert_eq!(parse_kind("RESOURCES"), Some(FailureKind::Resource));
    assert_eq!(parse_kind("nope"), None);
    assert_eq!("critical".parse::<FailureSeverity>(), Ok(FailureSeverity::Critical));
    assert_eq!("xx".parse::<FailureKind>(), Err(()));
}

#[test]
fn severity_ranks() {
    assert_eq!(FailureSeverity::Low.rank(), 1);
    assert_eq!(FailureSeverity::Medium.rank(), 2);
    assert_eq!(FailureSeverity::High.rank(), 3);
    assert_eq!(FailureSeverity::Critical.rank(), 4);
}

#[test]
fn fingerprint_trims_message() {
    assert_eq!(fingerprint(FailureKind::Config, "  invalid config \n"), "Config::invalid config");
    assert_eq!(fingerprint(FailureKind::Unknown, ""), "Unknown::");
}

#[test]
fn classify_categories() {
    assert_eq!(classify_category("context"), FailureKind::Compact);
    assert_eq!(classify_category("cli-tools"), FailureKind::Tool);
    assert_eq!(classify_category("channels"), FailureKind::Channel);
    assert_eq!(classify_category("resources"), FailureKind::Resource);
    assert_eq!(classify_category("Provider"), FailureKind::Unknown);
    assert_eq!(classify_category("provider"), FailureKind::Provider);
}

#[test]
fn hints() {
    assert_eq!(recovery_hint(FailureKind::Unknown), "查看日志上下文进一步定位。");
    assert!(recovery_hint(FailureKind::Provider).contains("zeroclaw doctor models"));
}

#[test]
fn string_map_operations() {
    let mut m = StringMap::new();
    m.insert("a".to_string(), "1".to_string());
    m.insert("a".to_string(), "2".to_string());
    m.insert("b".to_string(), "3".to_string());
    assert_eq!(m.get("a"), Some("2".to_string()));
    assert_eq!(m.get("c"), None);
    let mut pairs = m.pairs();
    pairs.sort();
    assert_eq!(pairs, vec![("a".to_string(), "2".to_string()), ("b".to_string(), "3".to_string())]);
    let mut n = StringMap::new();
    n.insert("b".to_string(), "9".to_string());
    n.insert("c".to_string(), "0".to_string());
    m.extend_from(&n);
    assert_eq!(m.get("b"), Some("9".to_string()));
    assert_eq!(m.get("c"), Some("0".to_string()));
    let c = m.clone();
    assert_eq!(c.get("a"), Some("2".to_string()));
}

#[test]
fn names_after_folding() {
    assert_eq!(severity_from_name("warn"), Some(FailureSeverity::Medium));
    assert_eq!(severity_from_name("critical"), Some(FailureSeverity::Critical));
    assert_eq!(severity_from_name("HIGH"), None);
    assert_eq!(severity_from_name(" low"), None);
    assert_eq!(kind_from_name("resources"), Some(FailureKind::Resource));
    assert_eq!(kind_from_name("context"), None);
    assert_eq!(parse_kind("  ChAnNeL "), Some(FailureKind::Channel));
    assert_eq!(parse_severity(" WARNING "), Some(FailureSeverity::Medium));
    assert_eq!("Critical".parse::<FailureSeverity>(), Ok(FailureSeverity::Critical));
    assert_eq!("context".parse::<FailureKind>(), Err(()));
}

#[test]
fn recovery_hints_are_distinct() {
    let kinds = [
        FailureKind::Provider,
        FailureKind::Compact,
        FailureKind::Session,
        FailureKind::Channel,
        FailureKind::Memory,
        FailureKind::Config,
        FailureKind::Tool,
        FailureKind::Resource,
        FailureKind::Unknown,
    ];
    for (i, a) in kinds.iter().enumerate() {
        assert!(!recovery_hint(*a).is_empty());
        for b in kinds.iter().skip(i + 1) {
            assert_ne!(recovery_hint(*a), recovery_hint(*b));
        }
    }
    assert!(recovery_hint(FailureKind::Provider).contains("zeroclaw doctor models"));
}
