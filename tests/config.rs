use esnode_core::config::{default_local_tsdb_path, AgentConfig, ConfigOverrides, MetricSet, agent_mode, default_local_tsdb_max_disk_mb, default_local_tsdb_retention_hours, ensure_local_control, format_duration, parse_log_level, AgentMode, LogLevel};

#[test]
fn log_levels_parse_case_insensitively() {
    assert_eq!(parse_log_level(None).ok(), Some(None));
    assert_eq!(parse_log_level(Some("DEBUG")).ok(), Some(Some(LogLevel::Debug)));
    assert_eq!(parse_log_level(Some("Warning")).ok(), Some(Some(LogLevel::Warn)));
    assert_eq!(parse_log_level(Some("warn")).ok(), Some(Some(LogLevel::Warn)));
    assert_eq!(parse_log_level(Some("error")).ok(), Some(Some(LogLevel::Error)));
    assert_eq!(parse_log_level(Some("trace")).ok(), Some(Some(LogLevel::Trace)));
    assert_eq!(parse_log_level(Some("Info")).ok(), Some(Some(LogLevel::Info)));
    match parse_log_level(Some("LOUD")) {
        Err(e) => assert_eq!(e.name, "loud"),
        Ok(v) => panic!("unexpected {v:?}"),
    }
    assert_eq!(LogLevel::default(), LogLevel::Info);
}

#[test]
fn buffer_defaults() {
    assert_eq!(default_local_tsdb_retention_hours(), 48);
    assert_eq!(default_local_tsdb_max_disk_mb(), 2048);
}

#[test]
fn durations_render_for_console() {
    assert_eq!(format_duration(59), "0m");
    assert_eq!(format_duration(3 * 3600 + 7 * 60), "3h 7m");
    assert_eq!(format_duration(2 * 86_400 + 3600 + 60), "2d 1h 1m");
}

#[test]
fn managed_node_refuses_local_control() {
    let mut config = AgentConfig::default();
    assert!(ensure_local_control(&config).is_ok());
    config.managed_server = Some(String::from("srv"));
    assert_eq!(ensure_local_control(&config).err().map(|e| e.server), Some(String::from("srv")));
    match agent_mode(Some(String::from("srv")), Some(String::from("cluster")), None, None) {
        AgentMode::Managed(md) => {
            assert_eq!(md.state, "DEGRADED");
            assert_eq!(md.cluster_id, Some(String::from("cluster")));
        }
        AgentMode::Standalone => panic!("expected managed"),
    }
    match agent_mode(Some(String::from("srv")), None, None, Some(5)) {
        AgentMode::Managed(md) => assert_eq!(md.state, "CONNECTED"),
        AgentMode::Standalone => panic!("expected managed"),
    }
    assert!(matches!(agent_mode(None, None, None, Some(5)), AgentMode::Standalone));
}

#[test]
fn overrides_apply_all_booleans_and_scalars() {
    let mut base = AgentConfig::default();

    let overrides = ConfigOverrides {
        enable_cpu: Some(false),
        enable_memory: Some(false),
        enable_disk: Some(false),
        enable_network: Some(false),
        enable_gpu: Some(false),
        enable_gpu_amd: Some(true),
        enable_power: Some(false),
        enable_gpu_mig: Some(true),
        enable_gpu_events: Some(true),
        gpu_visible_devices: Some(Some("GPU-123,1".to_string())),
        mig_config_devices: Some(Some("GPU-123".to_string())),
        k8s_mode: Some(true),
        enable_mcp: Some(true),
        enable_app: Some(true),
        enable_rack_thermals: Some(true),
        orchestrator: None,
        app_metrics_url: None,
        listen_address: Some("1.2.3.4:9999".to_string()),
        scrape_interval_ms: Some(10_000),
        enable_local_tsdb: Some(false),
        local_tsdb_path: Some("/tmp/tsdb".to_string()),
        local_tsdb_retention_hours: Some(12),
        local_tsdb_max_disk_mb: Some(321),
        managed_server: Some(Some("srv".to_string())),
        managed_cluster_id: Some(Some("cluster".to_string())),
        managed_node_id: Some(Some("node".to_string())),
        managed_join_token: Some(Some("token".to_string())),
        managed_last_contact_unix_ms: Some(Some(123)),
        node_power_envelope_watts_bits: Some(456.0f64.to_bits()),
        log_level: None,
    };

    base.apply_overrides(overrides);

    assert!(!base.enable_cpu);
    assert!(!base.enable_memory);
    assert!(!base.enable_disk);
    assert!(!base.enable_network);
    assert!(!base.enable_gpu);
    assert!(base.enable_gpu_amd);
    assert!(!base.enable_power);
    assert!(base.enable_gpu_mig);
    assert!(base.enable_gpu_events);
    assert_eq!(base.gpu_visible_devices.as_deref(), Some("GPU-123,1"));
    assert_eq!(base.mig_config_devices.as_deref(), Some("GPU-123"));
    assert!(base.k8s_mode);
    assert!(base.enable_mcp);
    assert!(base.enable_app);
    assert!(base.enable_rack_thermals);
    assert_eq!(base.listen_address, "1.2.3.4:9999");
    assert_eq!(base.scrape_interval_ms, 10_000);
    assert!(!base.enable_local_tsdb);
    assert_eq!(base.local_tsdb_path, "/tmp/tsdb");
    assert_eq!(base.local_tsdb_retention_hours, 12);
    assert_eq!(base.local_tsdb_max_disk_mb, 321);
    assert_eq!(base.managed_server.as_deref(), Some("srv"));
    assert_eq!(base.managed_cluster_id.as_deref(), Some("cluster"));
    assert_eq!(base.managed_node_id.as_deref(), Some("node"));
    assert_eq!(base.managed_join_token.as_deref(), Some("token"));
    assert_eq!(base.managed_last_contact_unix_ms, Some(123));
    assert_eq!(base.node_power_envelope_watts_bits.map(f64::from_bits), Some(456.0));
}

#[test]
fn unset_overrides_keep_configuration() {
    let mut base = AgentConfig::default();
    base.apply_overrides(ConfigOverrides::default());
    assert_eq!(base.listen_address, "0.0.0.0:9100");
    assert_eq!(base.scrape_interval_ms, 5000);
    assert_eq!(base.local_tsdb_path, "/var/lib/esnode/tsdb");
    assert_eq!(base.app_metrics_url, "http://127.0.0.1:8000/metrics");
    assert_eq!(base.log_level, LogLevel::Info);
}

#[test]
fn default_buffer_path_follows_environment() {
    assert_eq!(default_local_tsdb_path(Some("/data"), Some("/home/u")), "/data/esnode/tsdb");
    assert_eq!(default_local_tsdb_path(None, Some("/home/u")), "/home/u/.local/share/esnode/tsdb");
    assert_eq!(default_local_tsdb_path(None, None), "/var/lib/esnode/tsdb");
}

#[test]
fn metric_sets_switch_their_collectors() {
    let mut c = AgentConfig::default();
    c.set_metric_set(MetricSet::Host, false);
    assert!(!c.enable_cpu && !c.enable_memory && !c.enable_disk && !c.enable_network);
    assert!(c.enable_gpu && c.enable_power);
    c.set_metric_set(MetricSet::Gpu, false);
    assert!(!c.enable_gpu && c.enable_power);
    c.set_metric_set(MetricSet::All, true);
    assert!(c.enable_cpu && c.enable_gpu && c.enable_power && c.enable_mcp && c.enable_app && c.enable_rack_thermals);
    c.set_metric_set(MetricSet::App, false);
    assert!(!c.enable_app && c.enable_mcp);
}
