//! Configuration values the agent reads from text: log levels, defaults of
//! the local buffer, the managed-node mode and the console's duration text.
use vstd::prelude::*;
use crate::orchestrator::OrchestratorConfig;
use crate::text::{chars_eq, chars_of, decimal, push_all, push_decimal, string_of};

verus! {

/// Verbosity of the agent's log output.
#[derive(Clone, Copy, Debug, PartialEq, Eq, Structural)]
pub enum LogLevel {
    Error,
    Warn,
    Info,
    Debug,
    Trace,
}

impl Default for LogLevel {
    fn default() -> (l: Self)
        ensures
            l == LogLevel::Info,
    {
        LogLevel::Info
    }
}

/// A log level name that is not one of the known ones.
#[derive(Debug)]
pub struct UnknownLogLevel {
    pub name: String,
}

/// `c` in lower case when it is an ASCII capital letter.
pub open spec fn lower_ascii(c: char) -> char {
    if 'A' <= c && c <= 'Z' {
        ((c as u32) + 32) as char
    } else {
        c
    }
}

/// The level a lower-cased name denotes.
pub open spec fn level_named(s: Seq<char>) -> Option<LogLevel> {
    if s == seq!['e', 'r', 'r', 'o', 'r'] {
        Some(LogLevel::Error)
    } else if s == seq!['w', 'a', 'r', 'n'] || s == seq!['w', 'a', 'r', 'n', 'i', 'n', 'g'] {
        Some(LogLevel::Warn)
    } else if s == seq!['i', 'n', 'f', 'o'] {
        Some(LogLevel::Info)
    } else if s == seq!['d', 'e', 'b', 'u', 'g'] {
        Some(LogLevel::Debug)
    } else if s == seq!['t', 'r', 'a', 'c', 'e'] {
        Some(LogLevel::Trace)
    } else {
        None
    }
}

fn lowered(s: &Vec<char>) -> (r: Vec<char>)
    ensures
        r@ == s@.map_values(|c: char| lower_ascii(c)),
{
    let mut r: Vec<char> = Vec::new();
    let mut i: usize = 0;
    while i < s.len()
        invariant
            i <= s.len(),
            r@ == s@.subrange(0, i as int).map_values(|c: char| lower_ascii(c)),
        decreases s.len() - i,
    {
        let c = s[i];
        let l = if 'A' <= c && c <= 'Z' {
            char_from_u32((c as u32) + 32)
        } else {
            c
        };
        r.push(l);
        i = i + 1;
        assert(r@ =~= s@.subrange(0, i as int).map_values(|c: char| lower_ascii(c)));
    }
    assert(s@.subrange(0, s.len() as int) =~= s@);
    r
}

fn char_from_u32(v: u32) -> (c: char)
    requires
        'a' as u32 <= v <= 'z' as u32,
    ensures
        c == v as char,
{
    let cs: Vec<char> = vec!['a', 'b', 'c', 'd', 'e', 'f', 'g', 'h', 'i', 'j', 'k', 'l', 'm', 'n', 'o', 'p', 'q', 'r', 's', 't', 'u', 'v', 'w', 'x', 'y', 'z'];
    let c = cs[(v - 97) as usize];
    assert(c == v as char) by {
        assert(cs@ == seq!['a', 'b', 'c', 'd', 'e', 'f', 'g', 'h', 'i', 'j', 'k', 'l', 'm', 'n', 'o', 'p', 'q', 'r', 's', 't', 'u', 'v', 'w', 'x', 'y', 'z']);
    }
    c
}

/// Reads an optional log level name, ignoring ASCII case; `warning` is
/// accepted for `warn`.
pub fn parse_log_level(input: Option<&str>) -> (r: Result<Option<LogLevel>, UnknownLogLevel>)
    ensures
        input is None ==> r == Ok::<Option<LogLevel>, UnknownLogLevel>(None),
        input matches Some(s) ==> match level_named(s@.map_values(|c: char| lower_ascii(c))) {
            Some(l) => r == Ok::<Option<LogLevel>, UnknownLogLevel>(Some(l)),
            None => r matches Err(e) && e.name@ == s@.map_values(|c: char| lower_ascii(c)),
        },
{
    let s = match input {
        None => {
            return Ok(None);
        },
        Some(s) => s,
    };
    let l = lowered(&chars_of(s));
    let error: Vec<char> = vec!['e', 'r', 'r', 'o', 'r'];
    let warn: Vec<char> = vec!['w', 'a', 'r', 'n'];
    let warning: Vec<char> = vec!['w', 'a', 'r', 'n', 'i', 'n', 'g'];
    let info: Vec<char> = vec!['i', 'n', 'f', 'o'];
    let debug: Vec<char> = vec!['d', 'e', 'b', 'u', 'g'];
    let trace: Vec<char> = vec!['t', 'r', 'a', 'c', 'e'];
    assert(error@ =~= seq!['e', 'r', 'r', 'o', 'r']);
    assert(warn@ =~= seq!['w', 'a', 'r', 'n']);
    assert(warning@ =~= seq!['w', 'a', 'r', 'n', 'i', 'n', 'g']);
    assert(info@ =~= seq!['i', 'n', 'f', 'o']);
    assert(debug@ =~= seq!['d', 'e', 'b', 'u', 'g']);
    assert(trace@ =~= seq!['t', 'r', 'a', 'c', 'e']);
    if chars_eq(&l, &error) {
        Ok(Some(LogLevel::Error))
    } else if chars_eq(&l, &warn) || chars_eq(&l, &warning) {
        Ok(Some(LogLevel::Warn))
    } else if chars_eq(&l, &info) {
        Ok(Some(LogLevel::Info))
    } else if chars_eq(&l, &debug) {
        Ok(Some(LogLevel::Debug))
    } else if chars_eq(&l, &trace) {
        Ok(Some(LogLevel::Trace))
    } else {
        Err(UnknownLogLevel { name: string_of(&l) })
    }
}

/// The agent's configuration.
#[derive(Clone, Debug)]
pub struct AgentConfig {
    pub listen_address: String,
    /// Time between ticks, in milliseconds.
    pub scrape_interval_ms: u64,
    pub enable_cpu: bool,
    pub enable_memory: bool,
    pub enable_disk: bool,
    pub enable_network: bool,
    pub enable_gpu: bool,
    pub enable_gpu_amd: bool,
    pub enable_power: bool,
    pub enable_gpu_mig: bool,
    pub enable_gpu_events: bool,
    /// Comma list of GPU uuids or indices to scan; absent, empty or `all` scans every GPU.
    pub gpu_visible_devices: Option<String>,
    /// Comma list of GPUs whose MIG layout is walked, in the same form.
    pub mig_config_devices: Option<String>,
    pub k8s_mode: bool,
    pub enable_mcp: bool,
    pub enable_app: bool,
    pub enable_rack_thermals: bool,
    pub managed_server: Option<String>,
    pub managed_cluster_id: Option<String>,
    pub managed_node_id: Option<String>,
    pub managed_join_token: Option<String>,
    pub managed_last_contact_unix_ms: Option<u64>,
    /// Node power envelope in watts, held as the bit pattern of its IEEE-754 double.
    pub node_power_envelope_watts_bits: Option<u64>,
    pub enable_local_tsdb: bool,
    pub local_tsdb_path: String,
    pub local_tsdb_retention_hours: u64,
    pub local_tsdb_max_disk_mb: u64,
    pub log_level: LogLevel,
    pub orchestrator: Option<OrchestratorConfig>,
    pub app_metrics_url: String,
}

/// Values that replace those of a configuration: each field that is set
/// replaces the field of the same name; a doubly optional field can also
/// clear an optional setting.
#[derive(Clone, Debug, Default)]
pub struct ConfigOverrides {
    pub listen_address: Option<String>,
    pub orchestrator: Option<OrchestratorConfig>,
    pub scrape_interval_ms: Option<u64>,
    pub enable_cpu: Option<bool>,
    pub enable_memory: Option<bool>,
    pub enable_disk: Option<bool>,
    pub enable_network: Option<bool>,
    pub enable_gpu: Option<bool>,
    pub enable_gpu_amd: Option<bool>,
    pub enable_power: Option<bool>,
    pub enable_gpu_mig: Option<bool>,
    pub enable_gpu_events: Option<bool>,
    pub gpu_visible_devices: Option<Option<String>>,
    pub mig_config_devices: Option<Option<String>>,
    pub k8s_mode: Option<bool>,
    pub enable_mcp: Option<bool>,
    pub enable_app: Option<bool>,
    pub enable_rack_thermals: Option<bool>,
    pub managed_server: Option<Option<String>>,
    pub managed_cluster_id: Option<Option<String>>,
    pub managed_node_id: Option<Option<String>>,
    pub managed_join_token: Option<Option<String>>,
    pub managed_last_contact_unix_ms: Option<Option<u64>>,
    pub node_power_envelope_watts_bits: Option<u64>,
    pub enable_local_tsdb: Option<bool>,
    pub local_tsdb_path: Option<String>,
    pub local_tsdb_retention_hours: Option<u64>,
    pub local_tsdb_max_disk_mb: Option<u64>,
    pub log_level: Option<LogLevel>,
    pub app_metrics_url: Option<String>,
}

impl AgentConfig {
    /// `self` with every field that `o` sets replaced.
    pub open spec fn overridden(self, o: ConfigOverrides) -> AgentConfig {
        AgentConfig {
            listen_address: chosen(o.listen_address, self.listen_address),
            orchestrator: chosen_some(o.orchestrator, self.orchestrator),
            scrape_interval_ms: chosen(o.scrape_interval_ms, self.scrape_interval_ms),
            enable_cpu: chosen(o.enable_cpu, self.enable_cpu),
            enable_memory: chosen(o.enable_memory, self.enable_memory),
            enable_disk: chosen(o.enable_disk, self.enable_disk),
            enable_network: chosen(o.enable_network, self.enable_network),
            enable_gpu: chosen(o.enable_gpu, self.enable_gpu),
            enable_gpu_amd: chosen(o.enable_gpu_amd, self.enable_gpu_amd),
            enable_power: chosen(o.enable_power, self.enable_power),
            enable_gpu_mig: chosen(o.enable_gpu_mig, self.enable_gpu_mig),
            enable_gpu_events: chosen(o.enable_gpu_events, self.enable_gpu_events),
            gpu_visible_devices: chosen(o.gpu_visible_devices, self.gpu_visible_devices),
            mig_config_devices: chosen(o.mig_config_devices, self.mig_config_devices),
            k8s_mode: chosen(o.k8s_mode, self.k8s_mode),
            enable_mcp: chosen(o.enable_mcp, self.enable_mcp),
            enable_app: chosen(o.enable_app, self.enable_app),
            enable_rack_thermals: chosen(o.enable_rack_thermals, self.enable_rack_thermals),
            managed_server: chosen(o.managed_server, self.managed_server),
            managed_cluster_id: chosen(o.managed_cluster_id, self.managed_cluster_id),
            managed_node_id: chosen(o.managed_node_id, self.managed_node_id),
            managed_join_token: chosen(o.managed_join_token, self.managed_join_token),
            managed_last_contact_unix_ms: chosen(o.managed_last_contact_unix_ms, self.managed_last_contact_unix_ms),
            node_power_envelope_watts_bits: chosen_some(o.node_power_envelope_watts_bits, self.node_power_envelope_watts_bits),
            enable_local_tsdb: chosen(o.enable_local_tsdb, self.enable_local_tsdb),
            local_tsdb_path: chosen(o.local_tsdb_path, self.local_tsdb_path),
            local_tsdb_retention_hours: chosen(o.local_tsdb_retention_hours, self.local_tsdb_retention_hours),
            local_tsdb_max_disk_mb: chosen(o.local_tsdb_max_disk_mb, self.local_tsdb_max_disk_mb),
            log_level: chosen(o.log_level, self.log_level),
            app_metrics_url: chosen(o.app_metrics_url, self.app_metrics_url),
        }
    }

    /// Replaces every field that `overrides` sets.
    pub fn apply_overrides(&mut self, overrides: ConfigOverrides)
        ensures
            *final(self) == old(self).overridden(overrides),
    {
        let mut cur = AgentConfig::with_tsdb_path(String::new());
        core::mem::swap(self, &mut cur);
        let next = overridden_config(cur, overrides);
        *self = next;
    }
}

/// A group of collectors that is switched on or off together.
#[derive(Clone, Copy, Debug, PartialEq, Eq, Structural)]
pub enum MetricSet {
    /// cpu, memory, disk and network.
    Host,
    Gpu,
    Power,
    Mcp,
    App,
    /// Every collector above, and rack thermals.
    All,
}

impl AgentConfig {
    /// `self` with the collectors of `set` switched to `enable`.
    pub open spec fn with_metric_set(self, set: MetricSet, enable: bool) -> AgentConfig {
        match set {
            MetricSet::Host => AgentConfig {
                enable_cpu: enable,
                enable_memory: enable,
                enable_disk: enable,
                enable_network: enable,
                ..self
            },
            MetricSet::Gpu => AgentConfig { enable_gpu: enable, ..self },
            MetricSet::Power => AgentConfig { enable_power: enable, ..self },
            MetricSet::Mcp => AgentConfig { enable_mcp: enable, ..self },
            MetricSet::App => AgentConfig { enable_app: enable, ..self },
            MetricSet::All => AgentConfig {
                enable_cpu: enable,
                enable_memory: enable,
                enable_disk: enable,
                enable_network: enable,
                enable_gpu: enable,
                enable_power: enable,
                enable_mcp: enable,
                enable_app: enable,
                enable_rack_thermals: enable,
                ..self
            },
        }
    }

    /// Switches the collectors of `set` on or off.
    pub fn set_metric_set(&mut self, set: MetricSet, enable: bool)
        ensures
            *final(self) == old(self).with_metric_set(set, enable),
    {
        let mut cur = AgentConfig::with_tsdb_path(String::new());
        core::mem::swap(self, &mut cur);
        let next = metric_set_applied(cur, set, enable);
        *self = next;
    }
}

fn metric_set_applied(c: AgentConfig, set: MetricSet, enable: bool) -> (r: AgentConfig)
    ensures
        r == c.with_metric_set(set, enable),
{
    match set {
        MetricSet::Host => AgentConfig {
            enable_cpu: enable,
            enable_memory: enable,
            enable_disk: enable,
            enable_network: enable,
            ..c
        },
        MetricSet::Gpu => AgentConfig { enable_gpu: enable, ..c },
        MetricSet::Power => AgentConfig { enable_power: enable, ..c },
        MetricSet::Mcp => AgentConfig { enable_mcp: enable, ..c },
        MetricSet::App => AgentConfig { enable_app: enable, ..c },
        MetricSet::All => AgentConfig {
            enable_cpu: enable,
            enable_memory: enable,
            enable_disk: enable,
            enable_network: enable,
            enable_gpu: enable,
            enable_power: enable,
            enable_mcp: enable,
            enable_app: enable,
            enable_rack_thermals: enable,
            ..c
        },
    }
}

/// `c` with every field that `o` sets replaced.
fn overridden_config(c: AgentConfig, o: ConfigOverrides) -> (r: AgentConfig)
    ensures
        r == c.overridden(o),
{
    let AgentConfig { listen_address, scrape_interval_ms, enable_cpu, enable_memory, enable_disk, enable_network, enable_gpu, enable_gpu_amd, enable_power, enable_gpu_mig, enable_gpu_events, gpu_visible_devices, mig_config_devices, k8s_mode, enable_mcp, enable_app, enable_rack_thermals, managed_server, managed_cluster_id, managed_node_id, managed_join_token, managed_last_contact_unix_ms, node_power_envelope_watts_bits, enable_local_tsdb, local_tsdb_path, local_tsdb_retention_hours, local_tsdb_max_disk_mb, log_level, orchestrator, app_metrics_url } = c;
    AgentConfig {
        listen_address: pick(o.listen_address, listen_address),
        scrape_interval_ms: pick(o.scrape_interval_ms, scrape_interval_ms),
        enable_cpu: pick(o.enable_cpu, enable_cpu),
        enable_memory: pick(o.enable_memory, enable_memory),
        enable_disk: pick(o.enable_disk, enable_disk),
        enable_network: pick(o.enable_network, enable_network),
        enable_gpu: pick(o.enable_gpu, enable_gpu),
        enable_gpu_amd: pick(o.enable_gpu_amd, enable_gpu_amd),
        enable_power: pick(o.enable_power, enable_power),
        enable_gpu_mig: pick(o.enable_gpu_mig, enable_gpu_mig),
        enable_gpu_events: pick(o.enable_gpu_events, enable_gpu_events),
        gpu_visible_devices: pick(o.gpu_visible_devices, gpu_visible_devices),
        mig_config_devices: pick(o.mig_config_devices, mig_config_devices),
        k8s_mode: pick(o.k8s_mode, k8s_mode),
        enable_mcp: pick(o.enable_mcp, enable_mcp),
        enable_app: pick(o.enable_app, enable_app),
        enable_rack_thermals: pick(o.enable_rack_thermals, enable_rack_thermals),
        managed_server: pick(o.managed_server, managed_server),
        managed_cluster_id: pick(o.managed_cluster_id, managed_cluster_id),
        managed_node_id: pick(o.managed_node_id, managed_node_id),
        managed_join_token: pick(o.managed_join_token, managed_join_token),
        managed_last_contact_unix_ms: pick(o.managed_last_contact_unix_ms, managed_last_contact_unix_ms),
        node_power_envelope_watts_bits: pick_some(o.node_power_envelope_watts_bits, node_power_envelope_watts_bits),
        enable_local_tsdb: pick(o.enable_local_tsdb, enable_local_tsdb),
        local_tsdb_path: pick(o.local_tsdb_path, local_tsdb_path),
        local_tsdb_retention_hours: pick(o.local_tsdb_retention_hours, local_tsdb_retention_hours),
        local_tsdb_max_disk_mb: pick(o.local_tsdb_max_disk_mb, local_tsdb_max_disk_mb),
        log_level: pick(o.log_level, log_level),
        orchestrator: pick_some(o.orchestrator, orchestrator),
        app_metrics_url: pick(o.app_metrics_url, app_metrics_url),
    }
}

/// The value `v` holds, else `cur`.
pub open spec fn chosen<T>(v: Option<T>, cur: T) -> T {
    match v {
        Some(x) => x,
        None => cur,
    }
}

/// `v` when it is set, else `cur`.
pub open spec fn chosen_some<T>(v: Option<T>, cur: Option<T>) -> Option<T> {
    if v is Some {
        v
    } else {
        cur
    }
}

fn pick<T>(v: Option<T>, cur: T) -> (r: T)
    ensures
        r == chosen(v, cur),
{
    match v {
        Some(x) => x,
        None => cur,
    }
}

fn pick_some<T>(v: Option<T>, cur: Option<T>) -> (r: Option<T>)
    ensures
        r == chosen_some(v, cur),
{
    if v.is_some() {
        v
    } else {
        cur
    }
}

/// Hours of samples the local buffer keeps by default.
pub fn default_local_tsdb_retention_hours() -> (r: u64)
    ensures
        r == 48,
{
    48
}

/// Disk budget of the local buffer by default, in mebibytes.
pub fn default_local_tsdb_max_disk_mb() -> (r: u64)
    ensures
        r == 2048,
{
    2048
}

/// Where the local buffer lives by default: under `$XDG_DATA_HOME`, else
/// under `$HOME/.local/share`, else in `/var/lib/esnode/tsdb`.
pub open spec fn default_tsdb_path_of(xdg_data_home: Option<Seq<char>>, home: Option<Seq<char>>) -> Seq<char> {
    match xdg_data_home {
        Some(x) => x + seq!['/', 'e', 's', 'n', 'o', 'd', 'e', '/', 't', 's', 'd', 'b'],
        None => match home {
            Some(h) => h + seq!['/', '.', 'l', 'o', 'c', 'a', 'l', '/', 's', 'h', 'a', 'r', 'e', '/', 'e', 's', 'n', 'o', 'd', 'e', '/', 't', 's', 'd', 'b'],
            None => seq!['/', 'v', 'a', 'r', '/', 'l', 'i', 'b', '/', 'e', 's', 'n', 'o', 'd', 'e', '/', 't', 's', 'd', 'b'],
        },
    }
}

/// The default path of the local buffer, given the values of the
/// `XDG_DATA_HOME` and `HOME` environment variables.
pub fn default_local_tsdb_path(xdg_data_home: Option<&str>, home: Option<&str>) -> (r: String)
    ensures
        r@ == default_tsdb_path_of(
            match xdg_data_home { Some(x) => Some(x@), None => None },
            match home { Some(h) => Some(h@), None => None },
        ),
{
    let mut out: Vec<char> = Vec::new();
    match xdg_data_home {
        Some(x) => {
            push_all(&mut out, &chars_of(x));
            let tail: Vec<char> = vec!['/', 'e', 's', 'n', 'o', 'd', 'e', '/', 't', 's', 'd', 'b'];
            push_all(&mut out, &tail);
        },
        None => match home {
            Some(h) => {
                push_all(&mut out, &chars_of(h));
                let tail: Vec<char> = vec!['/', '.', 'l', 'o', 'c', 'a', 'l', '/', 's', 'h', 'a', 'r', 'e', '/', 'e', 's', 'n', 'o', 'd', 'e', '/', 't', 's', 'd', 'b'];
                push_all(&mut out, &tail);
            },
            None => {
                let p: Vec<char> = vec!['/', 'v', 'a', 'r', '/', 'l', 'i', 'b', '/', 'e', 's', 'n', 'o', 'd', 'e', '/', 't', 's', 'd', 'b'];
                push_all(&mut out, &p);
            },
        },
    }
    assert(out@ =~= default_tsdb_path_of(
        match xdg_data_home { Some(x) => Some(x@), None => None },
        match home { Some(h) => Some(h@), None => None },
    ));
    string_of(&out)
}

impl AgentConfig {
    /// The default configuration, with the local buffer at `local_tsdb_path`.
    pub fn with_tsdb_path(local_tsdb_path: String) -> (c: Self)
        ensures
            c.local_tsdb_path == local_tsdb_path,
            c.listen_address@ == seq!['0', '.', '0', '.', '0', '.', '0', ':', '9', '1', '0', '0'],
            c.scrape_interval_ms == 5000,
            c.enable_cpu && c.enable_memory && c.enable_disk && c.enable_network && c.enable_gpu && c.enable_power,
            !c.enable_gpu_amd && !c.enable_gpu_mig && !c.enable_gpu_events && !c.k8s_mode,
            !c.enable_mcp && !c.enable_app && !c.enable_rack_thermals,
            c.gpu_visible_devices is None && c.mig_config_devices is None,
            c.managed_server is None && c.managed_cluster_id is None && c.managed_node_id is None,
            c.managed_join_token is None && c.managed_last_contact_unix_ms is None,
            c.node_power_envelope_watts_bits is None,
            c.enable_local_tsdb,
            c.local_tsdb_retention_hours == 48,
            c.local_tsdb_max_disk_mb == 2048,
            c.log_level == LogLevel::Info,
            c.orchestrator is None,
            c.app_metrics_url@ == seq!['h', 't', 't', 'p', ':', '/', '/', '1', '2', '7', '.', '0', '.', '0', '.', '1', ':', '8', '0', '0', '0', '/', 'm', 'e', 't', 'r', 'i', 'c', 's'],
    {
        let listen: Vec<char> = vec!['0', '.', '0', '.', '0', '.', '0', ':', '9', '1', '0', '0'];
        let url: Vec<char> = vec!['h', 't', 't', 'p', ':', '/', '/', '1', '2', '7', '.', '0', '.', '0', '.', '1', ':', '8', '0', '0', '0', '/', 'm', 'e', 't', 'r', 'i', 'c', 's'];
        assert(listen@ =~= seq!['0', '.', '0', '.', '0', '.', '0', ':', '9', '1', '0', '0']);
        assert(url@ =~= seq!['h', 't', 't', 'p', ':', '/', '/', '1', '2', '7', '.', '0', '.', '0', '.', '1', ':', '8', '0', '0', '0', '/', 'm', 'e', 't', 'r', 'i', 'c', 's']);
        AgentConfig {
            listen_address: string_of(&listen),
            scrape_interval_ms: 5000,
            enable_cpu: true,
            enable_memory: true,
            enable_disk: true,
            enable_network: true,
            enable_gpu: true,
            enable_gpu_amd: false,
            enable_power: true,
            enable_gpu_mig: false,
            enable_gpu_events: false,
            gpu_visible_devices: None,
            mig_config_devices: None,
            k8s_mode: false,
            enable_mcp: false,
            enable_app: false,
            enable_rack_thermals: false,
            managed_server: None,
            managed_cluster_id: None,
            managed_node_id: None,
            managed_join_token: None,
            managed_last_contact_unix_ms: None,
            node_power_envelope_watts_bits: None,
            enable_local_tsdb: true,
            local_tsdb_path,
            local_tsdb_retention_hours: default_local_tsdb_retention_hours(),
            local_tsdb_max_disk_mb: default_local_tsdb_max_disk_mb(),
            log_level: LogLevel::Info,
            orchestrator: None,
            app_metrics_url: string_of(&url),
        }
    }
}

impl Default for AgentConfig {
    /// The default configuration, with the local buffer at the path used
    /// when neither `XDG_DATA_HOME` nor `HOME` is set.
    fn default() -> (c: Self)
        ensures
            c.local_tsdb_path@ == default_tsdb_path_of(None, None),
            c.scrape_interval_ms == 5000,
            c.enable_local_tsdb,
            c.local_tsdb_retention_hours == 48,
            c.local_tsdb_max_disk_mb == 2048,
    {
        AgentConfig::with_tsdb_path(default_local_tsdb_path(None, None))
    }
}

/// Local control is refused on a node that a server manages.
#[derive(Debug)]
pub struct ManagedNode {
    pub server: String,
}

/// Refuses local control when the configuration names a managing server.
pub fn ensure_local_control(config: &AgentConfig) -> (r: Result<(), ManagedNode>)
    ensures
        config.managed_server is None <==> r is Ok,
        r matches Err(e) ==> e.server == config.managed_server.unwrap(),
{
    match &config.managed_server {
        Some(server) => Err(ManagedNode { server: server.clone() }),
        None => Ok(()),
    }
}

/// The console's screens.
#[derive(Clone, Copy, Debug, PartialEq, Eq, Structural)]
pub enum Screen {
    MainMenu,
    NodeOverview,
    GpuPower,
    NetworkDisk,
    Efficiency,
    MetricsProfiles,
    AgentStatus,
    ConnectServer,
}

/// What the node knows of the server that manages it.
#[derive(Clone, Debug)]
pub struct ManagedMetadata {
    pub server: Option<String>,
    pub cluster_id: Option<String>,
    pub node_id: Option<String>,
    pub last_contact_unix_ms: Option<u64>,
    pub state: String,
}

/// Whether the node runs on its own or under a managing server.
#[derive(Clone, Debug)]
pub enum AgentMode {
    Standalone,
    Managed(ManagedMetadata),
}

/// `CONNECTED` once the server has been in contact, `DEGRADED` before.
pub open spec fn contact_state(contacted: bool) -> Seq<char> {
    if contacted {
        seq!['C', 'O', 'N', 'N', 'E', 'C', 'T', 'E', 'D']
    } else {
        seq!['D', 'E', 'G', 'R', 'A', 'D', 'E', 'D']
    }
}

/// The node's mode from its managed-node settings.
pub fn agent_mode(
    managed_server: Option<String>,
    cluster_id: Option<String>,
    node_id: Option<String>,
    last_contact_unix_ms: Option<u64>,
) -> (m: AgentMode)
    ensures
        managed_server is None ==> m is Standalone,
        managed_server is Some ==> (m matches AgentMode::Managed(md) && md.server == managed_server
            && md.cluster_id == cluster_id && md.node_id == node_id
            && md.last_contact_unix_ms == last_contact_unix_ms
            && md.state@ == contact_state(last_contact_unix_ms is Some)),
{
    match managed_server {
        None => AgentMode::Standalone,
        Some(server) => {
            let word: Vec<char> = if last_contact_unix_ms.is_some() {
                vec!['C', 'O', 'N', 'N', 'E', 'C', 'T', 'E', 'D']
            } else {
                vec!['D', 'E', 'G', 'R', 'A', 'D', 'E', 'D']
            };
            assert(word@ =~= contact_state(last_contact_unix_ms is Some));
            AgentMode::Managed(ManagedMetadata {
                server: Some(server),
                cluster_id,
                node_id,
                last_contact_unix_ms,
                state: string_of(&word),
            })
        },
    }
}

/// An uptime as the console shows it: `{d}d {h}h {m}m` from one day on,
/// `{h}h {m}m` from one hour on, else `{m}m`.
pub open spec fn duration_text(secs: nat) -> Seq<char> {
    let days = secs / 86_400;
    let hours = (secs % 86_400) / 3600;
    let minutes = (secs % 3600) / 60;
    if days > 0 {
        decimal(days) + seq!['d', ' '] + decimal(hours) + seq!['h', ' '] + decimal(minutes) + seq!['m']
    } else if hours > 0 {
        decimal(hours) + seq!['h', ' '] + decimal(minutes) + seq!['m']
    } else {
        decimal(minutes) + seq!['m']
    }
}

/// Renders an uptime for the console.
pub fn format_duration(secs: u64) -> (r: String)
    ensures
        r@ == duration_text(secs as nat),
{
    let days = secs / 86_400;
    let hours = (secs % 86_400) / 3600;
    let minutes = (secs % 3600) / 60;
    let mut out: Vec<char> = Vec::new();
    if days > 0 {
        push_decimal(&mut out, days);
        out.push('d');
        out.push(' ');
        push_decimal(&mut out, hours);
        out.push('h');
        out.push(' ');
    } else if hours > 0 {
        push_decimal(&mut out, hours);
        out.push('h');
        out.push(' ');
    }
    push_decimal(&mut out, minutes);
    out.push('m');
    assert(out@ =~= duration_text(secs as nat));
    string_of(&out)
}

} // verus!
