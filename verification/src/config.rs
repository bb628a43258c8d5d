//! The agent's configuration model, its defaults and its validation.

use vstd::prelude::*;

use crate::number;
use crate::strmap::Labels;
use crate::text;
use vstd::slice::slice_subrange;

verus! {

// ---------------------------------------------------------------------------
// Top-level config
// ---------------------------------------------------------------------------

#[derive(Debug, Clone)]
pub struct Config {
    pub agent: AgentConfig,
    pub sources: SourcesConfig,
    pub processors: ProcessorsConfig,
    pub targets: TargetsConfig,
}

// ---------------------------------------------------------------------------
// [agent] section
// ---------------------------------------------------------------------------

#[derive(Debug, Clone)]
pub struct AgentConfig {
    /// Directory where the agent persists state (enrolled creds, offsets, ...)
    pub data_dir: String,
    /// Structured tracing level
    pub log_level: String,
    /// Optional human-readable name; defaults to hostname
    pub instance_name: Option<String>,
    /// PulseBoard enrollment token. When set, the agent exchanges it on
    /// first startup for a long-lived agent API key stored in `data_dir`.
    /// Clear this line after first enroll: it is not needed again.
    pub enroll_token: Option<String>,
    /// PulseBoard workspace URL, e.g. "https://acme.pulseboard.cloud"
    pub pulseboard_url: Option<String>,
}

impl Default for AgentConfig {
    fn default() -> (r: Self)
        ensures
            r.data_dir@ == "/var/lib/pulseagent"@,
            r.log_level@ == "info"@,
            r.instance_name is None,
            r.enroll_token is None,
            r.pulseboard_url is None,
    {
        AgentConfig {
            data_dir: "/var/lib/pulseagent".to_owned(),
            log_level: "info".to_owned(),
            instance_name: None,
            enroll_token: None,
            pulseboard_url: None,
        }
    }
}

// ---------------------------------------------------------------------------
// [sources] section
// ---------------------------------------------------------------------------

#[derive(Debug, Clone)]
pub struct SourcesConfig {
    pub host_metrics: Option<HostMetricsConfig>,
    pub file_logs: Vec<FileLogsConfig>,
    pub prom_scrape: Vec<PromScrapeConfig>,
    /// In-process OTLP HTTP/JSON receiver on a local port
    pub otlp: Option<OtlpConfig>,
    /// systemd journal tail (Linux only): shells out to `journalctl`
    pub journald: Option<JournaldConfig>,
    /// Windows Event Log poller (Windows only)
    pub windows_event_log: Vec<WindowsEventLogConfig>,
    /// Docker container log collection via the `docker` CLI
    pub docker_logs: Option<DockerLogsConfig>,
    /// Docker container resource stats via the `docker` CLI
    pub docker_stats: Option<DockerStatsConfig>,
    /// Kubernetes pod logs in DaemonSet mode: tails /var/log/containers/*.log
    pub kubernetes_pods: Option<KubernetesPodsConfig>,
}

impl SourcesConfig {
    /// No source is enabled.
    pub open spec fn is_empty(&self) -> bool {
        &&& self.host_metrics is None
        &&& self.file_logs@.len() == 0
        &&& self.prom_scrape@.len() == 0
        &&& self.otlp is None
        &&& self.journald is None
        &&& self.windows_event_log@.len() == 0
        &&& self.docker_logs is None
        &&& self.docker_stats is None
        &&& self.kubernetes_pods is None
    }
}

impl Default for SourcesConfig {
    fn default() -> (r: Self)
        ensures
            r.is_empty(),
    {
        SourcesConfig {
            host_metrics: None,
            file_logs: Vec::new(),
            prom_scrape: Vec::new(),
            otlp: None,
            journald: None,
            windows_event_log: Vec::new(),
            docker_logs: None,
            docker_stats: None,
            kubernetes_pods: None,
        }
    }
}

#[derive(Debug, Clone)]
pub struct HostMetricsConfig {
    /// Scrape interval, e.g. "15s"
    pub interval: String,
    /// Which collectors to enable (cpu, memory, disk, diskio, network, load).
    /// Empty = all enabled.
    pub collectors: Vec<String>,
    /// Extra labels applied to every metric from this source
    pub extra_labels: Labels,
}

impl Default for HostMetricsConfig {
    fn default() -> (r: Self)
        ensures
            r.interval@ == "15s"@,
            r.collectors@.len() == 0,
            r.extra_labels@ == Map::<Seq<char>, Seq<char>>::empty(),
    {
        HostMetricsConfig {
            interval: default_interval(),
            collectors: Vec::new(),
            extra_labels: Labels::new(),
        }
    }
}

#[derive(Debug, Clone)]
pub struct FileLogsConfig {
    pub name: String,
    pub paths: Vec<String>,
    /// Multiline start pattern (regex). Lines that do NOT match are appended
    /// to the previous log entry.
    pub multiline_start: Option<String>,
    pub extra_labels: Labels,
}

#[derive(Debug, Clone)]
pub struct PromScrapeConfig {
    pub name: String,
    pub url: String,
    /// Scrape interval, e.g. "30s"
    pub interval: String,
    pub extra_labels: Labels,
}

#[derive(Debug, Clone)]
pub struct OtlpConfig {
    /// Port for the OTLP HTTP/JSON receiver (default 4318)
    pub port: u16,
}

#[derive(Debug, Clone)]
pub struct JournaldConfig {
    /// Optional list of systemd units to follow (e.g. ["ssh.service"]).
    /// Empty = the whole journal.
    pub units: Vec<String>,
    /// Minimum priority (0=emerg ... 7=debug). Lines above this are dropped.
    /// `None` = no filter.
    pub max_priority: Option<u8>,
    /// Extra labels applied to every emitted log entry.
    pub extra_labels: Labels,
}

impl Default for JournaldConfig {
    fn default() -> (r: Self)
        ensures
            r.units@.len() == 0,
            r.max_priority is None,
            r.extra_labels@ == Map::<Seq<char>, Seq<char>>::empty(),
    {
        JournaldConfig { units: Vec::new(), max_priority: None, extra_labels: Labels::new() }
    }
}

#[derive(Debug, Clone)]
pub struct WindowsEventLogConfig {
    pub name: String,
    /// Channel to read, e.g. "System", "Application", "Security".
    pub channel: String,
    /// Poll interval, e.g. "15s".
    pub interval: String,
    pub extra_labels: Labels,
}

#[derive(Debug, Clone)]
pub struct DockerLogsConfig {
    /// Poll interval, e.g. "5s".
    pub interval: String,
    /// Only collect logs from containers whose name matches this regex.
    /// `None` = all running containers.
    pub name_filter: Option<String>,
    pub extra_labels: Labels,
}

impl Default for DockerLogsConfig {
    fn default() -> (r: Self)
        ensures
            r.interval@ == "5s"@,
            r.name_filter is None,
            r.extra_labels@ == Map::<Seq<char>, Seq<char>>::empty(),
    {
        DockerLogsConfig {
            interval: "5s".to_owned(),
            name_filter: None,
            extra_labels: Labels::new(),
        }
    }
}

#[derive(Debug, Clone)]
pub struct DockerStatsConfig {
    /// Poll interval, e.g. "15s".
    pub interval: String,
    pub extra_labels: Labels,
}

impl Default for DockerStatsConfig {
    fn default() -> (r: Self)
        ensures
            r.interval@ == "15s"@,
            r.extra_labels@ == Map::<Seq<char>, Seq<char>>::empty(),
    {
        DockerStatsConfig { interval: "15s".to_owned(), extra_labels: Labels::new() }
    }
}

#[derive(Debug, Clone)]
pub struct KubernetesPodsConfig {
    /// Directory holding the per-container log symlinks. The kubelet writes
    /// these in the standard CRI layout: `<pod>_<namespace>_<container>-<id>.log`.
    pub log_dir: String,
    /// Only collect logs from pods in these namespaces. Empty = all.
    pub namespaces: Vec<String>,
    pub extra_labels: Labels,
}

impl Default for KubernetesPodsConfig {
    fn default() -> (r: Self)
        ensures
            r.log_dir@ == "/var/log/containers"@,
            r.namespaces@.len() == 0,
            r.extra_labels@ == Map::<Seq<char>, Seq<char>>::empty(),
    {
        KubernetesPodsConfig {
            log_dir: "/var/log/containers".to_owned(),
            namespaces: Vec::new(),
            extra_labels: Labels::new(),
        }
    }
}

/// The interval of a source that states none.
pub fn default_interval() -> (r: String)
    ensures
        r@ == "15s"@,
{
    "15s".to_owned()
}

/// The interval of a scrape target that states none.
pub fn default_scrape_interval() -> (r: String)
    ensures
        r@ == "30s"@,
{
    "30s".to_owned()
}

/// The port of an OTLP receiver that states none.
pub fn default_otlp_port() -> (r: u16)
    ensures
        r == 4318,
{
    4318
}

// ---------------------------------------------------------------------------
// [processors] section
// ---------------------------------------------------------------------------

#[derive(Debug, Clone)]
pub struct ProcessorsConfig {
    pub batch: BatchConfig,
    pub cardinality_guard: Option<CardinalityGuardConfig>,
    pub relabel: Vec<RelabelRule>,
    pub redact_pii: Vec<RedactPiiRule>,
    /// Ordered list of transform operations applied to every signal.
    pub transform: Vec<TransformOp>,
}

impl Default for ProcessorsConfig {
    fn default() -> (r: Self)
        ensures
            r.batch.max_size == 1000,
            r.batch.max_delay@ == "5s"@,
            r.cardinality_guard is None,
            r.relabel@.len() == 0,
            r.redact_pii@.len() == 0,
            r.transform@.len() == 0,
    {
        ProcessorsConfig {
            batch: BatchConfig::default(),
            cardinality_guard: None,
            relabel: Vec::new(),
            redact_pii: Vec::new(),
            transform: Vec::new(),
        }
    }
}

#[derive(Debug, Clone)]
pub struct BatchConfig {
    /// Maximum number of signals in a batch before flushing
    pub max_size: usize,
    /// Maximum time to hold a partial batch before flushing (e.g. "5s")
    pub max_delay: String,
}

impl Default for BatchConfig {
    fn default() -> (r: Self)
        ensures
            r.max_size == 1000,
            r.max_delay@ == "5s"@,
    {
        BatchConfig { max_size: 1000, max_delay: "5s".to_owned() }
    }
}

#[derive(Debug, Clone)]
pub struct CardinalityGuardConfig {
    /// Max unique label-value combinations per metric name before dropping
    pub max_series_per_metric: usize,
}

/// Prometheus-style relabel rule
#[derive(Debug, Clone)]
pub struct RelabelRule {
    pub source_labels: Vec<String>,
    pub separator: Option<String>,
    pub target_label: Option<String>,
    pub regex: Option<String>,
    pub replacement: Option<String>,
    pub action: RelabelAction,
}

#[derive(Debug, Clone, Copy, PartialEq, Eq, Structural)]
pub enum RelabelAction {
    Replace,
    Keep,
    Drop,
    LabelDrop,
    LabelKeep,
    LabelMap,
}

#[derive(Debug, Clone)]
pub struct RedactPiiRule {
    /// Label name or log field to check
    pub field: String,
    /// Regex whose full matches are replaced
    pub pattern: String,
    /// Replacement string (default: "[[pii:FIELD]]")
    pub replacement: Option<String>,
}

/// A single transform operation. Operations are applied in order and use a
/// tiny, predictable template syntax with `${...}` placeholders:
///
/// * `${line}`: the log line (logs only)
/// * `${name}`: the metric name (metrics only)
/// * `${label.NAME}`: the current value of label `NAME`
/// * `${json.FIELD}`: top-level field `FIELD` of the log line parsed as JSON
///
/// There is no scripting: just substitution, so resource usage is bounded and
/// the result is deterministic.
#[derive(Debug, Clone)]
pub enum TransformOp {
    /// Set (or overwrite) a label from a template.
    SetLabel { label: String, value: String },
    /// Remove a label if present.
    RemoveLabel { label: String },
    /// Rename a label, preserving its value.
    RenameLabel { from: String, to: String },
    /// Parse the log line as JSON and lift the listed top-level fields to
    /// labels of the same name. No-op for metrics or non-JSON lines.
    ParseJson { fields: Vec<String> },
}

// ---------------------------------------------------------------------------
// [targets] section
// ---------------------------------------------------------------------------

#[derive(Debug, Clone)]
pub struct TargetsConfig {
    pub pulseboard: Option<PulseBoardTargetConfig>,
}

impl Default for TargetsConfig {
    fn default() -> (r: Self)
        ensures
            r.pulseboard is None,
    {
        TargetsConfig { pulseboard: None }
    }
}

#[derive(Debug, Clone)]
pub struct PulseBoardTargetConfig {
    /// Workspace URL, e.g. https://acme.pulseboard.cloud
    /// Falls back to `agent.pulseboard_url` when omitted.
    pub url: Option<String>,
    /// API key. Supports ${env:VAR} expansion.
    pub api_key: Option<String>,
    /// Send metrics as OTLP JSON (default: true)
    pub otlp_metrics: bool,
    /// Send logs as Loki push JSON (default: true)
    pub loki_logs: bool,
}

/// Whether a target that does not say sends metrics, or logs.
pub fn default_true() -> (r: bool)
    ensures
        r,
{
    true
}

// ---------------------------------------------------------------------------
// Loader
// ---------------------------------------------------------------------------

/// The configuration of a host without a config file: all defaults, with
/// `host_metrics` enabled.
pub fn built_in() -> (r: Config)
    ensures
        r.agent.data_dir@ == "/var/lib/pulseagent"@,
        r.agent.log_level@ == "info"@,
        r.agent.instance_name is None,
        r.agent.enroll_token is None,
        r.agent.pulseboard_url is None,
        r.sources.host_metrics is Some,
        r.sources.host_metrics->0.interval@ == "15s"@,
        r.sources.host_metrics->0.collectors@.len() == 0,
        r.sources.host_metrics->0.extra_labels@ == Map::<Seq<char>, Seq<char>>::empty(),
        (SourcesConfig { host_metrics: None, ..r.sources }).is_empty(),
        r.processors.batch.max_size == 1000,
        r.processors.batch.max_delay@ == "5s"@,
        r.processors.cardinality_guard is None,
        r.processors.relabel@.len() == 0,
        r.processors.redact_pii@.len() == 0,
        r.processors.transform@.len() == 0,
        r.targets.pulseboard is None,
{
    let none = SourcesConfig::default();
    Config {
        agent: AgentConfig::default(),
        sources: SourcesConfig { host_metrics: Some(HostMetricsConfig::default()), ..none },
        processors: ProcessorsConfig::default(),
        targets: TargetsConfig::default(),
    }
}

/// The configuration that an agent runs with: the effective one where it was
/// loaded, or else the base one, with the error where that was not.
pub fn prefer_effective<E>(effective: Option<Config>, base: Result<Config, E>) -> (r: Result<
    Config,
    E,
>)
    ensures
        r == (match effective {
            Some(e) => Ok(e),
            None => base,
        }),
{
    match effective {
        Some(e) => Ok(e),
        None => base,
    }
}

// ---------------------------------------------------------------------------
// Durations
// ---------------------------------------------------------------------------

/// The number of seconds that a duration text like "15s", "1m", "2h" stands
/// for; a plain number counts seconds. A text whose seconds do not fit into 64
/// bits is no duration.
pub open spec fn duration(s: Seq<char>) -> Option<nat> {
    let t = text::trim(s);
    let max = u64::MAX as nat;
    if t.len() > 0 && t.last() == 's' {
        number::parse_nat(text::trim(t.drop_last()), max)
    } else if t.len() > 0 && t.last() == 'm' {
        times(number::parse_nat(text::trim(t.drop_last()), max), 60)
    } else if t.len() > 0 && t.last() == 'h' {
        times(number::parse_nat(text::trim(t.drop_last()), max), 3600)
    } else {
        number::parse_nat(t, max)
    }
}

/// A number, where there is one, taken `factor` times; none where that does
/// not fit into 64 bits.
pub open spec fn times(n: Option<nat>, factor: nat) -> Option<nat> {
    match n {
        Some(v) if v * factor <= u64::MAX => Some(v * factor),
        _ => None,
    }
}

/// A text that is no duration, without the blanks around it.
#[derive(Debug)]
pub struct BadDuration {
    pub text: String,
}

/// Parse a duration string like "15s", "1m", "2h" into seconds.
pub fn parse_duration_secs(s: &str) -> (r: Result<u64, BadDuration>)
    ensures
        match r {
            Ok(n) => duration(s@) == Some(n as nat),
            Err(e) => duration(s@) is None && e.text@ == text::trim(s@),
        },
{
    let chars = text::chars_of(s);
    let t = text::trimmed(chars.as_slice());
    let unit: u64 = if t.len() > 0 && t[t.len() - 1] == 's' {
        1
    } else if t.len() > 0 && t[t.len() - 1] == 'm' {
        60
    } else if t.len() > 0 && t[t.len() - 1] == 'h' {
        3600
    } else {
        0
    };
    let digits = if unit == 0 {
        t
    } else {
        let body = slice_subrange(t, 0, t.len() - 1);
        assert(body@ =~= t@.drop_last());
        text::trimmed(body)
    };
    match number::read_nat(digits, u64::MAX) {
        None => Err(BadDuration { text: text::string_of(t) }),
        Some(n) => {
            if unit == 0 || unit == 1 {
                Ok(n)
            } else if n <= u64::MAX / unit {
                assert(n * unit <= u64::MAX) by (nonlinear_arith)
                    requires
                        n <= u64::MAX / unit,
                        unit > 0,
                ;
                Ok(n * unit)
            } else {
                assert(n * unit > u64::MAX) by (nonlinear_arith)
                    requires
                        n > u64::MAX / unit,
                        unit > 0,
                ;
                Err(BadDuration { text: text::string_of(t) })
            }
        },
    }
}

/// The seconds that `s` stands for, or `fallback` where it is no duration.
pub fn duration_or(s: &str, fallback: u64) -> (r: u64)
    ensures
        match duration(s@) {
            Some(n) => r == n,
            None => r == fallback,
        },
{
    match parse_duration_secs(s) {
        Ok(n) => n,
        Err(_) => fallback,
    }
}

// ---------------------------------------------------------------------------
// Validation
// ---------------------------------------------------------------------------

/// Why a configuration is refused.
#[derive(Debug)]
pub enum ConfigError {
    HostMetricsInterval { interval: String },
    NoPaths { name: String },
    PromScrapeInterval { name: String, interval: String },
    WindowsEventLogInterval { name: String, interval: String },
    DockerLogsInterval { interval: String },
    DockerStatsInterval { interval: String },
}

/// What a `ConfigError` holds.
pub enum ConfigErrorView {
    HostMetricsInterval { interval: Seq<char> },
    NoPaths { name: Seq<char> },
    PromScrapeInterval { name: Seq<char>, interval: Seq<char> },
    WindowsEventLogInterval { name: Seq<char>, interval: Seq<char> },
    DockerLogsInterval { interval: Seq<char> },
    DockerStatsInterval { interval: Seq<char> },
}

impl View for ConfigError {
    type V = ConfigErrorView;

    open spec fn view(&self) -> ConfigErrorView {
        match self {
            ConfigError::HostMetricsInterval { interval } => ConfigErrorView::HostMetricsInterval {
                interval: interval@,
            },
            ConfigError::NoPaths { name } => ConfigErrorView::NoPaths { name: name@ },
            ConfigError::PromScrapeInterval {
                name,
                interval,
            } => ConfigErrorView::PromScrapeInterval { name: name@, interval: interval@ },
            ConfigError::WindowsEventLogInterval {
                name,
                interval,
            } => ConfigErrorView::WindowsEventLogInterval { name: name@, interval: interval@ },
            ConfigError::DockerLogsInterval { interval } => ConfigErrorView::DockerLogsInterval {
                interval: interval@,
            },
            ConfigError::DockerStatsInterval { interval } => ConfigErrorView::DockerStatsInterval {
                interval: interval@,
            },
        }
    }
}

impl ConfigErrorView {
    /// The error in words.
    pub open spec fn message(self) -> Seq<char> {
        match self {
            ConfigErrorView::HostMetricsInterval { interval } => "host_metrics.interval = "@
                + text::quoted(interval),
            ConfigErrorView::NoPaths { name } => "file_logs source "@ + text::quoted(name)
                + " has no paths"@,
            ConfigErrorView::PromScrapeInterval { name, interval } => "prom_scrape "@
                + text::quoted(name) + ": interval = "@ + text::quoted(interval),
            ConfigErrorView::WindowsEventLogInterval { name, interval } => "windows_event_log "@
                + text::quoted(name) + ": interval = "@ + text::quoted(interval),
            ConfigErrorView::DockerLogsInterval { interval } => "docker_logs.interval = "@
                + text::quoted(interval),
            ConfigErrorView::DockerStatsInterval { interval } => "docker_stats.interval = "@
                + text::quoted(interval),
        }
    }
}

impl ConfigError {
    /// The error in words.
    pub fn message(&self) -> (r: String)
        ensures
            r@ == self@.message(),
    {
        match self {
            ConfigError::HostMetricsInterval { interval } => text::cat2(
                "host_metrics.interval = ",
                text::quote(interval.as_str()).as_str(),
            ),
            ConfigError::NoPaths { name } => text::cat3(
                "file_logs source ",
                text::quote(name.as_str()).as_str(),
                " has no paths",
            ),
            ConfigError::PromScrapeInterval { name, interval } => text::cat4(
                "prom_scrape ",
                text::quote(name.as_str()).as_str(),
                ": interval = ",
                text::quote(interval.as_str()).as_str(),
            ),
            ConfigError::WindowsEventLogInterval { name, interval } => text::cat4(
                "windows_event_log ",
                text::quote(name.as_str()).as_str(),
                ": interval = ",
                text::quote(interval.as_str()).as_str(),
            ),
            ConfigError::DockerLogsInterval { interval } => text::cat2(
                "docker_logs.interval = ",
                text::quote(interval.as_str()).as_str(),
            ),
            ConfigError::DockerStatsInterval { interval } => text::cat2(
                "docker_stats.interval = ",
                text::quote(interval.as_str()).as_str(),
            ),
        }
    }
}

/// What a check of a configuration, or of a part of it, comes to.
pub enum Outcome {
    /// Nothing is wrong.
    Fine,
    /// The first thing that is wrong.
    Problem(ConfigErrorView),
}

impl Outcome {
    /// What two checks in a row come to.
    pub open spec fn next(self, other: Outcome) -> Outcome {
        if self is Fine {
            other
        } else {
            self
        }
    }
}

/// What the check of an interval comes to.
pub open spec fn interval_outcome(interval: Seq<char>, e: ConfigErrorView) -> Outcome {
    match duration(interval) {
        Some(_) => Outcome::Fine,
        None => Outcome::Problem(e),
    }
}

pub open spec fn host_metrics_outcome(c: Option<HostMetricsConfig>) -> Outcome {
    match c {
        Some(hm) => interval_outcome(
            hm.interval@,
            ConfigErrorView::HostMetricsInterval { interval: hm.interval@ },
        ),
        None => Outcome::Fine,
    }
}

pub open spec fn file_logs_outcome(s: Seq<FileLogsConfig>) -> Outcome
    decreases s.len(),
{
    if s.len() == 0 {
        Outcome::Fine
    } else if s[0].paths@.len() == 0 {
        Outcome::Problem(ConfigErrorView::NoPaths { name: s[0].name@ })
    } else {
        file_logs_outcome(s.skip(1))
    }
}

pub open spec fn prom_scrape_outcome(s: Seq<PromScrapeConfig>) -> Outcome
    decreases s.len(),
{
    if s.len() == 0 {
        Outcome::Fine
    } else {
        interval_outcome(
            s[0].interval@,
            ConfigErrorView::PromScrapeInterval { name: s[0].name@, interval: s[0].interval@ },
        ).next(prom_scrape_outcome(s.skip(1)))
    }
}

pub open spec fn windows_event_log_outcome(s: Seq<WindowsEventLogConfig>) -> Outcome
    decreases s.len(),
{
    if s.len() == 0 {
        Outcome::Fine
    } else {
        interval_outcome(
            s[0].interval@,
            ConfigErrorView::WindowsEventLogInterval { name: s[0].name@, interval: s[0].interval@ },
        ).next(windows_event_log_outcome(s.skip(1)))
    }
}

pub open spec fn docker_logs_outcome(c: Option<DockerLogsConfig>) -> Outcome {
    match c {
        Some(dl) => interval_outcome(
            dl.interval@,
            ConfigErrorView::DockerLogsInterval { interval: dl.interval@ },
        ),
        None => Outcome::Fine,
    }
}

pub open spec fn docker_stats_outcome(c: Option<DockerStatsConfig>) -> Outcome {
    match c {
        Some(ds) => interval_outcome(
            ds.interval@,
            ConfigErrorView::DockerStatsInterval { interval: ds.interval@ },
        ),
        None => Outcome::Fine,
    }
}

/// What the check of a configuration comes to: the sources are checked one
/// after the other, and the first problem counts.
pub open spec fn outcome(cfg: Config) -> Outcome {
    host_metrics_outcome(cfg.sources.host_metrics).next(
        file_logs_outcome(cfg.sources.file_logs@).next(
            prom_scrape_outcome(cfg.sources.prom_scrape@).next(
                windows_event_log_outcome(cfg.sources.windows_event_log@).next(
                    docker_logs_outcome(cfg.sources.docker_logs).next(
                        docker_stats_outcome(cfg.sources.docker_stats),
                    ),
                ),
            ),
        ),
    )
}

/// `s` is a duration.
pub open spec fn is_interval(s: Seq<char>) -> bool {
    duration(s) is Some
}

/// In a configuration that passes the check, every interval is a duration, and
/// every `file_logs` source has paths: no source falls back to an interval
/// that was not configured.
pub proof fn law_checked_intervals_are_durations(cfg: Config)
    requires
        outcome(cfg) is Fine,
    ensures
        cfg.sources.host_metrics matches Some(c) ==> is_interval(c.interval@),
        cfg.sources.docker_logs matches Some(c) ==> is_interval(c.interval@),
        cfg.sources.docker_stats matches Some(c) ==> is_interval(c.interval@),
        forall|i: int|
            #![trigger cfg.sources.prom_scrape@[i]]
            0 <= i < cfg.sources.prom_scrape@.len() ==> is_interval(
                cfg.sources.prom_scrape@[i].interval@,
            ),
        forall|i: int|
            #![trigger cfg.sources.windows_event_log@[i]]
            0 <= i < cfg.sources.windows_event_log@.len() ==> is_interval(
                cfg.sources.windows_event_log@[i].interval@,
            ),
        forall|i: int|
            #![trigger cfg.sources.file_logs@[i]]
            0 <= i < cfg.sources.file_logs@.len() ==> cfg.sources.file_logs@[i].paths@.len() > 0,
{
    assert forall|i: int|
        #![trigger cfg.sources.prom_scrape@[i]]
        0 <= i < cfg.sources.prom_scrape@.len() implies is_interval(
        cfg.sources.prom_scrape@[i].interval@,
    ) by {
        lemma_prom_scrape_is_fine(cfg.sources.prom_scrape@, i);
    }
    assert forall|i: int|
        #![trigger cfg.sources.windows_event_log@[i]]
        0 <= i < cfg.sources.windows_event_log@.len() implies is_interval(
        cfg.sources.windows_event_log@[i].interval@,
    ) by {
        lemma_windows_event_log_is_fine(cfg.sources.windows_event_log@, i);
    }
    assert forall|i: int|
        #![trigger cfg.sources.file_logs@[i]]
        0 <= i < cfg.sources.file_logs@.len() implies cfg.sources.file_logs@[i].paths@.len()
        > 0 by {
        lemma_file_logs_are_fine(cfg.sources.file_logs@, i);
    }
}

proof fn lemma_prom_scrape_is_fine(s: Seq<PromScrapeConfig>, i: int)
    requires
        prom_scrape_outcome(s) is Fine,
        0 <= i < s.len(),
    ensures
        is_interval(s[i].interval@),
    decreases s.len(),
{
    if i > 0 {
        assert(s.skip(1)[i - 1] == s[i]);
        lemma_prom_scrape_is_fine(s.skip(1), i - 1);
    }
}

proof fn lemma_windows_event_log_is_fine(s: Seq<WindowsEventLogConfig>, i: int)
    requires
        windows_event_log_outcome(s) is Fine,
        0 <= i < s.len(),
    ensures
        is_interval(s[i].interval@),
    decreases s.len(),
{
    if i > 0 {
        assert(s.skip(1)[i - 1] == s[i]);
        lemma_windows_event_log_is_fine(s.skip(1), i - 1);
    }
}

proof fn lemma_file_logs_are_fine(s: Seq<FileLogsConfig>, i: int)
    requires
        file_logs_outcome(s) is Fine,
        0 <= i < s.len(),
    ensures
        s[i].paths@.len() > 0,
    decreases s.len(),
{
    if i > 0 {
        assert(s.skip(1)[i - 1] == s[i]);
        lemma_file_logs_are_fine(s.skip(1), i - 1);
    }
}

enum Found {
    Fine,
    Problem(ConfigError),
}

impl Found {
    spec fn outcome(self) -> Outcome {
        match self {
            Found::Fine => Outcome::Fine,
            Found::Problem(e) => Outcome::Problem(e@),
        }
    }
}

fn check_interval(interval: &str, e: ConfigError) -> (r: Found)
    ensures
        r.outcome() == interval_outcome(interval@, e@),
{
    match parse_duration_secs(interval) {
        Ok(_) => Found::Fine,
        Err(_) => Found::Problem(e),
    }
}

fn check_file_logs(s: &Vec<FileLogsConfig>) -> (r: Found)
    ensures
        r.outcome() == file_logs_outcome(s@),
{
    let mut i: usize = 0;
    assert(s@.skip(0) =~= s@);
    while i < s.len()
        invariant
            i <= s@.len(),
            file_logs_outcome(s@) == file_logs_outcome(s@.skip(i as int)),
        decreases s@.len() - i,
    {
        assert(s@.skip(i as int)[0] == s@[i as int]);
        assert(s@.skip(i as int).skip(1) =~= s@.skip(i + 1));
        if s[i].paths.len() == 0 {
            return Found::Problem(ConfigError::NoPaths { name: s[i].name.clone() });
        }
        i = i + 1;
    }
    Found::Fine
}

fn check_prom_scrape(s: &Vec<PromScrapeConfig>) -> (r: Found)
    ensures
        r.outcome() == prom_scrape_outcome(s@),
{
    let mut i: usize = 0;
    assert(s@.skip(0) =~= s@);
    while i < s.len()
        invariant
            i <= s@.len(),
            prom_scrape_outcome(s@) == prom_scrape_outcome(s@.skip(i as int)),
        decreases s@.len() - i,
    {
        assert(s@.skip(i as int)[0] == s@[i as int]);
        assert(s@.skip(i as int).skip(1) =~= s@.skip(i + 1));
        let found = check_interval(
            s[i].interval.as_str(),
            ConfigError::PromScrapeInterval {
                name: s[i].name.clone(),
                interval: s[i].interval.clone(),
            },
        );
        match found {
            Found::Fine => {},
            other => {
                return other;
            },
        }
        i = i + 1;
    }
    Found::Fine
}

fn check_windows_event_log(s: &Vec<WindowsEventLogConfig>) -> (r: Found)
    ensures
        r.outcome() == windows_event_log_outcome(s@),
{
    let mut i: usize = 0;
    assert(s@.skip(0) =~= s@);
    while i < s.len()
        invariant
            i <= s@.len(),
            windows_event_log_outcome(s@) == windows_event_log_outcome(s@.skip(i as int)),
        decreases s@.len() - i,
    {
        assert(s@.skip(i as int)[0] == s@[i as int]);
        assert(s@.skip(i as int).skip(1) =~= s@.skip(i + 1));
        let found = check_interval(
            s[i].interval.as_str(),
            ConfigError::WindowsEventLogInterval {
                name: s[i].name.clone(),
                interval: s[i].interval.clone(),
            },
        );
        match found {
            Found::Fine => {},
            other => {
                return other;
            },
        }
        i = i + 1;
    }
    Found::Fine
}

fn check(cfg: &Config) -> (r: Found)
    ensures
        r.outcome() == outcome(*cfg),
{
    if let Some(hm) = &cfg.sources.host_metrics {
        let e = ConfigError::HostMetricsInterval { interval: hm.interval.clone() };
        match check_interval(hm.interval.as_str(), e) {
            Found::Fine => {},
            other => {
                return other;
            },
        }
    }
    match check_file_logs(&cfg.sources.file_logs) {
        Found::Fine => {},
        other => {
            return other;
        },
    }
    match check_prom_scrape(&cfg.sources.prom_scrape) {
        Found::Fine => {},
        other => {
            return other;
        },
    }
    match check_windows_event_log(&cfg.sources.windows_event_log) {
        Found::Fine => {},
        other => {
            return other;
        },
    }
    if let Some(dl) = &cfg.sources.docker_logs {
        let e = ConfigError::DockerLogsInterval { interval: dl.interval.clone() };
        match check_interval(dl.interval.as_str(), e) {
            Found::Fine => {},
            other => {
                return other;
            },
        }
    }
    if let Some(ds) = &cfg.sources.docker_stats {
        let e = ConfigError::DockerStatsInterval { interval: ds.interval.clone() };
        return check_interval(ds.interval.as_str(), e);
    }
    Found::Fine
}

/// Refuses a configuration with an interval that is no duration, or with a
/// file source that has no paths.
pub fn validate(cfg: &Config) -> (r: Result<(), ConfigError>)
    ensures
        match r {
            Ok(_) => outcome(*cfg) is Fine,
            Err(e) => outcome(*cfg) == Outcome::Problem(e@),
        },
{
    match check(cfg) {
        Found::Problem(e) => Err(e),
        Found::Fine => Ok(()),
    }
}

/// Whether signals have nowhere to go: no target is configured, and no
/// workspace URL.
pub open spec fn targetless(cfg: Config) -> bool {
    cfg.targets.pulseboard is None && cfg.agent.pulseboard_url is None
}

/// Whether signals have nowhere to go.
pub fn has_no_target(cfg: &Config) -> (r: bool)
    ensures
        r == targetless(*cfg),
{
    cfg.targets.pulseboard.is_none() && cfg.agent.pulseboard_url.is_none()
}

// ---------------------------------------------------------------------------
// ${env:VAR} expansion
// ---------------------------------------------------------------------------

/// A character that may begin a variable's name.
pub open spec fn is_ident_start(c: char) -> bool {
    'A' <= c <= 'Z' || 'a' <= c <= 'z' || c == '_'
}

/// A character that may stand in a variable's name.
pub open spec fn is_ident(c: char) -> bool {
    is_ident_start(c) || number::is_digit(c)
}

/// The number of name characters in a row from position `from` on.
pub open spec fn ident_run(s: Seq<char>, from: int) -> int
    decreases s.len() - from,
{
    if from < 0 || from >= s.len() || !is_ident(s[from]) {
        0
    } else {
        1 + ident_run(s, from + 1)
    }
}

/// The length of the placeholder `${env:NAME}` that `s` begins with.
pub open spec fn placeholder(s: Seq<char>) -> Option<int> {
    let end = 6 + ident_run(s, 6);
    if text::begins(s, "${env:"@) && 6 < s.len() && is_ident_start(s[6]) && end < s.len() && s[end]
        == '}' {
        Some(end + 1)
    } else {
        None
    }
}

/// The value of a variable; empty where it is not set.
pub open spec fn value_of(vars: Map<Seq<char>, Seq<char>>, name: Seq<char>) -> Seq<char> {
    if vars.contains_key(name) {
        vars[name]
    } else {
        Seq::empty()
    }
}

/// `s` with each placeholder replaced by the variable's value.
pub open spec fn expand(s: Seq<char>, vars: Map<Seq<char>, Seq<char>>) -> Seq<char>
    decreases s.len(),
{
    if s.len() == 0 {
        Seq::empty()
    } else {
        match placeholder(s) {
            Some(n) => if 6 < n <= s.len() {
                value_of(vars, s.subrange(6, n - 1)) + expand(s.skip(n), vars)
            } else {
                s
            },
            None => seq![s[0]] + expand(s.skip(1), vars),
        }
    }
}

proof fn lemma_ident_run(s: Seq<char>, from: int)
    requires
        0 <= from,
    ensures
        0 <= ident_run(s, from),
        from <= s.len() ==> from + ident_run(s, from) <= s.len(),
    decreases s.len() - from,
{
    if from < s.len() && is_ident(s[from]) {
        lemma_ident_run(s, from + 1);
    }
}

/// A text without `${env:` is left as it is.
pub proof fn law_expand_keeps_plain_text(s: Seq<char>, vars: Map<Seq<char>, Seq<char>>)
    requires
        !text::contains(s, "${env:"@),
    ensures
        expand(s, vars) == s,
    decreases s.len(),
{
    if s.len() > 0 {
        let mark = "${env:"@;
        text::lemma_find_from(s, mark, 0);
        let rest = s.skip(1);
        if text::contains(rest, mark) {
            text::lemma_find_from(rest, mark, 0);
            let i = text::find(rest, mark)->0;
            assert(text::stands_at(s, mark, i + 1)) by {
                assert(s.subrange(i + 1, i + 1 + mark.len()) =~= rest.subrange(i, i + mark.len()));
            }
        }
        if text::begins(s, mark) {
            assert(text::stands_at(s, mark, 0));
        }
        law_expand_keeps_plain_text(rest, vars);
        assert(seq![s[0]] + rest =~= s);
    }
}

/// A placeholder of a variable that is not set leaves nothing behind.
pub proof fn law_expand_unset_is_empty(name: Seq<char>, vars: Map<Seq<char>, Seq<char>>)
    requires
        name.len() > 0,
        is_ident_start(name[0]),
        forall|i: int| 0 <= i < name.len() ==> is_ident(#[trigger] name[i]),
        !vars.contains_key(name),
    ensures
        expand("${env:"@ + name + "}"@, vars) == Seq::<char>::empty(),
{
    let s = "${env:"@ + name + "}"@;
    reveal_strlit("${env:");
    reveal_strlit("}");
    lemma_ident_run_is(s, 6, name.len() as int);
    assert(text::begins(s, "${env:"@)) by {
        assert(s.take(6) =~= "${env:"@);
    }
    assert(s[6] == name[0]);
    assert(placeholder(s) == Some(s.len() as int));
    assert(s.subrange(6, s.len() - 1) =~= name);
    assert(s.skip(s.len() as int) =~= Seq::empty());
    assert(expand(s.skip(s.len() as int), vars) =~= Seq::empty());
    assert(expand(s, vars) =~= Seq::empty());
}

proof fn lemma_ident_run_is(s: Seq<char>, from: int, n: int)
    requires
        0 <= from,
        0 <= n,
        from + n < s.len(),
        forall|i: int| from <= i < from + n ==> is_ident(#[trigger] s[i]),
        !is_ident(s[from + n]),
    ensures
        ident_run(s, from) == n,
    decreases n,
{
    if n > 0 {
        lemma_ident_run_is(s, from + 1, n - 1);
    }
}

fn placeholder_len(s: &[char]) -> (r: Option<usize>)
    ensures
        text::as_pos(r) == placeholder(s@),
        r matches Some(n) ==> 7 < n <= s@.len(),
{
    proof {
        reveal_strlit("${env:");
        lemma_ident_run(s@, 6);
    }
    if s.len() <= 6 || !text::starts_with(s, "${env:") {
        return None;
    }
    if !ident_start(s[6]) {
        return None;
    }
    let mut i: usize = 6;
    while i < s.len() && (ident_start(s[i]) || number::digit(s[i]))
        invariant
            6 <= i <= s@.len(),
            ident_run(s@, 6) == i - 6 + ident_run(s@, i as int),
        decreases s@.len() - i,
    {
        i = i + 1;
    }
    assert(ident_run(s@, 6) == 1 + ident_run(s@, 7));
    proof {
        lemma_ident_run(s@, 7);
    }
    if i < s.len() && s[i] == '}' {
        Some(i + 1)
    } else {
        None
    }
}

fn ident_start(c: char) -> (r: bool)
    ensures
        r == is_ident_start(c),
{
    ('A' <= c && c <= 'Z') || ('a' <= c && c <= 'z') || c == '_'
}

/// Replaces each `${env:NAME}` by the value of the variable, which is empty
/// where the variable is not set.
pub fn expand_env_vars(s: &str, vars: &Labels) -> (r: String)
    ensures
        r@ == expand(s@, vars@),
{
    let chars = text::chars_of(s);
    let mut out = String::new();
    let mut i: usize = 0;
    assert(s@.skip(0) =~= s@);
    assert(out@ + expand(s@, vars@) =~= expand(s@, vars@));
    while i < chars.len()
        invariant
            chars@ == s@,
            i <= s@.len(),
            out@ + expand(s@.skip(i as int), vars@) == expand(s@, vars@),
        decreases s@.len() - i,
    {
        let rest = slice_subrange(chars.as_slice(), i, chars.len());
        assert(rest@ =~= s@.skip(i as int));
        let ghost before = out@;
        match placeholder_len(rest) {
            Some(n) => {
                let name = text::string_of(slice_subrange(rest, 6, n - 1));
                if let Some(v) = vars.get(name.as_str()) {
                    out.append(v.as_str());
                }
                assert(rest@.skip(n as int) =~= s@.skip(i + n));
                assert(out@ + expand(s@.skip(i + n), vars@) =~= before + (value_of(
                    vars@,
                    name@,
                ) + expand(s@.skip(i + n), vars@)));
                i = i + n;
            },
            None => {
                out.push(rest[0]);
                assert(rest@.skip(1) =~= s@.skip(i + 1));
                assert(out@ + expand(s@.skip(i + 1), vars@) =~= before + (seq![rest@[0]] + expand(
                    s@.skip(i + 1),
                    vars@,
                )));
                i = i + 1;
            },
        }
    }
    assert(s@.skip(i as int) =~= Seq::empty());
    assert(out@ + expand(s@.skip(i as int), vars@) =~= out@);
    out
}

// ---------------------------------------------------------------------------
// Laws
// ---------------------------------------------------------------------------

/// A number counts seconds, by itself and before an `s`, minutes before an `m`
/// and hours before an `h`, with or without white space around it. Where the
/// seconds do not fit into 64 bits, the text is no duration.
pub proof fn law_durations_count_seconds_minutes_and_hours(
    before: Seq<char>,
    n: nat,
    after: Seq<char>,
)
    requires
        text::all_white(before),
        text::all_white(after),
    ensures
        ({
            let d = number::dec(n);
            &&& n <= u64::MAX ==> duration(before + d + after) == Some(n)
            &&& n <= u64::MAX ==> duration(before + (d + seq!['s']) + after) == Some(n)
            &&& n * 60 <= u64::MAX ==> duration(before + (d + seq!['m']) + after) == Some(n * 60)
            &&& n * 3600 <= u64::MAX ==> duration(before + (d + seq!['h']) + after) == Some(
                n * 3600,
            )
            &&& n > u64::MAX ==> duration(before + d + after) is None
            &&& n > u64::MAX ==> duration(before + (d + seq!['s']) + after) is None
            &&& n * 60 > u64::MAX ==> duration(before + (d + seq!['m']) + after) is None
            &&& n * 3600 > u64::MAX ==> duration(before + (d + seq!['h']) + after) is None
        }),
{
    let d = number::dec(n);
    let none = Seq::<char>::empty();
    number::law_naturals_are_read_as_written(n, u64::MAX as nat);
    number::law_naturals_are_read_as_written(n, n);
    number::law_only_digits_are_read(d, n);
    assert(number::parse_nat(d, n) == Some(n));
    assert(d.len() > 0);
    if d[0] == '+' {
        assert(number::dec(n)[0] != '+') by {
            lemma_digits_first(n);
        }
    }
    lemma_digits_first(n);
    assert('0' <= d[0] <= '9');
    assert('0' <= d[d.len() - 1] <= '9' || d.len() == 1);
    assert('0' <= d.last() <= '9');
    text::law_trim_takes_white_space_off_both_ends(before, d, after);
    text::law_trim_takes_white_space_off_both_ends(none, d, none);
    assert(none + d + none =~= d);
    let s = d + seq!['s'];
    assert(s.last() == 's' && s[0] == d[0]);
    assert(s.drop_last() =~= d);
    text::law_trim_takes_white_space_off_both_ends(before, s, after);
    let m = d + seq!['m'];
    assert(m.last() == 'm' && m[0] == d[0]);
    assert(m.drop_last() =~= d);
    text::law_trim_takes_white_space_off_both_ends(before, m, after);
    let h = d + seq!['h'];
    assert(h.last() == 'h' && h[0] == d[0]);
    assert(h.drop_last() =~= d);
    text::law_trim_takes_white_space_off_both_ends(before, h, after);
}

proof fn lemma_digits_first(n: nat)
    ensures
        number::dec(n).len() > 0,
        '0' <= number::dec(n)[0] <= '9',
        '0' <= number::dec(n).last() <= '9',
    decreases n,
{
    if n >= 10 {
        lemma_digits_first(n / 10);
        assert(number::dec(n)[0] == number::dec(n / 10)[0]);
    }
}

/// A configuration passes the check if all of its intervals are durations and
/// all of its file sources have paths.
pub proof fn law_good_configurations_pass(cfg: Config)
    requires
        cfg.sources.host_metrics matches Some(c) ==> is_interval(c.interval@),
        cfg.sources.docker_logs matches Some(c) ==> is_interval(c.interval@),
        cfg.sources.docker_stats matches Some(c) ==> is_interval(c.interval@),
        forall|i: int|
            #![trigger cfg.sources.prom_scrape@[i]]
            0 <= i < cfg.sources.prom_scrape@.len() ==> is_interval(
                cfg.sources.prom_scrape@[i].interval@,
            ),
        forall|i: int|
            #![trigger cfg.sources.windows_event_log@[i]]
            0 <= i < cfg.sources.windows_event_log@.len() ==> is_interval(
                cfg.sources.windows_event_log@[i].interval@,
            ),
        forall|i: int|
            #![trigger cfg.sources.file_logs@[i]]
            0 <= i < cfg.sources.file_logs@.len() ==> cfg.sources.file_logs@[i].paths@.len() > 0,
    ensures
        outcome(cfg) is Fine,
{
    law_the_problem_is_real(cfg);
}

/// What the check complains of is there: the error names the source, and the
/// interval that is no duration.
pub proof fn law_the_problem_is_real(cfg: Config)
    ensures
        outcome(cfg) matches Outcome::Problem(e) ==> match e {
            ConfigErrorView::HostMetricsInterval { interval } => cfg.sources.host_metrics matches
                Some(c) && c.interval@ == interval && duration(interval) is None,
            ConfigErrorView::NoPaths { name } => exists|i: int|
                0 <= i < cfg.sources.file_logs@.len() && (
                #[trigger] cfg.sources.file_logs@[i]).name@ == name
                    && cfg.sources.file_logs@[i].paths@.len() == 0,
            ConfigErrorView::PromScrapeInterval { name, interval } => duration(interval) is None
                && exists|i: int|
                0 <= i < cfg.sources.prom_scrape@.len() && (
                #[trigger] cfg.sources.prom_scrape@[i]).name@ == name
                    && cfg.sources.prom_scrape@[i].interval@ == interval,
            ConfigErrorView::WindowsEventLogInterval { name, interval } => duration(interval) is None
                && exists|i: int|
                0 <= i < cfg.sources.windows_event_log@.len() && (
                #[trigger] cfg.sources.windows_event_log@[i]).name@ == name
                    && cfg.sources.windows_event_log@[i].interval@ == interval,
            ConfigErrorView::DockerLogsInterval { interval } => cfg.sources.docker_logs matches Some(
                c,
            ) && c.interval@ == interval && duration(interval) is None,
            ConfigErrorView::DockerStatsInterval { interval } => cfg.sources.docker_stats matches
                Some(c) && c.interval@ == interval && duration(interval) is None,
        },
{
    lemma_file_logs_problem(cfg.sources.file_logs@);
    lemma_prom_scrape_problem(cfg.sources.prom_scrape@);
    lemma_windows_problem(cfg.sources.windows_event_log@);
}

proof fn lemma_file_logs_problem(s: Seq<FileLogsConfig>)
    ensures
        file_logs_outcome(s) matches Outcome::Problem(e) ==> (e matches ConfigErrorView::NoPaths {
            name,
        } && exists|i: int|
            0 <= i < s.len() && (#[trigger] s[i]).name@ == name && s[i].paths@.len() == 0),
    decreases s.len(),
{
    if s.len() > 0 {
        let rest = s.skip(1);
        lemma_file_logs_problem(rest);
        assert forall|i: int| 0 <= i < rest.len() implies #[trigger] rest[i] == s[i + 1] by {}
        if s[0].paths@.len() > 0 {
            if let Outcome::Problem(ConfigErrorView::NoPaths { name }) = file_logs_outcome(rest) {
                let i = choose|i: int|
                    0 <= i < rest.len() && (#[trigger] rest[i]).name@ == name
                        && rest[i].paths@.len() == 0;
                assert(s[i + 1].name@ == name);
            }
        }
    }
}

proof fn lemma_prom_scrape_problem(s: Seq<PromScrapeConfig>)
    ensures
        prom_scrape_outcome(s) matches Outcome::Problem(e) ==> (e matches
            ConfigErrorView::PromScrapeInterval { name, interval } && duration(interval) is None
            && exists|i: int|
            0 <= i < s.len() && (#[trigger] s[i]).name@ == name && s[i].interval@ == interval),
    decreases s.len(),
{
    if s.len() > 0 {
        let rest = s.skip(1);
        lemma_prom_scrape_problem(rest);
        assert forall|i: int| 0 <= i < rest.len() implies #[trigger] rest[i] == s[i + 1] by {}
        if duration(s[0].interval@) is Some {
            if let Outcome::Problem(
                ConfigErrorView::PromScrapeInterval { name, interval },
            ) = prom_scrape_outcome(rest) {
                let i = choose|i: int|
                    0 <= i < rest.len() && (#[trigger] rest[i]).name@ == name && rest[i].interval@
                        == interval;
                assert(s[i + 1].name@ == name);
            }
        }
    }
}

proof fn lemma_windows_problem(s: Seq<WindowsEventLogConfig>)
    ensures
        windows_event_log_outcome(s) matches Outcome::Problem(e) ==> (e matches
            ConfigErrorView::WindowsEventLogInterval { name, interval } && duration(
            interval,
        ) is None && exists|i: int|
            0 <= i < s.len() && (#[trigger] s[i]).name@ == name && s[i].interval@ == interval),
    decreases s.len(),
{
    if s.len() > 0 {
        let rest = s.skip(1);
        lemma_windows_problem(rest);
        assert forall|i: int| 0 <= i < rest.len() implies #[trigger] rest[i] == s[i + 1] by {}
        if duration(s[0].interval@) is Some {
            if let Outcome::Problem(
                ConfigErrorView::WindowsEventLogInterval { name, interval },
            ) = windows_event_log_outcome(rest) {
                let i = choose|i: int|
                    0 <= i < rest.len() && (#[trigger] rest[i]).name@ == name && rest[i].interval@
                        == interval;
                assert(s[i + 1].name@ == name);
            }
        }
    }
}

/// Each error has its words, which name what is wrong.
pub proof fn law_config_errors_have_their_words(name: Seq<char>, interval: Seq<char>)
    ensures
        (ConfigErrorView::HostMetricsInterval { interval }).message()
            == "host_metrics.interval = "@ + text::quoted(interval),
        (ConfigErrorView::NoPaths { name }).message() == "file_logs source "@ + text::quoted(name)
            + " has no paths"@,
        (ConfigErrorView::PromScrapeInterval { name, interval }).message() == "prom_scrape "@
            + text::quoted(name) + ": interval = "@ + text::quoted(interval),
        (ConfigErrorView::WindowsEventLogInterval { name, interval }).message()
            == "windows_event_log "@ + text::quoted(name) + ": interval = "@ + text::quoted(
            interval,
        ),
        (ConfigErrorView::DockerLogsInterval { interval }).message() == "docker_logs.interval = "@
            + text::quoted(interval),
        (ConfigErrorView::DockerStatsInterval { interval }).message()
            == "docker_stats.interval = "@ + text::quoted(interval),
{
}

/// Signals have somewhere to go where a target is configured, and where the agent
/// names a workspace.
pub proof fn law_a_target_or_a_workspace_will_do(cfg: Config)
    ensures
        cfg.targets.pulseboard is Some ==> !targetless(cfg),
        cfg.agent.pulseboard_url is Some ==> !targetless(cfg),
        cfg.targets.pulseboard is None && cfg.agent.pulseboard_url is None ==> targetless(cfg),
{
}

/// Any one source will do for a configuration to have sources.
pub proof fn law_any_source_counts(s: SourcesConfig)
    ensures
        s.host_metrics is Some || s.file_logs@.len() > 0 || s.prom_scrape@.len() > 0
            || s.otlp is Some || s.journald is Some || s.windows_event_log@.len() > 0
            || s.docker_logs is Some || s.docker_stats is Some || s.kubernetes_pods is Some
            <==> !s.is_empty(),
{
}

/// Every placeholder is replaced by the value of its variable, wherever it
/// stands: the text before it stays, and what follows is expanded in its turn.
pub proof fn law_every_placeholder_is_expanded(
    before: Seq<char>,
    name: Seq<char>,
    rest: Seq<char>,
    vars: Map<Seq<char>, Seq<char>>,
)
    requires
        !text::contains(before, "${env:"@),
        name.len() > 0,
        is_ident_start(name[0]),
        forall|i: int| 0 <= i < name.len() ==> is_ident(#[trigger] name[i]),
    ensures
        vars.contains_key(name) ==> expand(before + ("${env:"@ + name + "}"@ + rest), vars)
            == before + vars[name] + expand(rest, vars),
        !vars.contains_key(name) ==> expand(before + ("${env:"@ + name + "}"@ + rest), vars)
            == before + expand(rest, vars),
    decreases before.len(),
{
    reveal_strlit("${env:");
    reveal_strlit("}");
    let tail = "${env:"@ + name + "}"@ + rest;
    let s = before + tail;
    if before.len() == 0 {
        assert(s =~= tail);
        lemma_placeholder_is(name, rest);
        let n = 7 + name.len() as int;
        assert(tail.subrange(6, n - 1) =~= name);
        assert(tail.skip(n) =~= rest);
        assert(before + vars[name] =~= vars[name]);
        assert(before + expand(rest, vars) =~= expand(rest, vars));
        assert(Seq::<char>::empty() + expand(rest, vars) =~= expand(rest, vars));
    } else {
        let b = before.len() as int;
        assert(s[0] == before[0]);
        if text::begins(s, "${env:"@) {
            if b >= 6 {
                assert(before.subrange(0, 6) =~= s.subrange(0, 6));
                assert(text::stands_at(before, "${env:"@, 0));
            } else {
                assert(s[b] == '$');
                assert(s.subrange(0, 6)[b] == s[b]);
                assert("${env:"@[b] != '$');
            }
            assert(false);
        }
        assert(placeholder(s) is None);
        let shorter = before.skip(1);
        assert(s.skip(1) =~= shorter + tail);
        if text::contains(shorter, "${env:"@) {
            let i = choose|i: int| text::stands_at(shorter, "${env:"@, i);
            assert(shorter.subrange(i, i + 6) =~= before.subrange(i + 1, i + 7));
            assert(text::stands_at(before, "${env:"@, i + 1));
        }
        law_every_placeholder_is_expanded(shorter, name, rest, vars);
        assert(seq![s[0]] + shorter =~= before);
        if vars.contains_key(name) {
            assert(seq![s[0]] + (shorter + vars[name] + expand(rest, vars)) =~= before + vars[name]
                + expand(rest, vars));
        } else {
            assert(seq![s[0]] + (shorter + expand(rest, vars)) =~= before + expand(rest, vars));
        }
    }
}

proof fn lemma_placeholder_is(name: Seq<char>, rest: Seq<char>)
    requires
        name.len() > 0,
        is_ident_start(name[0]),
        forall|i: int| 0 <= i < name.len() ==> is_ident(#[trigger] name[i]),
    ensures
        placeholder("${env:"@ + name + "}"@ + rest) == Some(7 + name.len() as int),
{
    reveal_strlit("${env:");
    reveal_strlit("}");
    let s = "${env:"@ + name + "}"@ + rest;
    assert(s.subrange(0, 6) =~= "${env:"@);
    assert(s[6] == name[0]);
    let n = name.len() as int;
    assert(s[6 + n] == '}');
    assert forall|i: int| 6 <= i < 6 + n implies is_ident(#[trigger] s[i]) by {
        assert(s[i] == name[i - 6]);
    }
    lemma_run_is(s, 6, n);
}

proof fn lemma_run_is(s: Seq<char>, from: int, n: int)
    requires
        0 <= from,
        0 <= n,
        from + n < s.len(),
        forall|i: int| from <= i < from + n ==> is_ident(#[trigger] s[i]),
        !is_ident(s[from + n]),
    ensures
        ident_run(s, from) == n,
    decreases n,
{
    if n > 0 {
        lemma_run_is(s, from + 1, n - 1);
    }
}

/// An error holds the names and the intervals that it is about.
pub proof fn law_config_errors_hold_what_they_are_about(name: String, interval: String)
    ensures
        (ConfigError::HostMetricsInterval { interval })@ == (ConfigErrorView::HostMetricsInterval {
            interval: interval@,
        }),
        (ConfigError::NoPaths { name })@ == (ConfigErrorView::NoPaths { name: name@ }),
        (ConfigError::PromScrapeInterval { name, interval })@ == (
        ConfigErrorView::PromScrapeInterval { name: name@, interval: interval@ }),
        (ConfigError::WindowsEventLogInterval { name, interval })@ == (
        ConfigErrorView::WindowsEventLogInterval { name: name@, interval: interval@ }),
        (ConfigError::DockerLogsInterval { interval })@ == (ConfigErrorView::DockerLogsInterval {
            interval: interval@,
        }),
        (ConfigError::DockerStatsInterval { interval })@ == (ConfigErrorView::DockerStatsInterval {
            interval: interval@,
        }),
{
}

/// The sources are checked in their order, and the first that is wrong is the one
/// that is reported.
pub proof fn law_the_first_problem_counts(cfg: Config, i: int)
    ensures
        cfg.sources.host_metrics matches Some(c) ==> (duration(c.interval@) is None ==> outcome(cfg)
            == Outcome::Problem(ConfigErrorView::HostMetricsInterval { interval: c.interval@ })),
        (cfg.sources.host_metrics matches Some(c) ==> is_interval(c.interval@)) && 0 <= i
            < cfg.sources.file_logs@.len() && cfg.sources.file_logs@[i].paths@.len() == 0 && (
        forall|j: int|
            0 <= j < i ==> (#[trigger] cfg.sources.file_logs@[j]).paths@.len() > 0) ==> outcome(cfg)
            == Outcome::Problem(ConfigErrorView::NoPaths { name: cfg.sources.file_logs@[i].name@ }),
{
    if 0 <= i < cfg.sources.file_logs@.len() && cfg.sources.file_logs@[i].paths@.len() == 0 && (
    forall|j: int| 0 <= j < i ==> (#[trigger] cfg.sources.file_logs@[j]).paths@.len() > 0) {
        lemma_first_without_paths(cfg.sources.file_logs@, i);
    }
}

proof fn lemma_first_without_paths(s: Seq<FileLogsConfig>, i: int)
    requires
        0 <= i < s.len(),
        s[i].paths@.len() == 0,
        forall|j: int| 0 <= j < i ==> (#[trigger] s[j]).paths@.len() > 0,
    ensures
        file_logs_outcome(s) == Outcome::Problem(ConfigErrorView::NoPaths { name: s[i].name@ }),
    decreases i,
{
    if i > 0 {
        assert(s[0].paths@.len() > 0);
        let rest = s.skip(1);
        assert forall|j: int| 0 <= j < i - 1 implies (#[trigger] rest[j]).paths@.len() > 0 by {
            assert(rest[j] == s[j + 1]);
        }
        lemma_first_without_paths(rest, i - 1);
    }
}

/// White space may stand between the number and its unit.
pub proof fn law_a_unit_may_stand_apart(n: nat, gap: Seq<char>)
    requires
        text::all_white(gap),
        n * 3600 <= u64::MAX,
    ensures
        duration(number::dec(n) + gap + seq!['s']) == Some(n),
        duration(number::dec(n) + gap + seq!['m']) == Some(n * 60),
        duration(number::dec(n) + gap + seq!['h']) == Some(n * 3600),
{
    let d = number::dec(n);
    let none = Seq::<char>::empty();
    number::law_naturals_are_read_as_written(n, u64::MAX as nat);
    lemma_digits_first(n);
    text::law_trim_takes_white_space_off_both_ends(none, d, gap);
    assert(none + d + gap =~= d + gap);
    let s = d + gap + seq!['s'];
    assert(s[0] == d[0] && s.last() == 's');
    assert(s.drop_last() =~= d + gap);
    text::law_trim_takes_white_space_off_both_ends(none, s, none);
    assert(none + s + none =~= s);
    let m = d + gap + seq!['m'];
    assert(m[0] == d[0] && m.last() == 'm');
    assert(m.drop_last() =~= d + gap);
    text::law_trim_takes_white_space_off_both_ends(none, m, none);
    assert(none + m + none =~= m);
    let h = d + gap + seq!['h'];
    assert(h[0] == d[0] && h.last() == 'h');
    assert(h.drop_last() =~= d + gap);
    text::law_trim_takes_white_space_off_both_ends(none, h, none);
    assert(none + h + none =~= h);
}

/// Nothing else is a duration: what is one is a number, taken once, sixty times
/// or thirty-six hundred times as its last character says.
pub proof fn law_only_numbers_are_durations(s: Seq<char>)
    ensures
        duration(s) matches Some(n) ==> {
            let t = text::trim(s);
            &&& t.len() > 0
            &&& t.last() == 's' ==> number::parse_nat(
                text::trim(t.drop_last()),
                u64::MAX as nat,
            ) == Some(n)
            &&& t.last() == 'm' ==> (number::parse_nat(
                text::trim(t.drop_last()),
                u64::MAX as nat,
            ) matches Some(k) && n == k * 60)
            &&& t.last() == 'h' ==> (number::parse_nat(
                text::trim(t.drop_last()),
                u64::MAX as nat,
            ) matches Some(k) && n == k * 3600)
            &&& t.last() != 's' && t.last() != 'm' && t.last() != 'h' ==> number::parse_nat(
                t,
                u64::MAX as nat,
            ) == Some(n)
            &&& n <= u64::MAX
        },
{
}

} // verus!
