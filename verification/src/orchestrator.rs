//! The container orchestrator's decision core: the registry of live
//! containers (one record per language, ports unique), the deterministic
//! naming and configuration of a container, and the spawn, health-check
//! and teardown sequences as explicit state machines. The daemon calls
//! themselves are I/O the runtime performs between steps.
use vstd::prelude::*;

use crate::api_types::SupportedLanguages;
use crate::text::{dec_chars, dec_string};

verus! {

/// The orchestrator's bookkeeping for one live container.
#[derive(Clone, Debug)]
pub struct ContainerInfo {
    pub container_id: String,
    pub image_name: String,
    pub port: u16,
    pub endpoint: String,
}

impl ContainerInfo {
    /// A field-wise copy with known contents.
    pub fn duplicate(&self) -> (r: ContainerInfo)
        ensures
            r.container_id@ == self.container_id@,
            r.image_name@ == self.image_name@,
            r.port == self.port,
            r.endpoint@ == self.endpoint@,
    {
        ContainerInfo {
            container_id: self.container_id.clone(),
            image_name: self.image_name.clone(),
            port: self.port,
            endpoint: self.endpoint.clone(),
        }
    }
}

/// An orchestrator failure.
#[derive(Clone, Debug)]
pub enum OrchestratorError {
    /// The daemon refused or failed a request; carries its diagnostic.
    Docker(String),
    /// The health check failed or timed out; carries the recent logs.
    HealthCheck(String),
    /// The container did not come up in time.
    SpawnTimeout,
    /// A network failure talking to the container.
    Network(String),
    /// An I/O failure, such as a port that could not be bound.
    Io(String),
}

/// Whether some record carries `lang`.
pub open spec fn registry_contains(
    es: Seq<(SupportedLanguages, ContainerInfo)>,
    lang: SupportedLanguages,
) -> bool {
    exists|i: int| 0 <= i < es.len() && (#[trigger] es[i]).0 == lang
}

/// No language holds two records.
pub open spec fn distinct_langs(es: Seq<(SupportedLanguages, ContainerInfo)>) -> bool {
    forall|i: int, j: int|
        0 <= i < j < es.len() ==> (#[trigger] es[i]).0 != (#[trigger] es[j]).0
}

/// No two live records share a host port.
pub open spec fn distinct_ports(es: Seq<(SupportedLanguages, ContainerInfo)>) -> bool {
    forall|i: int, j: int|
        0 <= i < j < es.len() ==> (#[trigger] es[i]).1.port != (#[trigger] es[j]).1.port
}

/// The registry of live containers: language tag to container record.
/// Invariants: at most one record per tag, and the host port is unique
/// across live records.
pub struct ContainerRegistry {
    pub entries: Vec<(SupportedLanguages, ContainerInfo)>,
}

impl ContainerRegistry {
    /// The live records, in insertion order.
    pub open spec fn view(&self) -> Seq<(SupportedLanguages, ContainerInfo)> {
        self.entries@
    }

    /// Registry well-formedness: one record per tag, ports unique.
    pub open spec fn wf(&self) -> bool {
        distinct_langs(self.entries@) && distinct_ports(self.entries@)
    }

    /// Whether `lang` has a live record.
    pub open spec fn spec_contains(&self, lang: SupportedLanguages) -> bool {
        registry_contains(self.entries@, lang)
    }

    /// Whether some live record uses `port`.
    pub open spec fn spec_uses_port(&self, port: u16) -> bool {
        exists|i: int| 0 <= i < self.entries@.len() && (#[trigger] self.entries@[i]).1.port == port
    }

    /// An empty registry.
    pub fn new() -> (r: Self)
        ensures
            r.wf(),
            r@ =~= Seq::<(SupportedLanguages, ContainerInfo)>::empty(),
    {
        ContainerRegistry { entries: Vec::new() }
    }

    /// Number of live records.
    pub fn len(&self) -> (r: usize)
        ensures
            r == self@.len(),
    {
        self.entries.len()
    }

    /// Get a copy of the record for `lang`, if one is live.
    pub fn get_container(&self, lang: SupportedLanguages) -> (r: Option<ContainerInfo>)
        requires
            self.wf(),
        ensures
            match r {
                Some(info) => exists|i: int|
                    0 <= i < self@.len() && (#[trigger] self@[i]).0 == lang && self@[i].1.port
                        == info.port && self@[i].1.container_id@ == info.container_id@
                        && self@[i].1.image_name@ == info.image_name@ && self@[i].1.endpoint@
                        == info.endpoint@,
                None => !self.spec_contains(lang),
            },
    {
        let n = self.entries.len();
        let mut k: usize = 0;
        while k < n
            invariant
                0 <= k <= n == self.entries@.len(),
                forall|j: int| 0 <= j < k ==> (#[trigger] self.entries@[j]).0 != lang,
            decreases n - k,
        {
            if self.entries[k].0 == lang {
                let info = self.entries[k].1.duplicate();
                proof {
                    assert((#[trigger] self@[k as int]).0 == lang && self@[k as int].1.port
                        == info.port && self@[k as int].1.container_id@ == info.container_id@
                        && self@[k as int].1.image_name@ == info.image_name@
                        && self@[k as int].1.endpoint@ == info.endpoint@);
                }
                return Some(info);
            }
            k = k + 1;
        }
        proof {
            if registry_contains(self.entries@, lang) {
                let w = choose|w: int|
                    0 <= w < self.entries@.len() && (#[trigger] self.entries@[w]).0 == lang;
            }
        }
        None
    }

    /// Store a record for `lang`. The tag must not already hold one (the
    /// spawn path consults `get_container` first and spawning is
    /// serialized per tag) and the port must be fresh, preserving the
    /// port-uniqueness invariant.
    pub fn store_container(&mut self, lang: SupportedLanguages, info: ContainerInfo)
        requires
            old(self).wf(),
            !old(self).spec_contains(lang),
            !old(self).spec_uses_port(info.port),
        ensures
            final(self).wf(),
            final(self)@ == old(self)@ + seq![(lang, info)],
            final(self).spec_contains(lang),
            forall|x: SupportedLanguages|
                x != lang ==> registry_contains(final(self)@, x) == registry_contains(
                    old(self)@,
                    x,
                ),
    {
        self.entries.push((lang, info));
        proof {
            let es = self.entries@;
            let oldes = old(self).entries@;
            assert(forall|i: int| 0 <= i < oldes.len() ==> es[i] == #[trigger] oldes[i]);
            assert(es[es.len() - 1].0 == lang);
            assert forall|x: SupportedLanguages| x != lang implies registry_contains(es, x)
                == registry_contains(oldes, x) by {
                if registry_contains(es, x) {
                    let w = choose|w: int| 0 <= w < es.len() && (#[trigger] es[w]).0 == x;
                    assert(w < oldes.len());
                    assert(oldes[w].0 == x);
                }
                if registry_contains(oldes, x) {
                    let w = choose|w: int| 0 <= w < oldes.len() && (#[trigger] oldes[w]).0 == x;
                    assert(es[w].0 == x);
                }
            };
        }
    }

    /// Remove and return the record for `lang`: the stored record itself.
    /// Teardown removes the record before any daemon call, so a
    /// concurrent re-spawn never sees a stale entry.
    pub fn remove_container(&mut self, lang: SupportedLanguages) -> (r: Option<ContainerInfo>)
        requires
            old(self).wf(),
        ensures
            final(self).wf(),
            match r {
                Some(info) => exists|i: int|
                    0 <= i < old(self)@.len() && (#[trigger] old(self)@[i]).0 == lang && info
                        == old(self)@[i].1 && final(self)@ == old(self)@.remove(i),
                None => !registry_contains(old(self)@, lang) && final(self)@ == old(self)@,
            },
            !registry_contains(final(self)@, lang),
            forall|x: SupportedLanguages|
                x != lang ==> registry_contains(final(self)@, x) == registry_contains(
                    old(self)@,
                    x,
                ),
    {
        let n = self.entries.len();
        let mut k: usize = 0;
        while k < n
            invariant
                0 <= k <= n == self.entries@.len(),
                self.entries@ == old(self).entries@,
                old(self).wf(),
                forall|j: int| 0 <= j < k ==> (#[trigger] self.entries@[j]).0 != lang,
            decreases n - k,
        {
            if self.entries[k].0 == lang {
                let entry = self.entries.remove(k);
                proof {
                    let oldes = old(self).entries@;
                    let es = self.entries@;
                    assert(es == oldes.remove(k as int));
                    assert(es.len() + 1 == oldes.len());
                    assert(forall|i: int|
                        0 <= i < es.len() ==> #[trigger] es[i] == if i < k {
                            oldes[i]
                        } else {
                            oldes[i + 1]
                        });
                    assert(0 <= k < old(self)@.len() && (#[trigger] old(self)@[k as int]).0 == lang
                        && entry.1 == old(self)@[k as int].1 && self@ == old(self)@.remove(
                        k as int,
                    ));
                    assert(registry_contains(oldes, lang));
                    assert forall|i: int, j: int|
                        0 <= i < j < es.len() implies (#[trigger] es[i]).0 != (#[trigger]
                    es[j]).0 && es[i].1.port != es[j].1.port by {
                        let i1: int = if i < k {
                            i
                        } else {
                            i + 1
                        };
                        let j1: int = if j < k {
                            j
                        } else {
                            j + 1
                        };
                        assert(es[i] == oldes[i1]);
                        assert(es[j] == oldes[j1]);
                        assert(0 <= i1 < j1 < oldes.len());
                        assert((oldes[i1]).0 != (oldes[j1]).0);
                        assert((oldes[i1]).1.port != (oldes[j1]).1.port);
                    };
                    assert(!registry_contains(es, lang)) by {
                        if registry_contains(es, lang) {
                            let w = choose|w: int|
                                0 <= w < es.len() && (#[trigger] es[w]).0 == lang;
                            if w < k {
                                assert(oldes[w].0 == lang);
                            } else {
                                assert(oldes[w + 1].0 == lang);
                                assert(0 <= k < w + 1 < oldes.len());
                                assert((oldes[k as int]).0 != (oldes[w + 1]).0);
                            }
                        }
                    };
                    assert forall|x: SupportedLanguages| x != lang implies registry_contains(
                        es,
                        x,
                    ) == registry_contains(oldes, x) by {
                        if registry_contains(es, x) {
                            let w = choose|w: int| 0 <= w < es.len() && (#[trigger] es[w]).0 == x;
                            if w < k {
                                assert(oldes[w].0 == x);
                            } else {
                                assert(oldes[w + 1].0 == x);
                            }
                        }
                        if registry_contains(oldes, x) {
                            let w = choose|w: int|
                                0 <= w < oldes.len() && (#[trigger] oldes[w]).0 == x;
                            if w < k {
                                assert(es[w].0 == x);
                            } else {
                                assert(w != k);
                                assert(es[w - 1].0 == x);
                            }
                        }
                    };
                }
                return Some(entry.1);
            }
            k = k + 1;
        }
        None
    }

    /// Copies of all live records, in insertion order.
    pub fn all_containers(&self) -> (r: Vec<(SupportedLanguages, ContainerInfo)>)
        ensures
            r@.len() == self@.len(),
            forall|i: int|
                0 <= i < r@.len() ==> (#[trigger] r@[i]).0 == self@[i].0 && r@[i].1.port
                    == self@[i].1.port && r@[i].1.container_id@ == self@[i].1.container_id@
                    && r@[i].1.image_name@ == self@[i].1.image_name@ && r@[i].1.endpoint@
                    == self@[i].1.endpoint@,
    {
        let mut r: Vec<(SupportedLanguages, ContainerInfo)> = Vec::new();
        let n = self.entries.len();
        let mut k: usize = 0;
        while k < n
            invariant
                0 <= k <= n == self.entries@.len(),
                r@.len() == k,
                forall|i: int|
                    0 <= i < k ==> (#[trigger] r@[i]).0 == self.entries@[i].0 && r@[i].1.port
                        == self.entries@[i].1.port && r@[i].1.container_id@
                        == self.entries@[i].1.container_id@ && r@[i].1.image_name@
                        == self.entries@[i].1.image_name@ && r@[i].1.endpoint@
                        == self.entries@[i].1.endpoint@,
            decreases n - k,
        {
            let entry = &self.entries[k];
            let info = entry.1.duplicate();
            r.push((entry.0, info));
            k = k + 1;
        }
        r
    }
}

/// The orchestrator never holds two records for one language tag, and
/// never two records on one host port.
pub proof fn lemma_one_record_per_tag(reg: &ContainerRegistry)
    requires
        reg.wf(),
    ensures
        forall|i: int, j: int|
            0 <= i < j < reg@.len() ==> (#[trigger] reg@[i]).0 != (#[trigger] reg@[j]).0,
        forall|i: int, j: int|
            0 <= i < j < reg@.len() ==> (#[trigger] reg@[i]).1.port != (#[trigger] reg@[j]).1.port,
{
}

/// The image a language's analyzer container is created from.
pub open spec fn spec_image_name(lang: SupportedLanguages) -> Seq<char> {
    match lang {
        SupportedLanguages::Golang => "lsproxy-golang:latest"@,
        SupportedLanguages::Python => "lsproxy-python:latest"@,
        SupportedLanguages::TypeScriptJavaScript => "lsproxy-typescript:latest"@,
        SupportedLanguages::Ruby => "lsproxy-ruby:latest"@,
        SupportedLanguages::RubySorbet => "lsproxy-ruby-sorbet:latest"@,
        SupportedLanguages::Rust => "lsproxy-rust:latest"@,
        SupportedLanguages::CPP => "lsproxy-clangd:latest"@,
        SupportedLanguages::Java => "lsproxy-java:latest"@,
        SupportedLanguages::PHP => "lsproxy-php:latest"@,
        SupportedLanguages::CSharp => "lsproxy-csharp:latest"@,
    }
}

/// Get the container image name for a language.
pub fn image_name_for_language(lang: SupportedLanguages) -> (r: String)
    ensures
        r@ == spec_image_name(lang),
{
    match lang {
        SupportedLanguages::Golang => "lsproxy-golang:latest".to_owned(),
        SupportedLanguages::Python => "lsproxy-python:latest".to_owned(),
        SupportedLanguages::TypeScriptJavaScript => "lsproxy-typescript:latest".to_owned(),
        SupportedLanguages::Ruby => "lsproxy-ruby:latest".to_owned(),
        SupportedLanguages::RubySorbet => "lsproxy-ruby-sorbet:latest".to_owned(),
        SupportedLanguages::Rust => "lsproxy-rust:latest".to_owned(),
        SupportedLanguages::CPP => "lsproxy-clangd:latest".to_owned(),
        SupportedLanguages::Java => "lsproxy-java:latest".to_owned(),
        SupportedLanguages::PHP => "lsproxy-php:latest".to_owned(),
        SupportedLanguages::CSharp => "lsproxy-csharp:latest".to_owned(),
    }
}

/// The URL-safe slug a language contributes to its container's name.
pub open spec fn spec_language_slug(lang: SupportedLanguages) -> Seq<char> {
    match lang {
        SupportedLanguages::Golang => "golang"@,
        SupportedLanguages::Python => "python"@,
        SupportedLanguages::TypeScriptJavaScript => "typescript"@,
        SupportedLanguages::Ruby => "ruby"@,
        SupportedLanguages::RubySorbet => "ruby-sorbet"@,
        SupportedLanguages::Rust => "rust"@,
        SupportedLanguages::CPP => "clangd"@,
        SupportedLanguages::Java => "java"@,
        SupportedLanguages::PHP => "php"@,
        SupportedLanguages::CSharp => "csharp"@,
    }
}

/// Get a URL-safe slug for a language.
pub fn language_slug(lang: SupportedLanguages) -> (r: String)
    ensures
        r@ == spec_language_slug(lang),
{
    match lang {
        SupportedLanguages::Golang => "golang".to_owned(),
        SupportedLanguages::Python => "python".to_owned(),
        SupportedLanguages::TypeScriptJavaScript => "typescript".to_owned(),
        SupportedLanguages::Ruby => "ruby".to_owned(),
        SupportedLanguages::RubySorbet => "ruby-sorbet".to_owned(),
        SupportedLanguages::Rust => "rust".to_owned(),
        SupportedLanguages::CPP => "clangd".to_owned(),
        SupportedLanguages::Java => "java".to_owned(),
        SupportedLanguages::PHP => "php".to_owned(),
        SupportedLanguages::CSharp => "csharp".to_owned(),
    }
}

/// The analyzer command passed into a language's container.
pub open spec fn spec_language_env(lang: SupportedLanguages) -> Seq<char> {
    match lang {
        SupportedLanguages::Golang => "LSP_COMMAND=gopls"@,
        SupportedLanguages::Python => "LSP_COMMAND=jedi-language-server"@,
        SupportedLanguages::TypeScriptJavaScript => (
        "LSP_COMMAND=typescript-language-server --stdio"@),
        SupportedLanguages::Ruby => "LSP_COMMAND=ruby-lsp --use-launcher"@,
        SupportedLanguages::RubySorbet => "LSP_COMMAND=srb tc --lsp"@,
        SupportedLanguages::Rust => "LSP_COMMAND=rust-analyzer"@,
        SupportedLanguages::CPP => "LSP_COMMAND=clangd"@,
        SupportedLanguages::Java => "LSP_COMMAND=jdtls"@,
        SupportedLanguages::PHP => "LSP_COMMAND=phpactor language-server"@,
        SupportedLanguages::CSharp => "LSP_COMMAND=csharp-ls"@,
    }
}

/// Get language-specific environment variables.
pub fn language_specific_env(lang: SupportedLanguages) -> (r: Vec<String>)
    ensures
        r@.len() == 1,
        r@[0]@ == spec_language_env(lang),
{
    let mut r: Vec<String> = Vec::new();
    match lang {
        SupportedLanguages::Golang => r.push("LSP_COMMAND=gopls".to_owned()),
        SupportedLanguages::Python => r.push("LSP_COMMAND=jedi-language-server".to_owned()),
        SupportedLanguages::TypeScriptJavaScript => r.push(
            "LSP_COMMAND=typescript-language-server --stdio".to_owned(),
        ),
        SupportedLanguages::Ruby => r.push("LSP_COMMAND=ruby-lsp --use-launcher".to_owned()),
        SupportedLanguages::RubySorbet => r.push("LSP_COMMAND=srb tc --lsp".to_owned()),
        SupportedLanguages::Rust => r.push("LSP_COMMAND=rust-analyzer".to_owned()),
        SupportedLanguages::CPP => r.push("LSP_COMMAND=clangd".to_owned()),
        SupportedLanguages::Java => r.push("LSP_COMMAND=jdtls".to_owned()),
        SupportedLanguages::PHP => r.push("LSP_COMMAND=phpactor language-server".to_owned()),
        SupportedLanguages::CSharp => r.push("LSP_COMMAND=csharp-ls".to_owned()),
    }
    r
}

/// Relies on uuid::Uuid::new_v4 and its hyphenated rendering: a fresh
/// random version-4 identifier, 36 characters. Random, so nothing more
/// than its length is promised.
#[verifier::external_body]
fn fresh_uuid_string() -> (r: String)
    ensures
        r@.len() == 36,
{
    uuid::Uuid::new_v4().to_string()
}

/// The deterministic shape of a container name: the fixed prefix, the
/// language slug, and a fresh identifier.
pub open spec fn spec_container_name(lang: SupportedLanguages, fresh: Seq<char>) -> Seq<char> {
    "lsproxy-"@ + spec_language_slug(lang) + "-"@ + fresh
}

/// Name the container for a language: prefix, slug, and a fresh random
/// identifier, so that names never collide across spawns.
pub fn container_name_for(lang: SupportedLanguages) -> (r: String)
    ensures
        exists|fresh: Seq<char>|
            fresh.len() == 36 && r@ == #[trigger] spec_container_name(lang, fresh),
{
    let mut r = "lsproxy-".to_owned();
    let slug = language_slug(lang);
    r.append(slug.as_str());
    r.append("-");
    let fresh = fresh_uuid_string();
    r.append(fresh.as_str());
    proof {
        assert(r@ == spec_container_name(lang, fresh@));
    }
    r
}

/// The bind that mounts the workspace read-write at the fixed
/// in-container path.
pub open spec fn spec_workspace_bind(workspace_path: Seq<char>) -> Seq<char> {
    workspace_path + ":/workspace:rw"@
}

/// Build the create request's workspace bind: the host path mounted
/// read-write at the fixed in-container path.
pub fn workspace_bind(workspace_path: &str) -> (r: String)
    ensures
        r@ == spec_workspace_bind(workspace_path@),
{
    let mut r = workspace_path.to_owned();
    r.append(":/workspace:rw");
    r
}

/// The key under which the container's fixed internal HTTP port is mapped
/// to the reserved host port in the create request.
pub fn internal_port_key() -> (r: String)
    ensures
        r@ == "8080/tcp"@,
{
    "8080/tcp".to_owned()
}

/// The host side of the port mapping: the reserved port in decimal.
pub fn host_port_value(port: u16) -> (r: String)
    ensures
        r@ == dec_chars(port as nat),
{
    dec_string(port as u64)
}

/// The log-filter variable passed through to the container.
pub open spec fn spec_rust_log_env(filter: Seq<char>) -> Seq<char> {
    "RUST_LOG="@ + filter
}

/// Build the log-filter environment entry for the container, passing the
/// parent's filter through; the runtime supplies a default when none is
/// configured.
pub fn rust_log_env(filter: &str) -> (r: String)
    ensures
        r@ == spec_rust_log_env(filter@),
{
    let mut r = "RUST_LOG=".to_owned();
    r.append(filter);
    r
}

/// The memory cap in bytes for a configured cap in megabytes.
pub fn memory_limit_bytes(memory_mb: u64) -> (r: u64)
    requires
        memory_mb <= u64::MAX / 1048576,
    ensures
        r == memory_mb * 1048576,
{
    memory_mb * 1048576
}

/// Parse the configured memory cap: a decimal number of megabytes, with
/// 2048 for an absent or unparsable value.
pub fn parse_memory_limit_mb(value: Option<&String>) -> (r: u64)
    ensures
        match value {
            Some(s) => if crate::text::all_digits(s@) && crate::text::dec_value(s@) <= u64::MAX {
                r == crate::text::dec_value(s@)
            } else {
                r == 2048
            },
            None => r == 2048,
        },
{
    match value {
        Some(s) => match crate::text::parse_decimal(s.as_str()) {
            Some(v) => v,
            None => 2048,
        },
        None => 2048,
    }
}

/// The endpoint a spawned container serves on: scheme, host and the
/// reserved port.
pub open spec fn spec_endpoint(host: Seq<char>, port: u16) -> Seq<char> {
    "http://"@ + host + ":"@ + dec_chars(port as nat)
}

/// Build the endpoint URL for a host and port.
pub fn endpoint_for(host: &str, port: u16) -> (r: String)
    ensures
        r@ == spec_endpoint(host@, port),
{
    let mut r = "http://".to_owned();
    r.append(host);
    r.append(":");
    let d = dec_string(port as u64);
    r.append(d.as_str());
    r
}

/// Where the spawn sequence stands. The runtime performs one daemon or
/// network call per phase and reports its outcome.
pub enum SpawnPhase {
    /// Look for an existing record.
    Checking,
    /// Bind an ephemeral port and keep the listener alive.
    Reserving,
    /// Create the container bound to the reserved port.
    Creating { port: u16 },
    /// Start the created container; its record is assembled.
    Starting { info: ContainerInfo },
    /// Poll the container's health endpoint, if health checking is on.
    HealthChecking { info: ContainerInfo },
    /// The container is up and recorded.
    Done { info: ContainerInfo },
    /// The spawn failed; the error is surfaced to the caller.
    Failed { error: OrchestratorError },
}

/// What the runtime observed for the current phase.
pub enum SpawnEvent {
    /// The registry lookup: an existing record, or none.
    Existing { found: Option<ContainerInfo> },
    /// The port reservation succeeded with this port.
    PortReserved { port: u16 },
    /// The port reservation failed.
    PortFailed { diagnostic: String },
    /// The daemon created the container.
    Created { container_id: String },
    /// The daemon refused the creation.
    CreateFailed { diagnostic: String },
    /// The container started; the port reservation has been released.
    Started,
    /// The container failed to start.
    StartFailed { diagnostic: String },
    /// Health checking is disabled or the endpoint reported success.
    Healthy,
    /// The health poll timed out; the recent container logs are carried.
    Unhealthy { logs: String },
}

/// One step of the spawn sequence for `lang`: from the current phase and
/// the observed outcome to the next phase. An existing record ends the
/// sequence at once with that record; each failure surfaces the
/// corresponding error; the sequence otherwise runs check, reserve,
/// create, start, health, record. After `Started` the runtime must
/// release the port reservation, and on `Done` it stores the record.
pub fn spawn_step(
    lang: SupportedLanguages,
    host: &str,
    phase: SpawnPhase,
    event: SpawnEvent,
) -> (r: SpawnPhase)
    ensures
        match (phase, event) {
            (SpawnPhase::Checking, SpawnEvent::Existing { found }) => match found {
                Some(info) => r matches SpawnPhase::Done { info: i } && i == info,
                None => r is Reserving,
            },
            (SpawnPhase::Reserving, SpawnEvent::PortReserved { port }) => r matches
                SpawnPhase::Creating { port: p } && p == port,
            (SpawnPhase::Reserving, SpawnEvent::PortFailed { diagnostic }) => r matches
                SpawnPhase::Failed { error } && (error matches OrchestratorError::Io(d) && d@
                == diagnostic@),
            (SpawnPhase::Creating { port }, SpawnEvent::Created { container_id }) => r matches
                SpawnPhase::Starting { info } && info.port == port && info.container_id@
                == container_id@ && info.image_name@ == spec_image_name(lang) && info.endpoint@
                == spec_endpoint(host@, port),
            (SpawnPhase::Creating { port }, SpawnEvent::CreateFailed { diagnostic }) => r matches
                SpawnPhase::Failed { error } && (error matches OrchestratorError::Docker(d) && d@
                == diagnostic@),
            (SpawnPhase::Starting { info }, SpawnEvent::Started) => r matches
                SpawnPhase::HealthChecking { info: i } && i == info,
            (SpawnPhase::Starting { info }, SpawnEvent::StartFailed { diagnostic }) => r matches
                SpawnPhase::Failed { error } && (error matches OrchestratorError::Docker(d) && d@
                == diagnostic@),
            (SpawnPhase::HealthChecking { info }, SpawnEvent::Healthy) => r matches
                SpawnPhase::Done { info: i } && i == info,
            (SpawnPhase::HealthChecking { info }, SpawnEvent::Unhealthy { logs }) => r matches
                SpawnPhase::Failed { error } && (error matches OrchestratorError::HealthCheck(d)
                && d@ == logs@),
            (p, _) => r == p,
        },
{
    match (phase, event) {
        (SpawnPhase::Checking, SpawnEvent::Existing { found }) => match found {
            Some(info) => SpawnPhase::Done { info },
            None => SpawnPhase::Reserving,
        },
        (SpawnPhase::Reserving, SpawnEvent::PortReserved { port }) => SpawnPhase::Creating {
            port,
        },
        (SpawnPhase::Reserving, SpawnEvent::PortFailed { diagnostic }) => SpawnPhase::Failed {
            error: OrchestratorError::Io(diagnostic),
        },
        (SpawnPhase::Creating { port }, SpawnEvent::Created { container_id }) => {
            let info = ContainerInfo {
                container_id,
                image_name: image_name_for_language(lang),
                port,
                endpoint: endpoint_for(host, port),
            };
            SpawnPhase::Starting { info }
        },
        (SpawnPhase::Creating { port: _ }, SpawnEvent::CreateFailed { diagnostic }) => (
        SpawnPhase::Failed { error: OrchestratorError::Docker(diagnostic) }),
        (SpawnPhase::Starting { info }, SpawnEvent::Started) => SpawnPhase::HealthChecking {
            info,
        },
        (SpawnPhase::Starting { info: _ }, SpawnEvent::StartFailed { diagnostic }) => (
        SpawnPhase::Failed { error: OrchestratorError::Docker(diagnostic) }),
        (SpawnPhase::HealthChecking { info }, SpawnEvent::Healthy) => SpawnPhase::Done { info },
        (SpawnPhase::HealthChecking { info: _ }, SpawnEvent::Unhealthy { logs }) => (
        SpawnPhase::Failed { error: OrchestratorError::HealthCheck(logs) }),
        (p, _) => p,
    }
}

/// Decide one step of the health poll: success ends it, a deadline of 30
/// seconds bounds it, and anything before the deadline retries after a
/// short sleep.
#[derive(Clone, Copy, Debug, PartialEq, Eq, Structural)]
pub enum HealthDecision {
    Healthy,
    Retry,
    TimedOut,
}

/// The health poll decision: a successful probe wins; past the deadline
/// the poll times out; otherwise it retries.
pub fn health_poll_decision(elapsed_ms: u64, probe_succeeded: bool) -> (r: HealthDecision)
    ensures
        r == if probe_succeeded {
            HealthDecision::Healthy
        } else if elapsed_ms >= 30000 {
            HealthDecision::TimedOut
        } else {
            HealthDecision::Retry
        },
{
    if probe_succeeded {
        HealthDecision::Healthy
    } else if elapsed_ms >= 30000 {
        HealthDecision::TimedOut
    } else {
        HealthDecision::Retry
    }
}

} // verus!
