//! MCP admin tools for proxy introspection.
//!
//! What the tools under the `proxy/` namespace answer, and which of them
//! there are.

use vstd::prelude::*;

use crate::admin::{all_healthy, health_word, AdminState, BackendStatus, Timestamp};
use crate::config::{ProxyConfig, ToolExposure};
use crate::text::{clone_optional, concat2, concat3, texts};

verus! {

/// The text that `chrono` gives for a point in time, `None` for one that it
/// cannot represent.
pub uninterp spec fn rfc3339_text(seconds: i64, nanoseconds: u32) -> Option<Seq<char>>;

/// `chrono::DateTime::from_timestamp` and `chrono::DateTime::to_rfc3339`: a
/// point in time in RFC 3339 form. Its text is named, not stated.
#[verifier::external_body]
fn to_rfc3339(at: &Timestamp) -> (text: Option<String>)
    ensures
        match text {
            Some(t) => rfc3339_text(at.seconds, at.nanoseconds) == Some(t@),
            None => rfc3339_text(at.seconds, at.nanoseconds) is None,
        },
{
    chrono::DateTime::from_timestamp(at.seconds, at.nanoseconds).map(|t| t.to_rfc3339())
}

/// What the admin tools say of a backend.
#[derive(Debug)]
pub struct BackendInfo {
    /// Backend namespace.
    pub namespace: String,
    /// Whether the backend responded to the last health check.
    pub healthy: bool,
    /// Time of the last health check in RFC 3339 form.
    pub last_checked_at: Option<String>,
    /// Number of consecutive failed health checks.
    pub consecutive_failures: u32,
    /// Last error message from a failed health check.
    pub error: Option<String>,
    /// Transport type.
    pub transport: Option<String>,
}

/// The answer of `proxy/list_backends`.
#[derive(Debug)]
pub struct BackendsResult {
    /// Proxy name.
    pub proxy_name: String,
    /// Proxy version.
    pub proxy_version: String,
    /// Number of configured backends.
    pub backend_count: usize,
    /// The backends.
    pub backends: Vec<BackendInfo>,
}

/// The answer of `proxy/session_count`.
#[derive(Debug)]
pub struct SessionResult {
    /// Number of active sessions.
    pub active_sessions: usize,
}

/// The answer of `proxy/health_check`.
#[derive(Debug)]
pub struct HealthCheckResult {
    /// "healthy" or "degraded".
    pub status: String,
    /// Number of healthy backends.
    pub healthy_count: usize,
    /// Number of backends.
    pub total_count: usize,
    /// The backends.
    pub backends: Vec<BackendInfo>,
}

/// What is said of a backend is its status.
pub open spec fn tells(info: BackendInfo, status: BackendStatus) -> bool {
    &&& info.namespace@ == status.namespace@
    &&& info.healthy == status.healthy
    &&& match info.last_checked_at {
        Some(text) => status.last_checked_at matches Some(at) && rfc3339_text(
            at.seconds,
            at.nanoseconds,
        ) == Some(text@),
        None => status.last_checked_at matches Some(at) ==> rfc3339_text(
            at.seconds,
            at.nanoseconds,
        ) is None,
    }
    &&& info.consecutive_failures == status.consecutive_failures
    &&& info.error == status.error
    &&& info.transport == status.transport
}

/// What is said of all backends is their status.
pub open spec fn tells_all(infos: Seq<BackendInfo>, statuses: Seq<BackendStatus>) -> bool {
    &&& infos.len() == statuses.len()
    &&& forall|i: int| 0 <= i < infos.len() ==> tells(#[trigger] infos[i], statuses[i])
}

/// What the admin tools say of a backend whose last check has a text for its
/// time.
pub fn backend_info(status: &BackendStatus, last_checked_at: Option<String>) -> (info: BackendInfo)
    ensures
        info.namespace@ == status.namespace@,
        info.healthy == status.healthy,
        info.last_checked_at == last_checked_at,
        info.consecutive_failures == status.consecutive_failures,
        info.error == status.error,
        info.transport == status.transport,
{
    BackendInfo {
        namespace: status.namespace.clone(),
        healthy: status.healthy,
        last_checked_at,
        consecutive_failures: status.consecutive_failures,
        error: clone_optional(&status.error),
        transport: clone_optional(&status.transport),
    }
}

fn backend_infos(statuses: &Vec<BackendStatus>) -> (infos: Vec<BackendInfo>)
    ensures
        tells_all(infos@, statuses@),
{
    let mut infos: Vec<BackendInfo> = Vec::new();
    let mut i: usize = 0;
    while i < statuses.len()
        invariant
            i <= statuses@.len(),
            infos@.len() == i,
            forall|j: int| 0 <= j < i ==> tells(#[trigger] infos@[j], statuses@[j]),
        decreases statuses@.len() - i,
    {
        let last_checked_at = match &statuses[i].last_checked_at {
            Some(at) => to_rfc3339(at),
            None => None,
        };
        infos.push(backend_info(&statuses[i], last_checked_at));
        i = i + 1;
    }
    infos
}

/// List all proxy backends with health status.
pub fn list_backends(state: &AdminState) -> (result: BackendsResult)
    ensures
        result.proxy_name@ == state.name(),
        result.proxy_version@ == state.version(),
        result.backend_count == state.count(),
        tells_all(result.backends@, state.statuses()),
{
    BackendsResult {
        proxy_name: state.proxy_name().to_owned(),
        proxy_version: state.proxy_version().to_owned(),
        backend_count: state.backend_count(),
        backends: backend_infos(&state.health()),
    }
}

/// Get the number of active MCP sessions.
pub fn session_count(active_sessions: usize) -> (result: SessionResult)
    ensures
        result.active_sessions == active_sessions,
{
    SessionResult { active_sessions }
}

/// The number of healthy backends.
pub open spec fn healthy_backends(statuses: Seq<BackendStatus>) -> nat
    decreases statuses.len(),
{
    if statuses.len() == 0 {
        0
    } else {
        healthy_backends(statuses.drop_last()) + if statuses.last().healthy {
            1nat
        } else {
            0nat
        }
    }
}

proof fn lemma_healthy_backends(statuses: Seq<BackendStatus>)
    ensures
        healthy_backends(statuses) <= statuses.len(),
        healthy_backends(statuses) == statuses.len() <==> all_healthy(statuses),
    decreases statuses.len(),
{
    if statuses.len() > 0 {
        let rest = statuses.drop_last();
        lemma_healthy_backends(rest);
        assert(statuses.last() == statuses[statuses.len() - 1]);
        if all_healthy(statuses) {
            assert forall|i: int| 0 <= i < rest.len() implies (#[trigger] rest[i]).healthy by {
                assert(rest[i] == statuses[i]);
            }
        }
        if all_healthy(rest) && statuses.last().healthy {
            assert forall|i: int| 0 <= i < statuses.len() implies (
            #[trigger] statuses[i]).healthy by {
                if i < rest.len() {
                    assert(rest[i] == statuses[i]);
                }
            }
        }
    }
}

/// Get cached health check results for all backends.
pub fn health_check(state: &AdminState) -> (result: HealthCheckResult)
    ensures
        result.healthy_count == healthy_backends(state.statuses()),
        result.total_count == state.statuses().len(),
        result.status@ == health_word(all_healthy(state.statuses())),
        tells_all(result.backends@, state.statuses()),
{
    let health = state.health();
    let backends = backend_infos(&health);
    let total: usize = health.len();
    let mut healthy_count: usize = 0;
    let mut i: usize = 0;
    while i < health.len()
        invariant
            i <= health@.len(),
            healthy_count <= i,
            healthy_count == healthy_backends(health@.take(i as int)),
        decreases health@.len() - i,
    {
        proof {
            assert(health@.take(i + 1).drop_last() =~= health@.take(i as int));
            assert(health@.take(i + 1).last() == health@[i as int]);
        }
        if health[i].healthy {
            healthy_count = healthy_count + 1;
        }
        i = i + 1;
    }
    proof {
        assert(health@.take(health@.len() as int) =~= health@);
        lemma_healthy_backends(health@);
    }
    let status = if healthy_count == total {
        "healthy".to_owned()
    } else {
        "degraded".to_owned()
    };
    HealthCheckResult { status, healthy_count, total_count: total, backends }
}

/// Input for the `proxy/add_backend` tool.
#[derive(Debug)]
pub struct AddBackendInput {
    /// Name/namespace for the new backend.
    pub name: String,
    /// URL of the HTTP MCP server.
    pub url: String,
}

/// What `proxy/add_backend` answers, by whether the backend could be added or
/// why not.
pub fn add_backend_text(input: &AddBackendInput, failure: Option<&str>) -> (text: String)
    ensures
        text@ == (match failure {
            None => "Backend '"@ + input.name@ + "' added successfully at "@ + input.url@,
            Some(error) => "Failed to add backend '"@ + input.name@ + "': "@ + error@,
        }),
{
    match failure {
        None => {
            let start = concat3("Backend '", input.name.as_str(), "' added successfully at ");
            concat2(start.as_str(), input.url.as_str())
        },
        Some(error) => {
            let start = concat3("Failed to add backend '", input.name.as_str(), "': ");
            concat2(start.as_str(), error)
        },
    }
}

/// How a call through `proxy/call_tool` ended, where it did not give the
/// result of a tool.
#[derive(Debug)]
pub enum CallFailure {
    /// The response was of another type.
    UnexpectedResponse,
    /// The response was an error with this message.
    Error(String),
    /// There was no response.
    Internal,
}

/// What `proxy/call_tool` answers in place of the result of a tool.
pub fn call_failure_text(tool: &str, failure: &CallFailure) -> (text: String)
    ensures
        text@ == (match failure {
            CallFailure::UnexpectedResponse => "Unexpected response type for tool '"@ + tool@
                + "'"@,
            CallFailure::Error(message) => "Error calling '"@ + tool@ + "': "@ + message@,
            CallFailure::Internal => "Internal error calling '"@ + tool@ + "'"@,
        }),
{
    match failure {
        CallFailure::UnexpectedResponse => concat3(
            "Unexpected response type for tool '",
            tool,
            "'",
        ),
        CallFailure::Error(message) => {
            let start = concat3("Error calling '", tool, "': ");
            concat2(start.as_str(), message.as_str())
        },
        CallFailure::Internal => concat3("Internal error calling '", tool, "'"),
    }
}

/// Whether `proxy/call_tool` is offered: in search mode only.
pub fn is_search_mode(config: &ProxyConfig) -> (search: bool)
    ensures
        search == (config.proxy.tool_exposure is Search),
{
    config.proxy.tool_exposure == ToolExposure::Search
}

/// The names of the admin tools, in the order in which they are registered:
/// the ones that there always are, the one for search mode, the discovery
/// tools.
pub open spec fn tool_names(search_mode: bool, discovery: Seq<Seq<char>>) -> Seq<Seq<char>> {
    let always = seq![
        "list_backends"@,
        "health_check"@,
        "session_count"@,
        "add_backend"@,
        "config"@,
    ];
    if search_mode {
        always.push("call_tool"@) + discovery
    } else {
        always + discovery
    }
}

/// The names of the admin tools, in the order in which they are registered.
pub fn admin_tool_names(search_mode: bool, discovery: &Vec<String>) -> (names: Vec<String>)
    ensures
        texts(names@) == tool_names(search_mode, texts(discovery@)),
{
    let mut names: Vec<String> = Vec::new();
    names.push("list_backends".to_owned());
    names.push("health_check".to_owned());
    names.push("session_count".to_owned());
    names.push("add_backend".to_owned());
    names.push("config".to_owned());
    if search_mode {
        names.push("call_tool".to_owned());
    }
    let ghost own = texts(names@);
    assert(own =~= tool_names(search_mode, Seq::empty()));
    let mut i: usize = 0;
    assert(texts(names@) =~= own + texts(discovery@.take(0)));
    while i < discovery.len()
        invariant
            i <= discovery@.len(),
            texts(names@) == own + texts(discovery@.take(i as int)),
        decreases discovery@.len() - i,
    {
        let ghost before = texts(names@);
        names.push(discovery[i].clone());
        proof {
            assert(texts(names@) =~= before.push(discovery@[i as int]@));
            assert(texts(discovery@.take(i + 1)) =~= texts(discovery@.take(i as int)).push(
                discovery@[i as int]@,
            ));
        }
        i = i + 1;
    }
    proof {
        assert(discovery@.take(discovery@.len() as int) =~= discovery@);
        assert(texts(names@) =~= tool_names(search_mode, texts(discovery@)));
    }
    names
}

/// The healthy backends are counted: one more at the end counts where it is
/// healthy.
pub proof fn healthy_backends_are_counted(statuses: Seq<BackendStatus>, status: BackendStatus)
    ensures
        healthy_backends(Seq::empty()) == 0,
        status.healthy ==> healthy_backends(statuses.push(status)) == healthy_backends(statuses)
            + 1,
        !status.healthy ==> healthy_backends(statuses.push(status)) == healthy_backends(statuses),
{
    assert(statuses.push(status).drop_last() =~= statuses);
}

/// As many backends are counted as healthy as there are, exactly where each
/// one is healthy.
pub proof fn all_are_counted_where_all_are_healthy(statuses: Seq<BackendStatus>)
    ensures
        healthy_backends(statuses) <= statuses.len(),
        healthy_backends(statuses) == statuses.len() <==> forall|i: int|
            0 <= i < statuses.len() ==> (#[trigger] statuses[i]).healthy,
{
    lemma_healthy_backends(statuses);
}

/// What is said of a backend is its status, with the time of the last check as
/// text.
pub proof fn infos_tell_the_status(infos: Seq<BackendInfo>, statuses: Seq<BackendStatus>, i: int)
    requires
        tells_all(infos, statuses),
    ensures
        infos.len() == statuses.len(),
        0 <= i < infos.len() ==> {
            &&& infos[i].namespace@ == statuses[i].namespace@
            &&& infos[i].healthy == statuses[i].healthy
            &&& infos[i].consecutive_failures == statuses[i].consecutive_failures
            &&& infos[i].error == statuses[i].error
            &&& infos[i].transport == statuses[i].transport
            &&& statuses[i].last_checked_at is None ==> infos[i].last_checked_at is None
            &&& statuses[i].last_checked_at matches Some(at) ==> {
                &&& infos[i].last_checked_at is Some <==> rfc3339_text(
                    at.seconds,
                    at.nanoseconds,
                ) is Some
                &&& infos[i].last_checked_at matches Some(text) ==> rfc3339_text(
                    at.seconds,
                    at.nanoseconds,
                ) == Some(text@)
            }
        },
{
    if 0 <= i < infos.len() {
        assert(tells(infos[i], statuses[i]));
    }
}

/// Five tools there always are, in this order. The tool for calls comes behind
/// them in search mode only, and the discovery tools come last.
pub proof fn admin_tools_come_in_order(search_mode: bool, discovery: Seq<Seq<char>>)
    ensures
        ({
            let names = tool_names(search_mode, discovery);
            let own: int = if search_mode {
                6
            } else {
                5
            };
            &&& names.len() == own + discovery.len()
            &&& names[0] == "list_backends"@
            &&& names[1] == "health_check"@
            &&& names[2] == "session_count"@
            &&& names[3] == "add_backend"@
            &&& names[4] == "config"@
            &&& search_mode ==> names[5] == "call_tool"@
            &&& names.skip(own) == discovery
        }),
{
    let own: int = if search_mode {
        6
    } else {
        5
    };
    assert(tool_names(search_mode, discovery).skip(own) =~= discovery);
}

} // verus!
