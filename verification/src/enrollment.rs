//! Enrollment with the workspace, and the heartbeat.

use vstd::prelude::*;

use crate::config::Config;
use crate::json::Json;
use crate::json::JsonView;
use crate::payload;
use crate::payload::Payload;
use crate::payload::PayloadView;
use crate::payload::Post;
use crate::payload::PostView;
use crate::text;

verus! {

/// Credentials persisted after a successful enrollment.
#[derive(Debug)]
pub struct AgentCredentials {
    pub agent_id: String,
    pub api_key: String,
    pub base_url: String,
    /// Empty in credentials that carry none.
    pub tenant_id: String,
    /// The key that signs the desired config, in base64; empty in credentials
    /// that carry none.
    pub hmac_key_b64: String,
}

/// What `AgentCredentials` hold.
pub struct CredentialsView {
    pub agent_id: Seq<char>,
    pub api_key: Seq<char>,
    pub base_url: Seq<char>,
    pub tenant_id: Seq<char>,
    pub hmac_key_b64: Seq<char>,
}

impl View for AgentCredentials {
    type V = CredentialsView;

    open spec fn view(&self) -> CredentialsView {
        CredentialsView {
            agent_id: self.agent_id@,
            api_key: self.api_key@,
            base_url: self.base_url@,
            tenant_id: self.tenant_id@,
            hmac_key_b64: self.hmac_key_b64@,
        }
    }
}

impl Clone for AgentCredentials {
    fn clone(&self) -> (r: Self)
        ensures
            r@ == self@,
    {
        AgentCredentials {
            agent_id: self.agent_id.clone(),
            api_key: self.api_key.clone(),
            base_url: self.base_url.clone(),
            tenant_id: self.tenant_id.clone(),
            hmac_key_b64: self.hmac_key_b64.clone(),
        }
    }
}

/// The file in the data directory that holds the credentials.
pub fn creds_file() -> (r: String)
    ensures
        r@ == "credentials.json"@,
{
    "credentials.json".to_owned()
}

// ---------------------------------------------------------------------------
// Plan
// ---------------------------------------------------------------------------

/// What was found in the data directory.
#[derive(Debug)]
pub enum StoredCredentials {
    /// No credentials file.
    Absent,
    /// A credentials file that cannot be read.
    Corrupt,
    Found(AgentCredentials),
}

/// How the agent gets its credentials.
#[derive(Debug)]
pub enum EnrollPlan {
    /// The stored ones are used.
    UseStored(AgentCredentials),
    /// The enrollment token is exchanged for permanent ones.
    ExchangeToken { base_url: String, token: String },
    /// The tenant's API key is.
    SelfEnroll { base_url: String, api_key: String },
    /// There are none: signals are collected but not shipped.
    LocalOnly,
}

/// What an `EnrollPlan` holds.
pub enum PlanView {
    UseStored(CredentialsView),
    ExchangeToken { base_url: Seq<char>, token: Seq<char> },
    SelfEnroll { base_url: Seq<char>, api_key: Seq<char> },
    LocalOnly,
}

impl View for EnrollPlan {
    type V = PlanView;

    open spec fn view(&self) -> PlanView {
        match self {
            EnrollPlan::UseStored(c) => PlanView::UseStored(c@),
            EnrollPlan::ExchangeToken { base_url, token } => PlanView::ExchangeToken {
                base_url: base_url@,
                token: token@,
            },
            EnrollPlan::SelfEnroll { base_url, api_key } => PlanView::SelfEnroll {
                base_url: base_url@,
                api_key: api_key@,
            },
            EnrollPlan::LocalOnly => PlanView::LocalOnly,
        }
    }
}

/// Why enrollment fails.
#[derive(Debug, Clone, Copy, PartialEq, Eq, Structural)]
pub enum EnrollError {
    /// An enrollment token is set but no workspace URL.
    NoUrlForToken,
    /// An API key is set but no workspace URL.
    NoUrlForKey,
    /// The reply names no agent.
    MissingAgentId,
    /// The reply holds no key.
    MissingApiKey,
}

impl EnrollError {
    /// The error in words.
    pub open spec fn words(self) -> Seq<char> {
        match self {
            EnrollError::NoUrlForToken => "enroll_token set but no pulseboard_url configured"@,
            EnrollError::NoUrlForKey =>
                "api_key set but no url configured in [targets.pulseboard] or agent.pulseboard_url"@,
            EnrollError::MissingAgentId => "missing agentId in enroll response"@,
            EnrollError::MissingApiKey => "missing apiKey in enroll response"@,
        }
    }

    /// The error in words.
    pub fn message(&self) -> (r: String)
        ensures
            r@ == self.words(),
    {
        match self {
            EnrollError::NoUrlForToken =>
                "enroll_token set but no pulseboard_url configured".to_owned(),
            EnrollError::NoUrlForKey =>
                "api_key set but no url configured in [targets.pulseboard] or agent.pulseboard_url".to_owned(),
            EnrollError::MissingAgentId => "missing agentId in enroll response".to_owned(),
            EnrollError::MissingApiKey => "missing apiKey in enroll response".to_owned(),
        }
    }
}

/// An agent id that an early release made up by itself.
pub open spec fn is_stale(agent_id: Seq<char>) -> bool {
    text::begins(agent_id, "direct-"@)
}

/// The workspace URL of the agent section.
pub open spec fn agent_url(cfg: Config) -> Option<Seq<char>> {
    text::opt_text(cfg.agent.pulseboard_url)
}

/// The workspace URL of the target section.
pub open spec fn target_url(cfg: Config) -> Option<Seq<char>> {
    match cfg.targets.pulseboard {
        Some(t) => text::opt_text(t.url),
        None => None,
    }
}

/// The tenant's API key.
pub open spec fn target_key(cfg: Config) -> Option<Seq<char>> {
    match cfg.targets.pulseboard {
        Some(t) => text::opt_text(t.api_key),
        None => None,
    }
}

/// The first of two texts that is there.
pub open spec fn either(a: Option<Seq<char>>, b: Option<Seq<char>>) -> Option<Seq<char>> {
    match a {
        Some(_) => a,
        None => b,
    }
}

/// How the agent gets its credentials: stored ones that are not stale come
/// first, then the enrollment token, then the tenant's key.
pub open spec fn plan_of(stored: StoredCredentials, cfg: Config) -> Result<PlanView, EnrollError> {
    if stored matches StoredCredentials::Found(c) && !is_stale(c.agent_id@) {
        Ok(PlanView::UseStored(stored->Found_0@))
    } else {
        match text::opt_text(cfg.agent.enroll_token) {
            Some(token) => match either(agent_url(cfg), target_url(cfg)) {
                Some(base_url) => Ok(PlanView::ExchangeToken { base_url, token }),
                None => Err(EnrollError::NoUrlForToken),
            },
            None => match target_key(cfg) {
                Some(api_key) => match either(target_url(cfg), agent_url(cfg)) {
                    Some(base_url) => Ok(PlanView::SelfEnroll { base_url, api_key }),
                    None => Err(EnrollError::NoUrlForKey),
                },
                None => Ok(PlanView::LocalOnly),
            },
        }
    }
}

/// Subsequent starts skip enrollment: stored credentials that are not stale
/// are used, whatever the configuration says.
pub proof fn law_enrolled_agents_stay_enrolled(c: AgentCredentials, cfg: Config)
    requires
        !is_stale(c.agent_id@),
    ensures
        plan_of(StoredCredentials::Found(c), cfg) == Ok::<PlanView, EnrollError>(
            PlanView::UseStored(c@),
        ),
{
}

/// Stale and corrupt credentials count as none.
pub proof fn law_stale_credentials_count_as_none(c: AgentCredentials, cfg: Config)
    requires
        is_stale(c.agent_id@),
    ensures
        plan_of(StoredCredentials::Found(c), cfg) == plan_of(StoredCredentials::Absent, cfg),
        plan_of(StoredCredentials::Corrupt, cfg) == plan_of(StoredCredentials::Absent, cfg),
{
}

fn first_of(a: Option<String>, b: Option<String>) -> (r: Option<String>)
    ensures
        text::opt_text(r) == either(text::opt_text(a), text::opt_text(b)),
{
    match a {
        Some(t) => Some(t),
        None => b,
    }
}

/// Decides how the agent gets its credentials.
///
/// 1. If credentials are stored and readable, they are used. Stale `direct-*`
///    agent ids are treated as corrupt so that the agent re-enrolls cleanly.
/// 2. If `agent.enroll_token` is set, it is exchanged for permanent ones.
/// 3. If `targets.pulseboard.api_key` is set, the agent enrolls itself with it.
/// 4. Otherwise the agent runs local-only; signals will still be collected.
pub fn plan(stored: StoredCredentials, cfg: &Config) -> (r: Result<EnrollPlan, EnrollError>)
    ensures
        match r {
            Ok(p) => plan_of(stored, *cfg) == Ok::<PlanView, EnrollError>(p@),
            Err(e) => plan_of(stored, *cfg) == Err::<PlanView, EnrollError>(e),
        },
{
    if let StoredCredentials::Found(creds) = stored {
        let id = text::chars_of(creds.agent_id.as_str());
        if !text::starts_with(id.as_slice(), "direct-") {
            return Ok(EnrollPlan::UseStored(creds));
        }
    }
    let agent_url = text::copy_option(&cfg.agent.pulseboard_url);
    let target_url = match &cfg.targets.pulseboard {
        Some(t) => text::copy_option(&t.url),
        None => None,
    };
    if let Some(token) = &cfg.agent.enroll_token {
        return match first_of(agent_url, target_url) {
            Some(base_url) => Ok(EnrollPlan::ExchangeToken { base_url, token: token.clone() }),
            None => Err(EnrollError::NoUrlForToken),
        };
    }
    if let Some(target) = &cfg.targets.pulseboard {
        if let Some(api_key) = &target.api_key {
            return match first_of(target_url, agent_url) {
                Some(base_url) => Ok(
                    EnrollPlan::SelfEnroll { base_url, api_key: api_key.clone() },
                ),
                None => Err(EnrollError::NoUrlForKey),
            };
        }
    }
    Ok(EnrollPlan::LocalOnly)
}

/// The credentials of an agent without a workspace.
pub fn local_credentials() -> (r: AgentCredentials)
    ensures
        r.agent_id@ == "local"@,
        r.api_key@.len() == 0,
        r.base_url@.len() == 0,
        r.tenant_id@.len() == 0,
        r.hmac_key_b64@.len() == 0,
{
    AgentCredentials {
        agent_id: "local".to_owned(),
        api_key: String::new(),
        base_url: String::new(),
        tenant_id: String::new(),
        hmac_key_b64: String::new(),
    }
}

// ---------------------------------------------------------------------------
// Requests
// ---------------------------------------------------------------------------

/// The enrollment request: a token goes into the body, a tenant's key into the
/// header.
pub open spec fn enroll_request_of(
    base_url: Seq<char>,
    hostname: Seq<char>,
    version: Seq<char>,
    token: Option<Seq<char>>,
    tenant_key: Option<Seq<char>>,
) -> PostView {
    let common = seq![
        ("hostname"@, PayloadView::Text(hostname)),
        ("version"@, PayloadView::Text(version)),
    ];
    PostView {
        url: payload::url_of(base_url, "/api/agent/v1/enroll"@),
        bearer: tenant_key,
        body: PayloadView::Record(
            match token {
                Some(t) => common.push(("token"@, PayloadView::Text(t))),
                None => common,
            },
        ),
    }
}

/// POST /api/agent/v1/enroll. Exactly one of `token` / `tenant_key` is meant to
/// be given. `token` goes in the JSON body; `tenant_key` is sent as a `Bearer`
/// header.
pub fn enroll_request(
    base_url: &str,
    hostname: &str,
    version: &str,
    token: Option<&str>,
    tenant_key: Option<&str>,
) -> (r: Post)
    ensures
        r@ == enroll_request_of(
            base_url@,
            hostname@,
            version@,
            match token {
                Some(t) => Some(t@),
                None => None,
            },
            match tenant_key {
                Some(k) => Some(k@),
                None => None,
            },
        ),
{
    let body = match token {
        Some(t) => payload::record3(
            "hostname",
            payload::text_of(hostname),
            "version",
            payload::text_of(version),
            "token",
            payload::text_of(t),
        ),
        None => payload::record2(
            "hostname",
            payload::text_of(hostname),
            "version",
            payload::text_of(version),
        ),
    };
    let r = Post {
        url: payload::url(base_url, "/api/agent/v1/enroll"),
        bearer: match tenant_key {
            Some(k) => Some(k.to_owned()),
            None => None,
        },
        body,
    };
    proof {
        let common = seq![
            ("hostname"@, PayloadView::Text(hostname@)),
            ("version"@, PayloadView::Text(version@)),
        ];
        if let Some(t) = token {
            assert(r@.body->Record_0 =~= common.push(("token"@, PayloadView::Text(t@))));
        } else {
            assert(r@.body->Record_0 =~= common);
        }
    }
    r
}

/// The text of a field of the workspace's reply; empty where there is none.
pub open spec fn reply_text(reply: JsonView, key: Seq<char>) -> Seq<char> {
    match reply.text_field(key) {
        Some(t) => t,
        None => Seq::empty(),
    }
}

fn text_or_empty(reply: &Json, key: &str) -> (r: String)
    ensures
        r@ == reply_text(reply@, key@),
{
    match reply.get_str(key) {
        Some(t) => t.clone(),
        None => String::new(),
    }
}

/// The credentials that the workspace's reply holds. The tenant and the key
/// that signs its configurations are learned here; without the key the agent
/// does not poll for configurations.
pub fn read_enroll_reply(reply: &Json, base_url: &str) -> (r: Result<AgentCredentials, EnrollError>)
    ensures
        match reply@.text_field("agentId"@) {
            None => r is Err && r->Err_0 == EnrollError::MissingAgentId,
            Some(id) => match reply@.text_field("apiKey"@) {
                None => r is Err && r->Err_0 == EnrollError::MissingApiKey,
                Some(key) => r is Ok && r->Ok_0.agent_id@ == id && r->Ok_0.api_key@ == key
                    && r->Ok_0.base_url@ == base_url@ && r->Ok_0.tenant_id@ == reply_text(
                    reply@,
                    "tenantId"@,
                ) && r->Ok_0.hmac_key_b64@ == reply_text(reply@, "hmacKeyB64"@),
            },
        },
{
    let agent_id = match reply.get_str("agentId") {
        Some(id) => id.clone(),
        None => {
            return Err(EnrollError::MissingAgentId);
        },
    };
    let api_key = match reply.get_str("apiKey") {
        Some(key) => key.clone(),
        None => {
            return Err(EnrollError::MissingApiKey);
        },
    };
    Ok(
        AgentCredentials {
            agent_id,
            api_key,
            base_url: base_url.to_owned(),
            tenant_id: text_or_empty(reply, "tenantId"),
            hmac_key_b64: text_or_empty(reply, "hmacKeyB64"),
        },
    )
}

/// The bearer token of an enrolled agent.
pub open spec fn bearer_of(c: CredentialsView) -> Seq<char> {
    c.agent_id + ":"@ + c.api_key
}

/// The bearer token of an enrolled agent.
pub fn bearer(creds: &AgentCredentials) -> (r: String)
    ensures
        r@ == bearer_of(creds@),
{
    text::cat3(creds.agent_id.as_str(), ":", creds.api_key.as_str())
}

/// The heartbeat; an agent without a workspace sends none.
pub open spec fn checkin_of(
    c: CredentialsView,
    version: Seq<char>,
    config_hash: Seq<char>,
    stats: PayloadView,
) -> Option<PostView> {
    if c.base_url.len() == 0 {
        None
    } else {
        Some(
            PostView {
                url: payload::url_of(c.base_url, "/api/agent/v1/checkin"@),
                bearer: Some(bearer_of(c)),
                body: PayloadView::Record(
                    seq![
                        ("version"@, PayloadView::Text(version)),
                        ("configHash"@, PayloadView::Text(config_hash)),
                        ("stats"@, stats),
                    ],
                ),
            },
        )
    }
}

/// The heartbeat that is sent once a minute; none in local-only mode.
pub fn checkin(
    creds: &AgentCredentials,
    version: &str,
    config_hash: &str,
    stats: Payload,
) -> (r: Option<Post>)
    ensures
        match r {
            Some(p) => checkin_of(creds@, version@, config_hash@, stats@) == Some(p@),
            None => checkin_of(creds@, version@, config_hash@, stats@) is None,
        },
{
    if creds.base_url.as_str().is_empty() {
        return None;
    }
    let body = payload::record3(
        "version",
        payload::text_of(version),
        "configHash",
        payload::text_of(config_hash),
        "stats",
        stats,
    );
    Some(
        Post {
            url: payload::url(creds.base_url.as_str(), "/api/agent/v1/checkin"),
            bearer: Some(bearer(creds)),
            body,
        },
    )
}

/// The statistics that a heartbeat carries.
pub fn checkin_stats(version: &str) -> (r: Payload)
    ensures
        r@ == PayloadView::Record(seq![("version"@, PayloadView::Text(version@))]),
{
    payload::record1("version", payload::text_of(version))
}

// ---------------------------------------------------------------------------
// Laws
// ---------------------------------------------------------------------------

/// Without stored credentials the enrollment token is exchanged, at the agent's
/// workspace URL or else the target's; where there is no token, the tenant's key
/// is used, at the target's URL or else the agent's. Without a URL either of them
/// is an error, and without both the agent stays local.
pub proof fn law_enrollment_takes_what_is_configured(cfg: Config)
    ensures
        ({
            let plan = plan_of(StoredCredentials::Absent, cfg);
            let of_agent = cfg.agent.pulseboard_url;
            let of_target = match cfg.targets.pulseboard {
                Some(t) => t.url,
                None => None,
            };
            let key = match cfg.targets.pulseboard {
                Some(t) => t.api_key,
                None => None,
            };
            &&& cfg.agent.enroll_token matches Some(token) ==> {
                &&& of_agent matches Some(url) ==> plan == Ok::<PlanView, EnrollError>(
                    PlanView::ExchangeToken { base_url: url@, token: token@ },
                )
                &&& of_agent is None ==> (of_target matches Some(url) ==> plan == Ok::<
                    PlanView,
                    EnrollError,
                >(PlanView::ExchangeToken { base_url: url@, token: token@ }))
                &&& of_agent is None && of_target is None ==> plan == Err::<PlanView, EnrollError>(
                    EnrollError::NoUrlForToken,
                )
            }
            &&& cfg.agent.enroll_token is None ==> (key matches Some(k) ==> {
                &&& of_target matches Some(url) ==> plan == Ok::<PlanView, EnrollError>(
                    PlanView::SelfEnroll { base_url: url@, api_key: k@ },
                )
                &&& of_target is None ==> (of_agent matches Some(url) ==> plan == Ok::<
                    PlanView,
                    EnrollError,
                >(PlanView::SelfEnroll { base_url: url@, api_key: k@ }))
                &&& of_agent is None && of_target is None ==> plan == Err::<PlanView, EnrollError>(
                    EnrollError::NoUrlForKey,
                )
            })
            &&& cfg.agent.enroll_token is None && key is None ==> plan == Ok::<
                PlanView,
                EnrollError,
            >(PlanView::LocalOnly)
        }),
{
}

/// An agent id is stale exactly when it begins with `direct-`.
pub proof fn law_stale_ids_begin_with_direct(rest: Seq<char>, id: Seq<char>)
    ensures
        is_stale("direct-"@ + rest),
        is_stale(id) ==> id == "direct-"@ + id.skip(7),
{
    reveal_strlit("direct-");
    text::law_a_text_stands_where_its_characters_do(Seq::empty(), "direct-"@, rest);
    if is_stale(id) {
        text::law_a_text_stands_where_its_characters_do(Seq::empty(), "direct-"@, id.skip(7));
        assert(id =~= id.subrange(0, 7) + id.skip(7));
    }
}

/// The enrollment request says the host and the version. A token goes into the
/// body and a tenant's key into the header, neither into the other.
pub proof fn law_enrollment_says_who_asks(
    base_url: Seq<char>,
    hostname: Seq<char>,
    version: Seq<char>,
    token: Option<Seq<char>>,
    tenant_key: Option<Seq<char>>,
)
    ensures
        ({
            let post = enroll_request_of(base_url, hostname, version, token, tenant_key);
            &&& post.url == payload::url_of(base_url, "/api/agent/v1/enroll"@)
            &&& post.bearer == tenant_key
            &&& post.body matches PayloadView::Record(fields) && {
                &&& fields.contains(("hostname"@, PayloadView::Text(hostname)))
                &&& fields.contains(("version"@, PayloadView::Text(version)))
                &&& token matches Some(t) ==> fields.len() == 3 && fields.contains(
                    ("token"@, PayloadView::Text(t)),
                )
                &&& token is None ==> fields.len() == 2
            }
        }),
{
    let post = enroll_request_of(base_url, hostname, version, token, tenant_key);
    let fields = post.body->Record_0;
    assert(fields[0] == ("hostname"@, PayloadView::Text(hostname)));
    assert(fields[1] == ("version"@, PayloadView::Text(version)));
    if let Some(t) = token {
        assert(fields[2] == ("token"@, PayloadView::Text(t)));
    }
}

/// An enrolled agent's heartbeat goes to its workspace under its id and its key,
/// and says its version, its configuration and its statistics. An agent without
/// a workspace sends none.
pub proof fn law_the_heartbeat_says_who_is_alive(
    c: CredentialsView,
    version: Seq<char>,
    config_hash: Seq<char>,
    stats: PayloadView,
)
    ensures
        c.base_url.len() == 0 ==> checkin_of(c, version, config_hash, stats) is None,
        c.base_url.len() > 0 ==> (checkin_of(c, version, config_hash, stats) matches Some(post) && {
            &&& post.url == payload::url_of(c.base_url, "/api/agent/v1/checkin"@)
            &&& post.bearer == Some(c.agent_id + ":"@ + c.api_key)
            &&& post.body == PayloadView::Record(
                seq![
                    ("version"@, PayloadView::Text(version)),
                    ("configHash"@, PayloadView::Text(config_hash)),
                    ("stats"@, stats),
                ],
            )
        }),
        bearer_of(c) == c.agent_id + ":"@ + c.api_key,
{
}

/// Each error of the enrollment has its words.
pub proof fn law_enrollment_errors_have_their_words()
    ensures
        EnrollError::NoUrlForToken.words()
            == "enroll_token set but no pulseboard_url configured"@,
        EnrollError::NoUrlForKey.words()
            == "api_key set but no url configured in [targets.pulseboard] or agent.pulseboard_url"@,
        EnrollError::MissingAgentId.words() == "missing agentId in enroll response"@,
        EnrollError::MissingApiKey.words() == "missing apiKey in enroll response"@,
{
}

/// What the workspace's reply does not say is empty.
pub proof fn law_a_reply_says_what_its_fields_say(reply: JsonView, key: Seq<char>)
    ensures
        reply.text_field(key) matches Some(t) ==> reply_text(reply, key) == t,
        reply.text_field(key) is None ==> reply_text(reply, key).len() == 0,
{
}

/// Credentials hold all of their parts, and a plan what it is made of.
pub proof fn law_credentials_hold_all_of_their_parts(
    c: AgentCredentials,
    base_url: String,
    secret: String,
)
    ensures
        c@.agent_id == c.agent_id@,
        c@.api_key == c.api_key@,
        c@.base_url == c.base_url@,
        c@.tenant_id == c.tenant_id@,
        c@.hmac_key_b64 == c.hmac_key_b64@,
        EnrollPlan::UseStored(c)@ == PlanView::UseStored(c@),
        (EnrollPlan::ExchangeToken { base_url, token: secret })@ == (PlanView::ExchangeToken {
            base_url: base_url@,
            token: secret@,
        }),
        (EnrollPlan::SelfEnroll { base_url, api_key: secret })@ == (PlanView::SelfEnroll {
            base_url: base_url@,
            api_key: secret@,
        }),
        EnrollPlan::LocalOnly@ == PlanView::LocalOnly,
{
}

} // verus!
