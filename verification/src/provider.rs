//! The built-in model providers, among them GitHub Copilot.
use vstd::prelude::*;
use vstd::string::StringExecFns;

use crate::keyed::{or_insert_spec, KeyedMap};

verus! {

broadcast use vstd::string::group_string_axioms;

/// The wire protocol a provider speaks.
#[derive(Debug, Clone, Copy, PartialEq, Eq)]
pub enum WireApi {
    /// The Responses API.
    Responses,
}

/// How to reach and authenticate with a model provider.
#[derive(Debug)]
pub struct ModelProviderInfo {
    pub name: String,
    pub base_url: Option<String>,
    pub env_key: Option<String>,
    pub env_key_instructions: Option<String>,
    pub experimental_bearer_token: Option<String>,
    pub wire_api: WireApi,
    pub query_params: Option<KeyedMap<String>>,
    pub http_headers: Option<KeyedMap<String>>,
    pub env_http_headers: Option<KeyedMap<String>>,
    pub request_max_retries: Option<u64>,
    pub stream_max_retries: Option<u64>,
    pub stream_idle_timeout_ms: Option<u64>,
    pub websocket_connect_timeout_ms: Option<u64>,
    pub requires_openai_auth: bool,
    pub supports_websockets: bool,
}

/// The headers that every Copilot request carries.
pub open spec fn copilot_headers_spec(h: Map<Seq<char>, String>) -> bool {
    &&& h.dom() == set![
        "Copilot-Integration-Id"@,
        "X-GitHub-Api-Version"@,
        "Openai-Intent"@,
        "X-Initiator"@,
    ]
    &&& h["Copilot-Integration-Id"@]@ == "copilot-developer-cli"@
    &&& h["X-GitHub-Api-Version"@]@ == "2026-01-09"@
    &&& h["Openai-Intent"@]@ == "conversation-agent"@
    &&& h["X-Initiator"@]@ == "user"@
}

/// The built-in Copilot provider: named `GitHub Copilot`, with no base URL
/// (it is resolved at startup), no key from the environment, no bearer
/// token, the Responses API, the Copilot headers, no OpenAI login and no
/// websockets.
pub open spec fn is_copilot_provider_spec(p: ModelProviderInfo) -> bool {
    &&& p.name@ == "GitHub Copilot"@
    &&& p.base_url is None
    &&& p.env_key is None
    &&& p.env_key_instructions is None
    &&& p.experimental_bearer_token is None
    &&& p.wire_api == WireApi::Responses
    &&& p.query_params is None
    &&& (p.http_headers matches Some(h) && copilot_headers_spec(h@))
    &&& p.env_http_headers is None
    &&& p.request_max_retries is None
    &&& p.stream_max_retries is None
    &&& p.stream_idle_timeout_ms is None
    &&& p.websocket_connect_timeout_ms is None
    &&& !p.requires_openai_auth
    &&& !p.supports_websockets
}

/// The built-in OpenAI provider, reached at `base_url` when one is given.
/// Only its name and its not being the Copilot provider are fixed from
/// outside; the rest (an OpenAI login required, no key from the environment,
/// no extra headers, no websockets) is this library's own choice of entry.
pub open spec fn is_openai_provider_spec(p: ModelProviderInfo, base_url: Option<String>) -> bool {
    &&& p.name@ == "OpenAI"@
    &&& p.base_url == base_url
    &&& p.env_key is None
    &&& p.env_key_instructions is None
    &&& p.experimental_bearer_token is None
    &&& p.wire_api == WireApi::Responses
    &&& p.query_params is None
    &&& p.http_headers is None
    &&& p.env_http_headers is None
    &&& p.request_max_retries is None
    &&& p.stream_max_retries is None
    &&& p.stream_idle_timeout_ms is None
    &&& p.websocket_connect_timeout_ms is None
    &&& p.requires_openai_auth
    &&& !p.supports_websockets
}

/// The Copilot provider.
pub fn create_copilot_provider() -> (p: ModelProviderInfo)
    ensures
        is_copilot_provider_spec(p),
{
    proof {
        reveal_strlit("Copilot-Integration-Id");
        reveal_strlit("X-GitHub-Api-Version");
        reveal_strlit("Openai-Intent");
        reveal_strlit("X-Initiator");
        assert("Copilot-Integration-Id"@.len() == 22);
        assert("X-GitHub-Api-Version"@.len() == 20);
        assert("Openai-Intent"@.len() == 13);
        assert("X-Initiator"@.len() == 11);
    }
    let mut headers: KeyedMap<String> = KeyedMap::new();
    headers.insert(
        String::from_str("Copilot-Integration-Id"),
        String::from_str("copilot-developer-cli"),
    );
    headers.insert(String::from_str("X-GitHub-Api-Version"), String::from_str("2026-01-09"));
    headers.insert(String::from_str("Openai-Intent"), String::from_str("conversation-agent"));
    headers.insert(String::from_str("X-Initiator"), String::from_str("user"));
    assert(headers@.dom() =~= set![
        "Copilot-Integration-Id"@,
        "X-GitHub-Api-Version"@,
        "Openai-Intent"@,
        "X-Initiator"@,
    ]);
    ModelProviderInfo {
        name: String::from_str("GitHub Copilot"),
        base_url: None,
        env_key: None,
        env_key_instructions: None,
        experimental_bearer_token: None,
        wire_api: WireApi::Responses,
        query_params: None,
        http_headers: Some(headers),
        env_http_headers: None,
        request_max_retries: None,
        stream_max_retries: None,
        stream_idle_timeout_ms: None,
        websocket_connect_timeout_ms: None,
        requires_openai_auth: false,
        supports_websockets: false,
    }
}

/// The OpenAI provider, reached at `base_url` when one is given; its other
/// settings are this library's own (see `is_openai_provider_spec`).
pub fn create_openai_provider(base_url: Option<String>) -> (p: ModelProviderInfo)
    ensures
        is_openai_provider_spec(p, base_url),
{
    ModelProviderInfo {
        name: String::from_str("OpenAI"),
        base_url,
        env_key: None,
        env_key_instructions: None,
        experimental_bearer_token: None,
        wire_api: WireApi::Responses,
        query_params: None,
        http_headers: None,
        env_http_headers: None,
        request_max_retries: None,
        stream_max_retries: None,
        stream_idle_timeout_ms: None,
        websocket_connect_timeout_ms: None,
        requires_openai_auth: true,
        supports_websockets: false,
    }
}

impl ModelProviderInfo {
    /// Whether this is the Copilot provider, known by its name.
    pub fn is_copilot(&self) -> (r: bool)
        ensures
            r == (self.name@ == "GitHub Copilot"@),
    {
        let copilot = String::from_str("GitHub Copilot");
        self.name == copilot
    }
}

/// The providers that exist without any configuration, by key: `openai`
/// (at `openai_base_url` when one is given) and `copilot`.
pub fn built_in_model_providers(openai_base_url: Option<String>) -> (r: KeyedMap<ModelProviderInfo>)
    ensures
        r@.dom() == set!["openai"@, "copilot"@],
        is_openai_provider_spec(r@["openai"@], openai_base_url),
        is_copilot_provider_spec(r@["copilot"@]),
{
    proof {
        reveal_strlit("openai");
        reveal_strlit("copilot");
        assert("openai"@.len() == 6);
        assert("copilot"@.len() == 7);
        assert("openai"@ != "copilot"@);
    }
    let mut providers: KeyedMap<ModelProviderInfo> = KeyedMap::new();
    let openai = create_openai_provider(openai_base_url);
    providers.insert(String::from_str("openai"), openai);
    let copilot = create_copilot_provider();
    providers.insert(String::from_str("copilot"), copilot);
    assert(providers@.dom() =~= set!["openai"@, "copilot"@]);
    providers
}

/// User configuration is merged into the built-in providers with
/// `entry(key).or_insert(provider)`, so a user's provider never replaces a
/// built-in one with the same key (such as `copilot`).
pub proof fn lemma_builtin_provider_wins(
    builtins: Map<Seq<char>, ModelProviderInfo>,
    key: Seq<char>,
    user_provider: ModelProviderInfo,
)
    requires
        builtins.contains_key(key),
    ensures
        or_insert_spec(builtins, key, user_provider) == builtins,
        or_insert_spec(builtins, key, user_provider)[key] == builtins[key],
{
}

} // verus!
