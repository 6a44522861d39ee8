//! Copilot authentication: the user-info document, the answers of the
//! user-info endpoint, and the steps of looking up the OAuth token that the
//! `copilot` CLI stores (keyring first, then the macOS `security` command).
use vstd::prelude::*;
use vstd::string::StringExecFns;
use vstd::utf8::{decode_utf8, valid_utf8};

use crate::json::{
    json_bool, json_get, json_get_opt, json_i64, json_number, json_str,
    lemma_member_insert_keeps_lookup, JsonNumber, JsonValue,
};
use crate::numbers::{decimal_string, decimal_text};
use crate::std_calls::{from_utf8_lossy, utf8_lossy};
use crate::text::{chars_of, string_of, trim, trim_chars};

verus! {

broadcast use vstd::string::group_string_axioms;

/// The keyring service under which the `copilot` CLI stores its token.
pub const COPILOT_KEYCHAIN_SERVICE: &'static str = "copilot-cli";

/// The GitHub endpoint that describes the signed-in Copilot user.
pub const COPILOT_USER_ENDPOINT: &'static str = "https://api.github.com/copilot_internal/user";

/// The user agent sent to the user-info endpoint.
pub const COPILOT_USER_AGENT: &'static str = "copex";

// ---------------------------------------------------------------------------
// Errors
// ---------------------------------------------------------------------------

/// Why Copilot authentication failed.
#[derive(Debug, PartialEq)]
pub enum CopilotAuthError {
    /// The user-info document has no `endpoints.api` string.
    MissingApiEndpoint,
    /// The user-info endpoint answered 401.
    TokenExpired,
    /// The user-info endpoint answered 403, with this body.
    NoActiveSubscription { body: String },
    /// The user-info endpoint answered another status, with this body.
    UnexpectedStatus { status: u16, body: String },
    /// No usable token under the user's keyring account, and no fallback.
    TokenNotFoundForAccount,
    /// The `security` command could not be run, for this reason.
    SecurityCommandFailed { reason: String },
    /// The `security` command printed no token.
    TokenNotFoundInKeychain,
}

/// The message that each error reads as.
pub open spec fn error_message(e: CopilotAuthError) -> Seq<char> {
    match e {
        CopilotAuthError::MissingApiEndpoint => "No Copilot API endpoint found. Check your Copilot subscription status."@,
        CopilotAuthError::TokenExpired => "Copilot token expired or revoked. Run 'copilot auth login' to re-authenticate."@,
        CopilotAuthError::NoActiveSubscription { body } => "No active Copilot subscription found for this GitHub account. (HTTP 403: "@
            + body@ + ")"@,
        CopilotAuthError::UnexpectedStatus { status, body } => "Copilot API returned "@
            + decimal_text(status as nat) + ": "@ + body@,
        CopilotAuthError::TokenNotFoundForAccount => "Copilot token not found in keyring for the given account."@,
        CopilotAuthError::SecurityCommandFailed { reason } => "Failed to run 'security' command: "@
            + reason@
            + ". Install and log into GitHub Copilot CLI first: https://docs.github.com/en/copilot/github-copilot-in-the-cli"@,
        CopilotAuthError::TokenNotFoundInKeychain => "Copilot token not found in macOS Keychain. Run 'copilot auth login' first to authenticate."@,
    }
}

impl CopilotAuthError {
    /// The error's message.
    pub fn message(&self) -> (r: String)
        ensures
            r@ == error_message(*self),
    {
        match self {
            CopilotAuthError::MissingApiEndpoint => String::from_str(
                "No Copilot API endpoint found. Check your Copilot subscription status.",
            ),
            CopilotAuthError::TokenExpired => String::from_str(
                "Copilot token expired or revoked. Run 'copilot auth login' to re-authenticate.",
            ),
            CopilotAuthError::NoActiveSubscription { body } => {
                let mut s = String::from_str(
                    "No active Copilot subscription found for this GitHub account. (HTTP 403: ",
                );
                s.append(body.as_str());
                s.append(")");
                s
            },
            CopilotAuthError::UnexpectedStatus { status, body } => {
                let mut s = String::from_str("Copilot API returned ");
                let code = decimal_string(*status as u64);
                s.append(code.as_str());
                s.append(": ");
                s.append(body.as_str());
                s
            },
            CopilotAuthError::TokenNotFoundForAccount => String::from_str(
                "Copilot token not found in keyring for the given account.",
            ),
            CopilotAuthError::SecurityCommandFailed { reason } => {
                let mut s = String::from_str("Failed to run 'security' command: ");
                s.append(reason.as_str());
                s.append(
                    ". Install and log into GitHub Copilot CLI first: https://docs.github.com/en/copilot/github-copilot-in-the-cli",
                );
                s
            },
            CopilotAuthError::TokenNotFoundInKeychain => String::from_str(
                "Copilot token not found in macOS Keychain. Run 'copilot auth login' first to authenticate.",
            ),
        }
    }
}

// ---------------------------------------------------------------------------
// The user-info document
// ---------------------------------------------------------------------------

/// The `premium_interactions` quota of a Copilot user. `percent_remaining`
/// is the JSON number as given (every JSON number has an `f64` value).
#[derive(Debug)]
pub struct CopilotQuotaSnapshot {
    pub entitlement: i64,
    pub remaining: i64,
    pub percent_remaining: JsonNumber,
    pub unlimited: bool,
}

/// What the user-info endpoint says of a Copilot user.
#[derive(Debug)]
pub struct CopilotUserInfo {
    pub login: String,
    pub copilot_plan: String,
    pub api_endpoint: String,
    pub quota: Option<CopilotQuotaSnapshot>,
}

/// A top-level string member, or `unknown` when there is none.
pub open spec fn string_or_unknown(json: JsonValue, key: Seq<char>) -> Seq<char> {
    match json_str(json_get(json, key)) {
        Some(s) => s,
        None => "unknown"@,
    }
}

/// `endpoints.api`, when it is a string.
pub open spec fn api_endpoint_of(json: JsonValue) -> Option<Seq<char>> {
    json_str(json_get_opt(json_get(json, "endpoints"@), "api"@))
}

/// `quota_snapshots.premium_interactions`, when it is there.
pub open spec fn premium_interactions_of(json: JsonValue) -> Option<JsonValue> {
    json_get_opt(json_get(json, "quota_snapshots"@), "premium_interactions"@)
}

/// The quota that `premium_interactions` describes: all four members present,
/// `entitlement` and `remaining` integers that fit in an `i64`,
/// `percent_remaining` a number and `unlimited` a boolean.
pub open spec fn quota_of(pi: Option<JsonValue>) -> Option<(i64, i64, JsonNumber, bool)> {
    match (
        json_i64(json_get_opt(pi, "entitlement"@)),
        json_i64(json_get_opt(pi, "remaining"@)),
        json_number(json_get_opt(pi, "percent_remaining"@)),
        json_bool(json_get_opt(pi, "unlimited"@)),
    ) {
        (Some(e), Some(r), Some(p), Some(u)) => Some((e, r, p, u)),
        _ => None,
    }
}

/// What the user-info document says: login, plan, API endpoint and quota;
/// nothing when it has no API endpoint.
pub open spec fn user_info_spec(json: JsonValue) -> Option<
    (Seq<char>, Seq<char>, Seq<char>, Option<(i64, i64, JsonNumber, bool)>),
> {
    match api_endpoint_of(json) {
        Some(api) => Some(
            (
                string_or_unknown(json, "login"@),
                string_or_unknown(json, "copilot_plan"@),
                api,
                quota_of(premium_interactions_of(json)),
            ),
        ),
        None => None,
    }
}

/// The abstract content of a `CopilotUserInfo`.
pub open spec fn user_info_view(info: CopilotUserInfo) -> (
    Seq<char>,
    Seq<char>,
    Seq<char>,
    Option<(i64, i64, JsonNumber, bool)>,
) {
    (
        info.login@,
        info.copilot_plan@,
        info.api_endpoint@,
        match info.quota {
            Some(q) => Some((q.entitlement, q.remaining, q.percent_remaining, q.unlimited)),
            None => None,
        },
    )
}

/// A top-level string member, or `unknown`.
fn string_member_or_unknown(json: &JsonValue, key: &str) -> (r: String)
    ensures
        r@ == string_or_unknown(*json, key@),
{
    match json.get(key) {
        Some(v) => match v.as_str() {
            Some(s) => s.to_string(),
            None => String::from_str("unknown"),
        },
        None => String::from_str("unknown"),
    }
}

fn quota_from(pi: Option<&JsonValue>) -> (r: Option<CopilotQuotaSnapshot>)
    ensures
        match (r, quota_of(match pi { Some(v) => Some(*v), None => None })) {
            (Some(q), Some((e, rem, p, u))) => q.entitlement == e && q.remaining == rem
                && q.percent_remaining == p && q.unlimited == u,
            (None, None) => true,
            _ => false,
        },
{
    let pi = match pi {
        Some(v) => v,
        None => return None,
    };
    let entitlement = match pi.get("entitlement") {
        Some(v) => match v.as_i64() {
            Some(n) => n,
            None => return None,
        },
        None => return None,
    };
    let remaining = match pi.get("remaining") {
        Some(v) => match v.as_i64() {
            Some(n) => n,
            None => return None,
        },
        None => return None,
    };
    let percent_remaining = match pi.get("percent_remaining") {
        Some(v) => match v.as_number() {
            Some(n) => n,
            None => return None,
        },
        None => return None,
    };
    let unlimited = match pi.get("unlimited") {
        Some(v) => match v.as_bool() {
            Some(b) => b,
            None => return None,
        },
        None => return None,
    };
    Some(CopilotQuotaSnapshot { entitlement, remaining, percent_remaining, unlimited })
}

/// Reads the user-info document. Fails, with `MissingApiEndpoint`, exactly
/// when `endpoints.api` is not a string; `login` and `copilot_plan` read
/// `unknown` when they are not strings; the quota is there exactly when all
/// of its members are.
pub fn parse_copilot_user_info(json: &JsonValue) -> (r: Result<CopilotUserInfo, CopilotAuthError>)
    ensures
        match r {
            Ok(info) => user_info_spec(*json) == Some(user_info_view(info)) && match info.quota {
                Some(q) => {
                    let pi = premium_interactions_of(*json);
                    &&& json_i64(json_get_opt(pi, "entitlement"@)) == Some(q.entitlement)
                    &&& json_i64(json_get_opt(pi, "remaining"@)) == Some(q.remaining)
                    &&& json_number(json_get_opt(pi, "percent_remaining"@)) == Some(
                        q.percent_remaining,
                    )
                    &&& json_bool(json_get_opt(pi, "unlimited"@)) == Some(q.unlimited)
                },
                None => quota_of(premium_interactions_of(*json)) is None,
            },
            Err(e) => user_info_spec(*json) is None && e == CopilotAuthError::MissingApiEndpoint,
        },
{
    let login = string_member_or_unknown(json, "login");
    let copilot_plan = string_member_or_unknown(json, "copilot_plan");
    let api_endpoint = match json.get("endpoints") {
        Some(endpoints) => match endpoints.get("api") {
            Some(api) => match api.as_str() {
                Some(s) => s.to_string(),
                None => return Err(CopilotAuthError::MissingApiEndpoint),
            },
            None => return Err(CopilotAuthError::MissingApiEndpoint),
        },
        None => return Err(CopilotAuthError::MissingApiEndpoint),
    };
    let premium = match json.get("quota_snapshots") {
        Some(snapshots) => snapshots.get("premium_interactions"),
        None => None,
    };
    let quota = quota_from(premium);
    Ok(CopilotUserInfo { login, copilot_plan, api_endpoint, quota })
}

/// The user info reads nothing but the members `login`, `copilot_plan`,
/// `endpoints` and `quota_snapshots`: two documents that agree on those
/// give the same result.
pub proof fn lemma_user_info_reads_four_members(json: JsonValue, other: JsonValue)
    requires
        json_get(json, "login"@) == json_get(other, "login"@),
        json_get(json, "copilot_plan"@) == json_get(other, "copilot_plan"@),
        json_get(json, "endpoints"@) == json_get(other, "endpoints"@),
        json_get(json, "quota_snapshots"@) == json_get(other, "quota_snapshots"@),
    ensures
        user_info_spec(json) == user_info_spec(other),
{
}

/// A top-level member with another name than `login`, `copilot_plan`,
/// `endpoints` and `quota_snapshots`, added anywhere in the document, leaves
/// the user info as it was (both fail, or both give the same fields).
pub proof fn lemma_extra_member_ignored(
    json: JsonValue,
    extended: JsonValue,
    i: int,
    member: (String, JsonValue),
)
    requires
        json matches JsonValue::Object(members) && extended matches JsonValue::Object(more) && more@
            == members@.insert(i, member) && 0 <= i <= members@.len(),
        member.0@ != "login"@,
        member.0@ != "copilot_plan"@,
        member.0@ != "endpoints"@,
        member.0@ != "quota_snapshots"@,
    ensures
        user_info_spec(extended) == user_info_spec(json),
{
    let members = json->Object_0@;
    lemma_member_insert_keeps_lookup(members, i, member, "login"@);
    lemma_member_insert_keeps_lookup(members, i, member, "copilot_plan"@);
    lemma_member_insert_keeps_lookup(members, i, member, "endpoints"@);
    lemma_member_insert_keeps_lookup(members, i, member, "quota_snapshots"@);
    lemma_user_info_reads_four_members(json, extended);
}

// ---------------------------------------------------------------------------
// The user-info endpoint
// ---------------------------------------------------------------------------

/// What to do with the user-info endpoint's answer, by its status.
#[derive(Debug, PartialEq)]
pub enum UserInfoAction {
    /// 200: read the body as JSON and parse it with `parse_copilot_user_info`.
    ParseBody,
    /// Fail at once with this error.
    Fail(CopilotAuthError),
    /// Read the body as text, then fail with `user_info_failure`.
    ReadBodyThenFail,
}

/// The action for a status: 200 parses, 401 fails at once, any other status
/// fails with the body.
pub fn user_info_action(status: u16) -> (r: UserInfoAction)
    ensures
        status == 200 ==> r == UserInfoAction::ParseBody,
        status == 401 ==> r == UserInfoAction::Fail(CopilotAuthError::TokenExpired),
        status != 200 && status != 401 ==> r == UserInfoAction::ReadBodyThenFail,
{
    if status == 200 {
        UserInfoAction::ParseBody
    } else if status == 401 {
        UserInfoAction::Fail(CopilotAuthError::TokenExpired)
    } else {
        UserInfoAction::ReadBodyThenFail
    }
}

/// The error for a status other than 200 and 401, given the body (empty
/// when it could not be read): 403 means no active subscription.
pub fn user_info_failure(status: u16, body: &str) -> (r: CopilotAuthError)
    ensures
        status == 403 ==> (r matches CopilotAuthError::NoActiveSubscription { body: b } && b@
            == body@),
        status != 403 ==> (r matches CopilotAuthError::UnexpectedStatus { status: s, body: b } && s
            == status && b@ == body@),
{
    if status == 403 {
        CopilotAuthError::NoActiveSubscription { body: body.to_string() }
    } else {
        CopilotAuthError::UnexpectedStatus { status, body: body.to_string() }
    }
}

/// The `Authorization` header value for a token.
pub fn bearer_authorization(token: &str) -> (r: String)
    ensures
        r@ == "Bearer "@ + token@,
{
    let mut s = String::from_str("Bearer ");
    s.append(token);
    s
}

// ---------------------------------------------------------------------------
// Token lookup
// ---------------------------------------------------------------------------

/// The next step of a token lookup.
#[derive(Debug, PartialEq)]
pub enum TokenStep {
    /// Load the token stored under `service` and `account` from the keyring
    /// store, then go on with `after_keyring_load`.
    LoadFromKeyring { service: String, account: String },
    /// Run `security find-generic-password -s copilot-cli -w`, then go on
    /// with `after_security_command`.
    RunSecurityCommand,
    /// The lookup is over.
    Done(Result<String, CopilotAuthError>),
}

/// The keyring account that holds a GitHub user's token.
pub open spec fn account_of(username: Seq<char>) -> Seq<char> {
    "https://github.com:"@ + username
}

/// The keyring account of a GitHub user.
pub fn copilot_account(username: &str) -> (r: String)
    ensures
        r@ == account_of(username@),
        r@ == "https://github.com:"@ + username@,
{
    let mut s = String::from_str("https://github.com:");
    s.append(username);
    s
}

/// Where a lookup goes when the keyring gives no token: to the `security`
/// command when the fallback is allowed, else to an error.
pub open spec fn fallback_spec(allow_subprocess_fallback: bool) -> TokenStep {
    if allow_subprocess_fallback {
        TokenStep::RunSecurityCommand
    } else {
        TokenStep::Done(Err(CopilotAuthError::TokenNotFoundForAccount))
    }
}

/// The step after the keyring answered `loaded`.
pub open spec fn after_keyring_spec(
    loaded: Result<Option<String>, String>,
    allow_subprocess_fallback: bool,
) -> TokenStep {
    match loaded {
        Ok(Some(token)) => if trim(token@).len() > 0 {
            TokenStep::Done(Ok(token))
        } else {
            fallback_spec(allow_subprocess_fallback)
        },
        _ => fallback_spec(allow_subprocess_fallback),
    }
}

fn fallback_step(allow_subprocess_fallback: bool) -> (r: TokenStep)
    ensures
        r == fallback_spec(allow_subprocess_fallback),
{
    if allow_subprocess_fallback {
        TokenStep::RunSecurityCommand
    } else {
        TokenStep::Done(Err(CopilotAuthError::TokenNotFoundForAccount))
    }
}

/// The first step of a lookup: the keyring when a GitHub user name is known,
/// else the fallback.
pub fn start_token_lookup(github_username: Option<&str>, allow_subprocess_fallback: bool) -> (r:
    TokenStep)
    ensures
        match github_username {
            Some(u) => r matches TokenStep::LoadFromKeyring { service, account } && service@
                == "copilot-cli"@ && account@ == account_of(u@) && account@ == "https://github.com:"@
                + u@,
            None => r == fallback_spec(allow_subprocess_fallback) && r == (if allow_subprocess_fallback {
                TokenStep::RunSecurityCommand
            } else {
                TokenStep::Done(Err(CopilotAuthError::TokenNotFoundForAccount))
            }),
        },
{
    match github_username {
        Some(username) => TokenStep::LoadFromKeyring {
            service: String::from_str("copilot-cli"),
            account: copilot_account(username),
        },
        None => fallback_step(allow_subprocess_fallback),
    }
}

/// Whether `s` holds something besides whitespace.
pub fn is_not_blank(s: &str) -> (r: bool)
    ensures
        r == (trim(s@).len() > 0),
{
    let chars = chars_of(s);
    trim_chars(&chars).len() > 0
}

/// The step after the keyring answered: a stored token that is not blank
/// ends the lookup; an absent or blank token, or a keyring error (its
/// message is only worth logging), leads to the fallback.
pub fn after_keyring_load(
    loaded: Result<Option<String>, String>,
    allow_subprocess_fallback: bool,
) -> (r: TokenStep)
    ensures
        r == after_keyring_spec(loaded, allow_subprocess_fallback),
{
    match loaded {
        Ok(Some(token)) => {
            if is_not_blank(token.as_str()) {
                TokenStep::Done(Ok(token))
            } else {
                fallback_step(allow_subprocess_fallback)
            }
        },
        _ => fallback_step(allow_subprocess_fallback),
    }
}

/// The token in what the `security` command printed, as text: the text
/// without surrounding whitespace, unless nothing is left.
pub fn token_from_output_text(text: &str) -> (r: Result<String, CopilotAuthError>)
    ensures
        trim(text@).len() > 0 ==> (r matches Ok(t) && t@ == trim(text@)),
        trim(text@).len() == 0 ==> r == Err::<String, CopilotAuthError>(
            CopilotAuthError::TokenNotFoundInKeychain,
        ),
{
    let chars = chars_of(text);
    let trimmed = trim_chars(&chars);
    if trimmed.len() == 0 {
        Err(CopilotAuthError::TokenNotFoundInKeychain)
    } else {
        Ok(string_of(&trimmed))
    }
}

/// The token in the bytes that the `security` command printed.
pub fn token_from_security_output(stdout: &[u8]) -> (r: Result<String, CopilotAuthError>)
    ensures
        trim(utf8_lossy(stdout@)).len() > 0 ==> (r matches Ok(t) && t@ == trim(
            utf8_lossy(stdout@),
        )),
        trim(utf8_lossy(stdout@)).len() == 0 ==> r == Err::<String, CopilotAuthError>(
            CopilotAuthError::TokenNotFoundInKeychain,
        ),
        valid_utf8(stdout@) ==> utf8_lossy(stdout@) == decode_utf8(stdout@),
{
    let text = from_utf8_lossy(stdout);
    token_from_output_text(text.as_str())
}

/// The last step: the lookup ends with the token that the `security`
/// command printed, or with why there is none. `ran` holds the command's
/// standard output, or why the command could not be run.
pub fn after_security_command(ran: Result<Vec<u8>, String>) -> (r: TokenStep)
    ensures
        match ran {
            Ok(stdout) => {
                &&& valid_utf8(stdout@) ==> utf8_lossy(stdout@) == decode_utf8(stdout@)
                &&& if trim(utf8_lossy(stdout@)).len() > 0 {
                    r matches TokenStep::Done(Ok(t)) && t@ == trim(utf8_lossy(stdout@))
                } else {
                    r == TokenStep::Done(Err(CopilotAuthError::TokenNotFoundInKeychain))
                }
            },
            Err(reason) => r == TokenStep::Done(
                Err(CopilotAuthError::SecurityCommandFailed { reason }),
            ),
        },
{
    match ran {
        Ok(stdout) => TokenStep::Done(token_from_security_output(stdout.as_slice())),
        Err(reason) => TokenStep::Done(Err(CopilotAuthError::SecurityCommandFailed { reason })),
    }
}

// ---------------------------------------------------------------------------
// Laws of the token lookup
// ---------------------------------------------------------------------------

/// The keyring account is `https://github.com:` followed by the user name
/// exactly as given: nothing is added, dropped or changed in the name.
pub proof fn lemma_account_keeps_username(username: Seq<char>)
    ensures
        account_of(username).len() == username.len() + 19,
        account_of(username).take(19) == "https://github.com:"@,
        account_of(username).skip(19) == username,
        forall|k: int|
            0 <= k < username.len() ==> #[trigger] account_of(username)[k + 19] == username[k],
{
    reveal_strlit("https://github.com:");
    assert(account_of(username).take(19) =~= "https://github.com:"@);
    assert(account_of(username).skip(19) =~= username);
}

/// What the keyring's answer decides. A stored token that is not blank is
/// the answer, as stored, whether or not the fallback is allowed; it is the
/// only way the keyring ends the lookup with a token. Any other answer goes
/// to the `security` command when the fallback is allowed, and to
/// `TokenNotFoundForAccount` when it is not.
pub proof fn lemma_keyring_answer(loaded: Result<Option<String>, String>, allow: bool)
    ensures
        match loaded {
            Ok(Some(token)) => trim(token@).len() > 0 ==> after_keyring_spec(loaded, allow)
                == TokenStep::Done(Ok::<String, CopilotAuthError>(token)),
            _ => true,
        },
        match after_keyring_spec(loaded, allow) {
            TokenStep::Done(Ok(token)) => loaded == Ok::<Option<String>, String>(Some(token))
                && trim(token@).len() > 0,
            TokenStep::Done(Err(e)) => !allow && e == CopilotAuthError::TokenNotFoundForAccount,
            TokenStep::RunSecurityCommand => allow,
            TokenStep::LoadFromKeyring { .. } => false,
        },
        !(loaded matches Ok(Some(token)) && trim(token@).len() > 0) ==> after_keyring_spec(
            loaded,
            allow,
        ) == (if allow {
            TokenStep::RunSecurityCommand
        } else {
            TokenStep::Done(Err(CopilotAuthError::TokenNotFoundForAccount))
        }),
{
}

// ---------------------------------------------------------------------------
// Laws of the user-info document
// ---------------------------------------------------------------------------

/// The quota, member by member: it is there exactly when `entitlement` and
/// `remaining` are integers that fit in an `i64`, `percent_remaining` is a
/// number and `unlimited` is a boolean; each field is then that member's
/// value, and `unlimited` is the boolean given, whatever the counts say.
pub proof fn lemma_quota_members(pi: Option<JsonValue>)
    ensures
        quota_of(pi) is Some <==> {
            &&& json_i64(json_get_opt(pi, "entitlement"@)) is Some
            &&& json_i64(json_get_opt(pi, "remaining"@)) is Some
            &&& json_number(json_get_opt(pi, "percent_remaining"@)) is Some
            &&& json_bool(json_get_opt(pi, "unlimited"@)) is Some
        },
        quota_of(pi) matches Some(q) ==> {
            &&& json_i64(json_get_opt(pi, "entitlement"@)) == Some(q.0)
            &&& json_i64(json_get_opt(pi, "remaining"@)) == Some(q.1)
            &&& json_number(json_get_opt(pi, "percent_remaining"@)) == Some(q.2)
            &&& json_bool(json_get_opt(pi, "unlimited"@)) == Some(q.3)
        },
{
}

/// The user info, field by field: it is there exactly when `endpoints.api`
/// is a string, which is then the endpoint; `login` and `copilot_plan` are
/// their strings, or `unknown`; the quota is what
/// `quota_snapshots.premium_interactions` holds.
pub proof fn lemma_user_info_fields(json: JsonValue)
    ensures
        user_info_spec(json) is Some <==> json_str(
            json_get_opt(json_get(json, "endpoints"@), "api"@),
        ) is Some,
        user_info_spec(json) matches Some(info) ==> {
            &&& Some(info.2) == json_str(json_get_opt(json_get(json, "endpoints"@), "api"@))
            &&& info.0 == (if json_str(json_get(json, "login"@)) is Some {
                json_str(json_get(json, "login"@))->0
            } else {
                "unknown"@
            })
            &&& info.1 == (if json_str(json_get(json, "copilot_plan"@)) is Some {
                json_str(json_get(json, "copilot_plan"@))->0
            } else {
                "unknown"@
            })
            &&& info.3 == quota_of(
                json_get_opt(json_get(json, "quota_snapshots"@), "premium_interactions"@),
            )
        },
{
}

} // verus!
