use std::collections::HashMap;

use codex_copilot::auth::{
    after_keyring_load, after_security_command, bearer_authorization, copilot_account,
    parse_copilot_user_info, start_token_lookup, token_from_output_text,
    token_from_security_output, user_info_action, user_info_failure, CopilotAuthError,
    TokenStep, UserInfoAction, COPILOT_KEYCHAIN_SERVICE,
};
use codex_copilot::json::{JsonNumber, JsonValue};

/// A keyring store held in memory.
#[derive(Default)]
struct MockKeyringStore {
    tokens: HashMap<(String, String), String>,
    fail: bool,
}

impl MockKeyringStore {
    fn save(&mut self, service: &str, account: &str, token: &str) -> Result<(), String> {
        self.tokens
            .insert((service.to_string(), account.to_string()), token.to_string());
        Ok(())
    }

    fn load(&self, service: &str, account: &str) -> Result<Option<String>, String> {
        if self.fail {
            return Err("keyring unavailable".to_string());
        }
        Ok(self
            .tokens
            .get(&(service.to_string(), account.to_string()))
            .cloned())
    }
}

/// Runs a token lookup against `store`; the `security` command, when the
/// lookup asks for it, answers with `security_output`.
fn run_lookup(
    store: &MockKeyringStore,
    username: Option<&str>,
    allow_subprocess_fallback: bool,
    security_output: Result<Vec<u8>, String>,
) -> Result<String, CopilotAuthError> {
    let mut step = start_token_lookup(username, allow_subprocess_fallback);
    let mut security_output = Some(security_output);
    loop {
        step = match step {
            TokenStep::LoadFromKeyring { service, account } => {
                after_keyring_load(store.load(&service, &account), allow_subprocess_fallback)
            }
            TokenStep::RunSecurityCommand => {
                after_security_command(security_output.take().expect("command runs once"))
            }
            TokenStep::Done(result) => return result,
        };
    }
}

fn read_token_no_fallback(
    store: &MockKeyringStore,
    username: Option<&str>,
) -> Result<String, CopilotAuthError> {
    run_lookup(store, username, false, Err("not run".to_string()))
}

fn obj(members: Vec<(&str, JsonValue)>) -> JsonValue {
    JsonValue::Object(
        members
            .into_iter()
            .map(|(k, v)| (k.to_string(), v))
            .collect(),
    )
}

fn text(s: &str) -> JsonValue {
    JsonValue::String(s.to_string())
}

fn integer(n: i64) -> JsonValue {
    if n >= 0 {
        JsonValue::Number(JsonNumber::PosInt(n as u64))
    } else {
        JsonValue::Number(JsonNumber::NegInt(n))
    }
}

fn float(f: f64) -> JsonValue {
    JsonValue::Number(JsonNumber::Float(f.to_bits()))
}

#[test]
fn test_read_copilot_token_returns_token_from_keychain() {
    let mut mock = MockKeyringStore::default();
    let account = "https://github.com:testuser";
    mock.save(COPILOT_KEYCHAIN_SERVICE, account, "gho_test123")
        .unwrap();

    let result = read_token_no_fallback(&mock, Some("testuser"));
    assert!(result.is_ok());
    assert_eq!(result.unwrap(), "gho_test123");
}

#[test]
fn test_read_copilot_token_missing_returns_error() {
    let mock = MockKeyringStore::default();
    let result = read_token_no_fallback(&mock, Some("testuser"));
    assert!(result.is_err());
    let err = result.unwrap_err().message();
    assert!(err.contains("Copilot token not found"), "Error was: {err}");
}

#[test]
fn test_read_copilot_token_empty_returns_error() {
    let mut mock = MockKeyringStore::default();
    let account = "https://github.com:testuser";
    mock.save(COPILOT_KEYCHAIN_SERVICE, account, "").unwrap();

    let result = read_token_no_fallback(&mock, Some("testuser"));
    assert!(result.is_err());
}

#[test]
fn test_read_copilot_token_without_username_returns_error_without_fallback() {
    let mock = MockKeyringStore::default();
    let result = read_token_no_fallback(&mock, None);
    assert!(result.is_err());
}

#[test]
fn test_parse_copilot_user_response_extracts_endpoint() {
    let json = obj(vec![
        ("login", text("testuser")),
        ("copilot_plan", text("enterprise")),
        (
            "endpoints",
            obj(vec![("api", text("https://api.enterprise.githubcopilot.com"))]),
        ),
        (
            "quota_snapshots",
            obj(vec![(
                "premium_interactions",
                obj(vec![
                    ("entitlement", integer(1000)),
                    ("remaining", integer(750)),
                    ("percent_remaining", float(75.0)),
                    ("unlimited", JsonValue::Bool(false)),
                ]),
            )]),
        ),
        ("quota_reset_date_utc", text("2026-04-01T00:00:00.000Z")),
    ]);

    let info = parse_copilot_user_info(&json).unwrap();
    assert_eq!(info.api_endpoint, "https://api.enterprise.githubcopilot.com");
    assert_eq!(info.login, "testuser");
    assert_eq!(info.copilot_plan, "enterprise");
    let quota = info.quota.as_ref().unwrap();
    assert_eq!(quota.percent_remaining, JsonNumber::Float(75.0f64.to_bits()));
    assert!(!quota.unlimited);
    assert_eq!(quota.entitlement, 1000);
    assert_eq!(quota.remaining, 750);
}

#[test]
fn test_parse_copilot_user_response_unlimited_quota() {
    let json = obj(vec![
        ("login", text("testuser")),
        ("copilot_plan", text("enterprise")),
        (
            "endpoints",
            obj(vec![("api", text("https://api.enterprise.githubcopilot.com"))]),
        ),
        (
            "quota_snapshots",
            obj(vec![(
                "premium_interactions",
                obj(vec![
                    ("entitlement", integer(1000)),
                    ("remaining", integer(1000)),
                    ("percent_remaining", float(100.0)),
                    ("unlimited", JsonValue::Bool(true)),
                ]),
            )]),
        ),
    ]);

    let info = parse_copilot_user_info(&json).unwrap();
    assert!(info.quota.as_ref().unwrap().unlimited);
}

#[test]
fn test_parse_copilot_user_response_missing_endpoints_fails() {
    let json = obj(vec![
        ("login", text("testuser")),
        ("copilot_plan", text("enterprise")),
    ]);

    let result = parse_copilot_user_info(&json);
    assert!(result.is_err());
}

#[test]
fn test_parse_copilot_user_response_no_quota_is_ok() {
    let json = obj(vec![
        ("login", text("testuser")),
        ("copilot_plan", text("individual")),
        ("endpoints", obj(vec![("api", text("https://api.githubcopilot.com"))])),
    ]);

    let info = parse_copilot_user_info(&json).unwrap();
    assert_eq!(info.api_endpoint, "https://api.githubcopilot.com");
    assert!(info.quota.is_none());
}

#[test]
fn user_info_defaults_login_and_plan_to_unknown() {
    let json = obj(vec![
        ("login", integer(5)),
        ("endpoints", obj(vec![("api", text("https://a"))])),
    ]);
    let info = parse_copilot_user_info(&json).unwrap();
    assert_eq!(info.login, "unknown");
    assert_eq!(info.copilot_plan, "unknown");
}

#[test]
fn user_info_endpoint_must_be_a_string_in_an_object() {
    let cases = vec![
        JsonValue::Null,
        obj(vec![("endpoints", text("https://a"))]),
        obj(vec![("endpoints", obj(vec![("api", integer(3))]))]),
        obj(vec![("endpoints", JsonValue::Array(vec![text("https://a")]))]),
    ];
    for json in cases {
        let err = parse_copilot_user_info(&json).unwrap_err();
        assert_eq!(err, CopilotAuthError::MissingApiEndpoint);
        assert_eq!(
            err.message(),
            "No Copilot API endpoint found. Check your Copilot subscription status."
        );
    }
}

#[test]
fn user_info_quota_needs_every_member_with_its_type() {
    let quota_with = |members: Vec<(&str, JsonValue)>| {
        obj(vec![
            ("endpoints", obj(vec![("api", text("https://a"))])),
            ("quota_snapshots", obj(vec![("premium_interactions", obj(members))])),
        ])
    };
    let full = || {
        vec![
            ("entitlement", integer(-1)),
            ("remaining", integer(0)),
            ("percent_remaining", integer(50)),
            ("unlimited", JsonValue::Bool(true)),
        ]
    };
    let info = parse_copilot_user_info(&quota_with(full())).unwrap();
    let quota = info.quota.unwrap();
    assert_eq!(quota.entitlement, -1);
    assert_eq!(quota.percent_remaining, JsonNumber::PosInt(50));
    for missing in 0..4 {
        let mut members = full();
        members.remove(missing);
        assert!(parse_copilot_user_info(&quota_with(members)).unwrap().quota.is_none());
    }
    let mut too_big = full();
    too_big[0] = ("entitlement", JsonValue::Number(JsonNumber::PosInt(u64::MAX)));
    assert!(parse_copilot_user_info(&quota_with(too_big)).unwrap().quota.is_none());
    let mut fractional = full();
    fractional[1] = ("remaining", float(1.5));
    assert!(parse_copilot_user_info(&quota_with(fractional)).unwrap().quota.is_none());
    let mut wrong = full();
    wrong[3] = ("unlimited", text("true"));
    assert!(parse_copilot_user_info(&quota_with(wrong)).unwrap().quota.is_none());
}

#[test]
fn user_info_actions_by_status() {
    assert_eq!(user_info_action(200), UserInfoAction::ParseBody);
    assert_eq!(
        user_info_action(401),
        UserInfoAction::Fail(CopilotAuthError::TokenExpired)
    );
    assert_eq!(user_info_action(403), UserInfoAction::ReadBodyThenFail);
    assert_eq!(user_info_action(500), UserInfoAction::ReadBodyThenFail);
}

#[test]
fn user_info_failure_messages() {
    let expired = CopilotAuthError::TokenExpired;
    assert_eq!(
        expired.message(),
        "Copilot token expired or revoked. Run 'copilot auth login' to re-authenticate."
    );
    let forbidden = user_info_failure(403, "nope");
    assert_eq!(
        forbidden,
        CopilotAuthError::NoActiveSubscription { body: "nope".to_string() }
    );
    assert_eq!(
        forbidden.message(),
        "No active Copilot subscription found for this GitHub account. (HTTP 403: nope)"
    );
    let other = user_info_failure(502, "bad gateway");
    assert_eq!(
        other,
        CopilotAuthError::UnexpectedStatus { status: 502, body: "bad gateway".to_string() }
    );
    assert_eq!(other.message(), "Copilot API returned 502: bad gateway");
    assert_eq!(user_info_failure(7, "").message(), "Copilot API returned 7: ");
}

#[test]
fn bearer_header_and_account() {
    assert_eq!(bearer_authorization("gho_x"), "Bearer gho_x");
    assert_eq!(copilot_account("octocat"), "https://github.com:octocat");
}

#[test]
fn keyring_token_is_returned_as_stored() {
    let mut mock = MockKeyringStore::default();
    mock.save("copilot-cli", "https://github.com:me", "  tok \n").unwrap();
    assert_eq!(read_token_no_fallback(&mock, Some("me")).unwrap(), "  tok \n");
}

#[test]
fn blank_keyring_token_falls_back_to_security_command() {
    let mut mock = MockKeyringStore::default();
    mock.save("copilot-cli", "https://github.com:me", " \t\n").unwrap();
    let result = run_lookup(&mock, Some("me"), true, Ok(b"  gho_cli\n".to_vec()));
    assert_eq!(result.unwrap(), "gho_cli");
}

#[test]
fn keyring_error_falls_back() {
    let mock = MockKeyringStore { fail: true, ..Default::default() };
    let result = read_token_no_fallback(&mock, Some("me"));
    assert_eq!(result.unwrap_err(), CopilotAuthError::TokenNotFoundForAccount);
    let result = run_lookup(&mock, Some("me"), true, Ok(b"gho_cli".to_vec()));
    assert_eq!(result.unwrap(), "gho_cli");
}

#[test]
fn no_username_goes_straight_to_security_command() {
    assert_eq!(start_token_lookup(None, true), TokenStep::RunSecurityCommand);
    assert_eq!(
        start_token_lookup(Some("u"), true),
        TokenStep::LoadFromKeyring {
            service: "copilot-cli".to_string(),
            account: "https://github.com:u".to_string(),
        }
    );
}

#[test]
fn security_command_outcomes() {
    let empty = after_security_command(Ok(b" \n".to_vec()));
    match empty {
        TokenStep::Done(Err(e)) => {
            assert_eq!(e, CopilotAuthError::TokenNotFoundInKeychain);
            assert_eq!(
                e.message(),
                "Copilot token not found in macOS Keychain. Run 'copilot auth login' first to authenticate."
            );
        }
        other => panic!("unexpected {:?}", other),
    }
    let failed = after_security_command(Err("No such file or directory".to_string()));
    match failed {
        TokenStep::Done(Err(e)) => assert_eq!(
            e.message(),
            "Failed to run 'security' command: No such file or directory. Install and log into GitHub Copilot CLI first: https://docs.github.com/en/copilot/github-copilot-in-the-cli"
        ),
        other => panic!("unexpected {:?}", other),
    }
    assert_eq!(
        CopilotAuthError::TokenNotFoundForAccount.message(),
        "Copilot token not found in keyring for the given account."
    );
}

#[test]
fn security_output_is_decoded_lossily_and_trimmed() {
    assert_eq!(token_from_security_output(b"\xffab\n").unwrap(), "\u{fffd}ab");
    assert_eq!(token_from_output_text("\u{3000}x y\u{85}").unwrap(), "x y");
    assert!(token_from_output_text("\u{2003}\u{a0}").is_err());
}

#[test]
fn extra_top_level_members_change_nothing() {
    let base = || {
        vec![
            ("login", text("me")),
            ("endpoints", obj(vec![("api", text("https://a"))])),
            (
                "quota_snapshots",
                obj(vec![(
                    "premium_interactions",
                    obj(vec![
                        ("entitlement", integer(10)),
                        ("remaining", integer(4)),
                        ("percent_remaining", float(40.0)),
                        ("unlimited", JsonValue::Bool(false)),
                    ]),
                )]),
            ),
        ]
    };
    let plain = parse_copilot_user_info(&obj(base())).unwrap();
    let mut more = base();
    more.insert(0, ("quota_reset_date_utc", text("2026-04-01T00:00:00.000Z")));
    more.insert(2, ("extra", JsonValue::Null));
    let extended = parse_copilot_user_info(&obj(more)).unwrap();
    assert_eq!(plain.login, extended.login);
    assert_eq!(plain.copilot_plan, extended.copilot_plan);
    assert_eq!(plain.api_endpoint, extended.api_endpoint);
    let (a, b) = (plain.quota.unwrap(), extended.quota.unwrap());
    assert_eq!(
        (a.entitlement, a.remaining, a.percent_remaining, a.unlimited),
        (b.entitlement, b.remaining, b.percent_remaining, b.unlimited)
    );
    let failing = obj(vec![("extra", text("x")), ("login", text("me"))]);
    assert!(parse_copilot_user_info(&failing).is_err());
}
