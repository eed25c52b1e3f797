use issue_viewer::auth::{
    initial_poll_interval, is_placeholder_client_id, login_precheck, parse_gh_auth_token_stdout, poll_step,
    DeviceCode, PollStep, TokenResponse,
};

#[test]
fn placeholder_client_id() {
    assert!(is_placeholder_client_id("REPLACE_ME"));
    assert!(is_placeholder_client_id(""));
    assert!(!is_placeholder_client_id("Iv1.abc"));
}

#[test]
fn parses_gh_auth_token_stdout() {
    assert_eq!(
        parse_gh_auth_token_stdout("gho_exampletoken\n").as_deref(),
        Some("gho_exampletoken")
    );
    assert!(parse_gh_auth_token_stdout("error: not logged in\n").is_none());
}

#[test]
fn gh_token_skips_blank_lines_and_trims() {
    assert_eq!(
        parse_gh_auth_token_stdout("\n  \r\n  github_pat_abc \r\nnext").as_deref(),
        Some("github_pat_abc")
    );
    assert_eq!(parse_gh_auth_token_stdout("ghu_x").as_deref(), Some("ghu_x"));
    assert_eq!(parse_gh_auth_token_stdout("ghp_y\r\n").as_deref(), Some("ghp_y"));
    assert!(parse_gh_auth_token_stdout("").is_none());
    assert!(parse_gh_auth_token_stdout("\n\n").is_none());
    assert!(parse_gh_auth_token_stdout("note\ngho_later").is_none());
}

fn resp(token: Option<&str>, error: Option<&str>, interval: Option<u64>) -> TokenResponse {
    TokenResponse {
        access_token: token.map(|s| s.to_string()),
        error: error.map(|s| s.to_string()),
        interval,
    }
}

#[test]
fn poll_steps_follow_the_device_flow() {
    assert_eq!(poll_step(&resp(Some("gho_t"), None, None), 5), PollStep::Token("gho_t".into()));
    assert_eq!(poll_step(&resp(None, Some("authorization_pending"), None), 5), PollStep::Wait(5));
    assert_eq!(poll_step(&resp(None, Some("slow_down"), Some(12)), 5), PollStep::Wait(12));
    assert_eq!(poll_step(&resp(None, Some("slow_down"), Some(0)), 5), PollStep::Wait(1));
    assert_eq!(poll_step(&resp(None, Some("slow_down"), None), 5), PollStep::Wait(10));
    assert_eq!(poll_step(&resp(None, None, None), 7), PollStep::Wait(7));
    assert_eq!(
        poll_step(&resp(None, Some("expired_token"), None), 5),
        PollStep::Fail("expired_token".into())
    );
}

#[test]
fn first_wait_is_at_least_a_second() {
    let mut d = DeviceCode {
        device_code: "abc".into(),
        user_code: "WDJB-MJHT".into(),
        verification_uri: "https://github.com/login/device".into(),
        expires_in: 900,
        interval: 5,
    };
    assert_eq!(initial_poll_interval(&d), 5);
    d.interval = 0;
    assert_eq!(initial_poll_interval(&d), 1);
}

#[test]
fn missing_client_id_stops_sign_in() {
    assert_eq!(
        login_precheck("REPLACE_ME").as_deref(),
        Some("Set GITHUB_CLIENT_ID in src/config.rs (OAuth App with Device Flow enabled)")
    );
    assert_eq!(login_precheck(""), None);
    assert_eq!(login_precheck("Iv1.abc"), None);
}
