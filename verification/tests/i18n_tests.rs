use issue_viewer::i18n::{lang_from_locale, Lang};

#[test]
fn ja_sign_in() {
    assert_eq!(Lang::Ja.t("sign_in"), "GitHub でサインイン");
}

#[test]
fn unknown_key_echoes() {
    assert_eq!(Lang::En.t("nope"), "nope");
}

#[test]
fn english_texts() {
    assert_eq!(Lang::En.t("sign_in"), "Sign in with GitHub");
    assert_eq!(Lang::En.t("refresh"), "Refresh");
    assert_eq!(Lang::Ja.t("refresh"), "更新");
    assert_eq!(Lang::Ja.t("closed"), "Closed");
    assert_eq!(Lang::En.t("rate_limited"), "GitHub rate limit — showing cache");
}

#[test]
fn locale_decides_language() {
    assert_eq!(lang_from_locale(Some("ja-JP".into())), Lang::Ja);
    assert_eq!(lang_from_locale(Some("JA".into())), Lang::Ja);
    assert_eq!(lang_from_locale(Some("en-US".into())), Lang::En);
    assert_eq!(lang_from_locale(Some("j".into())), Lang::En);
    assert_eq!(lang_from_locale(None), Lang::En);
}

#[test]
fn detect_gives_a_language() {
    let l = Lang::detect();
    assert!(l == Lang::En || l == Lang::Ja);
}

#[test]
fn exactly_unknown_keys_echo() {
    let known = [
        "sign_in", "sign_out", "refresh", "last_synced", "open_issue", "loading", "offline",
        "user_code", "language", "need_oauth_app", "select_issue", "filter_hint", "opened",
        "closed", "created", "updated", "asc", "desc", "rate_remaining", "related", "rate_limited",
    ];
    for lang in [Lang::En, Lang::Ja] {
        for key in known {
            assert_ne!(lang.t(key), key);
        }
        for key in ["", "nope", "Sign_in", "close"] {
            assert_eq!(lang.t(key), key);
        }
    }
}
