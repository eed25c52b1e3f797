use issue_viewer::app::{issue_label, issue_url, repo_label, Effect, IssueViewerApp, UiMsg};
use issue_viewer::github::RepoRef;
use issue_viewer::i18n::Lang;
use issue_viewer::model::IssueState;
use issue_viewer::tree::sample;

fn repo(o: &str, n: &str) -> RepoRef {
    RepoRef { owner: o.into(), name: n.into() }
}

#[test]
fn start_with_kept_token_lists_repos() {
    let (app, effects) = IssueViewerApp::new(Lang::En, Some("gho_t".into()));
    assert!(app.loading);
    assert_eq!(effects, vec![Effect::ListRepos("gho_t".into())]);
    let (app, effects) = IssueViewerApp::new(Lang::Ja, None);
    assert!(!app.loading);
    assert!(effects.is_empty());
    assert_eq!(app.lang, Lang::Ja);
}

#[test]
fn login_keeps_token_and_lists_repos() {
    let (mut app, _) = IssueViewerApp::new(Lang::En, None);
    let e = app.handle(UiMsg::DeviceCode { user_code: "ABCD".into(), verification_uri: "u".into() });
    assert!(e.is_empty());
    assert_eq!(app.user_code.as_deref(), Some("ABCD"));
    let e = app.handle(UiMsg::LoggedIn("gho_x".into()));
    assert_eq!(e, vec![Effect::SaveToken("gho_x".into()), Effect::ListRepos("gho_x".into())]);
    assert_eq!(app.token_value.as_deref(), Some("gho_x"));
    assert!(app.user_code.is_none());
    assert!(app.loading);
    let e = app.handle(UiMsg::Repos(vec![repo("acme", "app")]));
    assert!(e.is_empty());
    assert_eq!(app.repos.len(), 1);
    assert!(!app.loading);
}

#[test]
fn picking_repo_reloads_and_syncs() {
    let (mut app, _) = IssueViewerApp::new(Lang::En, Some("t".into()));
    let e = app.pick_repo("acme".into(), "app".into());
    assert_eq!(
        e,
        vec![
            Effect::ReloadTree { owner: "acme".into(), repo: "app".into() },
            Effect::Sync { token: "t".into(), owner: "acme".into(), repo: "app".into() },
        ]
    );
    let e = app.handle(UiMsg::SyncDone);
    assert_eq!(e, vec![Effect::ReloadTree { owner: "acme".into(), repo: "app".into() }]);
    assert!(!app.loading);
    let e = app.refresh();
    assert_eq!(e, vec![Effect::Sync { token: "t".into(), owner: "acme".into(), repo: "app".into() }]);
}

#[test]
fn tree_and_errors_are_shown() {
    let (mut app, _) = IssueViewerApp::new(Lang::En, Some("t".into()));
    app.tree_loaded(Ok(vec![sample(1, None, "p"), sample(2, Some(1), "c")]), Some("123".into()));
    assert_eq!(app.tree.len(), 1);
    assert_eq!(app.tree[0].children.len(), 1);
    assert_eq!(app.last_synced.as_deref(), Some("123"));
    app.tree_loaded(Err("db locked".into()), None);
    assert_eq!(app.status, "db locked");
    assert_eq!(app.tree.len(), 1);
    app.handle(UiMsg::Error("http: boom".into()));
    assert_eq!(app.status, "http: boom");
    app.cache_failed("no cache".into());
    assert_eq!(app.status, "no cache");
}

#[test]
fn sign_out_forgets_everything() {
    let (mut app, _) = IssueViewerApp::new(Lang::En, Some("t".into()));
    app.pick_repo("acme".into(), "app".into());
    let e = app.sign_out();
    assert_eq!(e, vec![Effect::ClearToken]);
    assert!(app.token_value.is_none());
    assert!(app.selected.is_none());
    assert!(app.refresh().is_empty());
    assert!(app.sign_out().is_empty());
    assert_eq!(app.sign_in(), vec![Effect::Login]);
    assert!(app.loading);
}

#[test]
fn without_token_picking_only_reloads() {
    let (mut app, _) = IssueViewerApp::new(Lang::En, None);
    let e = app.pick_repo("o".into(), "r".into());
    assert_eq!(e, vec![Effect::ReloadTree { owner: "o".into(), repo: "r".into() }]);
    assert!(!app.loading);
}

#[test]
fn labels_and_urls() {
    let mut r = sample(12, None, "Crash");
    assert_eq!(issue_label(&r), "#12 [open] Crash");
    r.state = IssueState::Closed;
    assert_eq!(issue_label(&r), "#12 [closed] Crash");
    assert_eq!(issue_url("acme", "app", 7), "https://github.com/acme/app/issues/7");
    assert_eq!(repo_label("acme", "app"), "acme/app");
}

#[test]
fn only_one_sync_runs_at_a_time() {
    let (mut app, _) = IssueViewerApp::new(Lang::En, Some("t".into()));
    assert!(!app.syncing);
    let e = app.pick_repo("acme".into(), "app".into());
    assert_eq!(e.len(), 2);
    assert!(app.syncing);
    assert!(app.refresh().is_empty());
    let e = app.pick_repo("acme".into(), "lib".into());
    assert_eq!(e, vec![Effect::ReloadTree { owner: "acme".into(), repo: "lib".into() }]);
    app.handle(UiMsg::Error("login: boom".into()));
    assert!(app.syncing);
    assert!(app.refresh().is_empty());
    app.handle(UiMsg::SyncFailed("http: rate_limited".into()));
    assert!(!app.syncing);
    assert_eq!(app.status, "http: rate_limited");
    let e = app.refresh();
    assert_eq!(e, vec![Effect::Sync { token: "t".into(), owner: "acme".into(), repo: "lib".into() }]);
    assert!(app.syncing);
    app.handle(UiMsg::SyncDone);
    assert!(!app.syncing);
}
