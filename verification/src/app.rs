//! The viewer's state and its decisions: what each message from the
//! background work and each click changes, and which work to start next.
use vstd::prelude::*;

use crate::github::RepoRef;
use crate::i18n::Lang;
use crate::model::{state_text, state_text_spec, IssueRow};
use crate::text::{decimal, decimal_string, owned, push_chars, push_text};
use crate::tree::{build_tree, is_forest, numbers_unique, TreeNode};

verus! {

/// A message from background work.
pub enum UiMsg {
    /// The device flow started: show this code and where to enter it.
    DeviceCode { user_code: String, verification_uri: String },
    /// Sign-in finished with this token.
    LoggedIn(String),
    /// The repositories the user can access.
    Repos(Vec<RepoRef>),
    /// A refresh finished.
    SyncDone,
    /// A refresh failed with this message.
    SyncFailed(String),
    /// Other background work failed with this message.
    Error(String),
}

/// Work for the caller to do.
#[derive(Debug, PartialEq, Eq)]
pub enum Effect {
    /// Keep this token in the token store.
    SaveToken(String),
    /// Forget the kept token.
    ClearToken,
    /// Start the OAuth device flow.
    Login,
    /// List the repositories with this token.
    ListRepos(String),
    /// Refresh `owner/repo` from GitHub with this token.
    Sync { token: String, owner: String, repo: String },
    /// Read the cached tree of `owner/repo` and hand it to `tree_loaded`.
    ReloadTree { owner: String, repo: String },
}

/// What the viewer shows and knows.
pub struct IssueViewerApp {
    pub lang: Lang,
    pub token_value: Option<String>,
    pub user_code: Option<String>,
    pub verification_uri: Option<String>,
    pub repos: Vec<RepoRef>,
    pub selected: Option<(String, String)>,
    pub tree: Vec<TreeNode>,
    pub last_synced: Option<String>,
    pub status: String,
    pub loading: bool,
    /// A refresh was started and has not reported back yet.
    pub syncing: bool,
}

/// The effects that reloading the tree of the selected repository asks for.
pub open spec fn reload_effects(selected: Option<(String, String)>) -> Seq<Effect> {
    match selected {
        Some((o, r)) => seq![Effect::ReloadTree { owner: o, repo: r }],
        None => seq![],
    }
}

impl IssueViewerApp {
    /// `self` and `other` show the same device code, repositories, tree,
    /// last-synced stamp and status, in the same language.
    pub open spec fn same_view(self, other: IssueViewerApp) -> bool {
        &&& self.lang == other.lang
        &&& self.user_code == other.user_code
        &&& self.verification_uri == other.verification_uri
        &&& self.repos == other.repos
        &&& self.tree == other.tree
        &&& self.last_synced == other.last_synced
        &&& self.status == other.status
    }

    /// A viewer in `lang`, signed in when a kept token is given; with a token
    /// it starts listing the repositories.
    pub fn new(lang: Lang, token_value: Option<String>) -> (r: (IssueViewerApp, Vec<Effect>))
        ensures
            r.0.lang == lang,
            r.0.token_value == token_value,
            r.0.user_code is None,
            r.0.verification_uri is None,
            r.0.repos@.len() == 0,
            r.0.selected is None,
            r.0.tree@.len() == 0,
            r.0.last_synced is None,
            r.0.status@.len() == 0,
            r.0.loading == token_value is Some,
            !r.0.syncing,
            syncs_started(r.1@) == 0,
            r.1@ == match token_value {
                Some(t) => seq![Effect::ListRepos(t)],
                None => seq![],
            },
    {
        let mut effects: Vec<Effect> = Vec::new();
        let loading = match &token_value {
            Some(t) => {
                effects.push(Effect::ListRepos(t.clone()));
                true
            },
            None => false,
        };
        let app = IssueViewerApp {
            lang,
            token_value,
            user_code: None,
            verification_uri: None,
            repos: Vec::new(),
            selected: None,
            tree: Vec::new(),
            last_synced: None,
            status: String::new(),
            loading,
            syncing: false,
        };
        proof {
            lemma_syncs_started_short(effects@);
        }
        (app, effects)
    }

    /// The selected repository's reload request, if one is selected.
    fn reload(&self) -> (r: Vec<Effect>)
        ensures
            r@ == reload_effects(self.selected),
    {
        let mut r: Vec<Effect> = Vec::new();
        match &self.selected {
            Some((o, rp)) => {
                r.push(Effect::ReloadTree { owner: o.clone(), repo: rp.clone() });
                assert(r@ =~= seq![Effect::ReloadTree { owner: *o, repo: *rp }]);
            },
            None => {},
        }
        r
    }

    /// Takes in one message from background work: a device code is shown;
    /// a token is kept and the repositories are listed with it; a repository
    /// list replaces the shown one; a finished refresh clears the status and
    /// reloads the selected tree; an error becomes the status. Every message
    /// but a token ends the loading state; only the outcome of a refresh ends
    /// the running refresh.
    pub fn handle(&mut self, msg: UiMsg) -> (r: Vec<Effect>)
        ensures
            final(self).lang == old(self).lang,
            final(self).selected == old(self).selected,
            final(self).tree == old(self).tree,
            final(self).last_synced == old(self).last_synced,
            final(self).syncing == (old(self).syncing && !(msg is SyncDone || msg is SyncFailed)),
            sync_step(old(self).syncing, final(self).syncing, r@, msg is SyncDone || msg is SyncFailed),
            match msg {
                UiMsg::DeviceCode { user_code, verification_uri } => {
                    &&& final(self).user_code == Some(user_code)
                    &&& final(self).verification_uri == Some(verification_uri)
                    &&& !final(self).loading
                    &&& final(self).token_value == old(self).token_value
                    &&& final(self).repos == old(self).repos
                    &&& final(self).status == old(self).status
                    &&& r@.len() == 0
                },
                UiMsg::LoggedIn(token) => {
                    &&& final(self).token_value == Some(token)
                    &&& final(self).user_code is None
                    &&& final(self).verification_uri == old(self).verification_uri
                    &&& final(self).loading
                    &&& final(self).repos == old(self).repos
                    &&& final(self).status == old(self).status
                    &&& r@ == seq![Effect::SaveToken(token), Effect::ListRepos(token)]
                },
                UiMsg::Repos(repos) => {
                    &&& final(self).repos == repos
                    &&& !final(self).loading
                    &&& final(self).token_value == old(self).token_value
                    &&& final(self).user_code == old(self).user_code
                    &&& final(self).verification_uri == old(self).verification_uri
                    &&& final(self).status == old(self).status
                    &&& r@.len() == 0
                },
                UiMsg::SyncDone => {
                    &&& !final(self).loading
                    &&& final(self).status@.len() == 0
                    &&& final(self).token_value == old(self).token_value
                    &&& final(self).user_code == old(self).user_code
                    &&& final(self).verification_uri == old(self).verification_uri
                    &&& final(self).repos == old(self).repos
                    &&& r@ == reload_effects(old(self).selected)
                },
                UiMsg::SyncFailed(e) => {
                    &&& !final(self).loading
                    &&& final(self).status == e
                    &&& final(self).token_value == old(self).token_value
                    &&& final(self).user_code == old(self).user_code
                    &&& final(self).verification_uri == old(self).verification_uri
                    &&& final(self).repos == old(self).repos
                    &&& r@.len() == 0
                },
                UiMsg::Error(e) => {
                    &&& !final(self).loading
                    &&& final(self).status == e
                    &&& final(self).token_value == old(self).token_value
                    &&& final(self).user_code == old(self).user_code
                    &&& final(self).verification_uri == old(self).verification_uri
                    &&& final(self).repos == old(self).repos
                    &&& r@.len() == 0
                },
            },
    {
        let r = match msg {
            UiMsg::DeviceCode { user_code, verification_uri } => {
                self.user_code = Some(user_code);
                self.verification_uri = Some(verification_uri);
                self.loading = false;
                Vec::new()
            },
            UiMsg::LoggedIn(token) => {
                let mut effects: Vec<Effect> = Vec::new();
                effects.push(Effect::SaveToken(token.clone()));
                effects.push(Effect::ListRepos(token.clone()));
                self.token_value = Some(token);
                self.user_code = None;
                self.loading = true;
                effects
            },
            UiMsg::Repos(repos) => {
                self.repos = repos;
                self.loading = false;
                Vec::new()
            },
            UiMsg::SyncDone => {
                self.loading = false;
                self.syncing = false;
                self.status = String::new();
                self.reload()
            },
            UiMsg::SyncFailed(e) => {
                self.loading = false;
                self.syncing = false;
                self.status = e;
                Vec::new()
            },
            UiMsg::Error(e) => {
                self.loading = false;
                self.status = e;
                Vec::new()
            },
        };
        proof {
            lemma_syncs_started_short(r@);
        }
        r
    }

    /// Takes in the cached rows of the selected repository (or the message of
    /// a failed read) and its last-synced stamp: the rows become the shown
    /// tree, a failure becomes the status.
    pub fn tree_loaded(&mut self, rows: Result<Vec<IssueRow>, String>, last_synced: Option<String>)
        requires
            rows matches Ok(v) ==> numbers_unique(v@),
        ensures
            final(self).last_synced == last_synced,
            final(self).lang == old(self).lang,
            final(self).user_code == old(self).user_code,
            final(self).verification_uri == old(self).verification_uri,
            final(self).token_value == old(self).token_value,
            final(self).selected == old(self).selected,
            final(self).repos == old(self).repos,
            final(self).loading == old(self).loading,
            final(self).syncing == old(self).syncing,
            match rows {
                Ok(v) => is_forest(final(self).tree@, v@, None) && final(self).status == old(self).status,
                Err(e) => final(self).status == e && final(self).tree == old(self).tree,
            },
    {
        match rows {
            Ok(v) => {
                self.tree = build_tree(v.as_slice());
            },
            Err(e) => {
                self.status = e;
            },
        }
        self.last_synced = last_synced;
    }

    /// Reading the cache failed with `e`: the message becomes the status.
    pub fn cache_failed(&mut self, e: String)
        ensures
            final(self).status == e,
            final(self).tree == old(self).tree,
            final(self).last_synced == old(self).last_synced,
            final(self).lang == old(self).lang,
            final(self).user_code == old(self).user_code,
            final(self).verification_uri == old(self).verification_uri,
            final(self).repos == old(self).repos,
            final(self).token_value == old(self).token_value,
            final(self).selected == old(self).selected,
            final(self).loading == old(self).loading,
            final(self).syncing == old(self).syncing,
    {
        self.status = e;
    }

    /// Sign in was clicked: the device flow starts.
    pub fn sign_in(&mut self) -> (r: Vec<Effect>)
        ensures
            final(self).loading,
            final(self).syncing == old(self).syncing,
            final(self).token_value == old(self).token_value,
            final(self).selected == old(self).selected,
            final(self).same_view(*old(self)),
            r@ == seq![Effect::Login],
            sync_step(old(self).syncing, final(self).syncing, r@, false),
    {
        self.loading = true;
        let mut r: Vec<Effect> = Vec::new();
        r.push(Effect::Login);
        proof {
            lemma_syncs_started_short(r@);
        }
        r
    }

    /// Sign out was clicked: when signed in, the token is forgotten and the
    /// repositories, the tree and the selection are dropped.
    pub fn sign_out(&mut self) -> (r: Vec<Effect>)
        ensures
            old(self).token_value is Some ==> {
                &&& final(self).token_value is None
                &&& final(self).repos@.len() == 0
                &&& final(self).tree@.len() == 0
                &&& final(self).selected is None
                &&& r@ == seq![Effect::ClearToken]
            },
            old(self).token_value is None ==> final(self).token_value is None && final(self).selected
                == old(self).selected && r@.len() == 0,
            final(self).lang == old(self).lang,
            final(self).loading == old(self).loading,
            final(self).syncing == old(self).syncing,
            final(self).user_code == old(self).user_code,
            final(self).verification_uri == old(self).verification_uri,
            final(self).last_synced == old(self).last_synced,
            final(self).status == old(self).status,
            old(self).token_value is None ==> final(self).same_view(*old(self)),
            sync_step(old(self).syncing, final(self).syncing, r@, false),
    {
        let mut r: Vec<Effect> = Vec::new();
        if self.token_value.is_some() {
            r.push(Effect::ClearToken);
            self.token_value = None;
            self.repos = Vec::new();
            self.tree = Vec::new();
            self.selected = None;
        }
        proof {
            lemma_syncs_started_short(r@);
        }
        r
    }

    /// The sync request for the selected repository, when signed in and no
    /// refresh is running.
    fn sync_request(&self) -> (r: Option<Effect>)
        ensures
            r == sync_effect(*self),
    {
        if self.syncing {
            return None;
        }
        match (&self.token_value, &self.selected) {
            (Some(t), Some((o, rp))) => Some(
                Effect::Sync { token: t.clone(), owner: o.clone(), repo: rp.clone() },
            ),
            _ => None,
        }
    }

    /// A repository was picked: it becomes the selection, its cached tree is
    /// reloaded, and, when signed in and no refresh is running, a refresh of
    /// it starts.
    pub fn pick_repo(&mut self, owner: String, name: String) -> (r: Vec<Effect>)
        ensures
            final(self).selected == Some((owner, name)),
            final(self).token_value == old(self).token_value,
            final(self).same_view(*old(self)),
            final(self).syncing == (old(self).syncing || old(self).token_value is Some),
            final(self).loading == (old(self).loading || (!old(self).syncing
                && old(self).token_value is Some)),
            r@ == match (old(self).token_value, old(self).syncing) {
                (Some(t), false) => seq![
                    Effect::ReloadTree { owner: owner, repo: name },
                    Effect::Sync { token: t, owner: owner, repo: name },
                ],
                _ => seq![Effect::ReloadTree { owner: owner, repo: name }],
            },
            sync_step(old(self).syncing, final(self).syncing, r@, false),
    {
        self.selected = Some((owner, name));
        let mut r = self.reload();
        match self.sync_request() {
            Some(e) => {
                self.loading = true;
                self.syncing = true;
                r.push(e);
            },
            None => {},
        }
        proof {
            lemma_syncs_started_short(r@);
        }
        r
    }

    /// Refresh was clicked: when signed in with a repository selected and no
    /// refresh running, a refresh of it starts.
    pub fn refresh(&mut self) -> (r: Vec<Effect>)
        ensures
            final(self).selected == old(self).selected,
            final(self).token_value == old(self).token_value,
            final(self).same_view(*old(self)),
            r@ == match sync_effect(*old(self)) {
                Some(e) => seq![e],
                None => seq![],
            },
            old(self).syncing ==> r@ == Seq::<Effect>::empty(),
            final(self).syncing == (old(self).syncing || sync_effect(*old(self)) is Some),
            final(self).loading == (old(self).loading || sync_effect(*old(self)) is Some),
            sync_step(old(self).syncing, final(self).syncing, r@, false),
    {
        let mut r: Vec<Effect> = Vec::new();
        match self.sync_request() {
            Some(e) => {
                self.loading = true;
                self.syncing = true;
                r.push(e);
            },
            None => {},
        }
        proof {
            lemma_syncs_started_short(r@);
        }
        r
    }
}

/// The number of refreshes that `effects` start.
pub open spec fn syncs_started(effects: Seq<Effect>) -> nat
    decreases effects.len(),
{
    if effects.len() == 0 {
        0
    } else {
        syncs_started(effects.drop_last()) + if effects.last() is Sync {
            1nat
        } else {
            0nat
        }
    }
}

/// The refreshes that one or two effects start.
proof fn lemma_syncs_started_short(es: Seq<Effect>)
    requires
        es.len() <= 2,
    ensures
        syncs_started(es) == (if es.len() > 0 && es[0] is Sync {
            1nat
        } else {
            0nat
        }) + (if es.len() > 1 && es[1] is Sync {
            1nat
        } else {
            0nat
        }),
{
    reveal_with_fuel(syncs_started, 3);
    if es.len() > 0 {
        let d = es.drop_last();
        if es.len() == 2 {
            assert(d.drop_last().len() == 0);
            assert(d[0] == es[0]);
        } else {
            assert(d.len() == 0);
        }
    }
}

/// One call of the viewer as it bears on refreshes, from the `syncing` mark
/// before and after it, the effects it returned, and whether it took in a
/// refresh's outcome: it starts at most one refresh, only while none runs,
/// and then marks one running; otherwise the mark drops exactly when it took
/// in an outcome.
pub open spec fn sync_step(before: bool, after: bool, effects: Seq<Effect>, outcome: bool) -> bool {
    &&& syncs_started(effects) <= 1
    &&& syncs_started(effects) == 1 ==> !before && after && !outcome
    &&& syncs_started(effects) == 0 ==> after == (before && !outcome)
}

/// The refreshes running after the first `k` calls of a run: those started,
/// less the outcomes taken in while one was marked running.
pub open spec fn syncs_running(
    marks: Seq<bool>,
    effects: Seq<Seq<Effect>>,
    outcomes: Seq<bool>,
    k: nat,
) -> int
    decreases k,
{
    if k == 0 {
        0
    } else {
        let j = (k - 1) as nat;
        syncs_running(marks, effects, outcomes, j) + syncs_started(effects[j as int]) - if marks[j as int]
            && outcomes[j as int] {
            1int
        } else {
            0int
        }
    }
}

/// Only one refresh runs at a time. Along any run of the viewer from a fresh
/// start (`marks[i]` is `syncing` before call `i`, `effects[i]` what the call
/// returned, `outcomes[i]` whether it took in a refresh's outcome), in which
/// every call keeps its contract, the refreshes started and not yet reported
/// back are one while `syncing` holds and none otherwise, so never more than
/// one.
pub proof fn lemma_one_sync_at_a_time(marks: Seq<bool>, effects: Seq<Seq<Effect>>, outcomes: Seq<bool>)
    requires
        marks.len() == effects.len() + 1,
        outcomes.len() == effects.len(),
        !marks[0],
        forall|i: int|
            0 <= i < effects.len() ==> sync_step(
                #[trigger] marks[i],
                marks[i + 1],
                effects[i],
                outcomes[i],
            ),
    ensures
        forall|k: int|
            0 <= k <= effects.len() ==> syncs_running(marks, effects, outcomes, k as nat) == if marks[k] {
                1int
            } else {
                0int
            },
        forall|k: int|
            0 <= k <= effects.len() ==> #[trigger] syncs_running(marks, effects, outcomes, k as nat) <= 1,
{
    assert forall|k: int| 0 <= k <= effects.len() implies syncs_running(
        marks,
        effects,
        outcomes,
        k as nat,
    ) == if marks[k] {
        1int
    } else {
        0int
    } by {
        lemma_running_matches_mark(marks, effects, outcomes, k as nat);
    }
}

proof fn lemma_running_matches_mark(marks: Seq<bool>, effects: Seq<Seq<Effect>>, outcomes: Seq<bool>, k: nat)
    requires
        marks.len() == effects.len() + 1,
        outcomes.len() == effects.len(),
        !marks[0],
        forall|i: int|
            0 <= i < effects.len() ==> sync_step(
                #[trigger] marks[i],
                marks[i + 1],
                effects[i],
                outcomes[i],
            ),
        k <= effects.len(),
    ensures
        syncs_running(marks, effects, outcomes, k) == if marks[k as int] {
            1int
        } else {
            0int
        },
    decreases k,
{
    if k > 0 {
        let j = (k - 1) as nat;
        lemma_running_matches_mark(marks, effects, outcomes, j);
        assert(sync_step(marks[j as int], marks[(j + 1) as int], effects[j as int], outcomes[j as int]));
    }
}

/// The refresh that `app` may start: one of the selected repository with the
/// kept token, when signed in with a repository selected and no refresh
/// running (only one refresh runs at a time).
pub open spec fn sync_effect(app: IssueViewerApp) -> Option<Effect> {
    if app.syncing {
        None
    } else {
        match (app.token_value, app.selected) {
            (Some(t), Some((o, rp))) => Some(Effect::Sync { token: t, owner: o, repo: rp }),
            _ => None,
        }
    }
}

/// `#N [state] title`, the label of an issue row.
pub open spec fn issue_label_spec(issue: IssueRow) -> Seq<char> {
    seq!['#'] + decimal(issue.number as nat) + seq![' ', '['] + state_text_spec(issue.state) + seq![
        ']',
        ' ',
    ] + issue.title@
}

/// The label of an issue in the tree: `#N [open] title` or
/// `#N [closed] title`.
pub fn issue_label(issue: &IssueRow) -> (r: String)
    ensures
        r@ == issue_label_spec(*issue),
{
    let mut s = owned("#");
    proof {
        reveal_strlit("#");
    }
    let ghost s0 = s@;
    let n = decimal_string(issue.number);
    push_text(&mut s, n.as_str());
    let open = vec![' ', '['];
    push_chars(&mut s, open.as_slice());
    let st = state_text(issue.state);
    push_text(&mut s, st.as_str());
    let close = vec![']', ' '];
    push_chars(&mut s, close.as_slice());
    push_text(&mut s, issue.title.as_str());
    assert(s0 =~= seq!['#']);
    assert(s@ =~= issue_label_spec(*issue));
    s
}

/// `https://github.com/owner/repo/issues/N`, the web page of an issue.
pub open spec fn issue_url_spec(owner: Seq<char>, repo: Seq<char>, number: u64) -> Seq<char> {
    "https://github.com/"@ + owner + seq!['/'] + repo + "/issues/"@ + decimal(number as nat)
}

/// The web page of issue `number` of `owner/repo`.
pub fn issue_url(owner: &str, repo: &str, number: u64) -> (r: String)
    ensures
        r@ == issue_url_spec(owner@, repo@, number),
{
    let mut s = owned("https://github.com/");
    push_text(&mut s, owner);
    let slash = vec!['/'];
    push_chars(&mut s, slash.as_slice());
    push_text(&mut s, repo);
    push_text(&mut s, "/issues/");
    let n = decimal_string(number);
    push_text(&mut s, n.as_str());
    assert(slash@ =~= seq!['/']);
    s
}

/// `owner/name`, the label of a repository.
pub fn repo_label(owner: &str, name: &str) -> (r: String)
    ensures
        r@ == owner@ + seq!['/'] + name@,
{
    let mut s = owned(owner);
    let slash = vec!['/'];
    push_chars(&mut s, slash.as_slice());
    push_text(&mut s, name);
    assert(slash@ =~= seq!['/']);
    s
}

} // verus!
