//! User-interface language and the table of its texts.
use vstd::prelude::*;

use crate::text::{ascii_lower, chars_of, lower_all, opt_view, owned, text_eq};

verus! {

/// The language of the user interface.
#[derive(Clone, Copy, Debug, PartialEq, Eq, Structural)]
pub enum Lang {
    En,
    Ja,
}

/// The text that `key` shows in `lang`; an unknown key shows itself.
pub open spec fn ui_text(lang: Lang, key: Seq<char>) -> Seq<char> {
    if key == "sign_in"@ {
        match lang {
            Lang::En => "Sign in with GitHub"@,
            Lang::Ja => "GitHub でサインイン"@,
        }
    } else if key == "sign_out"@ {
        match lang {
            Lang::En => "Sign out"@,
            Lang::Ja => "サインアウト"@,
        }
    } else if key == "refresh"@ {
        match lang {
            Lang::En => "Refresh"@,
            Lang::Ja => "更新"@,
        }
    } else if key == "last_synced"@ {
        match lang {
            Lang::En => "Last synced"@,
            Lang::Ja => "最終同期"@,
        }
    } else if key == "open_issue"@ {
        match lang {
            Lang::En => "Open on GitHub"@,
            Lang::Ja => "GitHub で開く"@,
        }
    } else if key == "loading"@ {
        match lang {
            Lang::En => "Loading…"@,
            Lang::Ja => "読み込み中…"@,
        }
    } else if key == "offline"@ {
        match lang {
            Lang::En => "Offline — showing cache"@,
            Lang::Ja => "オフライン — キャッシュを表示"@,
        }
    } else if key == "user_code"@ {
        match lang {
            Lang::En => "Enter this code at GitHub"@,
            Lang::Ja => "このコードを GitHub に入力"@,
        }
    } else if key == "language"@ {
        match lang {
            Lang::En => "Language"@,
            Lang::Ja => "言語"@,
        }
    } else if key == "need_oauth_app"@ {
        match lang {
            Lang::En => "Create an OAuth App (not a GitHub App) at https://github.com/settings/developers — enable Device Flow, then paste the Client ID into src/config.rs. gh cannot create OAuth Apps."@,
            Lang::Ja => "GitHub App ではなく OAuth App が必要です。https://github.com/settings/developers で作成し、Device Flow を有効にして Client ID を src/config.rs に入れてください。OAuth App の作成は gh ではできません。"@,
        }
    } else if key == "select_issue"@ {
        match lang {
            Lang::En => "Select an issue"@,
            Lang::Ja => "Issue を選択"@,
        }
    } else if key == "filter_hint"@ {
        match lang {
            Lang::En => "is:open title"@,
            Lang::Ja => "is:open タイトル"@,
        }
    } else if key == "opened"@ {
        match lang {
            Lang::En => "Opened"@,
            Lang::Ja => "Open"@,
        }
    } else if key == "closed"@ {
        match lang {
            Lang::En => "Closed"@,
            Lang::Ja => "Closed"@,
        }
    } else if key == "created"@ {
        match lang {
            Lang::En => "Created"@,
            Lang::Ja => "作成"@,
        }
    } else if key == "updated"@ {
        match lang {
            Lang::En => "Updated"@,
            Lang::Ja => "更新日時"@,
        }
    } else if key == "asc"@ {
        match lang {
            Lang::En => "Asc"@,
            Lang::Ja => "昇順"@,
        }
    } else if key == "desc"@ {
        match lang {
            Lang::En => "Desc"@,
            Lang::Ja => "降順"@,
        }
    } else if key == "rate_remaining"@ {
        match lang {
            Lang::En => "Rate remaining"@,
            Lang::Ja => "レート残"@,
        }
    } else if key == "related"@ {
        match lang {
            Lang::En => "Related"@,
            Lang::Ja => "関連"@,
        }
    } else if key == "rate_limited"@ {
        match lang {
            Lang::En => "GitHub rate limit — showing cache"@,
            Lang::Ja => "レート制限 — キャッシュを表示"@,
        }
    } else {
        key
    }
}

/// The keys that the table knows.
pub open spec fn known_ui_key(key: Seq<char>) -> bool {
    ||| key == "sign_in"@
    ||| key == "sign_out"@
    ||| key == "refresh"@
    ||| key == "last_synced"@
    ||| key == "open_issue"@
    ||| key == "loading"@
    ||| key == "offline"@
    ||| key == "user_code"@
    ||| key == "language"@
    ||| key == "need_oauth_app"@
    ||| key == "select_issue"@
    ||| key == "filter_hint"@
    ||| key == "opened"@
    ||| key == "closed"@
    ||| key == "created"@
    ||| key == "updated"@
    ||| key == "asc"@
    ||| key == "desc"@
    ||| key == "rate_remaining"@
    ||| key == "related"@
    ||| key == "rate_limited"@
}

/// Exactly the keys that the table does not know are shown as themselves: a
/// known key shows a text other than the key, in both languages.
pub proof fn lemma_ui_text_echoes_only_unknown_keys(lang: Lang, key: Seq<char>)
    ensures
        (ui_text(lang, key) == key) <==> !known_ui_key(key),
{
    if key == "sign_in"@ {
        reveal_strlit("sign_in");
        reveal_strlit("Sign in with GitHub");
        reveal_strlit("GitHub でサインイン");
        assert(ui_text(lang, key)[0] != key[0] || ui_text(lang, key).len() != key.len());
    }
    if key == "sign_out"@ {
        reveal_strlit("sign_out");
        reveal_strlit("Sign out");
        reveal_strlit("サインアウト");
        assert(ui_text(lang, key)[0] != key[0] || ui_text(lang, key).len() != key.len());
    }
    if key == "refresh"@ {
        reveal_strlit("refresh");
        reveal_strlit("Refresh");
        reveal_strlit("更新");
        assert(ui_text(lang, key)[0] != key[0] || ui_text(lang, key).len() != key.len());
    }
    if key == "last_synced"@ {
        reveal_strlit("last_synced");
        reveal_strlit("Last synced");
        reveal_strlit("最終同期");
        assert(ui_text(lang, key)[0] != key[0] || ui_text(lang, key).len() != key.len());
    }
    if key == "open_issue"@ {
        reveal_strlit("open_issue");
        reveal_strlit("Open on GitHub");
        reveal_strlit("GitHub で開く");
        assert(ui_text(lang, key)[0] != key[0] || ui_text(lang, key).len() != key.len());
    }
    if key == "loading"@ {
        reveal_strlit("loading");
        reveal_strlit("Loading…");
        reveal_strlit("読み込み中…");
        assert(ui_text(lang, key)[0] != key[0] || ui_text(lang, key).len() != key.len());
    }
    if key == "offline"@ {
        reveal_strlit("offline");
        reveal_strlit("Offline — showing cache");
        reveal_strlit("オフライン — キャッシュを表示");
        assert(ui_text(lang, key)[0] != key[0] || ui_text(lang, key).len() != key.len());
    }
    if key == "user_code"@ {
        reveal_strlit("user_code");
        reveal_strlit("Enter this code at GitHub");
        reveal_strlit("このコードを GitHub に入力");
        assert(ui_text(lang, key)[0] != key[0] || ui_text(lang, key).len() != key.len());
    }
    if key == "language"@ {
        reveal_strlit("language");
        reveal_strlit("Language");
        reveal_strlit("言語");
        assert(ui_text(lang, key)[0] != key[0] || ui_text(lang, key).len() != key.len());
    }
    if key == "need_oauth_app"@ {
        reveal_strlit("need_oauth_app");
        reveal_strlit("Create an OAuth App (not a GitHub App) at https://github.com/settings/developers — enable Device Flow, then paste the Client ID into src/config.rs. gh cannot create OAuth Apps.");
        reveal_strlit("GitHub App ではなく OAuth App が必要です。https://github.com/settings/developers で作成し、Device Flow を有効にして Client ID を src/config.rs に入れてください。OAuth App の作成は gh ではできません。");
        assert(ui_text(lang, key)[0] != key[0] || ui_text(lang, key).len() != key.len());
    }
    if key == "select_issue"@ {
        reveal_strlit("select_issue");
        reveal_strlit("Select an issue");
        reveal_strlit("Issue を選択");
        assert(ui_text(lang, key)[0] != key[0] || ui_text(lang, key).len() != key.len());
    }
    if key == "filter_hint"@ {
        reveal_strlit("filter_hint");
        reveal_strlit("is:open title");
        reveal_strlit("is:open タイトル");
        assert(ui_text(lang, key)[0] != key[0] || ui_text(lang, key).len() != key.len());
    }
    if key == "opened"@ {
        reveal_strlit("opened");
        reveal_strlit("Opened");
        reveal_strlit("Open");
        assert(ui_text(lang, key)[0] != key[0] || ui_text(lang, key).len() != key.len());
    }
    if key == "closed"@ {
        reveal_strlit("closed");
        reveal_strlit("Closed");
        reveal_strlit("Closed");
        assert(ui_text(lang, key)[0] != key[0] || ui_text(lang, key).len() != key.len());
    }
    if key == "created"@ {
        reveal_strlit("created");
        reveal_strlit("Created");
        reveal_strlit("作成");
        assert(ui_text(lang, key)[0] != key[0] || ui_text(lang, key).len() != key.len());
    }
    if key == "updated"@ {
        reveal_strlit("updated");
        reveal_strlit("Updated");
        reveal_strlit("更新日時");
        assert(ui_text(lang, key)[0] != key[0] || ui_text(lang, key).len() != key.len());
    }
    if key == "asc"@ {
        reveal_strlit("asc");
        reveal_strlit("Asc");
        reveal_strlit("昇順");
        assert(ui_text(lang, key)[0] != key[0] || ui_text(lang, key).len() != key.len());
    }
    if key == "desc"@ {
        reveal_strlit("desc");
        reveal_strlit("Desc");
        reveal_strlit("降順");
        assert(ui_text(lang, key)[0] != key[0] || ui_text(lang, key).len() != key.len());
    }
    if key == "rate_remaining"@ {
        reveal_strlit("rate_remaining");
        reveal_strlit("Rate remaining");
        reveal_strlit("レート残");
        assert(ui_text(lang, key)[0] != key[0] || ui_text(lang, key).len() != key.len());
    }
    if key == "related"@ {
        reveal_strlit("related");
        reveal_strlit("Related");
        reveal_strlit("関連");
        assert(ui_text(lang, key)[0] != key[0] || ui_text(lang, key).len() != key.len());
    }
    if key == "rate_limited"@ {
        reveal_strlit("rate_limited");
        reveal_strlit("GitHub rate limit — showing cache");
        reveal_strlit("レート制限 — キャッシュを表示");
        assert(ui_text(lang, key)[0] != key[0] || ui_text(lang, key).len() != key.len());
    }
}

/// A Japanese character: CJK punctuation, kana and ideographs (U+3000 to
/// U+9FFF) or full-width forms (U+FF00 to U+FFEF).
pub open spec fn is_cjk(c: char) -> bool {
    ('\u{3000}' <= c && c <= '\u{9FFF}') || ('\u{FF00}' <= c && c <= '\u{FFEF}')
}

/// `t` holds a Japanese character.
pub open spec fn has_cjk(t: Seq<char>) -> bool {
    exists|i: int| 0 <= i < t.len() && is_cjk(#[trigger] t[i])
}

/// Each language shows its own texts: no English text holds a Japanese
/// character, and every Japanese text holds one, but for the issue states
/// `opened` and `closed`, where Japanese shows GitHub's state word, with which
/// the English text begins.
pub proof fn lemma_ui_text_languages(key: Seq<char>)
    requires
        known_ui_key(key),
    ensures
        !has_cjk(ui_text(Lang::En, key)),
        key != "opened"@ && key != "closed"@ ==> has_cjk(ui_text(Lang::Ja, key)),
        key == "opened"@ || key == "closed"@ ==> ui_text(Lang::Ja, key).is_prefix_of(
            ui_text(Lang::En, key),
        ),
{
    if key == "sign_in"@ {
        reveal_strlit("Sign in with GitHub");
        reveal_strlit("GitHub でサインイン");
        assert(!has_cjk("Sign in with GitHub"@));
        assert(is_cjk("GitHub でサインイン"@[7]));
    }
    if key == "sign_out"@ {
        reveal_strlit("Sign out");
        reveal_strlit("サインアウト");
        assert(!has_cjk("Sign out"@));
        assert(is_cjk("サインアウト"@[0]));
    }
    if key == "refresh"@ {
        reveal_strlit("Refresh");
        reveal_strlit("更新");
        assert(!has_cjk("Refresh"@));
        assert(is_cjk("更新"@[0]));
    }
    if key == "last_synced"@ {
        reveal_strlit("Last synced");
        reveal_strlit("最終同期");
        assert(!has_cjk("Last synced"@));
        assert(is_cjk("最終同期"@[0]));
    }
    if key == "open_issue"@ {
        reveal_strlit("Open on GitHub");
        reveal_strlit("GitHub で開く");
        assert(!has_cjk("Open on GitHub"@));
        assert(is_cjk("GitHub で開く"@[7]));
    }
    if key == "loading"@ {
        reveal_strlit("Loading…");
        reveal_strlit("読み込み中…");
        assert(!has_cjk("Loading…"@));
        assert(is_cjk("読み込み中…"@[0]));
    }
    if key == "offline"@ {
        reveal_strlit("Offline — showing cache");
        reveal_strlit("オフライン — キャッシュを表示");
        assert(!has_cjk("Offline — showing cache"@));
        assert(is_cjk("オフライン — キャッシュを表示"@[0]));
    }
    if key == "user_code"@ {
        reveal_strlit("Enter this code at GitHub");
        reveal_strlit("このコードを GitHub に入力");
        assert(!has_cjk("Enter this code at GitHub"@));
        assert(is_cjk("このコードを GitHub に入力"@[0]));
    }
    if key == "language"@ {
        reveal_strlit("Language");
        reveal_strlit("言語");
        assert(!has_cjk("Language"@));
        assert(is_cjk("言語"@[0]));
    }
    if key == "need_oauth_app"@ {
        reveal_strlit("Create an OAuth App (not a GitHub App) at https://github.com/settings/developers — enable Device Flow, then paste the Client ID into src/config.rs. gh cannot create OAuth Apps.");
        reveal_strlit("GitHub App ではなく OAuth App が必要です。https://github.com/settings/developers で作成し、Device Flow を有効にして Client ID を src/config.rs に入れてください。OAuth App の作成は gh ではできません。");
        assert(!has_cjk("Create an OAuth App (not a GitHub App) at https://github.com/settings/developers — enable Device Flow, then paste the Client ID into src/config.rs. gh cannot create OAuth Apps."@));
        assert(is_cjk("GitHub App ではなく OAuth App が必要です。https://github.com/settings/developers で作成し、Device Flow を有効にして Client ID を src/config.rs に入れてください。OAuth App の作成は gh ではできません。"@[11]));
    }
    if key == "select_issue"@ {
        reveal_strlit("Select an issue");
        reveal_strlit("Issue を選択");
        assert(!has_cjk("Select an issue"@));
        assert(is_cjk("Issue を選択"@[6]));
    }
    if key == "filter_hint"@ {
        reveal_strlit("is:open title");
        reveal_strlit("is:open タイトル");
        assert(!has_cjk("is:open title"@));
        assert(is_cjk("is:open タイトル"@[8]));
    }
    if key == "opened"@ {
        reveal_strlit("sign_in");
        reveal_strlit("sign_out");
        reveal_strlit("refresh");
        reveal_strlit("last_synced");
        reveal_strlit("open_issue");
        reveal_strlit("loading");
        reveal_strlit("offline");
        reveal_strlit("user_code");
        reveal_strlit("language");
        reveal_strlit("need_oauth_app");
        reveal_strlit("select_issue");
        reveal_strlit("filter_hint");
        reveal_strlit("opened");
        reveal_strlit("closed");
        reveal_strlit("Opened");
        reveal_strlit("Open");
        assert(!has_cjk("Opened"@));
        assert(key.len() != "sign_in"@.len() || key[0] != "sign_in"@[0]);
        assert(key.len() != "sign_out"@.len() || key[0] != "sign_out"@[0]);
        assert(key.len() != "refresh"@.len() || key[0] != "refresh"@[0]);
        assert(key.len() != "last_synced"@.len() || key[0] != "last_synced"@[0]);
        assert(key.len() != "open_issue"@.len() || key[0] != "open_issue"@[0]);
        assert(key.len() != "loading"@.len() || key[0] != "loading"@[0]);
        assert(key.len() != "offline"@.len() || key[0] != "offline"@[0]);
        assert(key.len() != "user_code"@.len() || key[0] != "user_code"@[0]);
        assert(key.len() != "language"@.len() || key[0] != "language"@[0]);
        assert(key.len() != "need_oauth_app"@.len() || key[0] != "need_oauth_app"@[0]);
        assert(key.len() != "select_issue"@.len() || key[0] != "select_issue"@[0]);
        assert(key.len() != "filter_hint"@.len() || key[0] != "filter_hint"@[0]);
        assert(ui_text(Lang::Ja, key) == "Open"@);
        assert(ui_text(Lang::En, key) == "Opened"@);
        assert("Open"@.len() <= "Opened"@.len());
        assert("Opened"@.take(4) =~= "Open"@);
        assert("Open"@.is_prefix_of("Opened"@));
    }
    if key == "closed"@ {
        reveal_strlit("sign_in");
        reveal_strlit("sign_out");
        reveal_strlit("refresh");
        reveal_strlit("last_synced");
        reveal_strlit("open_issue");
        reveal_strlit("loading");
        reveal_strlit("offline");
        reveal_strlit("user_code");
        reveal_strlit("language");
        reveal_strlit("need_oauth_app");
        reveal_strlit("select_issue");
        reveal_strlit("filter_hint");
        reveal_strlit("opened");
        reveal_strlit("closed");
        reveal_strlit("Closed");
        reveal_strlit("Closed");
        assert(!has_cjk("Closed"@));
        assert(key.len() != "sign_in"@.len() || key[0] != "sign_in"@[0]);
        assert(key.len() != "sign_out"@.len() || key[0] != "sign_out"@[0]);
        assert(key.len() != "refresh"@.len() || key[0] != "refresh"@[0]);
        assert(key.len() != "last_synced"@.len() || key[0] != "last_synced"@[0]);
        assert(key.len() != "open_issue"@.len() || key[0] != "open_issue"@[0]);
        assert(key.len() != "loading"@.len() || key[0] != "loading"@[0]);
        assert(key.len() != "offline"@.len() || key[0] != "offline"@[0]);
        assert(key.len() != "user_code"@.len() || key[0] != "user_code"@[0]);
        assert(key.len() != "language"@.len() || key[0] != "language"@[0]);
        assert(key.len() != "need_oauth_app"@.len() || key[0] != "need_oauth_app"@[0]);
        assert(key.len() != "select_issue"@.len() || key[0] != "select_issue"@[0]);
        assert(key.len() != "filter_hint"@.len() || key[0] != "filter_hint"@[0]);
        assert(key.len() != "opened"@.len() || key[0] != "opened"@[0]);
        assert(ui_text(Lang::Ja, key) == "Closed"@);
        assert(ui_text(Lang::En, key) == "Closed"@);
        assert("Closed"@.take(6) =~= "Closed"@);
        assert("Closed"@.is_prefix_of("Closed"@));
    }
    if key == "created"@ {
        reveal_strlit("Created");
        reveal_strlit("作成");
        assert(!has_cjk("Created"@));
        assert(is_cjk("作成"@[0]));
    }
    if key == "updated"@ {
        reveal_strlit("Updated");
        reveal_strlit("更新日時");
        assert(!has_cjk("Updated"@));
        assert(is_cjk("更新日時"@[0]));
    }
    if key == "asc"@ {
        reveal_strlit("Asc");
        reveal_strlit("昇順");
        assert(!has_cjk("Asc"@));
        assert(is_cjk("昇順"@[0]));
    }
    if key == "desc"@ {
        reveal_strlit("Desc");
        reveal_strlit("降順");
        assert(!has_cjk("Desc"@));
        assert(is_cjk("降順"@[0]));
    }
    if key == "rate_remaining"@ {
        reveal_strlit("Rate remaining");
        reveal_strlit("レート残");
        assert(!has_cjk("Rate remaining"@));
        assert(is_cjk("レート残"@[0]));
    }
    if key == "related"@ {
        reveal_strlit("Related");
        reveal_strlit("関連");
        assert(!has_cjk("Related"@));
        assert(is_cjk("関連"@[0]));
    }
    if key == "rate_limited"@ {
        reveal_strlit("GitHub rate limit — showing cache");
        reveal_strlit("レート制限 — キャッシュを表示");
        assert(!has_cjk("GitHub rate limit — showing cache"@));
        assert(is_cjk("レート制限 — キャッシュを表示"@[0]));
    }
}

/// The language for a system locale: Japanese when the locale starts with
/// `ja` in any ASCII case, English otherwise (also without a locale).
pub open spec fn lang_for_locale(locale: Option<Seq<char>>) -> Lang {
    match locale {
        Some(l) => if seq!['j', 'a'].is_prefix_of(ascii_lower(l)) {
            Lang::Ja
        } else {
            Lang::En
        },
        None => Lang::En,
    }
}

/// The system's preferred locale (`sys_locale::get_locale`). It depends on
/// the environment; nothing is stated of it.
#[verifier::external_body]
fn system_locale() -> Option<String> {
    sys_locale::get_locale()
}

/// The language for the given system locale (see `lang_for_locale`).
pub fn lang_from_locale(locale: Option<String>) -> (r: Lang)
    ensures
        r == lang_for_locale(opt_view(locale)),
{
    match locale {
        Some(l) => {
            let cs = chars_of(l.as_str());
            let low = lower_all(cs.as_slice());
            let ja = vec!['j', 'a'];
            assert(ja@ =~= seq!['j', 'a']);
            if crate::text::has_prefix(low.as_slice(), ja.as_slice()) {
                Lang::Ja
            } else {
                Lang::En
            }
        },
        None => Lang::En,
    }
}

impl Lang {
    /// The system locale, as read once, with the language chosen from it:
    /// Japanese for a `ja` locale, English for any other or none.
    pub fn detect_with_locale() -> (r: (Option<String>, Lang))
        ensures
            r.1 == lang_for_locale(opt_view(r.0)),
    {
        let loc = system_locale();
        let copy = match &loc {
            Some(l) => Some(owned(l.as_str())),
            None => None,
        };
        assert(opt_view(copy) == opt_view(loc));
        let lang = lang_from_locale(copy);
        (loc, lang)
    }

    /// The language of the system locale: Japanese for a `ja` locale,
    /// English for any other or none (see `detect_with_locale`, which also
    /// gives the locale that was read).
    pub fn detect() -> (r: Lang)
        ensures
            exists|l: Option<Seq<char>>| r == lang_for_locale(l),
    {
        let (loc, r) = Self::detect_with_locale();
        assert(r == lang_for_locale(opt_view(loc)));
        r
    }

    /// The user-interface text for `key` in this language; an unknown key is
    /// returned as it is.
    pub fn t(self, key: &'static str) -> (r: &'static str)
        ensures
            r@ == ui_text(self, key@),
    {
        if text_eq(key, "sign_in") {
            match self {
                Lang::En => "Sign in with GitHub",
                Lang::Ja => "GitHub でサインイン",
            }
        } else if text_eq(key, "sign_out") {
            match self {
                Lang::En => "Sign out",
                Lang::Ja => "サインアウト",
            }
        } else if text_eq(key, "refresh") {
            match self {
                Lang::En => "Refresh",
                Lang::Ja => "更新",
            }
        } else if text_eq(key, "last_synced") {
            match self {
                Lang::En => "Last synced",
                Lang::Ja => "最終同期",
            }
        } else if text_eq(key, "open_issue") {
            match self {
                Lang::En => "Open on GitHub",
                Lang::Ja => "GitHub で開く",
            }
        } else if text_eq(key, "loading") {
            match self {
                Lang::En => "Loading…",
                Lang::Ja => "読み込み中…",
            }
        } else if text_eq(key, "offline") {
            match self {
                Lang::En => "Offline — showing cache",
                Lang::Ja => "オフライン — キャッシュを表示",
            }
        } else if text_eq(key, "user_code") {
            match self {
                Lang::En => "Enter this code at GitHub",
                Lang::Ja => "このコードを GitHub に入力",
            }
        } else if text_eq(key, "language") {
            match self {
                Lang::En => "Language",
                Lang::Ja => "言語",
            }
        } else if text_eq(key, "need_oauth_app") {
            match self {
                Lang::En => "Create an OAuth App (not a GitHub App) at https://github.com/settings/developers — enable Device Flow, then paste the Client ID into src/config.rs. gh cannot create OAuth Apps.",
                Lang::Ja => "GitHub App ではなく OAuth App が必要です。https://github.com/settings/developers で作成し、Device Flow を有効にして Client ID を src/config.rs に入れてください。OAuth App の作成は gh ではできません。",
            }
        } else if text_eq(key, "select_issue") {
            match self {
                Lang::En => "Select an issue",
                Lang::Ja => "Issue を選択",
            }
        } else if text_eq(key, "filter_hint") {
            match self {
                Lang::En => "is:open title",
                Lang::Ja => "is:open タイトル",
            }
        } else if text_eq(key, "opened") {
            match self {
                Lang::En => "Opened",
                Lang::Ja => "Open",
            }
        } else if text_eq(key, "closed") {
            match self {
                Lang::En => "Closed",
                Lang::Ja => "Closed",
            }
        } else if text_eq(key, "created") {
            match self {
                Lang::En => "Created",
                Lang::Ja => "作成",
            }
        } else if text_eq(key, "updated") {
            match self {
                Lang::En => "Updated",
                Lang::Ja => "更新日時",
            }
        } else if text_eq(key, "asc") {
            match self {
                Lang::En => "Asc",
                Lang::Ja => "昇順",
            }
        } else if text_eq(key, "desc") {
            match self {
                Lang::En => "Desc",
                Lang::Ja => "降順",
            }
        } else if text_eq(key, "rate_remaining") {
            match self {
                Lang::En => "Rate remaining",
                Lang::Ja => "レート残",
            }
        } else if text_eq(key, "related") {
            match self {
                Lang::En => "Related",
                Lang::Ja => "関連",
            }
        } else if text_eq(key, "rate_limited") {
            match self {
                Lang::En => "GitHub rate limit — showing cache",
                Lang::Ja => "レート制限 — キャッシュを表示",
            }
        } else {
            key
        }
    }
}

} // verus!
