//! Rules behind the user interface's actions: reading form fields, whether
//! sync is configured and what a sync request does, setting limits, and the
//! overdue notification.

use vstd::prelude::*;
use crate::config::Settings;
use crate::num::{i64_to_string, spec_i64_decimal};
use crate::secrets::{KEY_CLIENT_ID, KEY_SECRET, get};
use crate::task::{concat, spec_non_empty};
use crate::text::{
    chars_of, spec_split_whitespace, spec_trim, split_whitespace, string_of, trim, views,
};

verus! {

/// A date field: Unix seconds, where zero or less means "no date".
pub fn opt_secs(v: i64) -> (r: Option<i64>)
    ensures
        r == if v > 0 {
            Some(v)
        } else {
            None::<i64>
        },
{
    if v > 0 {
        Some(v)
    } else {
        None
    }
}

/// A text field: trimmed, `None` where blank.
pub fn opt_string(s: &str) -> (r: Option<String>)
    ensures
        r.deep_view() == if spec_trim(s@).len() == 0 {
            None
        } else {
            Some(spec_trim(s@))
        },
{
    let t = trim(&chars_of(s));
    if t.len() == 0 {
        None
    } else {
        Some(string_of(t.as_slice()))
    }
}

/// A tag without its leading `+` signs.
pub open spec fn strip_plus(s: Seq<char>) -> Seq<char>
    decreases s.len(),
{
    if s.len() > 0 && s[0] == '+' {
        strip_plus(s.drop_first())
    } else {
        s
    }
}

/// The tags of a tags field: its words without leading `+`, empty ones
/// dropped.
pub open spec fn spec_tags_field(words: Seq<Seq<char>>) -> Seq<Seq<char>>
    decreases words.len(),
{
    if words.len() == 0 {
        Seq::empty()
    } else {
        let prev = spec_tags_field(words.drop_last());
        let t = strip_plus(words.last());
        if t.len() > 0 {
            prev.push(t)
        } else {
            prev
        }
    }
}

/// Reads a tags field: whitespace-separated words, leading `+` removed.
pub fn split_tags(text: &str) -> (r: Vec<String>)
    ensures
        r.deep_view() == spec_tags_field(spec_split_whitespace(text@)),
{
    let words = split_whitespace(&chars_of(text));
    let ghost wv = views(words@);
    let mut out: Vec<String> = Vec::new();
    let mut i: usize = 0;
    assert(wv.take(0) =~= Seq::<Seq<char>>::empty());
    while i < words.len()
        invariant
            i <= words.len(),
            wv == views(words@),
            out.deep_view() == spec_tags_field(wv.take(i as int)),
        decreases words.len() - i,
    {
        assert(wv.take(i + 1).drop_last() =~= wv.take(i as int));
        assert(wv.take(i + 1).last() == words@[i as int]@);
        let w = &words[i];
        let mut k: usize = 0;
        assert(w@.subrange(0, w.len() as int) =~= w@);
        while k < w.len() && w[k] == '+'
            invariant
                k <= w.len(),
                strip_plus(w@) == strip_plus(w@.subrange(k as int, w.len() as int)),
            decreases w.len() - k,
        {
            assert(w@.subrange(k as int, w.len() as int).drop_first() =~= w@.subrange(
                k + 1,
                w.len() as int,
            ));
            k = k + 1;
        }
        let t = crate::text::slice_from(w, k);
        if t.len() > 0 {
            let ghost before = out.deep_view();
            out.push(string_of(t.as_slice()));
            assert(out.deep_view() =~= before.push(t@));
        }
        i = i + 1;
    }
    assert(wv.take(words.len() as int) =~= wv);
    out
}

/// Whether a stored credential counts: present and not empty.
pub open spec fn credential_present(c: Result<Option<String>, String>) -> bool {
    c matches Ok(Some(v)) && v@.len() > 0
}

/// Whether sync is configured, from the server URL and what the secret
/// store answered for client id and secret: a URL that is not blank and
/// both credentials present.
pub fn sync_configured_from(
    url: &str,
    client_id: &Result<Option<String>, String>,
    secret: &Result<Option<String>, String>,
) -> (r: bool)
    ensures
        r == (spec_trim(url@).len() > 0 && credential_present(*client_id) && credential_present(
            *secret,
        )),
{
    if trim(&chars_of(url)).len() == 0 {
        return false;
    }
    let has_id = match client_id {
        Ok(Some(v)) => !v.as_str().is_empty(),
        _ => false,
    };
    let has_secret = match secret {
        Ok(Some(v)) => !v.as_str().is_empty(),
        _ => false,
    };
    has_id && has_secret
}

/// Whether sync is configured: a sync server URL and both credentials in the
/// secret store. The store is asked only when the URL is set; its answers
/// depend on the machine.
pub fn compute_sync_configured(settings: &Settings) -> (r: bool)
    ensures
        spec_trim(settings.sync_server_url@).len() == 0 ==> !r,
{
    if trim(&chars_of(settings.sync_server_url.as_str())).len() == 0 {
        return false;
    }
    let id = get(KEY_CLIENT_ID);
    let secret = get(KEY_SECRET);
    sync_configured_from(settings.sync_server_url.as_str(), &id, &secret)
}

/// What a sync request does.
#[derive(Debug, Clone, PartialEq, Eq)]
pub enum SyncAction {
    /// A sync is running already: nothing.
    Ignore,
    /// Sync is not configured (or there is no store): just reload.
    RefreshOnly,
    /// The credentials turned out empty: mark sync unconfigured and reload.
    MarkUnconfigured,
    /// Back up, then sync with these credentials.
    Sync { client_id: String, secret: String },
}

/// The action of a sync request, given the state and the stored
/// credentials (a missing or unreadable one counts as empty).
pub fn sync_action(
    is_syncing: bool,
    configured: bool,
    has_store: bool,
    client_id: Option<String>,
    secret: Option<String>,
) -> (r: SyncAction)
    ensures
        is_syncing ==> r == SyncAction::Ignore,
        !is_syncing && !configured ==> r == SyncAction::RefreshOnly,
        !is_syncing && configured && !has_store ==> r == SyncAction::Ignore,
        !is_syncing && configured && has_store ==> match (spec_non_empty(client_id.deep_view()), spec_non_empty(secret.deep_view())) {
            (Some(c), Some(s)) => r matches SyncAction::Sync { client_id: ci, secret: se } && ci@ == c
                && se@ == s,
            _ => r == SyncAction::MarkUnconfigured,
        },
{
    if is_syncing {
        return SyncAction::Ignore;
    }
    if !configured {
        return SyncAction::RefreshOnly;
    }
    if !has_store {
        return SyncAction::Ignore;
    }
    match (crate::task::non_empty(client_id), crate::task::non_empty(secret)) {
        (Some(c), Some(s)) => SyncAction::Sync { client_id: c, secret: s },
        _ => SyncAction::MarkUnconfigured,
    }
}

/// The due-soon window chosen in the settings, kept between 1 and 60 days.
pub fn clamp_due_soon_days(days: i32) -> (r: i32)
    ensures
        r == if days < 1 {
            1
        } else if days > 60 {
            60
        } else {
            days
        },
{
    if days < 1 {
        1
    } else if days > 60 {
        60
    } else {
        days
    }
}

/// A sidebar width: negative widths become 0 (the theme's default).
pub fn clamp_sidebar_width(width: i32) -> (r: i32)
    ensures
        r == if width < 0 {
            0
        } else {
            width
        },
{
    if width < 0 {
        0
    } else {
        width
    }
}

/// The text of the overdue notification.
pub open spec fn spec_overdue_text(count: int) -> Seq<char> {
    if count == 1 {
        "1 Aufgabe ist überfällig."@
    } else {
        spec_i64_decimal(count) + " Aufgaben sind überfällig."@
    }
}

/// The overdue notification at start: only when enabled and only when more
/// tasks are overdue than last reported, so that it does not nag.
pub fn overdue_notification(enabled: bool, count: usize, last: i64) -> (r: Option<String>)
    requires
        count <= i64::MAX,
    ensures
        match r {
            Some(t) => enabled && count > 0 && count > last && t@ == spec_overdue_text(count as int),
            None => !(enabled && count > 0 && count > last),
        },
{
    if !enabled || count == 0 || (count as i64) <= last {
        return None;
    }
    if count == 1 {
        Some(String::from_str("1 Aufgabe ist überfällig."))
    } else {
        let n = i64_to_string(count as i64);
        Some(concat(n.as_str(), " Aufgaben sind überfällig."))
    }
}

} // verus!
