//! Sidebar filters, sorting and search over task records. The sidebar counts
//! and the visible list both go through [`SidebarFilter::matches_at`], so the
//! two cannot drift apart.

use vstd::prelude::*;
use crate::task::{TaskInfo, TaskStatus};
use crate::dates::{day_of, is_local_date_at, is_local_day_start, is_local_midnight, local_date, midnight_after};
use crate::fuzzy::{fuzzy_contains, lemma_contains_survives_folding, spec_fuzzy_contains};
use crate::text::{
    chars_eq_str, chars_of, contains_sub, join_strings, spec_contains_sub, spec_is_whitespace,
    spec_join, spec_trim, trim, is_whitespace, slice_from, slice_range, lemma_lex_order_antisymmetric, lex_order, spec_lex_order,
    spec_strip_prefix, spec_to_lowercase, string_of, strip_prefix, to_lowercase,
};
use std::cmp::Ordering;

verus! {

/// The sidebar's filter modes.
#[derive(Debug, Clone, PartialEq, Eq)]
pub enum SidebarFilter {
    All,
    Today,
    Todo,
    Inbox,
    Overdue,
    DueSoon,
    Upcoming,
    Waiting,
    /// Taskwarrior's dependency reports (`+BLOCKED`, `+BLOCKING`, `+UNBLOCKED`).
    Blocked,
    Blocking,
    Unblocked,
    Project(String),
    Tag(String),
    /// A saved search: the query set beside it does the filtering, so the
    /// filter itself lets every task through.
    SavedSearch(String),
}

/// The abstract value of a [`SidebarFilter`].
pub enum FilterModel {
    All,
    Today,
    Todo,
    Inbox,
    Overdue,
    DueSoon,
    Upcoming,
    Waiting,
    Blocked,
    Blocking,
    Unblocked,
    Project(Seq<char>),
    Tag(Seq<char>),
    SavedSearch(Seq<char>),
}

impl View for SidebarFilter {
    type V = FilterModel;

    open spec fn view(&self) -> FilterModel {
        match self {
            SidebarFilter::All => FilterModel::All,
            SidebarFilter::Today => FilterModel::Today,
            SidebarFilter::Todo => FilterModel::Todo,
            SidebarFilter::Inbox => FilterModel::Inbox,
            SidebarFilter::Overdue => FilterModel::Overdue,
            SidebarFilter::DueSoon => FilterModel::DueSoon,
            SidebarFilter::Upcoming => FilterModel::Upcoming,
            SidebarFilter::Waiting => FilterModel::Waiting,
            SidebarFilter::Blocked => FilterModel::Blocked,
            SidebarFilter::Blocking => FilterModel::Blocking,
            SidebarFilter::Unblocked => FilterModel::Unblocked,
            SidebarFilter::Project(n) => FilterModel::Project(n@),
            SidebarFilter::Tag(n) => FilterModel::Tag(n@),
            SidebarFilter::SavedSearch(n) => FilterModel::SavedSearch(n@),
        }
    }
}

/// The key of a filter at the user-interface boundary: `"inbox"`,
/// `"project:Work"`, `"tag:x"`, `"saved:<id>"`.
pub open spec fn spec_filter_key(f: FilterModel) -> Seq<char> {
    match f {
        FilterModel::All => "all"@,
        FilterModel::Today => "today"@,
        FilterModel::Todo => "todo"@,
        FilterModel::Inbox => "inbox"@,
        FilterModel::Overdue => "overdue"@,
        FilterModel::DueSoon => "duesoon"@,
        FilterModel::Upcoming => "upcoming"@,
        FilterModel::Waiting => "waiting"@,
        FilterModel::Blocked => "blocked"@,
        FilterModel::Blocking => "blocking"@,
        FilterModel::Unblocked => "unblocked"@,
        FilterModel::Project(n) => "project:"@ + n,
        FilterModel::Tag(n) => "tag:"@ + n,
        FilterModel::SavedSearch(n) => "saved:"@ + n,
    }
}

/// The filter a key stands for; an unknown key means the inbox.
pub open spec fn spec_filter_from_key(k: Seq<char>) -> FilterModel {
    if let Some(n) = spec_strip_prefix("project:"@, k) {
        FilterModel::Project(n)
    } else if let Some(n) = spec_strip_prefix("tag:"@, k) {
        FilterModel::Tag(n)
    } else if let Some(n) = spec_strip_prefix("saved:"@, k) {
        FilterModel::SavedSearch(n)
    } else if k == "all"@ {
        FilterModel::All
    } else if k == "today"@ {
        FilterModel::Today
    } else if k == "todo"@ {
        FilterModel::Todo
    } else if k == "overdue"@ {
        FilterModel::Overdue
    } else if k == "duesoon"@ {
        FilterModel::DueSoon
    } else if k == "upcoming"@ {
        FilterModel::Upcoming
    } else if k == "waiting"@ {
        FilterModel::Waiting
    } else if k == "blocked"@ {
        FilterModel::Blocked
    } else if k == "blocking"@ {
        FilterModel::Blocking
    } else if k == "unblocked"@ {
        FilterModel::Unblocked
    } else {
        FilterModel::Inbox
    }
}

/// `prefix + name` as a string.
fn prefixed(prefix: &str, name: &String) -> (r: String)
    ensures
        r@ == prefix@ + name@,
{
    crate::task::concat(prefix, name.as_str())
}

/// Reading a key back gives the filter it was written from.
pub proof fn lemma_filter_key_roundtrip(f: FilterModel)
    ensures
        spec_filter_from_key(spec_filter_key(f)) == f,
{
    reveal_strlit("project:");
    reveal_strlit("tag:");
    reveal_strlit("saved:");
    reveal_strlit("all");
    reveal_strlit("today");
    reveal_strlit("todo");
    reveal_strlit("inbox");
    reveal_strlit("overdue");
    reveal_strlit("duesoon");
    reveal_strlit("upcoming");
    reveal_strlit("waiting");
    reveal_strlit("blocked");
    reveal_strlit("blocking");
    reveal_strlit("unblocked");
    match f {
        FilterModel::Project(n) => {
            let k = "project:"@ + n;
            assert(k.subrange(0, 8) =~= "project:"@);
            assert(k.subrange(8, k.len() as int) =~= n);
            assert(spec_strip_prefix("project:"@, k) == Some(n));
            assert(spec_filter_key(f) == k);
            assert(spec_filter_from_key(k) == FilterModel::Project(n));
        },
        FilterModel::Tag(n) => {
            let k = "tag:"@ + n;
            assert(k.subrange(0, 4) =~= "tag:"@);
            assert(k.subrange(4, k.len() as int) =~= n);
            assert(k[0] == 't');
            assert(spec_strip_prefix("project:"@, k) is None) by {
                if 8 <= k.len() {
                    assert(k.subrange(0, 8)[0] != "project:"@[0]);
                }
            }
        },
        FilterModel::SavedSearch(n) => {
            let k = "saved:"@ + n;
            assert(k.subrange(0, 6) =~= "saved:"@);
            assert(k.subrange(6, k.len() as int) =~= n);
            assert(k[0] == 's');
            assert(spec_strip_prefix("project:"@, k) is None) by {
                if 8 <= k.len() {
                    assert(k.subrange(0, 8)[0] != "project:"@[0]);
                }
            }
            assert(spec_strip_prefix("tag:"@, k) is None) by {
                if 4 <= k.len() {
                    assert(k.subrange(0, 4)[0] != "tag:"@[0]);
                }
            }
        },
        _ => {
            let k = spec_filter_key(f);
            assert(spec_strip_prefix("project:"@, k) is None) by {
                if 8 <= k.len() {
                    assert(k.subrange(0, 8)[0] != "project:"@[0]);
                }
            }
            assert(spec_strip_prefix("tag:"@, k) is None) by {
                if 4 <= k.len() {
                    assert(k.subrange(0, 4)[3] != "tag:"@[3]);
                }
            }
            assert(spec_strip_prefix("saved:"@, k) is None) by {
                if 6 <= k.len() {
                    assert(k.subrange(0, 6)[5] != "saved:"@[5]);
                }
            }
            lemma_plain_keys_distinct();
        },
    }
}

/// The keys of the filters without a name differ pairwise.
proof fn lemma_plain_keys_distinct()
    ensures
        "all"@ != "today"@, "all"@ != "todo"@, "all"@ != "inbox"@, "all"@ != "overdue"@,
        "all"@ != "duesoon"@, "all"@ != "upcoming"@, "all"@ != "waiting"@,
        "all"@ != "blocked"@, "all"@ != "blocking"@, "all"@ != "unblocked"@,
        "today"@ != "todo"@, "today"@ != "inbox"@, "today"@ != "overdue"@,
        "today"@ != "duesoon"@, "today"@ != "upcoming"@, "today"@ != "waiting"@,
        "today"@ != "blocked"@, "today"@ != "blocking"@, "today"@ != "unblocked"@,
        "todo"@ != "inbox"@, "todo"@ != "overdue"@, "todo"@ != "duesoon"@,
        "todo"@ != "upcoming"@, "todo"@ != "waiting"@, "todo"@ != "blocked"@,
        "todo"@ != "blocking"@, "todo"@ != "unblocked"@,
        "inbox"@ != "overdue"@, "inbox"@ != "duesoon"@, "inbox"@ != "upcoming"@,
        "inbox"@ != "waiting"@, "inbox"@ != "blocked"@, "inbox"@ != "blocking"@,
        "inbox"@ != "unblocked"@,
        "overdue"@ != "duesoon"@, "overdue"@ != "upcoming"@, "overdue"@ != "waiting"@,
        "overdue"@ != "blocked"@, "overdue"@ != "blocking"@, "overdue"@ != "unblocked"@,
        "duesoon"@ != "upcoming"@, "duesoon"@ != "waiting"@, "duesoon"@ != "blocked"@,
        "duesoon"@ != "blocking"@, "duesoon"@ != "unblocked"@,
        "upcoming"@ != "waiting"@, "upcoming"@ != "blocked"@, "upcoming"@ != "blocking"@,
        "upcoming"@ != "unblocked"@,
        "waiting"@ != "blocked"@, "waiting"@ != "blocking"@, "waiting"@ != "unblocked"@,
        "blocked"@ != "blocking"@, "blocked"@ != "unblocked"@,
        "blocking"@ != "unblocked"@,
{
    reveal_strlit("all");
    reveal_strlit("today");
    reveal_strlit("todo");
    reveal_strlit("inbox");
    reveal_strlit("overdue");
    reveal_strlit("duesoon");
    reveal_strlit("upcoming");
    reveal_strlit("waiting");
    reveal_strlit("blocked");
    reveal_strlit("blocking");
    reveal_strlit("unblocked");
    assert("all"@[0] != "today"@[0]);
    assert("all"@[0] != "todo"@[0]);
    assert("all"@[0] != "inbox"@[0]);
    assert("all"@[0] != "overdue"@[0]);
    assert("all"@[0] != "duesoon"@[0]);
    assert("all"@[0] != "upcoming"@[0]);
    assert("all"@[0] != "waiting"@[0]);
    assert("all"@[0] != "blocked"@[0]);
    assert("all"@[0] != "blocking"@[0]);
    assert("all"@[0] != "unblocked"@[0]);
    assert("today"@[3] != "todo"@[3]);
    assert("today"@[0] != "inbox"@[0]);
    assert("today"@[0] != "overdue"@[0]);
    assert("today"@[0] != "duesoon"@[0]);
    assert("today"@[0] != "upcoming"@[0]);
    assert("today"@[0] != "waiting"@[0]);
    assert("today"@[0] != "blocked"@[0]);
    assert("today"@[0] != "blocking"@[0]);
    assert("today"@[0] != "unblocked"@[0]);
    assert("todo"@[0] != "inbox"@[0]);
    assert("todo"@[0] != "overdue"@[0]);
    assert("todo"@[0] != "duesoon"@[0]);
    assert("todo"@[0] != "upcoming"@[0]);
    assert("todo"@[0] != "waiting"@[0]);
    assert("todo"@[0] != "blocked"@[0]);
    assert("todo"@[0] != "blocking"@[0]);
    assert("todo"@[0] != "unblocked"@[0]);
    assert("inbox"@[0] != "overdue"@[0]);
    assert("inbox"@[0] != "duesoon"@[0]);
    assert("inbox"@[0] != "upcoming"@[0]);
    assert("inbox"@[0] != "waiting"@[0]);
    assert("inbox"@[0] != "blocked"@[0]);
    assert("inbox"@[0] != "blocking"@[0]);
    assert("inbox"@[0] != "unblocked"@[0]);
    assert("overdue"@[0] != "duesoon"@[0]);
    assert("overdue"@[0] != "upcoming"@[0]);
    assert("overdue"@[0] != "waiting"@[0]);
    assert("overdue"@[0] != "blocked"@[0]);
    assert("overdue"@[0] != "blocking"@[0]);
    assert("overdue"@[0] != "unblocked"@[0]);
    assert("duesoon"@[0] != "upcoming"@[0]);
    assert("duesoon"@[0] != "waiting"@[0]);
    assert("duesoon"@[0] != "blocked"@[0]);
    assert("duesoon"@[0] != "blocking"@[0]);
    assert("duesoon"@[0] != "unblocked"@[0]);
    assert("upcoming"@[0] != "waiting"@[0]);
    assert("upcoming"@[0] != "blocked"@[0]);
    assert("upcoming"@[0] != "blocking"@[0]);
    assert("upcoming"@[1] != "unblocked"@[1]);
    assert("waiting"@[0] != "blocked"@[0]);
    assert("waiting"@[0] != "blocking"@[0]);
    assert("waiting"@[0] != "unblocked"@[0]);
    assert("blocked"@[5] != "blocking"@[5]);
    assert("blocked"@[0] != "unblocked"@[0]);
    assert("blocking"@[0] != "unblocked"@[0]);
}

impl SidebarFilter {
    /// The filter's key (see [`spec_filter_key`]).
    pub fn to_key(&self) -> (r: String)
        ensures
            r@ == spec_filter_key(self@),
    {
        match self {
            SidebarFilter::All => String::from_str("all"),
            SidebarFilter::Today => String::from_str("today"),
            SidebarFilter::Todo => String::from_str("todo"),
            SidebarFilter::Inbox => String::from_str("inbox"),
            SidebarFilter::Overdue => String::from_str("overdue"),
            SidebarFilter::DueSoon => String::from_str("duesoon"),
            SidebarFilter::Upcoming => String::from_str("upcoming"),
            SidebarFilter::Waiting => String::from_str("waiting"),
            SidebarFilter::Blocked => String::from_str("blocked"),
            SidebarFilter::Blocking => String::from_str("blocking"),
            SidebarFilter::Unblocked => String::from_str("unblocked"),
            SidebarFilter::Project(name) => prefixed("project:", name),
            SidebarFilter::Tag(name) => prefixed("tag:", name),
            SidebarFilter::SavedSearch(id) => prefixed("saved:", id),
        }
    }

    /// The filter a key stands for (see [`spec_filter_from_key`]).
    pub fn from_key(key: &str) -> (r: Self)
        ensures
            r@ == spec_filter_from_key(key@),
    {
        let k = chars_of(key);
        let p = chars_of("project:");
        if let Some(name) = strip_prefix(&p, &k) {
            return SidebarFilter::Project(string_of(name.as_slice()));
        }
        let t = chars_of("tag:");
        if let Some(name) = strip_prefix(&t, &k) {
            return SidebarFilter::Tag(string_of(name.as_slice()));
        }
        let s = chars_of("saved:");
        if let Some(id) = strip_prefix(&s, &k) {
            return SidebarFilter::SavedSearch(string_of(id.as_slice()));
        }
        if chars_eq_str(&k, "all") {
            SidebarFilter::All
        } else if chars_eq_str(&k, "today") {
            SidebarFilter::Today
        } else if chars_eq_str(&k, "todo") {
            SidebarFilter::Todo
        } else if chars_eq_str(&k, "overdue") {
            SidebarFilter::Overdue
        } else if chars_eq_str(&k, "duesoon") {
            SidebarFilter::DueSoon
        } else if chars_eq_str(&k, "upcoming") {
            SidebarFilter::Upcoming
        } else if chars_eq_str(&k, "waiting") {
            SidebarFilter::Waiting
        } else if chars_eq_str(&k, "blocked") {
            SidebarFilter::Blocked
        } else if chars_eq_str(&k, "blocking") {
            SidebarFilter::Blocking
        } else if chars_eq_str(&k, "unblocked") {
            SidebarFilter::Unblocked
        } else {
            SidebarFilter::Inbox
        }
    }
}

// ─── Matching ───────────────────────────────────────────────────────────────

/// The task is snoozed: its `wait` lies after `now`.
pub open spec fn spec_is_waiting(t: TaskInfo, now: int) -> bool {
    t.wait matches Some(w) && w > now
}

/// The task is planned for later: its `scheduled` lies after `now`.
pub open spec fn spec_is_upcoming(t: TaskInfo, now: int) -> bool {
    t.scheduled matches Some(s) && s > now
}

/// Taskwarrior's prefix match for projects: `Work` matches `Work` and every
/// `Work.*` sub-project, but not `Workshop`.
pub open spec fn spec_project_matches(p: Option<Seq<char>>, selected: Seq<char>) -> bool {
    match p {
        Some(p) => p == selected || (selected.len() + 1 <= p.len() && p.subrange(
            0,
            selected.len() + 1 as int,
        ) == selected.push('.')),
        None => false,
    }
}

/// The view of an optional string slice.
pub open spec fn opt_str_view(o: Option<&str>) -> Option<Seq<char>> {
    match o {
        Some(s) => Some(s@),
        None => None,
    }
}

/// Whether the task shows under the filter at `now`, with a due-soon window
/// of `days` days and the local day ending (exclusively) at `today_end`.
pub open spec fn spec_matches(f: FilterModel, t: TaskInfo, now: int, days: int, today_end: int) -> bool {
    let pending = t.status == TaskStatus::Pending;
    let waiting = spec_is_waiting(t, now);
    let upcoming = spec_is_upcoming(t, now);
    match f {
        FilterModel::All => true,
        FilterModel::Today => pending && !waiting && !upcoming && match t.due {
            Some(due) => due < today_end,
            None => t.scheduled is Some,
        },
        FilterModel::Todo => pending && !waiting && !upcoming,
        FilterModel::Inbox => pending && t.project is None && t.tags@.len() == 0 && !waiting
            && !upcoming,
        FilterModel::Overdue => pending && !upcoming && (t.due matches Some(due) && due < now),
        FilterModel::DueSoon => pending && !upcoming && (t.due matches Some(due) && now <= due
            && due <= now + days * 86400),
        FilterModel::Upcoming => pending && upcoming,
        FilterModel::Waiting => pending && waiting,
        FilterModel::Blocked => pending && t.is_blocked,
        FilterModel::Blocking => pending && t.is_blocking,
        FilterModel::Unblocked => pending && !t.is_blocked,
        FilterModel::Project(name) => spec_project_matches(t.project.deep_view(), name),
        FilterModel::Tag(name) => exists|i: int| 0 <= i < t.tags@.len() && #[trigger] t.tags@[i]@ == name,
        FilterModel::SavedSearch(_) => true,
    }
}

/// Recurring templates show only in the views that do not filter by state:
/// all tasks, a project, a tag, or a saved search.
pub proof fn lemma_recurring_only_in_unfiltered_views(
    f: FilterModel,
    t: TaskInfo,
    now: int,
    days: int,
    today_end: int,
)
    requires
        t.status == TaskStatus::Recurring,
        spec_matches(f, t, now, days, today_end),
    ensures
        f is All || f is Project || f is Tag || f is SavedSearch,
{
}

/// A snoozed task (its `wait` still ahead) is in none of the views of work
/// to do now (today, to do, inbox) but under "waiting" if pending; a task
/// planned for later (its `scheduled` still ahead) is in none of the
/// actionable views (today, to do, inbox, overdue, due soon).
pub proof fn lemma_hidden_until_due(f: FilterModel, t: TaskInfo, now: int, days: int, today_end: int)
    ensures
        spec_is_waiting(t, now) && (f is Today || f is Todo || f is Inbox) ==> !spec_matches(
            f,
            t,
            now,
            days,
            today_end,
        ),
        spec_is_waiting(t, now) && t.status == TaskStatus::Pending ==> spec_matches(
            FilterModel::Waiting,
            t,
            now,
            days,
            today_end,
        ),
        spec_is_upcoming(t, now) && (f is Today || f is Todo || f is Inbox || f is Overdue
            || f is DueSoon) ==> !spec_matches(f, t, now, days, today_end),
{
}

/// Selecting a parent project takes its sub-projects in: a task of
/// `p.rest` shows under `p`; a task of a project that merely starts with
/// the same letters (`Workshop` for `Work`) does not.
pub proof fn lemma_parent_project_includes_children(p: Seq<char>, rest: Seq<char>, other: Seq<char>)
    requires
        other.len() > p.len(),
        other.subrange(0, p.len() as int) == p,
        other[p.len() as int] != '.',
    ensures
        spec_project_matches(Some(p + seq!['.'] + rest), p),
        !spec_project_matches(Some(other), p),
{
    let c = p + seq!['.'] + rest;
    assert(c.subrange(0, p.len() + 1 as int) =~= p.push('.'));
    if other.len() >= p.len() + 1 && other.subrange(0, p.len() + 1 as int) == p.push('.') {
        assert(other.subrange(0, p.len() + 1 as int)[p.len() as int] == '.');
    }
}

/// Whether the task's project is `selected` or one of its sub-projects.
pub fn project_matches(task_project: Option<&str>, selected: &str) -> (r: bool)
    ensures
        r == spec_project_matches(opt_str_view(task_project), selected@),
{
    match task_project {
        Some(p) => {
            let pv = chars_of(p);
            let mut pre = chars_of(selected);
            if chars_eq_str(&pv, selected) {
                return true;
            }
            pre.push('.');
            match strip_prefix(&pre, &pv) {
                Some(_) => true,
                None => false,
            }
        },
        None => false,
    }
}

/// Whether the task is snoozed at `now`.
pub fn is_waiting(task: &TaskInfo, now: i64) -> (r: bool)
    ensures
        r == spec_is_waiting(*task, now as int),
{
    match task.wait {
        Some(w) => w > now,
        None => false,
    }
}

/// Whether the task is planned for after `now`.
pub fn is_upcoming(task: &TaskInfo, now: i64) -> (r: bool)
    ensures
        r == spec_is_upcoming(*task, now as int),
{
    match task.scheduled {
        Some(s) => s > now,
        None => false,
    }
}

fn has_tag(task: &TaskInfo, name: &String) -> (r: bool)
    ensures
        r == exists|i: int| 0 <= i < task.tags@.len() && #[trigger] task.tags@[i]@ == name@,
{
    let mut i: usize = 0;
    while i < task.tags.len()
        invariant
            i <= task.tags.len(),
            forall|k: int| 0 <= k < i ==> #[trigger] task.tags@[k]@ != name@,
        decreases task.tags.len() - i,
    {
        if task.tags[i] == *name {
            return true;
        }
        i = i + 1;
    }
    false
}

/// Whether the due-soon filter reads its window for the task `t`: a pending
/// task with a due date that is not planned for later.
pub open spec fn reads_due_window(t: TaskInfo, now: int) -> bool {
    t.status == TaskStatus::Pending && !spec_is_upcoming(t, now) && t.due is Some
}

/// Whether the today filter reads the end of today for the task `t`: a pending
/// task with a due date that is neither snoozed nor planned for later.
pub open spec fn reads_today_end(t: TaskInfo, now: int) -> bool {
    t.status == TaskStatus::Pending && !spec_is_waiting(t, now) && !spec_is_upcoming(t, now)
        && t.due is Some
}

/// The due-soon window of `days` days after `now` fits in `i64`.
pub open spec fn window_fits(now: int, days: int) -> bool {
    i64::MIN <= days * 86400 <= i64::MAX && i64::MIN <= now + days * 86400 <= i64::MAX
}

impl SidebarFilter {
    /// Whether the task shows under this filter at `now`, with a due-soon
    /// window of `due_soon_days` days and the local day ending at
    /// `today_end` (see [`spec_matches`]). Recurring templates pass only the
    /// unfiltered views, since every actionable filter asks for pending.
    pub fn matches_at(&self, task: &TaskInfo, now: i64, due_soon_days: i64, today_end: i64) -> (r:
        bool)
        requires
            self is DueSoon && reads_due_window(*task, now as int) ==> window_fits(
                now as int,
                due_soon_days as int,
            ),
        ensures
            r == spec_matches(self@, *task, now as int, due_soon_days as int, today_end as int),
    {
        let pending = task.status == TaskStatus::Pending;
        match self {
            SidebarFilter::All => true,
            SidebarFilter::Today => {
                if !pending || is_waiting(task, now) || is_upcoming(task, now) {
                    return false;
                }
                match task.due {
                    Some(due) => due < today_end,
                    None => task.scheduled.is_some(),
                }
            },
            SidebarFilter::Todo => pending && !is_waiting(task, now) && !is_upcoming(task, now),
            SidebarFilter::Inbox => pending && task.project.is_none() && task.tags.len() == 0
                && !is_waiting(task, now) && !is_upcoming(task, now),
            SidebarFilter::Overdue => pending && !is_upcoming(task, now) && match task.due {
                Some(due) => due < now,
                None => false,
            },
            SidebarFilter::DueSoon => {
                if !pending || is_upcoming(task, now) {
                    return false;
                }
                match task.due {
                    Some(due) => due >= now && due <= now + due_soon_days * 86400,
                    None => false,
                }
            },
            SidebarFilter::Upcoming => pending && is_upcoming(task, now),
            SidebarFilter::Waiting => pending && is_waiting(task, now),
            SidebarFilter::Blocked => pending && task.is_blocked,
            SidebarFilter::Blocking => pending && task.is_blocking,
            SidebarFilter::Unblocked => pending && !task.is_blocked,
            SidebarFilter::Project(name) => {
                let p: Option<&str> = match &task.project {
                    Some(s) => Some(s.as_str()),
                    None => None,
                };
                project_matches(p, name.as_str())
            },
            SidebarFilter::Tag(name) => has_tag(task, name),
            SidebarFilter::SavedSearch(_) => true,
        }
    }
}

// ─── Local day ──────────────────────────────────────────────────────────────

/// `chrono::Local`'s start (00:00) of the local day containing `now`, in Unix
/// seconds, or `None` where the UTC day is used instead: `now` has no single
/// local time, its local date (read with `Datelike`, which does not panic)
/// lies beyond chrono's dates, or that day's midnight does not exist locally. An ambiguous
/// midnight gives its earlier instant. The result depends on the machine's
/// time zone, so nothing names it; but chrono's local time is always the UTC
/// time plus a `FixedOffset` of less than a day, both for reading `now` and
/// for turning the local midnight back into seconds. chrono keeps every date
/// within about 262 000 years of the common era, so the timestamp lies
/// within 10^13 s.
#[verifier::external_body]
fn local_day_start(now: i64) -> (r: Option<i64>)
    ensures
        r matches Some(v) ==> -10_000_000_000_000 <= v <= 10_000_000_000_000
            && is_local_day_start(now as int, v as int),
{
    let local = chrono::TimeZone::timestamp_opt(&chrono::Local, now, 0).single()?;
    let date = chrono::NaiveDate::from_ymd_opt(
        chrono::Datelike::year(&local),
        chrono::Datelike::month(&local),
        chrono::Datelike::day(&local),
    )?;
    let naive = date.and_hms_opt(0, 0, 0)?;
    match chrono::TimeZone::from_local_datetime(&chrono::Local, &naive) {
        chrono::LocalResult::Single(dt) => Some(dt.timestamp()),
        chrono::LocalResult::Ambiguous(dt, _) => Some(dt.timestamp()),
        chrono::LocalResult::None => None,
    }
}

/// Start of the UTC day containing `now`: `now - now.rem_euclid(86400)`.
fn utc_day_start(now: i64) -> (r: i64)
    requires
        now - now % 86400 >= i64::MIN,
    ensures
        r == now - now % 86400,
{
    if now >= 0 {
        let u = now as u64;
        let rem = (u % 86400) as i64;
        now - rem
    } else {
        let m: u64 = (-(now + 1)) as u64;
        let rem = 86399 - (m % 86400) as i64;
        assert(now % 86400 == 86399 - (m as int) % 86400) by {
            assert(now as int == -(m as int) - 1);
            vstd::arithmetic::div_mod::lemma_fundamental_div_mod(m as int, 86400);
            vstd::arithmetic::div_mod::lemma_fundamental_div_mod_converse(
                now as int,
                86400,
                -((m as int) / 86400) - 1,
                86399 - (m as int) % 86400,
            );
        }
        now - rem
    }
}

/// Start (00:00) of the local day containing `now`, in Unix seconds. It goes
/// by the machine's time zone, so that daylight-saving changes are right;
/// where the local calendar gives no single answer it is the start of the
/// UTC day.
pub fn start_of_local_day(now: i64) -> (r: i64)
    requires
        now - now % 86400 >= i64::MIN,
    ensures
        r == now - now % 86400 || (-10_000_000_000_000 <= r <= 10_000_000_000_000
            && is_local_day_start(now as int, r as int)),
{
    match local_day_start(now) {
        Some(v) => v,
        None => utc_day_start(now),
    }
}

/// Whether `e` is an end of "today" for `now`: the local midnight that ends
/// a local date of `now` (see [`is_local_date_at`] and
/// [`is_local_midnight`]); or, where that midnight does not exist, 24 hours
/// after the start of the local day of `now` (see [`is_local_day_start`]),
/// or after the start of its UTC day.
pub open spec fn is_end_of_today(now: int, e: int) -> bool {
    ||| (-10_000_000_000_000 <= e <= 10_000_000_000_000 && exists|d: (i32, u32, u32)|
        is_local_date_at(now, d) && #[trigger] is_local_midnight(e, day_of(d) + 1))
    ||| e == now - now % 86400 + 86400
    ||| (-10_000_000_000_000 + 86400 <= e <= 10_000_000_000_000 + 86400 && is_local_day_start(
        now,
        e - 86400,
    ))
}

/// The exclusive end of "today": the local midnight after the local date of
/// `now` (chrono's earlier instant where it is ambiguous); where that
/// midnight does not exist, the start of the local day plus 24 hours.
pub fn end_of_today_exclusive(now: i64) -> (r: i64)
    requires
        now - now % 86400 >= i64::MIN,
        now <= i64::MAX - 86400,
    ensures
        is_end_of_today(now as int, r as int),
{
    if let Some(d) = local_date(now) {
        if let Some(m) = midnight_after(d.0, d.1, d.2) {
            assert(is_local_midnight(m as int, day_of(d) + 1));
            return m;
        }
    }
    let s = start_of_local_day(now);
    assert(s + 86400 - 86400 == s);
    s + 86400
}

impl SidebarFilter {
    /// [`SidebarFilter::matches_at`] with the end of today as
    /// [`end_of_today_exclusive`] gives it. That end depends on the machine's
    /// time zone; only the `Today` filter reads it.
    pub fn matches(&self, task: &TaskInfo, now: i64, due_soon_days: i64) -> (r: bool)
        requires
            self is DueSoon && reads_due_window(*task, now as int) ==> window_fits(
                now as int,
                due_soon_days as int,
            ),
            self is Today && reads_today_end(*task, now as int) ==> (now - now % 86400 >= i64::MIN
                && now <= i64::MAX - 86400),
        ensures
            !(self is Today) ==> r == spec_matches(
                self@,
                *task,
                now as int,
                due_soon_days as int,
                0,
            ),
            self is Today ==> exists|e: int|
                is_end_of_today(now as int, e) && r == #[trigger] spec_matches(
                    self@,
                    *task,
                    now as int,
                    due_soon_days as int,
                    e,
                ),
    {
        let reads_end = match self {
            SidebarFilter::Today => task.status == TaskStatus::Pending && !is_waiting(task, now)
                && !is_upcoming(task, now) && task.due.is_some(),
            _ => false,
        };
        let end = if reads_end {
            end_of_today_exclusive(now)
        } else {
            0
        };
        let r = self.matches_at(task, now, due_soon_days, end);
        assert(spec_matches(self@, *task, now as int, due_soon_days as int, end as int) == r);
        proof {
            if self is Today && !reads_end {
                let e = now - now % 86400 + 86400;
                assert(is_end_of_today(now as int, e));
                assert(spec_matches(self@, *task, now as int, due_soon_days as int, e) == r);
            }
        }
        r
    }
}

// ─── Sorting ────────────────────────────────────────────────────────────────

/// Sort orders of the task list.
#[derive(Debug, Clone, Copy, PartialEq, Eq, Structural)]
pub enum SortOrder {
    Id,
    Description,
    Entry,
    Due,
    Project,
}

/// The key of a sort order.
pub open spec fn spec_sort_key(o: SortOrder) -> Seq<char> {
    match o {
        SortOrder::Id => "id"@,
        SortOrder::Description => "description"@,
        SortOrder::Entry => "entry"@,
        SortOrder::Due => "due"@,
        SortOrder::Project => "project"@,
    }
}

/// The order a key names; any other key means by id.
pub open spec fn spec_sort_from_key(key: Seq<char>) -> SortOrder {
    if key == "description"@ {
        SortOrder::Description
    } else if key == "entry"@ {
        SortOrder::Entry
    } else if key == "due"@ {
        SortOrder::Due
    } else if key == "project"@ {
        SortOrder::Project
    } else {
        SortOrder::Id
    }
}

/// Reading a sort key back gives the order it was written from.
pub proof fn lemma_sort_key_roundtrip(o: SortOrder)
    ensures
        spec_sort_from_key(spec_sort_key(o)) == o,
{
    reveal_strlit("id");
    reveal_strlit("description");
    reveal_strlit("entry");
    reveal_strlit("due");
    reveal_strlit("project");
    assert("id"@.len() == 2 && "description"@.len() == 11 && "entry"@.len() == 5 && "due"@.len() == 3
        && "project"@.len() == 7);
}

impl SortOrder {
    /// The order a key names; an unknown key means by id.
    pub fn from_key(key: &str) -> (r: Self)
        ensures
            r == spec_sort_from_key(key@),
    {
        let k = chars_of(key);
        if chars_eq_str(&k, "description") {
            SortOrder::Description
        } else if chars_eq_str(&k, "entry") {
            SortOrder::Entry
        } else if chars_eq_str(&k, "due") {
            SortOrder::Due
        } else if chars_eq_str(&k, "project") {
            SortOrder::Project
        } else {
            SortOrder::Id
        }
    }

    /// The key of the order (see [`spec_sort_key`]).
    pub fn to_key(self) -> (r: &'static str)
        ensures
            r@ == spec_sort_key(self),
    {
        match self {
            SortOrder::Id => "id",
            SortOrder::Description => "description",
            SortOrder::Entry => "entry",
            SortOrder::Due => "due",
            SortOrder::Project => "project",
        }
    }
}

/// Case-insensitive comparison: both texts lower-cased, then compared by
/// code point (`-1`, `0`, `1`).
pub open spec fn spec_ci_order(a: Seq<char>, b: Seq<char>) -> int {
    spec_lex_order(spec_to_lowercase(a), spec_to_lowercase(b))
}

/// The number of an ordering: `-1`, `0`, `1`.
pub open spec fn ord_value(o: Ordering) -> int {
    match o {
        Ordering::Less => -1,
        Ordering::Equal => 0,
        Ordering::Greater => 1,
    }
}

fn ordering_from(v: i8) -> (o: Ordering)
    requires
        -1 <= v <= 1,
    ensures
        ord_value(o) == v,
{
    if v < 0 {
        Ordering::Less
    } else if v == 0 {
        Ordering::Equal
    } else {
        Ordering::Greater
    }
}

pub(crate) fn ci_order(a: &str, b: &str) -> (r: i8)
    ensures
        r == spec_ci_order(a@, b@),
        -1 <= r <= 1,
{
    let la = to_lowercase(chars_of(a).as_slice());
    let lb = to_lowercase(chars_of(b).as_slice());
    lex_order(&la, &lb)
}

/// Compares the lower-cased texts (`a.to_lowercase().cmp(&b.to_lowercase())`).
pub fn ci_cmp(a: &str, b: &str) -> (r: Ordering)
    ensures
        ord_value(r) == spec_ci_order(a@, b@),
{
    let v = ci_order(a, b);
    ordering_from(v)
}

/// Compares two integers: `-1`, `0`, `1`.
pub open spec fn spec_int_order(a: int, b: int) -> int {
    if a < b {
        -1
    } else if a > b {
        1
    } else {
        0
    }
}

/// Compares optional keys: present before missing; two missing keys fall
/// back to `tie`.
pub open spec fn spec_opt_order(a: Option<int>, b: Option<int>, tie: int) -> int {
    match (a, b) {
        (Some(x), Some(y)) => spec_int_order(x, y),
        (Some(_), None) => -1,
        (None, Some(_)) => 1,
        (None, None) => tie,
    }
}

pub open spec fn opt_i64(o: Option<i64>) -> Option<int> {
    match o {
        Some(v) => Some(v as int),
        None => None,
    }
}

pub open spec fn opt_u32(o: Option<u32>) -> Option<int> {
    match o {
        Some(v) => Some(v as int),
        None => None,
    }
}

/// The order of two tasks in ascending direction: missing keys last, newest
/// `entry` first, ties broken by description (case-insensitive).
pub open spec fn spec_base_order(l: TaskInfo, r: TaskInfo, order: SortOrder) -> int {
    let by_description = spec_ci_order(l.description@, r.description@);
    match order {
        SortOrder::Id => spec_opt_order(opt_u32(l.working_set_id), opt_u32(r.working_set_id), by_description),
        SortOrder::Description => by_description,
        SortOrder::Entry => match (l.entry, r.entry) {
            (Some(x), Some(y)) => spec_int_order(y as int, x as int),
            (Some(_), None) => -1,
            (None, Some(_)) => 1,
            (None, None) => by_description,
        },
        SortOrder::Due => spec_opt_order(opt_i64(l.due), opt_i64(r.due), by_description),
        SortOrder::Project => match (l.project, r.project) {
            (Some(a), Some(b)) => if spec_ci_order(a@, b@) != 0 {
                spec_ci_order(a@, b@)
            } else {
                by_description
            },
            (Some(_), None) => -1,
            (None, Some(_)) => 1,
            (None, None) => by_description,
        },
    }
}

/// The order of two tasks: [`spec_base_order`], reversed when descending.
pub open spec fn spec_task_order(l: TaskInfo, r: TaskInfo, order: SortOrder, ascending: bool) -> int {
    if ascending {
        spec_base_order(l, r, order)
    } else {
        -spec_base_order(l, r, order)
    }
}

/// Ascending order puts the smaller key first, whatever the description:
/// the lower id, the earlier due date, the newer entry, the project or the
/// description that comes first ignoring case; a task with the key before
/// one without; and descending order reverses each of these.
pub proof fn lemma_sort_keys_direction(l: TaskInfo, r: TaskInfo)
    ensures
        l.working_set_id matches Some(x) ==> (r.working_set_id matches Some(y) ==> (x < y
            ==> spec_task_order(l, r, SortOrder::Id, true) < 0 && spec_task_order(
            l,
            r,
            SortOrder::Id,
            false,
        ) > 0)),
        l.due matches Some(x) ==> (r.due matches Some(y) ==> (x < y ==> spec_task_order(
            l,
            r,
            SortOrder::Due,
            true,
        ) < 0 && spec_task_order(l, r, SortOrder::Due, false) > 0)),
        l.entry matches Some(x) ==> (r.entry matches Some(y) ==> (x > y ==> spec_task_order(
            l,
            r,
            SortOrder::Entry,
            true,
        ) < 0 && spec_task_order(l, r, SortOrder::Entry, false) > 0)),
        l.project matches Some(a) ==> (r.project matches Some(b) ==> (spec_ci_order(a@, b@) < 0
            ==> spec_task_order(l, r, SortOrder::Project, true) < 0 && spec_task_order(
            l,
            r,
            SortOrder::Project,
            false,
        ) > 0)),
        spec_ci_order(l.description@, r.description@) < 0 ==> spec_task_order(
            l,
            r,
            SortOrder::Description,
            true,
        ) < 0 && spec_task_order(l, r, SortOrder::Description, false) > 0,
        l.working_set_id is Some && r.working_set_id is None ==> spec_task_order(
            l,
            r,
            SortOrder::Id,
            true,
        ) < 0,
        l.due is Some && r.due is None ==> spec_task_order(l, r, SortOrder::Due, true) < 0,
        l.entry is Some && r.entry is None ==> spec_task_order(l, r, SortOrder::Entry, true) < 0,
        l.project is Some && r.project is None ==> spec_task_order(l, r, SortOrder::Project, true)
            < 0,
{
}

/// The blocking and blocked views: a task shows under "blocking" exactly
/// when it is pending and blocks another task, under "blocked" exactly when
/// it is pending and waits for another, and under "unblocked" exactly when
/// it is pending and waits for none; whether it blocks has no say in the
/// last two, whether it is blocked none in the first.
pub proof fn lemma_dependency_views(t: TaskInfo, now: int, days: int, e: int)
    ensures
        spec_matches(FilterModel::Blocking, t, now, days, e) <==> (t.status == TaskStatus::Pending
            && t.is_blocking),
        spec_matches(FilterModel::Blocked, t, now, days, e) <==> (t.status == TaskStatus::Pending
            && t.is_blocked),
        spec_matches(FilterModel::Unblocked, t, now, days, e) <==> (t.status
            == TaskStatus::Pending && !t.is_blocked),
        spec_matches(FilterModel::Blocking, TaskInfo { is_blocked: !t.is_blocked, ..t }, now, days, e)
            == spec_matches(FilterModel::Blocking, t, now, days, e),
        spec_matches(FilterModel::Blocked, TaskInfo { is_blocking: !t.is_blocking, ..t }, now, days, e)
            == spec_matches(FilterModel::Blocked, t, now, days, e),
{
}

/// Swapping two tasks negates their order.
pub proof fn lemma_task_order_antisymmetric(
    l: TaskInfo,
    r: TaskInfo,
    order: SortOrder,
    ascending: bool,
)
    ensures
        spec_task_order(l, r, order, ascending) == -spec_task_order(r, l, order, ascending),
{
    lemma_lex_order_antisymmetric(
        spec_to_lowercase(l.description@),
        spec_to_lowercase(r.description@),
    );
    if let (Some(a), Some(b)) = (l.project, r.project) {
        lemma_lex_order_antisymmetric(spec_to_lowercase(a@), spec_to_lowercase(b@));
    }
}

fn int_order(a: i64, b: i64) -> (r: i8)
    ensures
        r == spec_int_order(a as int, b as int),
{
    if a < b {
        -1
    } else if a > b {
        1
    } else {
        0
    }
}

/// Compares two tasks as [`spec_task_order`] does.
pub fn compare_tasks(l: &TaskInfo, r: &TaskInfo, order: SortOrder, ascending: bool) -> (c: i8)
    ensures
        c == spec_task_order(*l, *r, order, ascending),
        -1 <= c <= 1,
{
    let by_description = ci_order(l.description.as_str(), r.description.as_str());
    let base: i8 = match order {
        SortOrder::Id => match (l.working_set_id, r.working_set_id) {
            (Some(a), Some(b)) => int_order(a as i64, b as i64),
            (Some(_), None) => -1,
            (None, Some(_)) => 1,
            (None, None) => by_description,
        },
        SortOrder::Description => by_description,
        SortOrder::Entry => match (l.entry, r.entry) {
            (Some(a), Some(b)) => int_order(b, a),
            (Some(_), None) => -1,
            (None, Some(_)) => 1,
            (None, None) => by_description,
        },
        SortOrder::Due => match (l.due, r.due) {
            (Some(a), Some(b)) => int_order(a, b),
            (Some(_), None) => -1,
            (None, Some(_)) => 1,
            (None, None) => by_description,
        },
        SortOrder::Project => match (&l.project, &r.project) {
            (Some(a), Some(b)) => {
                let c = ci_order(a.as_str(), b.as_str());
                if c != 0 {
                    c
                } else {
                    by_description
                }
            },
            (Some(_), None) => -1,
            (None, Some(_)) => 1,
            (None, None) => by_description,
        },
    };
    if ascending {
        base
    } else {
        -base
    }
}

/// Whether neighbouring tasks are in order.
pub open spec fn spec_sorted(s: Seq<TaskInfo>, order: SortOrder, ascending: bool) -> bool {
    forall|k: int|
        0 <= k && k + 1 < s.len() ==> spec_task_order(#[trigger] s[k], s[k + 1], order, ascending)
            <= 0
}

/// `new` is `old` rearranged by `p` (`new[k] == old[p[k]]`, each position
/// of `old` used once), and tasks that compare equal keep their order from
/// `old`: the arrangement of a stable sort.
pub open spec fn is_stable_arrangement(
    old: Seq<TaskInfo>,
    new: Seq<TaskInfo>,
    p: Seq<int>,
    order: SortOrder,
    ascending: bool,
) -> bool {
    &&& new.len() == old.len()
    &&& p.len() == new.len()
    &&& forall|k: int| 0 <= k < p.len() ==> 0 <= #[trigger] p[k] < old.len() && new[k] == old[p[k]]
    &&& forall|k1: int, k2: int| #![trigger p[k1], p[k2]] 0 <= k1 < k2 < p.len() ==> p[k1] != p[k2]
    &&& forall|k1: int, k2: int|
        #![trigger p[k1], p[k2]]
        0 <= k1 < k2 < p.len() && spec_task_order(new[k1], new[k2], order, ascending) == 0
            ==> p[k1] < p[k2]
}

/// What insertion sort keeps after placing the first `i` tasks: `s` is
/// `old` rearranged by `p`, the tasks from `i` on are where they were, and
/// the first `i` are the first `i` of `old`, with equal ones in their old
/// order.
pub open spec fn placed(old: Seq<TaskInfo>, s: Seq<TaskInfo>, p: Seq<int>, i: int, order: SortOrder, ascending: bool) -> bool {
    &&& s.len() == old.len()
    &&& p.len() == s.len()
    &&& 0 <= i <= s.len()
    &&& forall|k: int| 0 <= k < p.len() ==> 0 <= #[trigger] p[k] < old.len() && s[k] == old[p[k]]
    &&& forall|k1: int, k2: int| #![trigger p[k1], p[k2]] 0 <= k1 < k2 < p.len() ==> p[k1] != p[k2]
    &&& forall|k: int| i <= k < p.len() ==> #[trigger] p[k] == k
    &&& forall|k: int| 0 <= k < i ==> #[trigger] p[k] < i
    &&& forall|k1: int, k2: int|
        #![trigger p[k1], p[k2]]
        0 <= k1 < k2 < i && spec_task_order(s[k1], s[k2], order, ascending) == 0 ==> p[k1] < p[k2]
}

/// Placing task `i` at `j`, behind every placed task that does not sort
/// after it and before those that do, keeps [`placed`] for `i + 1`.
proof fn lemma_place_one(
    old: Seq<TaskInfo>,
    s0: Seq<TaskInfo>,
    p0: Seq<int>,
    i: int,
    j: int,
    order: SortOrder,
    ascending: bool,
)
    requires
        placed(old, s0, p0, i, order, ascending),
        0 <= j <= i < s0.len(),
        forall|m: int| j <= m < i ==> spec_task_order(#[trigger] s0[m], s0[i], order, ascending) > 0,
    ensures
        placed(
            old,
            s0.remove(i).insert(j, s0[i]),
            p0.remove(i).insert(j, i),
            i + 1,
            order,
            ascending,
        ),
{
    let x = s0[i];
    let t = s0.remove(i).insert(j, x);
    let p2 = p0.remove(i).insert(j, i);
    assert(p0[i] == i);
    assert forall|k: int| 0 <= k < p2.len() implies 0 <= #[trigger] p2[k] < old.len() && t[k] == old[p2[k]] by {
        if k < j {
            assert(p2[k] == p0[k] && t[k] == s0[k]);
        } else if k == j {
        } else if k <= i {
            assert(p2[k] == p0[k - 1] && t[k] == s0[k - 1]);
        } else {
            assert(p2[k] == p0[k] && t[k] == s0[k]);
        }
    }
    assert forall|k: int| i + 1 <= k < p2.len() implies #[trigger] p2[k] == k by {
        assert(p2[k] == p0[k]);
    }
    assert forall|k: int| 0 <= k < i + 1 implies #[trigger] p2[k] < i + 1 by {
        if k < j {
            assert(p2[k] == p0[k]);
        } else if k > j {
            assert(p2[k] == p0[k - 1]);
        }
    }
    assert forall|k1: int, k2: int| #![trigger p2[k1], p2[k2]] 0 <= k1 < k2 < p2.len() implies p2[k1]
        != p2[k2] by {
        let a = if k1 < j { k1 } else if k1 == j { i } else if k1 <= i { k1 - 1 } else { k1 };
        let b = if k2 < j { k2 } else if k2 == j { i } else if k2 <= i { k2 - 1 } else { k2 };
        assert(p2[k1] == p0[a]);
        assert(p2[k2] == p0[b]);
        if a != b {
            if a < b {
                assert(p0[a] != p0[b]);
            } else {
                assert(p0[b] != p0[a]);
            }
        }
    }
    assert forall|k1: int, k2: int|
        #![trigger p2[k1], p2[k2]]
        0 <= k1 < k2 < i + 1 && spec_task_order(t[k1], t[k2], order, ascending) == 0 implies p2[k1]
        < p2[k2] by {
        if k1 == j {
            assert(t[k2] == s0[k2 - 1]);
            lemma_task_order_antisymmetric(x, s0[k2 - 1], order, ascending);
            assert(spec_task_order(s0[k2 - 1], x, order, ascending) > 0);
        } else if k2 == j {
            assert(p2[k1] == p0[k1]);
            assert(p0[k1] < i);
        } else {
            let a = if k1 < j { k1 } else { k1 - 1 };
            let b = if k2 < j { k2 } else { k2 - 1 };
            assert(p2[k1] == p0[a] && t[k1] == s0[a]);
            assert(p2[k2] == p0[b] && t[k2] == s0[b]);
        }
    }
}

/// Sorts the tasks: missing keys go last, `entry` puts the newest first,
/// description (case-insensitive) breaks ties, and `ascending == false`
/// reverses the order. The sort is stable: tasks that compare equal keep
/// their order. The result holds the same tasks, each neighbouring pair in
/// order.
pub fn sort_tasks(tasks: &mut Vec<TaskInfo>, order: SortOrder, ascending: bool)
    ensures
        final(tasks)@.to_multiset() == old(tasks)@.to_multiset(),
        final(tasks)@.len() == old(tasks)@.len(),
        spec_sorted(final(tasks)@, order, ascending),
        exists|p: Seq<int>| is_stable_arrangement(old(tasks)@, final(tasks)@, p, order, ascending),
{
    broadcast use vstd::seq_lib::group_to_multiset_ensures;
    let ghost orig = tasks@;
    let n = tasks.len();
    let ghost mut p: Seq<int> = Seq::new(n as nat, |k: int| k);
    if n < 2 {
        proof {
            assert(is_stable_arrangement(orig, tasks@, p, order, ascending));
        }
        return;
    }
    let mut i: usize = 1;
    proof {
        assert(placed(orig, tasks@, p, 1, order, ascending));
    }
    while i < n
        invariant
            1 <= i <= n,
            tasks@.len() == n,
            orig == old(tasks)@,
            tasks@.to_multiset() == old(tasks)@.to_multiset(),
            forall|k: int|
                0 <= k && k + 1 < i ==> spec_task_order(#[trigger] tasks@[k], tasks@[k + 1], order, ascending)
                    <= 0,
            placed(orig, tasks@, p, i as int, order, ascending),
        decreases n - i,
    {
        let ghost s0 = tasks@;
        let x = tasks.remove(i);
        let ghost s1 = tasks@;
        proof {
            vstd::seq_lib::to_multiset_remove(s0, i as int);
        }
        let mut j: usize = i;
        while j > 0 && compare_tasks(&tasks[j - 1], &x, order, ascending) > 0
            invariant
                j <= i,
                i < n,
                tasks@ == s1,
                s1.len() == n - 1,
                s1 == s0.remove(i as int),
                x == s0[i as int],
                j < i ==> spec_task_order(s1[j as int], x, order, ascending) > 0,
                forall|m: int| j <= m < i ==> spec_task_order(#[trigger] s1[m], x, order, ascending) > 0,
            decreases j,
        {
            j = j - 1;
        }
        tasks.insert(j, x);
        proof {
            assert forall|m: int| j <= m < i implies spec_task_order(#[trigger] s0[m], s0[i as int], order, ascending) > 0 by {
                assert(s0[m] == s1[m]);
            }
            lemma_place_one(orig, s0, p, i as int, j as int, order, ascending);
            assert(tasks@ =~= s0.remove(i as int).insert(j as int, s0[i as int]));
            p = p.remove(i as int).insert(j as int, i as int);
            vstd::seq_lib::to_multiset_insert(s1, j as int, x);
            assert(s0[i as int] == x);
            assert(s0.contains(x));
            vstd::seq_lib::to_multiset_contains(s0, x);
            broadcast use vstd::multiset::group_multiset_axioms;
            assert(s0.to_multiset().remove(x).insert(x) =~= s0.to_multiset());
            let t = tasks@;
            assert forall|k: int| 0 <= k && k + 1 < i + 1 implies spec_task_order(
                #[trigger] t[k],
                t[k + 1],
                order,
                ascending,
            ) <= 0 by {
                if k + 1 < j {
                    assert(t[k] == s0[k] && t[k + 1] == s0[k + 1]);
                } else if k + 1 == j {
                    assert(t[k] == s1[k] && t[k + 1] == x);
                } else if k == j {
                    assert(t[k] == x && t[k + 1] == s1[j as int]);
                    lemma_task_order_antisymmetric(s1[j as int], x, order, ascending);
                } else {
                    assert(t[k] == s0[k - 1] && t[k + 1] == s0[k]);
                }
            }
        }
        i = i + 1;
    }
    proof {
        assert(is_stable_arrangement(orig, tasks@, p, order, ascending));
    }
}

// ─── Search ─────────────────────────────────────────────────────────────────

/// A parsed search query; all its conditions must hold together.
#[derive(Debug, PartialEq)]
pub struct ParsedQuery {
    pub free_terms: Vec<String>,
    pub projects: Vec<String>,
    pub tags: Vec<String>,
    pub statuses: Vec<TaskStatus>,
}

/// The abstract value of a [`ParsedQuery`].
#[verifier::ext_equal]
pub struct QueryModel {
    pub free_terms: Seq<Seq<char>>,
    pub projects: Seq<Seq<char>>,
    pub tags: Seq<Seq<char>>,
    pub statuses: Seq<TaskStatus>,
}

impl View for ParsedQuery {
    type V = QueryModel;

    open spec fn view(&self) -> QueryModel {
        QueryModel {
            free_terms: self.free_terms.deep_view(),
            projects: self.projects.deep_view(),
            tags: self.tags.deep_view(),
            statuses: self.statuses@,
        }
    }
}

impl Default for ParsedQuery {
    fn default() -> (r: Self)
        ensures
            r@.free_terms.len() == 0,
            r@.projects.len() == 0,
            r@.tags.len() == 0,
            r@.statuses.len() == 0,
    {
        ParsedQuery { free_terms: Vec::new(), projects: Vec::new(), tags: Vec::new(), statuses: Vec::new() }
    }
}

/// Tokens of a search text read from position `i` on: whitespace outside
/// double quotes separates tokens, and the quotes themselves are dropped.
pub open spec fn quoted_tokens_from(
    s: Seq<char>,
    i: int,
    in_quotes: bool,
    toks: Seq<Seq<char>>,
    cur: Seq<char>,
) -> Seq<Seq<char>>
    decreases s.len() - i,
{
    if i < 0 || i >= s.len() {
        if cur.len() > 0 {
            toks.push(cur)
        } else {
            toks
        }
    } else if s[i] == '"' {
        quoted_tokens_from(s, i + 1, !in_quotes, toks, cur)
    } else if spec_is_whitespace(s[i]) && !in_quotes {
        quoted_tokens_from(
            s,
            i + 1,
            in_quotes,
            if cur.len() > 0 {
                toks.push(cur)
            } else {
                toks
            },
            Seq::empty(),
        )
    } else {
        quoted_tokens_from(s, i + 1, in_quotes, toks, cur.push(s[i]))
    }
}

/// The tokens of a search text.
pub open spec fn spec_tokenize_quoted(s: Seq<char>) -> Seq<Seq<char>> {
    quoted_tokens_from(s, 0, false, Seq::empty(), Seq::empty())
}

/// Splits a search text at whitespace; text in double quotes stays one token.
pub fn tokenize_quoted(input: &str) -> (r: Vec<String>)
    ensures
        r.deep_view() == spec_tokenize_quoted(input@),
{
    let v = chars_of(input);
    let n = v.len();
    let mut toks: Vec<String> = Vec::new();
    let mut cur: Vec<char> = Vec::new();
    let mut in_quotes = false;
    let mut i: usize = 0;
    assert(toks.deep_view() =~= Seq::<Seq<char>>::empty());
    assert(cur@ =~= Seq::<char>::empty());
    while i < n
        invariant
            n == v.len(),
            v@ == input@,
            i <= n,
            spec_tokenize_quoted(input@) == quoted_tokens_from(
                v@,
                i as int,
                in_quotes,
                toks.deep_view(),
                cur@,
            ),
        decreases n - i,
    {
        let ch = v[i];
        if ch == '"' {
            in_quotes = !in_quotes;
        } else if is_whitespace(ch) && !in_quotes {
            if cur.len() > 0 {
                let ghost before = toks.deep_view();
                toks.push(string_of(cur.as_slice()));
                assert(toks.deep_view() =~= before.push(cur@));
                cur = Vec::new();
            }
            assert(cur@ =~= Seq::<char>::empty());
        } else {
            cur.push(ch);
        }
        i = i + 1;
    }
    if cur.len() > 0 {
        let ghost before = toks.deep_view();
        toks.push(string_of(cur.as_slice()));
        assert(toks.deep_view() =~= before.push(cur@));
    }
    toks
}

/// Position of the first `:` at or after `i`, or the length.
pub open spec fn colon_from(t: Seq<char>, i: int) -> int
    decreases t.len() - i,
{
    if i < 0 || i >= t.len() {
        t.len() as int
    } else if t[i] == ':' {
        i
    } else {
        colon_from(t, i + 1)
    }
}

/// Key and value of an operator token split at its first `:`, if both are
/// non-empty.
pub open spec fn spec_split_operator(t: Seq<char>) -> Option<(Seq<char>, Seq<char>)> {
    let c = colon_from(t, 0);
    if c >= t.len() || c == 0 || c + 1 == t.len() {
        None
    } else {
        Some((t.subrange(0, c), t.subrange(c + 1, t.len() as int)))
    }
}

proof fn lemma_colon_from(t: Seq<char>, i: int)
    requires
        0 <= i <= t.len(),
    ensures
        i <= colon_from(t, i) <= t.len(),
        colon_from(t, i) < t.len() ==> t[colon_from(t, i)] == ':',
    decreases t.len() - i,
{
    if i < t.len() && t[i] != ':' {
        lemma_colon_from(t, i + 1);
    }
}

/// Splits an operator token (`key:value`) at its first colon; `None` when
/// there is no colon or either side is empty.
pub fn split_operator(token: &Vec<char>) -> (r: Option<(Vec<char>, Vec<char>)>)
    ensures
        match (r, spec_split_operator(token@)) {
            (Some((k, v)), Some((sk, sv))) => k@ == sk && v@ == sv,
            (None, None) => true,
            _ => false,
        },
{
    let n = token.len();
    let mut c: usize = 0;
    while c < n && token[c] != ':'
        invariant
            c <= n == token.len(),
            colon_from(token@, 0) == colon_from(token@, c as int),
        decreases n - c,
    {
        c = c + 1;
    }
    proof {
        lemma_colon_from(token@, c as int);
    }
    if c >= n || c == 0 || c + 1 == n {
        return None;
    }
    Some((slice_range(token, 0, c), slice_from(token, c + 1)))
}

/// The status a search value names (German and English words,
/// case-insensitive).
pub open spec fn spec_parse_status(v: Seq<char>) -> Option<TaskStatus> {
    let l = spec_to_lowercase(v);
    if l == "pending"@ || l == "offen"@ || l == "open"@ {
        Some(TaskStatus::Pending)
    } else if l == "completed"@ || l == "done"@ || l == "erledigt"@ {
        Some(TaskStatus::Completed)
    } else if l == "deleted"@ || l == "gelöscht"@ || l == "geloescht"@ {
        Some(TaskStatus::Deleted)
    } else if l == "recurring"@ || l == "wiederkehrend"@ {
        Some(TaskStatus::Recurring)
    } else {
        None
    }
}

/// Reads a status word.
pub fn parse_status(value: &Vec<char>) -> (r: Option<TaskStatus>)
    ensures
        r == spec_parse_status(value@),
{
    let l = to_lowercase(value.as_slice());
    if chars_eq_str(&l, "pending") || chars_eq_str(&l, "offen") || chars_eq_str(&l, "open") {
        Some(TaskStatus::Pending)
    } else if chars_eq_str(&l, "completed") || chars_eq_str(&l, "done") || chars_eq_str(
        &l,
        "erledigt",
    ) {
        Some(TaskStatus::Completed)
    } else if chars_eq_str(&l, "deleted") || chars_eq_str(&l, "gelöscht") || chars_eq_str(
        &l,
        "geloescht",
    ) {
        Some(TaskStatus::Deleted)
    } else if chars_eq_str(&l, "recurring") || chars_eq_str(&l, "wiederkehrend") {
        Some(TaskStatus::Recurring)
    } else {
        None
    }
}

/// The query a token list gives: `project:`/`projekt:`, `tag:` and `status:`
/// operators (keys case-insensitive) add conditions; unknown keys, unknown
/// status words and plain tokens become free text.
pub open spec fn query_fold(toks: Seq<Seq<char>>) -> QueryModel
    decreases toks.len(),
{
    if toks.len() == 0 {
        QueryModel {
            free_terms: Seq::empty(),
            projects: Seq::empty(),
            tags: Seq::empty(),
            statuses: Seq::empty(),
        }
    } else {
        let q = query_fold(toks.drop_last());
        let t = toks.last();
        match spec_split_operator(t) {
            Some((k, v)) => {
                let lk = spec_to_lowercase(k);
                if lk == "project"@ || lk == "projekt"@ {
                    QueryModel { projects: q.projects.push(v), ..q }
                } else if lk == "tag"@ {
                    QueryModel { tags: q.tags.push(v), ..q }
                } else if lk == "status"@ {
                    match spec_parse_status(v) {
                        Some(st) => QueryModel { statuses: q.statuses.push(st), ..q },
                        None => QueryModel { free_terms: q.free_terms.push(t), ..q },
                    }
                } else {
                    QueryModel { free_terms: q.free_terms.push(t), ..q }
                }
            },
            None => QueryModel { free_terms: q.free_terms.push(t), ..q },
        }
    }
}

/// The query of a search text; `None` when the text is blank.
pub open spec fn spec_parse_search_query(input: Seq<char>) -> Option<QueryModel> {
    let trimmed = spec_trim(input);
    if trimmed.len() == 0 {
        None
    } else {
        Some(query_fold(spec_tokenize_quoted(trimmed)))
    }
}

/// Parses a search text; operators `project:` (`projekt:`), `tag:` and
/// `status:` with German aliases, values with spaces in double quotes.
/// Returns `None` for a blank text.
pub fn parse_search_query(input: &str) -> (r: Option<ParsedQuery>)
    ensures
        match r {
            Some(q) => spec_parse_search_query(input@) == Some(q@),
            None => spec_parse_search_query(input@) is None,
        },
{
    let v = chars_of(input);
    let trimmed = trim(&v);
    if trimmed.len() == 0 {
        return None;
    }
    let ts = string_of(trimmed.as_slice());
    let toks = tokenize_quoted(ts.as_str());
    let ghost tv = toks.deep_view();
    let mut q = ParsedQuery::default();
    assert(tv.take(0) =~= Seq::<Seq<char>>::empty());
    assert(q@ =~= query_fold(tv.take(0)));
    let mut i: usize = 0;
    while i < toks.len()
        invariant
            i <= toks.len(),
            tv == toks.deep_view(),
            q@ == query_fold(tv.take(i as int)),
        decreases toks.len() - i,
    {
        let token = chars_of(toks[i].as_str());
        proof {
            assert(tv.take(i + 1).drop_last() =~= tv.take(i as int));
            assert(tv.take(i + 1).last() == token@);
        }
        let ghost q0 = q@;
        match split_operator(&token) {
            Some((key, value)) => {
                let lk = to_lowercase(key.as_slice());
                if chars_eq_str(&lk, "project") || chars_eq_str(&lk, "projekt") {
                    q.projects.push(string_of(value.as_slice()));
                    assert(q@.projects =~= q0.projects.push(value@));
                } else if chars_eq_str(&lk, "tag") {
                    q.tags.push(string_of(value.as_slice()));
                    assert(q@.tags =~= q0.tags.push(value@));
                } else if chars_eq_str(&lk, "status") {
                    match parse_status(&value) {
                        Some(st) => {
                            q.statuses.push(st);
                        },
                        None => {
                            q.free_terms.push(string_of(token.as_slice()));
                            assert(q@.free_terms =~= q0.free_terms.push(token@));
                        },
                    }
                } else {
                    q.free_terms.push(string_of(token.as_slice()));
                    assert(q@.free_terms =~= q0.free_terms.push(token@));
                }
            },
            None => {
                q.free_terms.push(string_of(token.as_slice()));
                assert(q@.free_terms =~= q0.free_terms.push(token@));
            },
        }
        i = i + 1;
    }
    assert(tv.take(toks.len() as int) =~= tv);
    Some(q)
}

/// Case-insensitive substring test.
pub open spec fn spec_ci_contains(hay: Seq<char>, needle: Seq<char>) -> bool {
    spec_contains_sub(spec_to_lowercase(hay), spec_to_lowercase(needle))
}

/// Whether `needle` occurs in `haystack`, both lower-cased.
pub fn ci_contains(haystack: &str, needle: &str) -> (r: bool)
    ensures
        r == spec_ci_contains(haystack@, needle@),
{
    let h = to_lowercase(chars_of(haystack).as_slice());
    let n = to_lowercase(chars_of(needle).as_slice());
    contains_sub(&h, &n)
}

/// The descriptions of a task's annotations.
pub open spec fn annotation_texts(t: TaskInfo) -> Seq<Seq<char>> {
    Seq::new(t.annotations@.len(), |i: int| t.annotations@[i].description@)
}

/// The fields free search text looks in: the description, the project, the
/// tags joined by spaces, and the annotations joined by spaces (the last
/// three only where present).
pub open spec fn search_haystacks(t: TaskInfo) -> Seq<Seq<char>> {
    let base = seq![t.description@];
    let with_project = match t.project {
        Some(p) => base.push(p@),
        None => base,
    };
    let with_tags = if t.tags@.len() > 0 {
        with_project.push(spec_join(t.tags.deep_view(), " "@))
    } else {
        with_project
    };
    if t.annotations@.len() > 0 {
        with_tags.push(spec_join(annotation_texts(t), " "@))
    } else {
        with_tags
    }
}

/// Some haystack holds the term, typo-tolerantly (see
/// [`spec_fuzzy_contains`]).
pub open spec fn term_found(hs: Seq<Seq<char>>, term: Seq<char>) -> bool {
    exists|k: int| 0 <= k < hs.len() && spec_fuzzy_contains(#[trigger] hs[k], term)
}

/// The task's project equals `p` (case-insensitive).
pub open spec fn project_equal(project: Option<Seq<char>>, p: Seq<char>) -> bool {
    project matches Some(x) && spec_to_lowercase(x) == spec_to_lowercase(p)
}

/// One of the tags equals `tag` (case-insensitive).
pub open spec fn tag_present(tags: Seq<Seq<char>>, tag: Seq<char>) -> bool {
    exists|j: int| 0 <= j < tags.len() && spec_to_lowercase(#[trigger] tags[j]) == spec_to_lowercase(tag)
}

/// Whether the task meets every condition of the query.
pub open spec fn spec_query_matches(t: TaskInfo, q: QueryModel) -> bool {
    &&& (q.statuses.len() == 0 || q.statuses.contains(t.status))
    &&& forall|i: int| 0 <= i < q.projects.len() ==> project_equal(t.project.deep_view(), #[trigger] q.projects[i])
    &&& forall|i: int| 0 <= i < q.tags.len() ==> tag_present(t.tags.deep_view(), #[trigger] q.tags[i])
    &&& forall|i: int| 0 <= i < q.free_terms.len() ==> term_found(search_haystacks(t), #[trigger] q.free_terms[i])
}

/// The query made of one free-text term and nothing else.
pub open spec fn free_text_query(term: Seq<char>) -> QueryModel {
    QueryModel {
        free_terms: seq![term],
        projects: Seq::empty(),
        tags: Seq::empty(),
        statuses: Seq::empty(),
    }
}

/// Free text looks in the task's description and in its project: a term
/// that occurs in either, whatever the case of its letters, finds the task.
pub proof fn lemma_free_text_searches_description_and_project(t: TaskInfo, term: Seq<char>)
    ensures
        spec_ci_contains(t.description@, term) ==> spec_query_matches(t, free_text_query(term)),
        (t.project matches Some(p) && spec_ci_contains(p@, term)) ==> spec_query_matches(
            t,
            free_text_query(term),
        ),
{
    let q = free_text_query(term);
    let hs = search_haystacks(t);
    if spec_ci_contains(t.description@, term) {
        lemma_contains_survives_folding(spec_to_lowercase(t.description@), spec_to_lowercase(term));
        assert(hs[0] == t.description@);
        assert(spec_fuzzy_contains(hs[0], term));
        assert(term_found(hs, q.free_terms[0]));
    }
    if let Some(p) = t.project {
        if spec_ci_contains(p@, term) {
            lemma_contains_survives_folding(spec_to_lowercase(p@), spec_to_lowercase(term));
            assert(hs[1] == p@);
            assert(spec_fuzzy_contains(hs[1], term));
            assert(term_found(hs, q.free_terms[0]));
        }
    }
}

fn lower_string(s: &String) -> (r: Vec<char>)
    ensures
        r@ == spec_to_lowercase(s@),
{
    to_lowercase(chars_of(s.as_str()).as_slice())
}

fn status_listed(statuses: &Vec<TaskStatus>, st: TaskStatus) -> (r: bool)
    ensures
        r == statuses@.contains(st),
{
    let mut i: usize = 0;
    while i < statuses.len()
        invariant
            i <= statuses.len(),
            forall|k: int| 0 <= k < i ==> statuses@[k] != st,
        decreases statuses.len() - i,
    {
        if statuses[i] == st {
            assert(statuses@[i as int] == st);
            return true;
        }
        i = i + 1;
    }
    false
}

fn has_tag_ci(tags: &Vec<String>, tag: &String) -> (r: bool)
    ensures
        r == tag_present(tags.deep_view(), tag@),
{
    let lt = lower_string(tag);
    let mut j: usize = 0;
    while j < tags.len()
        invariant
            j <= tags.len(),
            lt@ == spec_to_lowercase(tag@),
            forall|k: int| 0 <= k < j ==> spec_to_lowercase(#[trigger] tags.deep_view()[k]) != lt@,
        decreases tags.len() - j,
    {
        let l = lower_string(&tags[j]);
        if crate::text::chars_eq(&l, &lt) {
            assert(spec_to_lowercase(tags.deep_view()[j as int]) == lt@);
            return true;
        }
        j = j + 1;
    }
    false
}

fn annotation_descriptions(t: &TaskInfo) -> (r: Vec<String>)
    ensures
        r.deep_view() == annotation_texts(*t),
{
    let mut out: Vec<String> = Vec::new();
    let mut i: usize = 0;
    while i < t.annotations.len()
        invariant
            i <= t.annotations.len(),
            out.deep_view() =~= annotation_texts(*t).take(i as int),
        decreases t.annotations.len() - i,
    {
        let ghost before = out.deep_view();
        let d = t.annotations[i].description.clone();
        out.push(d);
        assert(out.deep_view() =~= before.push(t.annotations@[i as int].description@));
        assert(annotation_texts(*t).take(i + 1) =~= annotation_texts(*t).take(i as int).push(
            t.annotations@[i as int].description@,
        ));
        i = i + 1;
    }
    assert(annotation_texts(*t).take(t.annotations.len() as int) =~= annotation_texts(*t));
    out
}

fn haystacks(t: &TaskInfo) -> (r: Vec<String>)
    ensures
        r.deep_view() == search_haystacks(*t),
{
    let mut hs: Vec<String> = Vec::new();
    hs.push(t.description.clone());
    assert(hs.deep_view() =~= seq![t.description@]);
    let ghost h1 = hs.deep_view();
    match &t.project {
        Some(p) => {
            hs.push(p.clone());
            assert(hs.deep_view() =~= h1.push(p@));
        },
        None => {},
    }
    let ghost h2 = hs.deep_view();
    if t.tags.len() > 0 {
        let joined = join_strings(&t.tags, " ");
        hs.push(joined);
        assert(hs.deep_view() =~= h2.push(spec_join(t.tags.deep_view(), " "@)));
    }
    let ghost h3 = hs.deep_view();
    if t.annotations.len() > 0 {
        let texts = annotation_descriptions(t);
        let joined = join_strings(&texts, " ");
        hs.push(joined);
        assert(hs.deep_view() =~= h3.push(spec_join(annotation_texts(*t), " "@)));
    }
    hs
}

fn found_in(hs: &Vec<String>, term: &String) -> (r: bool)
    ensures
        r == term_found(hs.deep_view(), term@),
{
    let mut k: usize = 0;
    while k < hs.len()
        invariant
            k <= hs.len(),
            forall|m: int| 0 <= m < k ==> !spec_fuzzy_contains(#[trigger] hs.deep_view()[m], term@),
        decreases hs.len() - k,
    {
        if fuzzy_contains(hs[k].as_str(), term.as_str()) {
            assert(spec_fuzzy_contains(hs.deep_view()[k as int], term@));
            return true;
        }
        k = k + 1;
    }
    false
}

/// Whether the task meets every condition of the query: one of its
/// statuses (if any are given), every project (case-insensitive equality),
/// every tag, and every free term somewhere in description, project, tags or
/// annotations. Free terms are typo-tolerant: German spelling variants are
/// folded, and a term of more than three letters may be one edit off (see
/// [`spec_fuzzy_contains`]); the operators stay exact.
pub fn query_matches(task: &TaskInfo, query: &ParsedQuery) -> (r: bool)
    ensures
        r == spec_query_matches(*task, query@),
{
    if query.statuses.len() > 0 && !status_listed(&query.statuses, task.status) {
        return false;
    }
    let mut i: usize = 0;
    while i < query.projects.len()
        invariant
            i <= query.projects.len(),
            forall|k: int| 0 <= k < i ==> project_equal(task.project.deep_view(), #[trigger] query@.projects[k]),
        decreases query.projects.len() - i,
    {
        let ok = match &task.project {
            Some(p) => {
                let lp = lower_string(p);
                let lq = lower_string(&query.projects[i]);
                crate::text::chars_eq(&lp, &lq)
            },
            None => false,
        };
        if !ok {
            assert(!project_equal(task.project.deep_view(), query@.projects[i as int]));
            return false;
        }
        i = i + 1;
    }
    let mut i: usize = 0;
    while i < query.tags.len()
        invariant
            i <= query.tags.len(),
            forall|k: int| 0 <= k < i ==> tag_present(task.tags.deep_view(), #[trigger] query@.tags[k]),
        decreases query.tags.len() - i,
    {
        if !has_tag_ci(&task.tags, &query.tags[i]) {
            assert(!tag_present(task.tags.deep_view(), query@.tags[i as int]));
            return false;
        }
        i = i + 1;
    }
    if query.free_terms.len() == 0 {
        return true;
    }
    let hs = haystacks(task);
    let mut i: usize = 0;
    while i < query.free_terms.len()
        invariant
            i <= query.free_terms.len(),
            hs.deep_view() == search_haystacks(*task),
            forall|k: int| 0 <= k < i ==> term_found(search_haystacks(*task), #[trigger] query@.free_terms[k]),
        decreases query.free_terms.len() - i,
    {
        if !found_in(&hs, &query.free_terms[i]) {
            assert(!term_found(search_haystacks(*task), query@.free_terms[i as int]));
            return false;
        }
        i = i + 1;
    }
    true
}

// ─── Project and tag pools ──────────────────────────────────────────────────

/// Pending tasks and recurring templates are active; completed and deleted
/// ones are not.
pub open spec fn spec_is_active(t: TaskInfo) -> bool {
    t.status == TaskStatus::Pending || t.status == TaskStatus::Recurring
}

/// The projects of the active tasks, in task order, with repeats.
pub open spec fn active_projects(ts: Seq<TaskInfo>) -> Seq<Seq<char>>
    decreases ts.len(),
{
    if ts.len() == 0 {
        Seq::empty()
    } else {
        let prev = active_projects(ts.drop_last());
        let t = ts.last();
        if spec_is_active(t) && t.project is Some {
            prev.push(t.project->0@)
        } else {
            prev
        }
    }
}

/// The tags of the active tasks, in task order, with repeats.
pub open spec fn active_tags(ts: Seq<TaskInfo>) -> Seq<Seq<char>>
    decreases ts.len(),
{
    if ts.len() == 0 {
        Seq::empty()
    } else {
        let prev = active_tags(ts.drop_last());
        let t = ts.last();
        if spec_is_active(t) {
            prev + t.tags.deep_view()
        } else {
            prev
        }
    }
}

/// A pool as the sidebar lists it: sorted case-insensitively, neighbours
/// never identical, and holding exactly the given names.
pub open spec fn is_pool_of(r: Seq<Seq<char>>, names: Seq<Seq<char>>) -> bool {
    &&& forall|x: Seq<char>| r.contains(x) <==> names.contains(x)
    &&& forall|k: int| 0 <= k && k + 1 < r.len() ==> spec_ci_order(#[trigger] r[k], r[k + 1]) <= 0
    &&& forall|k: int| 0 <= k && k + 1 < r.len() ==> #[trigger] r[k] != r[k + 1]
}

/// Sorts strings case-insensitively (insertion sort; equal keys keep their
/// order of arrival only as far as the proof below states).
fn sort_ci(v: &mut Vec<String>)
    ensures
        final(v).deep_view().to_multiset() == old(v).deep_view().to_multiset(),
        forall|k: int|
            0 <= k && k + 1 < final(v)@.len() ==> spec_ci_order(
                #[trigger] final(v).deep_view()[k],
                final(v).deep_view()[k + 1],
            ) <= 0,
{
    broadcast use vstd::seq_lib::group_to_multiset_ensures;
    let n = v.len();
    if n < 2 {
        return;
    }
    let mut i: usize = 1;
    while i < n
        invariant
            1 <= i <= n,
            v@.len() == n,
            v.deep_view().to_multiset() == old(v).deep_view().to_multiset(),
            forall|k: int|
                0 <= k && k + 1 < i ==> spec_ci_order(
                    #[trigger] v.deep_view()[k],
                    v.deep_view()[k + 1],
                ) <= 0,
        decreases n - i,
    {
        let ghost d0 = v.deep_view();
        let x = v.remove(i);
        let ghost d1 = v.deep_view();
        proof {
            assert(d1 =~= d0.remove(i as int));
            vstd::seq_lib::to_multiset_remove(d0, i as int);
        }
        let mut j: usize = i;
        while j > 0 && ci_order(v[j - 1].as_str(), x.as_str()) > 0
            invariant
                j <= i,
                i < n,
                v.deep_view() == d1,
                d1.len() == n - 1,
                j < i ==> spec_ci_order(d1[j as int], x@) > 0,
            decreases j,
        {
            j = j - 1;
        }
        v.insert(j, x);
        proof {
            let d2 = v.deep_view();
            assert(d2 =~= d1.insert(j as int, x@));
            vstd::seq_lib::to_multiset_insert(d1, j as int, x@);
            assert(d0[i as int] == x@);
            assert(d0.contains(x@));
            vstd::seq_lib::to_multiset_contains(d0, x@);
            broadcast use vstd::multiset::group_multiset_axioms;
            assert(d0.to_multiset().remove(x@).insert(x@) =~= d0.to_multiset());
            assert forall|k: int| 0 <= k && k + 1 < i + 1 implies spec_ci_order(
                #[trigger] d2[k],
                d2[k + 1],
            ) <= 0 by {
                if k + 1 < j {
                    assert(d2[k] == d0[k] && d2[k + 1] == d0[k + 1]);
                } else if k + 1 == j {
                    assert(d2[k] == d1[k] && d2[k + 1] == x@);
                } else if k == j {
                    assert(d2[k] == x@ && d2[k + 1] == d1[j as int]);
                    lemma_lex_order_antisymmetric(
                        spec_to_lowercase(d1[j as int]),
                        spec_to_lowercase(x@),
                    );
                } else {
                    assert(d2[k] == d0[k - 1] && d2[k + 1] == d0[k]);
                }
            }
        }
        i = i + 1;
    }
}

/// `Vec::dedup`: each element identical to its predecessor dropped.
pub open spec fn spec_dedup(s: Seq<Seq<char>>) -> Seq<Seq<char>>
    decreases s.len(),
{
    if s.len() == 0 {
        Seq::empty()
    } else {
        let p = spec_dedup(s.drop_last());
        if p.len() > 0 && p.last() == s.last() {
            p
        } else {
            p.push(s.last())
        }
    }
}

/// Dropping repeated neighbours keeps the same names, ends with the last
/// one, leaves no identical neighbours and keeps a sorted list sorted.
proof fn lemma_dedup(s: Seq<Seq<char>>)
    ensures
        s.len() > 0 ==> spec_dedup(s).len() > 0 && spec_dedup(s).last() == s.last(),
        s.len() == 0 ==> spec_dedup(s).len() == 0,
        forall|x: Seq<char>| spec_dedup(s).contains(x) <==> s.contains(x),
        forall|k: int|
            0 <= k && k + 1 < spec_dedup(s).len() ==> #[trigger] spec_dedup(s)[k] != spec_dedup(
                s,
            )[k + 1],
        (forall|k: int| 0 <= k && k + 1 < s.len() ==> spec_ci_order(#[trigger] s[k], s[k + 1]) <= 0)
            ==> (forall|k: int|
            0 <= k && k + 1 < spec_dedup(s).len() ==> spec_ci_order(
                #[trigger] spec_dedup(s)[k],
                spec_dedup(s)[k + 1],
            ) <= 0),
    decreases s.len(),
{
    broadcast use vstd::seq_lib::group_seq_properties;

    if s.len() > 0 {
        let s0 = s.drop_last();
        let y = s.last();
        lemma_dedup(s0);
        let p = spec_dedup(s0);
        assert(s =~= s0.push(y));
        if (forall|k: int| 0 <= k && k + 1 < s.len() ==> spec_ci_order(#[trigger] s[k], s[k + 1]) <= 0) {
            assert forall|k: int| 0 <= k && k + 1 < s0.len() implies spec_ci_order(
                #[trigger] s0[k],
                s0[k + 1],
            ) <= 0 by {
                assert(s0[k] == s[k] && s0[k + 1] == s[k + 1]);
            }
            if !(p.len() > 0 && p.last() == y) && p.len() > 0 {
                assert(p.last() == s0.last());
                assert(spec_ci_order(s[s.len() - 2], s[s.len() - 1]) <= 0);
            }
        }
        if p.len() > 0 && p.last() == y {
            assert(p.contains(y));
        }
    }
}

/// Drops each string identical to its predecessor (`Vec::dedup`).
fn dedup_strings(v: Vec<String>) -> (r: Vec<String>)
    ensures
        r.deep_view() == spec_dedup(v.deep_view()),
{
    let mut out: Vec<String> = Vec::new();
    let mut i: usize = 0;
    let ghost dv = v.deep_view();
    assert(dv.take(0) =~= Seq::<Seq<char>>::empty());
    while i < v.len()
        invariant
            i <= v.len(),
            dv == v.deep_view(),
            out.deep_view() == spec_dedup(dv.take(i as int)),
        decreases v.len() - i,
    {
        let ghost o0 = out.deep_view();
        assert(dv.take(i + 1).drop_last() =~= dv.take(i as int));
        let keep = out.len() == 0 || out[out.len() - 1] != v[i];
        if keep {
            out.push(v[i].clone());
            assert(out.deep_view() =~= o0.push(dv[i as int]));
        }
        i = i + 1;
    }
    assert(dv.take(v.len() as int) =~= dv);
    out
}

/// Projects of the active tasks (pending and recurring templates), sorted
/// case-insensitively without repeated neighbours; completed tasks do not
/// keep a project in the sidebar.
pub fn projects_from(tasks: &[TaskInfo]) -> (r: Vec<String>)
    ensures
        is_pool_of(r.deep_view(), active_projects(tasks@)),
{
    broadcast use vstd::seq_lib::group_to_multiset_ensures;
    let mut names: Vec<String> = Vec::new();
    let mut i: usize = 0;
    while i < tasks.len()
        invariant
            i <= tasks.len(),
            names.deep_view() == active_projects(tasks@.take(i as int)),
        decreases tasks.len() - i,
    {
        let t = &tasks[i];
        assert(tasks@.take(i + 1).drop_last() =~= tasks@.take(i as int));
        let ghost before = names.deep_view();
        if t.status == TaskStatus::Pending || t.status == TaskStatus::Recurring {
            match &t.project {
                Some(p) => {
                    names.push(p.clone());
                    assert(names.deep_view() =~= before.push(p@));
                },
                None => {},
            }
        }
        i = i + 1;
    }
    assert(tasks@.take(tasks.len() as int) =~= tasks@);
    let ghost collected = names.deep_view();
    sort_ci(&mut names);
    proof {
        assert forall|x: Seq<char>| names.deep_view().contains(x) <==> collected.contains(x) by {
            vstd::seq_lib::to_multiset_contains(names.deep_view(), x);
            vstd::seq_lib::to_multiset_contains(collected, x);
        }
    }
    let ghost sorted = names.deep_view();
    let r = dedup_strings(names);
    proof {
        lemma_dedup(sorted);
    }
    r
}

/// Tags of the active tasks (pending and recurring templates), sorted
/// case-insensitively without repeated neighbours.
pub fn tags_from(tasks: &[TaskInfo]) -> (r: Vec<String>)
    ensures
        is_pool_of(r.deep_view(), active_tags(tasks@)),
{
    let mut names: Vec<String> = Vec::new();
    let mut i: usize = 0;
    while i < tasks.len()
        invariant
            i <= tasks.len(),
            names.deep_view() == active_tags(tasks@.take(i as int)),
        decreases tasks.len() - i,
    {
        let t = &tasks[i];
        assert(tasks@.take(i + 1).drop_last() =~= tasks@.take(i as int));
        if t.status == TaskStatus::Pending || t.status == TaskStatus::Recurring {
            let mut k: usize = 0;
            let ghost base = names.deep_view();
            while k < t.tags.len()
                invariant
                    k <= t.tags.len(),
                    names.deep_view() =~= base + t.tags.deep_view().take(k as int),
                decreases t.tags.len() - k,
            {
                let ghost before = names.deep_view();
                names.push(t.tags[k].clone());
                assert(names.deep_view() =~= before.push(t.tags.deep_view()[k as int]));
                assert(t.tags.deep_view().take(k + 1) =~= t.tags.deep_view().take(k as int).push(
                    t.tags.deep_view()[k as int],
                ));
                k = k + 1;
            }
            assert(t.tags.deep_view().take(t.tags.len() as int) =~= t.tags.deep_view());
        }
        i = i + 1;
    }
    assert(tasks@.take(tasks.len() as int) =~= tasks@);
    let ghost collected = names.deep_view();
    sort_ci(&mut names);
    proof {
        assert forall|x: Seq<char>| names.deep_view().contains(x) <==> collected.contains(x) by {
            vstd::seq_lib::to_multiset_contains(names.deep_view(), x);
            vstd::seq_lib::to_multiset_contains(collected, x);
        }
    }
    let ghost sorted = names.deep_view();
    let r = dedup_strings(names);
    proof {
        lemma_dedup(sorted);
    }
    r
}

} // verus!
