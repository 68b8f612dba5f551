//! Rules of the application state: which tasks the list shows, the sidebar
//! counts, which tasks a rename touches, saved searches, and the repair of
//! tasks whose description still holds capture syntax. Loading, storing and
//! the user interface are the caller's.

use vstd::prelude::*;
use crate::config::SavedSearch;
use crate::filters::{
    FilterModel, ParsedQuery, QueryModel, SidebarFilter, query_matches, spec_matches,
    spec_query_matches,
};
use crate::parsers::{parse_quick_capture, spec_parse_quick_capture, PreviewModel};
use crate::task::{TaskInfo, TaskStatus, concat};
use crate::text::{chars_eq, chars_of, spec_to_lowercase, spec_trim, string_of, to_lowercase, trim};

verus! {

/// The key of a status at the user-interface boundary.
pub fn status_key(status: TaskStatus) -> (r: &'static str)
    ensures
        r@ == match status {
            TaskStatus::Pending => "pending"@,
            TaskStatus::Completed => "completed"@,
            TaskStatus::Deleted => "deleted"@,
            TaskStatus::Recurring => "recurring"@,
        },
{
    match status {
        TaskStatus::Pending => "pending",
        TaskStatus::Completed => "completed",
        TaskStatus::Deleted => "deleted",
        TaskStatus::Recurring => "recurring",
    }
}

// ─── Visible list and counts ────────────────────────────────────────────────

/// Whether the list shows a task: with a search, the search alone decides
/// (over all tasks); without one, the sidebar filter and, if completed tasks
/// are hidden, the status.
pub open spec fn spec_is_visible(
    t: TaskInfo,
    f: FilterModel,
    query: Option<QueryModel>,
    hide_completed: bool,
    now: int,
    days: int,
    today_end: int,
) -> bool {
    match query {
        Some(q) => spec_query_matches(t, q),
        None => spec_matches(f, t, now, days, today_end) && (!hide_completed || t.status
            != TaskStatus::Completed),
    }
}

/// While a search is active it alone decides: the sidebar filter and the
/// "hide completed" setting make no difference.
pub proof fn lemma_search_overrides_filter(
    t: TaskInfo,
    f1: FilterModel,
    f2: FilterModel,
    q: QueryModel,
    hide1: bool,
    hide2: bool,
    now: int,
    days: int,
    today_end: int,
)
    ensures
        spec_is_visible(t, f1, Some(q), hide1, now, days, today_end) == spec_is_visible(
            t,
            f2,
            Some(q),
            hide2,
            now,
            days,
            today_end,
        ),
        spec_is_visible(t, f1, Some(q), hide1, now, days, today_end) == spec_query_matches(t, q),
{
}

/// The view of an optional query.
pub open spec fn opt_query(q: &Option<ParsedQuery>) -> Option<QueryModel> {
    match q {
        Some(x) => Some(x@),
        None => None,
    }
}

/// Whether the list shows a task (see [`spec_is_visible`]).
pub fn is_visible(
    task: &TaskInfo,
    filter: &SidebarFilter,
    query: &Option<ParsedQuery>,
    hide_completed: bool,
    now: i64,
    due_soon_days: i64,
    today_end: i64,
) -> (r: bool)
    requires
        filter is DueSoon ==> (i64::MIN <= due_soon_days * 86400 <= i64::MAX && i64::MIN <= now
            + due_soon_days * 86400 <= i64::MAX),
    ensures
        r == spec_is_visible(
            *task,
            filter@,
            opt_query(query),
            hide_completed,
            now as int,
            due_soon_days as int,
            today_end as int,
        ),
{
    match query {
        Some(q) => query_matches(task, q),
        None => filter.matches_at(task, now, due_soon_days, today_end) && (!hide_completed
            || task.status != TaskStatus::Completed),
    }
}

/// Whether a task counts toward a sidebar entry: the filter lets it through,
/// and under a project or a tag it is open (completed tasks show there but
/// are not counted; recurring templates are).
pub open spec fn counts_toward(f: FilterModel, t: TaskInfo, now: int, days: int, today_end: int) -> bool {
    spec_matches(f, t, now, days, today_end) && !((f is Project || f is Tag) && t.status
        == TaskStatus::Completed)
}

/// How many of the tasks count toward a sidebar entry (see [`counts_toward`]).
pub open spec fn spec_count(ts: Seq<TaskInfo>, f: FilterModel, now: int, days: int, today_end: int) -> nat
    decreases ts.len(),
{
    if ts.len() == 0 {
        0
    } else {
        spec_count(ts.drop_last(), f, now, days, today_end) + if counts_toward(
            f,
            ts.last(),
            now,
            days,
            today_end,
        ) {
            1nat
        } else {
            0nat
        }
    }
}

/// Counts the tasks under a filter (a sidebar count): the open ones under a
/// project or a tag, all that match under the other entries.
pub fn count_matching(
    tasks: &[TaskInfo],
    filter: &SidebarFilter,
    now: i64,
    due_soon_days: i64,
    today_end: i64,
) -> (r: usize)
    requires
        filter is DueSoon ==> (i64::MIN <= due_soon_days * 86400 <= i64::MAX && i64::MIN <= now
            + due_soon_days * 86400 <= i64::MAX),
    ensures
        r == spec_count(tasks@, filter@, now as int, due_soon_days as int, today_end as int),
{
    let mut n: usize = 0;
    let mut i: usize = 0;
    assert(tasks@.take(0) =~= Seq::<TaskInfo>::empty());
    while i < tasks.len()
        invariant
            i <= tasks.len(),
            n <= i,
            filter is DueSoon ==> (i64::MIN <= due_soon_days * 86400 <= i64::MAX && i64::MIN <= now
                + due_soon_days * 86400 <= i64::MAX),
            n == spec_count(tasks@.take(i as int), filter@, now as int, due_soon_days as int, today_end as int),
        decreases tasks.len() - i,
    {
        assert(tasks@.take(i + 1).drop_last() =~= tasks@.take(i as int));
        let counted = match filter {
            SidebarFilter::Project(_) | SidebarFilter::Tag(_) => tasks[i].status
                != TaskStatus::Completed,
            _ => true,
        };
        if counted && filter.matches_at(&tasks[i], now, due_soon_days, today_end) {
            n = n + 1;
        }
        i = i + 1;
    }
    assert(tasks@.take(tasks.len() as int) =~= tasks@);
    n
}

// ─── Renames ────────────────────────────────────────────────────────────────

/// The UUIDs of the tasks whose project is exactly `name` (deleted ones
/// left out where `skip_deleted`), in order.
pub open spec fn spec_project_affected(ts: Seq<TaskInfo>, name: Seq<char>, skip_deleted: bool) -> Seq<
    Seq<char>,
>
    decreases ts.len(),
{
    if ts.len() == 0 {
        Seq::empty()
    } else {
        let prev = spec_project_affected(ts.drop_last(), name, skip_deleted);
        let t = ts.last();
        if (!skip_deleted || t.status != TaskStatus::Deleted) && t.project.deep_view() == Some(name) {
            prev.push(t.uuid@)
        } else {
            prev
        }
    }
}

/// The tasks a project rename or clear touches: those whose project is
/// exactly `name`; a rename leaves deleted tasks alone.
pub fn project_affected(tasks: &[TaskInfo], name: &str, skip_deleted: bool) -> (r: Vec<String>)
    ensures
        r.deep_view() == spec_project_affected(tasks@, name@, skip_deleted),
{
    let nv = chars_of(name);
    let mut out: Vec<String> = Vec::new();
    let mut i: usize = 0;
    assert(tasks@.take(0) =~= Seq::<TaskInfo>::empty());
    while i < tasks.len()
        invariant
            i <= tasks.len(),
            nv@ == name@,
            out.deep_view() == spec_project_affected(tasks@.take(i as int), name@, skip_deleted),
        decreases tasks.len() - i,
    {
        assert(tasks@.take(i + 1).drop_last() =~= tasks@.take(i as int));
        let t = &tasks[i];
        let same = match &t.project {
            Some(p) => chars_eq(&chars_of(p.as_str()), &nv),
            None => false,
        };
        if (!skip_deleted || t.status != TaskStatus::Deleted) && same {
            let ghost before = out.deep_view();
            out.push(t.uuid.clone());
            assert(out.deep_view() =~= before.push(t.uuid@));
        }
        i = i + 1;
    }
    assert(tasks@.take(tasks.len() as int) =~= tasks@);
    out
}

/// Whether one of the tags is exactly `name`.
pub open spec fn has_tag_exactly(t: TaskInfo, name: Seq<char>) -> bool {
    exists|i: int| 0 <= i < t.tags@.len() && #[trigger] t.tags@[i]@ == name
}

/// The UUIDs of the tasks that carry the tag `name`, in order.
pub open spec fn spec_tag_affected(ts: Seq<TaskInfo>, name: Seq<char>) -> Seq<Seq<char>>
    decreases ts.len(),
{
    if ts.len() == 0 {
        Seq::empty()
    } else {
        let prev = spec_tag_affected(ts.drop_last(), name);
        if has_tag_exactly(ts.last(), name) {
            prev.push(ts.last().uuid@)
        } else {
            prev
        }
    }
}

fn carries_tag(t: &TaskInfo, name: &String) -> (r: bool)
    ensures
        r == has_tag_exactly(*t, name@),
{
    let mut i: usize = 0;
    while i < t.tags.len()
        invariant
            i <= t.tags.len(),
            forall|k: int| 0 <= k < i ==> #[trigger] t.tags@[k]@ != name@,
        decreases t.tags.len() - i,
    {
        if t.tags[i] == *name {
            return true;
        }
        i = i + 1;
    }
    false
}

/// The tasks a tag rename or clear touches: those that carry the tag.
pub fn tag_affected(tasks: &[TaskInfo], name: &str) -> (r: Vec<String>)
    ensures
        r.deep_view() == spec_tag_affected(tasks@, name@),
{
    let ns = name.to_owned();
    let mut out: Vec<String> = Vec::new();
    let mut i: usize = 0;
    assert(tasks@.take(0) =~= Seq::<TaskInfo>::empty());
    while i < tasks.len()
        invariant
            i <= tasks.len(),
            ns@ == name@,
            out.deep_view() == spec_tag_affected(tasks@.take(i as int), name@),
        decreases tasks.len() - i,
    {
        assert(tasks@.take(i + 1).drop_last() =~= tasks@.take(i as int));
        if carries_tag(&tasks[i], &ns) {
            let ghost before = out.deep_view();
            out.push(tasks[i].uuid.clone());
            assert(out.deep_view() =~= before.push(tasks@[i as int].uuid@));
        }
        i = i + 1;
    }
    assert(tasks@.take(tasks.len() as int) =~= tasks@);
    out
}

// ─── Saved searches ─────────────────────────────────────────────────────────

/// Id, name and query of each saved search.
pub open spec fn searches_view(s: Seq<SavedSearch>) -> Seq<(Seq<char>, Seq<char>, Seq<char>)> {
    Seq::new(s.len(), |i: int| (s[i].id@, s[i].name@, s[i].query@))
}

/// Some saved search has this name, ignoring case.
pub open spec fn name_taken(s: Seq<(Seq<char>, Seq<char>, Seq<char>)>, name: Seq<char>) -> bool {
    exists|i: int| 0 <= i < s.len() && spec_to_lowercase(#[trigger] s[i].1) == spec_to_lowercase(name)
}

fn lower(s: &str) -> (r: Vec<char>)
    ensures
        r@ == spec_to_lowercase(s@),
{
    to_lowercase(chars_of(s).as_slice())
}

/// Saves a search under `id`: name and query are trimmed; both must be
/// non-empty and the name must not be taken (ignoring case). Returns the id.
pub fn add_saved_search(
    searches: &mut Vec<SavedSearch>,
    name: &str,
    query: &str,
    id: String,
) -> (r: Result<String, String>)
    ensures
        ({
            let n = spec_trim(name@);
            let q = spec_trim(query@);
            let before = searches_view(old(searches)@);
            if n.len() == 0 || q.len() == 0 {
                r matches Err(m) && m@ == "Name und Suchanfrage dürfen nicht leer sein"@
                    && final(searches)@ == old(searches)@
            } else if name_taken(before, n) {
                r matches Err(m) && m@ == "Suche „"@ + n + "“ existiert bereits"@
                    && final(searches)@ == old(searches)@
            } else {
                r == Ok::<String, String>(id) && searches_view(final(searches)@) == before.push(
                    (id@, n, q),
                )
            }
        }),
{
    let n = string_of(trim(&chars_of(name)).as_slice());
    let q = string_of(trim(&chars_of(query)).as_slice());
    if n.as_str().is_empty() || q.as_str().is_empty() {
        return Err(String::from_str("Name und Suchanfrage dürfen nicht leer sein"));
    }
    let ln = lower(n.as_str());
    let mut i: usize = 0;
    while i < searches.len()
        invariant
            i <= searches.len(),
            searches@ == old(searches)@,
            n@ == spec_trim(name@),
            q@ == spec_trim(query@),
            n@.len() > 0,
            q@.len() > 0,
            ln@ == spec_to_lowercase(n@),
            forall|k: int|
                0 <= k < i ==> spec_to_lowercase(#[trigger] searches_view(searches@)[k].1)
                    != spec_to_lowercase(n@),
        decreases searches.len() - i,
    {
        let l = lower(searches[i].name.as_str());
        if chars_eq(&l, &ln) {
            assert(spec_to_lowercase(searches_view(searches@)[i as int].1) == spec_to_lowercase(n@));
            assert(name_taken(searches_view(old(searches)@), spec_trim(name@)));
            let a = concat("Suche „", n.as_str());
            return Err(concat(a.as_str(), "“ existiert bereits"));
        }
        i = i + 1;
    }
    let ghost before = searches_view(searches@);
    searches.push(SavedSearch { id: id.clone(), name: n, query: q });
    assert(searches_view(searches@) =~= before.push((id@, spec_trim(name@), spec_trim(query@))));
    Ok(id)
}

/// `uuid::Uuid::new_v4().to_string()`: a random UUID in its hyphenated
/// lower-case form, 36 characters with hyphens after the 8th, 12th, 16th
/// and 20th hex digit. Which UUID comes out is chance, so nothing more is
/// stated; uuid panics only where the system has no random bytes to give.
#[verifier::external_body]
fn new_uuid_v4() -> (r: String)
    ensures
        r@.len() == 36,
        r@[8] == '-' && r@[13] == '-' && r@[18] == '-' && r@[23] == '-',
{
    uuid::Uuid::new_v4().to_string()
}

/// Saves a search under a fresh random id, as [`add_saved_search`] does:
/// the same refusals, and on success the new id (a hyphenated UUID) is
/// returned and the search appended.
pub fn save_search(searches: &mut Vec<SavedSearch>, name: &str, query: &str) -> (r: Result<
    String,
    String,
>)
    ensures
        ({
            let n = spec_trim(name@);
            let q = spec_trim(query@);
            let before = searches_view(old(searches)@);
            if n.len() == 0 || q.len() == 0 {
                r matches Err(m) && m@ == "Name und Suchanfrage dürfen nicht leer sein"@
                    && final(searches)@ == old(searches)@
            } else if name_taken(before, n) {
                r matches Err(m) && m@ == "Suche „"@ + n + "“ existiert bereits"@
                    && final(searches)@ == old(searches)@
            } else {
                r matches Ok(id) && id@.len() == 36 && searches_view(final(searches)@)
                    == before.push((id@, n, q))
            }
        }),
{
    let id = new_uuid_v4();
    add_saved_search(searches, name, query, id)
}

/// Position of the first saved search with this id.
pub open spec fn first_with_id(s: Seq<(Seq<char>, Seq<char>, Seq<char>)>, id: Seq<char>) -> Option<int> {
    if exists|i: int| 0 <= i < s.len() && #[trigger] s[i].0 == id {
        Some(choose|i: int| 0 <= i < s.len() && s[i].0 == id && forall|k: int| 0 <= k < i ==> #[trigger] s[k].0 != id)
    } else {
        None
    }
}

fn find_id(searches: &Vec<SavedSearch>, id: &str) -> (r: Option<usize>)
    ensures
        match r {
            Some(i) => i < searches@.len() && searches@[i as int].id@ == id@ && forall|k: int|
                0 <= k < i ==> #[trigger] searches@[k].id@ != id@,
            None => forall|k: int| 0 <= k < searches@.len() ==> #[trigger] searches@[k].id@ != id@,
        },
{
    let iv = chars_of(id);
    let mut i: usize = 0;
    while i < searches.len()
        invariant
            i <= searches.len(),
            iv@ == id@,
            forall|k: int| 0 <= k < i ==> #[trigger] searches@[k].id@ != id@,
        decreases searches.len() - i,
    {
        if chars_eq(&chars_of(searches[i].id.as_str()), &iv) {
            return Some(i);
        }
        i = i + 1;
    }
    None
}

/// Renames the first saved search with this id; the new name is trimmed and
/// must not be empty.
pub fn rename_saved_search(searches: &mut Vec<SavedSearch>, id: &str, new_name: &str) -> (r: Result<
    (),
    String,
>)
    ensures
        spec_trim(new_name@).len() == 0 ==> (r matches Err(m) && m@ == "Name darf nicht leer sein"@
            && final(searches)@ == old(searches)@),
        spec_trim(new_name@).len() > 0 && (forall|k: int|
            0 <= k < old(searches)@.len() ==> #[trigger] old(searches)@[k].id@ != id@) ==> (r matches Err(m)
            && m@ == "Gespeicherte Suche nicht gefunden"@ && final(searches)@ == old(searches)@),
        r is Ok ==> exists|i: int|
            0 <= i < old(searches)@.len() && old(searches)@[i].id@ == id@ && (forall|k: int|
                0 <= k < i ==> #[trigger] old(searches)@[k].id@ != id@) && searches_view(final(searches)@)
                == searches_view(old(searches)@).update(
                i,
                (old(searches)@[i].id@, spec_trim(new_name@), old(searches)@[i].query@),
            ),
        spec_trim(new_name@).len() > 0 && (exists|k: int|
            0 <= k < old(searches)@.len() && #[trigger] old(searches)@[k].id@ == id@) ==> r is Ok,
{
    let n = string_of(trim(&chars_of(new_name)).as_slice());
    if n.as_str().is_empty() {
        return Err(String::from_str("Name darf nicht leer sein"));
    }
    match find_id(searches, id) {
        None => Err(String::from_str("Gespeicherte Suche nicht gefunden")),
        Some(i) => {
            let ghost before = searches_view(searches@);
            let old_entry = &searches[i];
            let entry = SavedSearch { id: old_entry.id.clone(), name: n, query: old_entry.query.clone() };
            searches.set(i, entry);
            assert(searches_view(searches@) =~= before.update(
                i as int,
                (before[i as int].0, spec_trim(new_name@), before[i as int].2),
            ));
            Ok(())
        },
    }
}

/// The saved searches without those with this id, in order.
pub open spec fn spec_without_id(s: Seq<(Seq<char>, Seq<char>, Seq<char>)>, id: Seq<char>) -> Seq<
    (Seq<char>, Seq<char>, Seq<char>),
>
    decreases s.len(),
{
    if s.len() == 0 {
        Seq::empty()
    } else {
        let prev = spec_without_id(s.drop_last(), id);
        if s.last().0 == id {
            prev
        } else {
            prev.push(s.last())
        }
    }
}

/// No two saved searches have names that are equal ignoring case.
pub open spec fn names_distinct_ci(s: Seq<(Seq<char>, Seq<char>, Seq<char>)>) -> bool {
    forall|a: int, b: int|
        0 <= a < b < s.len() ==> spec_to_lowercase(#[trigger] s[a].1) != spec_to_lowercase(
            #[trigger] s[b].1,
        )
}

proof fn lemma_without_id_from(s: Seq<(Seq<char>, Seq<char>, Seq<char>)>, id: Seq<char>)
    ensures
        forall|x: (Seq<char>, Seq<char>, Seq<char>)|
            #[trigger] spec_without_id(s, id).contains(x) ==> s.contains(x),
    decreases s.len(),
{
    if s.len() > 0 {
        lemma_without_id_from(s.drop_last(), id);
        let prev = spec_without_id(s.drop_last(), id);
        assert forall|x: (Seq<char>, Seq<char>, Seq<char>)|
            #[trigger] spec_without_id(s, id).contains(x) implies s.contains(x) by {
            if prev.contains(x) {
                let k = choose|k: int| 0 <= k < s.drop_last().len() && s.drop_last()[k] == x;
                assert(s[k] == x);
            } else {
                assert(s.last() == x);
                assert(s[s.len() - 1] == x);
            }
        }
    }
}

proof fn lemma_without_id_distinct(s: Seq<(Seq<char>, Seq<char>, Seq<char>)>, id: Seq<char>)
    requires
        names_distinct_ci(s),
    ensures
        names_distinct_ci(spec_without_id(s, id)),
    decreases s.len(),
{
    if s.len() > 0 {
        let d = s.drop_last();
        assert(names_distinct_ci(d)) by {
            assert forall|a: int, b: int| 0 <= a < b < d.len() implies spec_to_lowercase(
                #[trigger] d[a].1,
            ) != spec_to_lowercase(#[trigger] d[b].1) by {
                assert(d[a] == s[a] && d[b] == s[b]);
            }
        }
        lemma_without_id_distinct(d, id);
        lemma_without_id_from(d, id);
        let prev = spec_without_id(d, id);
        if s.last().0 != id {
            let r = prev.push(s.last());
            assert forall|a: int, b: int| 0 <= a < b < r.len() implies spec_to_lowercase(
                #[trigger] r[a].1,
            ) != spec_to_lowercase(#[trigger] r[b].1) by {
                if b == prev.len() {
                    assert(prev.contains(prev[a]));
                    let k = choose|k: int| 0 <= k < d.len() && d[k] == prev[a];
                    assert(s[k] == prev[a]);
                    assert(r[b] == s[s.len() - 1]);
                } else {
                    assert(r[a] == prev[a] && r[b] == prev[b]);
                }
            }
        }
    }
}

/// Adding and deleting keep the names of the saved searches distinct
/// ignoring case: a search is added only under a name not yet taken, and
/// deleting removes entries. (Renaming does not check the name, so it can
/// make two names equal.)
pub proof fn lemma_saved_search_names_stay_distinct(
    before: Seq<(Seq<char>, Seq<char>, Seq<char>)>,
    id: Seq<char>,
    name: Seq<char>,
    query: Seq<char>,
    deleted_id: Seq<char>,
)
    requires
        names_distinct_ci(before),
    ensures
        !name_taken(before, name) ==> names_distinct_ci(before.push((id, name, query))),
        names_distinct_ci(spec_without_id(before, deleted_id)),
{
    lemma_without_id_distinct(before, deleted_id);
    if !name_taken(before, name) {
        let r = before.push((id, name, query));
        assert forall|a: int, b: int| 0 <= a < b < r.len() implies spec_to_lowercase(
            #[trigger] r[a].1,
        ) != spec_to_lowercase(#[trigger] r[b].1) by {
            if b == before.len() {
                assert(r[a] == before[a]);
                assert(r[b].1 == name);
            } else {
                assert(r[a] == before[a] && r[b] == before[b]);
            }
        }
    }
}

/// Deletes every saved search with this id.
pub fn delete_saved_search(searches: &mut Vec<SavedSearch>, id: &str)
    ensures
        searches_view(final(searches)@) == spec_without_id(searches_view(old(searches)@), id@),
{
    let iv = chars_of(id);
    let mut kept: Vec<SavedSearch> = Vec::new();
    let ghost sv = searches_view(searches@);
    let mut i: usize = 0;
    assert(sv.take(0) =~= Seq::<(Seq<char>, Seq<char>, Seq<char>)>::empty());
    while i < searches.len()
        invariant
            i <= searches.len(),
            iv@ == id@,
            sv == searches_view(searches@),
            searches_view(kept@) == spec_without_id(sv.take(i as int), id@),
        decreases searches.len() - i,
    {
        assert(sv.take(i + 1).drop_last() =~= sv.take(i as int));
        let s = &searches[i];
        if !chars_eq(&chars_of(s.id.as_str()), &iv) {
            let ghost before = searches_view(kept@);
            kept.push(SavedSearch { id: s.id.clone(), name: s.name.clone(), query: s.query.clone() });
            assert(searches_view(kept@) =~= before.push(sv[i as int]));
        }
        i = i + 1;
    }
    assert(sv.take(searches.len() as int) =~= sv);
    *searches = kept;
}

/// The query of the first saved search with this id.
pub fn saved_search_query(searches: &Vec<SavedSearch>, id: &str) -> (r: Option<String>)
    ensures
        match r {
            Some(q) => exists|i: int|
                0 <= i < searches@.len() && searches@[i].id@ == id@ && (forall|k: int|
                    0 <= k < i ==> #[trigger] searches@[k].id@ != id@) && q@ == searches@[i].query@,
            None => forall|k: int| 0 <= k < searches@.len() ==> #[trigger] searches@[k].id@ != id@,
        },
{
    match find_id(searches, id) {
        Some(i) => Some(searches[i].query.clone()),
        None => None,
    }
}

// ─── Legacy repair ──────────────────────────────────────────────────────────

/// How a task whose description still holds capture syntax is repaired.
#[derive(Debug)]
pub struct Reparatur {
    /// The description without the tokens.
    pub description: String,
    /// The task's project, or else the token's.
    pub project: Option<String>,
    /// The task's tags, then the token tags it lacks.
    pub tags: Vec<String>,
    /// The `due:` token to resolve, where the task has no due date.
    pub due_token: Option<String>,
    /// The token priority, where the task has none.
    pub priority: Option<String>,
}

/// `tags` followed by each of `extra` that is not yet among them.
pub open spec fn merge_tags(tags: Seq<Seq<char>>, extra: Seq<Seq<char>>) -> Seq<Seq<char>>
    decreases extra.len(),
{
    if extra.len() == 0 {
        tags
    } else {
        let prev = merge_tags(tags, extra.drop_last());
        if prev.contains(extra.last()) {
            prev
        } else {
            prev.push(extra.last())
        }
    }
}

/// Whether a pending task needs repair: its description, read as capture
/// input, yields tags, a project, a due date or a priority, and a
/// description that is not blank.
pub open spec fn needs_repair(t: TaskInfo) -> bool {
    let p = spec_parse_quick_capture(t.description@);
    t.status == TaskStatus::Pending && (p.tags.len() > 0 || p.project is Some || p.due is Some
        || p.priority is Some) && spec_trim(p.description).len() > 0
}

fn contains_str(v: &Vec<String>, s: &String) -> (r: bool)
    ensures
        r == v.deep_view().contains(s@),
{
    let mut i: usize = 0;
    while i < v.len()
        invariant
            i <= v.len(),
            forall|k: int| 0 <= k < i ==> #[trigger] v.deep_view()[k] != s@,
        decreases v.len() - i,
    {
        if v[i] == *s {
            assert(v.deep_view()[i as int] == s@);
            return true;
        }
        i = i + 1;
    }
    false
}

/// The repair of a task (see [`needs_repair`]); the task's own properties
/// win and the tokens only fill gaps. `None` where nothing is to repair.
pub fn reparatur(task: &TaskInfo) -> (r: Option<Reparatur>)
    ensures
        r is Some <==> needs_repair(*task),
        r matches Some(x) ==> ({
            let p = spec_parse_quick_capture(task.description@);
            &&& x.description@ == p.description
            &&& x.project.deep_view() == match task.project {
                Some(pr) => Some(pr@),
                None => p.project,
            }
            &&& x.tags.deep_view() == merge_tags(task.tags.deep_view(), p.tags)
            &&& x.due_token.deep_view() == if task.due is Some {
                None
            } else {
                p.due
            }
            &&& x.priority.deep_view() == if task.priority is Some {
                None
            } else {
                p.priority
            }
        }),
{
    if task.status != TaskStatus::Pending {
        return None;
    }
    let p = parse_quick_capture(task.description.as_str());
    let has_meta = p.tags.len() > 0 || p.project.is_some() || p.due.is_some() || p.priority.is_some();
    if !has_meta || trim(&chars_of(p.description.as_str())).len() == 0 {
        return None;
    }
    let project = match &task.project {
        Some(pr) => Some(pr.clone()),
        None => p.project,
    };
    let mut tags: Vec<String> = Vec::new();
    let mut i: usize = 0;
    while i < task.tags.len()
        invariant
            i <= task.tags.len(),
            tags.deep_view() =~= task.tags.deep_view().take(i as int),
        decreases task.tags.len() - i,
    {
        tags.push(task.tags[i].clone());
        assert(task.tags.deep_view().take(i + 1) =~= task.tags.deep_view().take(i as int).push(
            task.tags.deep_view()[i as int],
        ));
        i = i + 1;
    }
    assert(task.tags.deep_view().take(task.tags.len() as int) =~= task.tags.deep_view());
    let ghost base = tags.deep_view();
    let ghost extra = p.tags.deep_view();
    let mut k: usize = 0;
    assert(extra.take(0) =~= Seq::<Seq<char>>::empty());
    while k < p.tags.len()
        invariant
            k <= p.tags.len(),
            extra == p.tags.deep_view(),
            tags.deep_view() == merge_tags(base, extra.take(k as int)),
        decreases p.tags.len() - k,
    {
        assert(extra.take(k + 1).drop_last() =~= extra.take(k as int));
        if !contains_str(&tags, &p.tags[k]) {
            let ghost before = tags.deep_view();
            tags.push(p.tags[k].clone());
            assert(tags.deep_view() =~= before.push(extra[k as int]));
        }
        k = k + 1;
    }
    assert(extra.take(p.tags.len() as int) =~= extra);
    let due_token = if task.due.is_some() {
        None
    } else {
        p.due
    };
    let priority = if task.priority.is_some() {
        None
    } else {
        p.priority
    };
    Some(Reparatur { description: p.description, project, tags, due_token, priority })
}

} // verus!
