//! What the sidebar shows: the project tree with implicit parents, the tag
//! list and the counts of the filters.

use vstd::prelude::*;
use crate::filters::{
    active_projects, active_tags, ci_order, is_pool_of, projects_from, spec_ci_order, tags_from,
    FilterModel, SidebarFilter,
};
use crate::state::{count_matching, spec_count};
use crate::config::SavedSearch;
use crate::task::TaskInfo;
use crate::text::{
    chars_eq, chars_of, lemma_lex_order_antisymmetric, lemma_lex_order_zero, lex_order,
    slice_range, spec_lex_order, spec_strip_prefix, string_of, strip_prefix,
};

verus! {

// ─── Project tree ───────────────────────────────────────────────────────────

/// Whether `p` is a level of the dotted project `name`: the name itself or
/// what precedes one of its dots (`Work` and `Work.Sub` for `Work.Sub.Deep`).
pub open spec fn is_level_of(p: Seq<char>, name: Seq<char>) -> bool {
    exists|j: int|
        0 <= j <= name.len() && (j == name.len() || name[j] == '.') && p == #[trigger] name.subrange(
            0,
            j,
        )
}

/// Whether `p` belongs to the tree of the projects `names`: a level of one
/// of them, so that parents without tasks of their own appear too.
pub open spec fn in_tree(p: Seq<char>, names: Seq<Seq<char>>) -> bool {
    exists|n: Seq<char>| names.contains(n) && #[trigger] is_level_of(p, n)
}

/// The order of the tree: case-insensitive, and where two names differ only
/// in case, by code point. Children follow their parent directly.
pub open spec fn tree_before(a: Seq<char>, b: Seq<char>) -> bool {
    spec_ci_order(a, b) < 0 || (spec_ci_order(a, b) == 0 && spec_lex_order(a, b) < 0)
}

/// The tree's names in display order: exactly the levels of the projects,
/// each once, every name before the next.
pub open spec fn is_project_tree(r: Seq<Seq<char>>, names: Seq<Seq<char>>) -> bool {
    &&& forall|p: Seq<char>| r.contains(p) <==> in_tree(p, names)
    &&& forall|k: int| 0 <= k && k + 1 < r.len() ==> tree_before(#[trigger] r[k], r[k + 1])
}

proof fn lemma_tree_before_asymmetric(a: Seq<char>, b: Seq<char>)
    ensures
        tree_before(a, b) ==> !tree_before(b, a),
        a != b ==> (tree_before(a, b) || tree_before(b, a)),
{
    lemma_lex_order_antisymmetric(
        crate::text::spec_to_lowercase(a),
        crate::text::spec_to_lowercase(b),
    );
    lemma_lex_order_antisymmetric(a, b);
    lemma_lex_order_zero(a, b);
}

fn tree_before_exec(a: &String, b: &String) -> (r: bool)
    ensures
        r == tree_before(a@, b@),
{
    let c = ci_order(a.as_str(), b.as_str());
    if c < 0 {
        true
    } else if c > 0 {
        false
    } else {
        lex_order(&chars_of(a.as_str()), &chars_of(b.as_str())) < 0
    }
}

fn contains_string(v: &Vec<String>, s: &Vec<char>) -> (r: bool)
    ensures
        r == v.deep_view().contains(s@),
{
    let mut i: usize = 0;
    while i < v.len()
        invariant
            i <= v.len(),
            forall|k: int| 0 <= k < i ==> #[trigger] v.deep_view()[k] != s@,
        decreases v.len() - i,
    {
        if chars_eq(&chars_of(v[i].as_str()), s) {
            assert(v.deep_view()[i as int] == s@);
            return true;
        }
        i = i + 1;
    }
    false
}

/// Adds `p` to `out` unless it is there already.
fn add_once(out: &mut Vec<String>, p: &Vec<char>)
    requires
        old(out).deep_view().no_duplicates(),
    ensures
        final(out).deep_view().no_duplicates(),
        forall|q: Seq<char>|
            #[trigger] final(out).deep_view().contains(q) <==> (old(out).deep_view().contains(q) || q
                == p@),
{
    let ghost before = out.deep_view();
    if !contains_string(out, p) {
        out.push(string_of(p.as_slice()));
        proof {
            assert(out.deep_view() =~= before.push(p@));
            assert forall|a: int, b: int|
                0 <= a < b < out.deep_view().len() implies out.deep_view()[a] != out.deep_view()[b] by {
                if b == before.len() {
                    assert(before[a] == out.deep_view()[a]);
                    assert(before.contains(before[a]));
                }
            }
            assert forall|q: Seq<char>|
                #[trigger] out.deep_view().contains(q) <==> (before.contains(q) || q == p@) by {
                if q == p@ {
                    assert(out.deep_view()[before.len() as int] == q);
                }
                if before.contains(q) {
                    let k = choose|k: int| 0 <= k < before.len() && before[k] == q;
                    assert(out.deep_view()[k] == q);
                }
                if out.deep_view().contains(q) {
                    let k = choose|k: int| 0 <= k < out.deep_view().len() && out.deep_view()[k] == q;
                    if k < before.len() {
                        assert(before[k] == q);
                    }
                }
            }
        }
    }
}

/// Whether `p` is what precedes one of the dots of `s` below position `j`.
spec fn dot_level_below(s: Seq<char>, j: int, p: Seq<char>) -> bool {
    exists|i: int| 0 <= i < j && s[i] == '.' && p == #[trigger] s.subrange(0, i)
}

/// Adds the levels of `name` to `out` that are not there yet.
fn add_levels(out: &mut Vec<String>, name: &String)
    requires
        old(out).deep_view().no_duplicates(),
    ensures
        final(out).deep_view().no_duplicates(),
        forall|p: Seq<char>|
            final(out).deep_view().contains(p) <==> (old(out).deep_view().contains(p) || is_level_of(
                p,
                name@,
            )),
{
    let v = chars_of(name.as_str());
    let n = v.len();
    let mut j: usize = 0;
    while j < n
        invariant
            v@ == name@,
            n == v.len(),
            j <= n,
            out.deep_view().no_duplicates(),
            forall|p: Seq<char>|
                out.deep_view().contains(p) <==> (old(out).deep_view().contains(p) || dot_level_below(
                    v@,
                    j as int,
                    p,
                )),
        decreases n - j,
    {
        if v[j] == '.' {
            let p = slice_range(&v, 0, j);
            add_once(out, &p);
        }
        proof {
            assert forall|q: Seq<char>|
                #[trigger] dot_level_below(v@, j + 1, q) <==> (dot_level_below(v@, j as int, q) || (
                v@[j as int] == '.' && q == v@.subrange(0, j as int))) by {
                if dot_level_below(v@, j + 1, q) {
                    let i = choose|i: int| 0 <= i < j + 1 && v@[i] == '.' && q == #[trigger] v@.subrange(0, i);
                    if i < j {
                        assert(0 <= i < j && v@[i] == '.' && q == v@.subrange(0, i));
                    }
                }
                if v@[j as int] == '.' && q == v@.subrange(0, j as int) {
                    assert(0 <= j < j + 1 && v@[j as int] == '.' && q == v@.subrange(0, j as int));
                }
                if dot_level_below(v@, j as int, q) {
                    let i = choose|i: int| 0 <= i < j && v@[i] == '.' && q == #[trigger] v@.subrange(0, i);
                    assert(0 <= i < j + 1 && v@[i] == '.' && q == v@.subrange(0, i));
                }
            }
        }
        j = j + 1;
    }
    let whole = slice_range(&v, 0, n);
    add_once(out, &whole);
    proof {
        assert forall|p: Seq<char>|
            out.deep_view().contains(p) <==> (old(out).deep_view().contains(p) || is_level_of(
                p,
                name@,
            )) by {
            if is_level_of(p, name@) {
                let i = choose|i: int|
                    0 <= i <= name@.len() && (i == name@.len() || name@[i] == '.') && p
                        == #[trigger] name@.subrange(0, i);
                if i < n {
                    assert(0 <= i < n && v@[i] == '.' && p == v@.subrange(0, i));
                }
            }
            if dot_level_below(v@, n as int, p) {
                let i = choose|i: int| 0 <= i < n && v@[i] == '.' && p == #[trigger] v@.subrange(0, i);
                assert(0 <= i <= name@.len() && (i == name@.len() || name@[i] == '.') && p
                    == name@.subrange(0, i));
            }
            if p == whole@ {
                assert(p == name@.subrange(0, name@.len() as int));
            }
        }
    }
}

/// Sorts names by [`tree_before`] (insertion sort).
fn sort_tree(v: &mut Vec<String>)
    ensures
        final(v).deep_view().to_multiset() == old(v).deep_view().to_multiset(),
        forall|k: int|
            0 <= k && k + 1 < final(v)@.len() ==> !tree_before(
                final(v).deep_view()[k + 1],
                #[trigger] final(v).deep_view()[k],
            ),
{
    broadcast use vstd::seq_lib::group_to_multiset_ensures;
    let n = v.len();
    if n < 2 {
        return;
    }
    let mut i: usize = 1;
    while i < n
        invariant
            1 <= i <= n,
            v@.len() == n,
            v.deep_view().to_multiset() == old(v).deep_view().to_multiset(),
            forall|k: int|
                0 <= k && k + 1 < i ==> !tree_before(
                    v.deep_view()[k + 1],
                    #[trigger] v.deep_view()[k],
                ),
        decreases n - i,
    {
        let ghost d0 = v.deep_view();
        let x = v.remove(i);
        let ghost d1 = v.deep_view();
        proof {
            assert(d1 =~= d0.remove(i as int));
            vstd::seq_lib::to_multiset_remove(d0, i as int);
        }
        let mut j: usize = i;
        while j > 0 && tree_before_exec(&x, &v[j - 1])
            invariant
                j <= i,
                i < n,
                v.deep_view() == d1,
                d1.len() == n - 1,
                j < i ==> tree_before(x@, d1[j as int]),
            decreases j,
        {
            j = j - 1;
        }
        v.insert(j, x);
        proof {
            let d2 = v.deep_view();
            assert(d2 =~= d1.insert(j as int, x@));
            vstd::seq_lib::to_multiset_insert(d1, j as int, x@);
            assert(d0[i as int] == x@);
            assert(d0.contains(x@));
            vstd::seq_lib::to_multiset_contains(d0, x@);
            broadcast use vstd::multiset::group_multiset_axioms;
            assert(d0.to_multiset().remove(x@).insert(x@) =~= d0.to_multiset());
            assert forall|k: int| 0 <= k && k + 1 < i + 1 implies !tree_before(
                d2[k + 1],
                #[trigger] d2[k],
            ) by {
                if k + 1 < j {
                    assert(d2[k] == d0[k] && d2[k + 1] == d0[k + 1]);
                } else if k + 1 == j {
                    assert(d2[k] == d1[k] && d2[k + 1] == x@);
                } else if k == j {
                    assert(d2[k] == x@ && d2[k + 1] == d1[j as int]);
                    lemma_tree_before_asymmetric(x@, d1[j as int]);
                } else {
                    assert(d2[k] == d0[k - 1] && d2[k + 1] == d0[k]);
                }
            }
        }
        i = i + 1;
    }
}

/// The names of the project tree of the active tasks (see
/// [`is_project_tree`]).
pub fn project_tree_names(tasks: &[TaskInfo]) -> (r: Vec<String>)
    ensures
        is_project_tree(r.deep_view(), active_projects(tasks@)),
{
    let pool = projects_from(tasks);
    let mut out: Vec<String> = Vec::new();
    let mut i: usize = 0;
    while i < pool.len()
        invariant
            i <= pool.len(),
            out.deep_view().no_duplicates(),
            forall|p: Seq<char>|
                out.deep_view().contains(p) <==> exists|k: int|
                    0 <= k < i && #[trigger] is_level_of(p, pool.deep_view()[k]),
        decreases pool.len() - i,
    {
        add_levels(&mut out, &pool[i]);
        proof {
            assert forall|p: Seq<char>|
                out.deep_view().contains(p) <==> exists|k: int|
                    0 <= k < i + 1 && #[trigger] is_level_of(p, pool.deep_view()[k]) by {
                if is_level_of(p, pool.deep_view()[i as int]) {
                    assert(pool.deep_view()[i as int] == pool[i as int]@);
                }
            }
        }
        i = i + 1;
    }
    let ghost collected = out.deep_view();
    sort_tree(&mut out);
    proof {
        let d = out.deep_view();
        collected.lemma_multiset_has_no_duplicates();
        assert forall|x: Seq<char>| d.to_multiset().contains(x) implies d.to_multiset().count(x)
            == 1 by {
            vstd::seq_lib::to_multiset_contains(d, x);
        }
        d.lemma_multiset_has_no_duplicates_conv();
        assert forall|k: int| 0 <= k && k + 1 < d.len() implies tree_before(
            #[trigger] d[k],
            d[k + 1],
        ) by {
            lemma_tree_before_asymmetric(d[k], d[k + 1]);
        }
        assert forall|p: Seq<char>| d.contains(p) <==> in_tree(p, active_projects(tasks@)) by {
            vstd::seq_lib::to_multiset_contains(d, p);
            vstd::seq_lib::to_multiset_contains(collected, p);
            if collected.contains(p) {
                let k = choose|k: int| 0 <= k < pool.len() && #[trigger] is_level_of(
                    p,
                    pool.deep_view()[k],
                );
                assert(pool.deep_view().contains(pool.deep_view()[k]));
            }
            if in_tree(p, active_projects(tasks@)) {
                let n = choose|n: Seq<char>| active_projects(tasks@).contains(n) && #[trigger] is_level_of(
                    p,
                    n,
                );
                let k = choose|k: int| 0 <= k < pool.len() && pool.deep_view()[k] == n;
                assert(is_level_of(p, pool.deep_view()[k]));
            }
        }
    }
    out
}

// ─── Tree rows ──────────────────────────────────────────────────────────────

/// One row of the project tree.
#[derive(Debug, Clone)]
pub struct ProjectNode {
    /// Full dotted name, the key of the project filter.
    pub name: String,
    /// Last segment of the name, as displayed.
    pub label: String,
    /// Number of dots: how deep the row is indented.
    pub depth: usize,
    /// Whether another row of the tree lies below this one.
    pub has_children: bool,
    /// How many tasks the project filter shows (sub-projects included).
    pub count: usize,
}

/// How many dots a name has.
pub open spec fn spec_dots(s: Seq<char>) -> nat
    decreases s.len(),
{
    if s.len() == 0 {
        0
    } else {
        spec_dots(s.drop_last()) + if s.last() == '.' {
            1nat
        } else {
            0nat
        }
    }
}

/// Where the segment ends up that contains position `j - 1`: after the last
/// dot before `j`, or at the start.
pub open spec fn segment_start(s: Seq<char>, j: int) -> int
    decreases j,
{
    if j <= 0 {
        0
    } else if s[j - 1] == '.' {
        j
    } else {
        segment_start(s, j - 1)
    }
}

/// The last segment of a dotted name (`Deep` for `Work.Sub.Deep`).
pub open spec fn spec_label(s: Seq<char>) -> Seq<char> {
    s.subrange(segment_start(s, s.len() as int), s.len() as int)
}

/// Whether one of `names` lies below `p` (starts with `p.`).
pub open spec fn has_child(names: Seq<Seq<char>>, p: Seq<char>) -> bool {
    exists|n: Seq<char>| names.contains(n) && (#[trigger] spec_strip_prefix(p.push('.'), n)) is Some
}

/// How many open tasks (pending ones and recurring templates; completed
/// ones are not counted) the filter of project `name` shows; that filter
/// reads neither the time nor the due-soon window.
pub open spec fn spec_project_count(ts: Seq<TaskInfo>, name: Seq<char>) -> nat {
    spec_count(ts, FilterModel::Project(name), 0, 0, 0)
}

/// The names of the rows.
pub open spec fn node_names(r: Seq<ProjectNode>) -> Seq<Seq<char>> {
    Seq::new(r.len(), |k: int| r[k].name@)
}

fn count_dots(v: &Vec<char>) -> (r: usize)
    ensures
        r == spec_dots(v@),
{
    let mut c: usize = 0;
    let mut i: usize = 0;
    while i < v.len()
        invariant
            i <= v.len(),
            c <= i,
            c == spec_dots(v@.take(i as int)),
        decreases v.len() - i,
    {
        assert(v@.take(i + 1).drop_last() =~= v@.take(i as int));
        if v[i] == '.' {
            c = c + 1;
        }
        i = i + 1;
    }
    assert(v@.take(v.len() as int) =~= v@);
    c
}

fn label_of(v: &Vec<char>) -> (r: Vec<char>)
    ensures
        r@ == spec_label(v@),
{
    let n = v.len();
    let mut b: usize = n;
    while b > 0 && v[b - 1] != '.'
        invariant
            b <= n,
            n == v.len(),
            segment_start(v@, n as int) == segment_start(v@, b as int),
        decreases b,
    {
        b = b - 1;
    }
    slice_range(v, b, n)
}

fn has_child_in(names: &Vec<String>, p: &Vec<char>) -> (r: bool)
    ensures
        r == has_child(names.deep_view(), p@),
{
    let mut prefix = chars_of(string_of(p.as_slice()).as_str());
    prefix.push('.');
    let mut i: usize = 0;
    while i < names.len()
        invariant
            i <= names.len(),
            prefix@ == p@.push('.'),
            forall|k: int| 0 <= k < i ==> spec_strip_prefix(p@.push('.'), #[trigger] names.deep_view()[k]) is None,
        decreases names.len() - i,
    {
        if strip_prefix(&prefix, &chars_of(names[i].as_str())).is_some() {
            assert(names.deep_view().contains(names.deep_view()[i as int]));
            return true;
        }
        i = i + 1;
    }
    proof {
        if has_child(names.deep_view(), p@) {
            let n = choose|n: Seq<char>| names.deep_view().contains(n) && (#[trigger] spec_strip_prefix(p@.push('.'), n)) is Some;
            let k = choose|k: int| 0 <= k < names.len() && names.deep_view()[k] == n;
            assert(spec_strip_prefix(p@.push('.'), names.deep_view()[k]) is None);
        }
    }
    false
}

/// The project tree of the sidebar: every project of the active tasks and
/// every parent level of one, each once, in the order of [`tree_before`];
/// each row with its label, depth, whether rows lie below it, and the
/// number of open tasks its project filter shows (sub-projects taken in,
/// completed tasks not counted).
pub fn project_tree(tasks: &[TaskInfo]) -> (r: Vec<ProjectNode>)
    ensures
        is_project_tree(node_names(r@), active_projects(tasks@)),
        forall|k: int|
            0 <= k < r@.len() ==> {
                let row = #[trigger] r@[k];
                &&& row.label@ == spec_label(row.name@)
                &&& row.depth == spec_dots(row.name@)
                &&& row.has_children == has_child(node_names(r@), row.name@)
                &&& row.count == spec_project_count(tasks@, row.name@)
            },
{
    let names = project_tree_names(tasks);
    let mut rows: Vec<ProjectNode> = Vec::new();
    let mut i: usize = 0;
    while i < names.len()
        invariant
            i <= names.len(),
            rows@.len() == i,
            forall|k: int|
                0 <= k < i ==> {
                    let row = #[trigger] rows@[k];
                    &&& row.name@ == names.deep_view()[k]
                    &&& row.label@ == spec_label(row.name@)
                    &&& row.depth == spec_dots(row.name@)
                    &&& row.has_children == has_child(names.deep_view(), row.name@)
                    &&& row.count == spec_project_count(tasks@, row.name@)
                },
        decreases names.len() - i,
    {
        let v = chars_of(names[i].as_str());
        let label = label_of(&v);
        let depth = count_dots(&v);
        let has_children = has_child_in(&names, &v);
        let filter = SidebarFilter::Project(names[i].clone());
        let count = count_matching(tasks, &filter, 0, 0, 0);
        rows.push(
            ProjectNode {
                name: names[i].clone(),
                label: string_of(label.as_slice()),
                depth,
                has_children,
                count,
            },
        );
        i = i + 1;
    }
    assert(node_names(rows@) =~= names.deep_view());
    rows
}

// ─── Counts ─────────────────────────────────────────────────────────────────

/// The counts next to the fixed sidebar entries; `todo` leaves waiting tasks
/// out, `all` is the number of tasks.
#[derive(Debug, Clone, Copy, PartialEq, Eq)]
pub struct SidebarCounts {
    pub inbox: usize,
    pub today: usize,
    pub todo: usize,
    pub overdue: usize,
    pub duesoon: usize,
    pub upcoming: usize,
    pub waiting: usize,
    pub all: usize,
    pub blocked: usize,
    pub blocking: usize,
}

/// Counts the fixed sidebar entries at `now`, with the due-soon window of
/// `due_soon_days` days and today ending (exclusively) at `today_end`.
pub fn sidebar_counts(tasks: &[TaskInfo], now: i64, due_soon_days: i64, today_end: i64) -> (r:
    SidebarCounts)
    requires
        i64::MIN <= due_soon_days * 86400 <= i64::MAX,
        i64::MIN <= now + due_soon_days * 86400 <= i64::MAX,
    ensures
        r.inbox == spec_count(tasks@, FilterModel::Inbox, now as int, due_soon_days as int, today_end as int),
        r.today == spec_count(tasks@, FilterModel::Today, now as int, due_soon_days as int, today_end as int),
        r.todo == spec_count(tasks@, FilterModel::Todo, now as int, due_soon_days as int, today_end as int),
        r.overdue == spec_count(tasks@, FilterModel::Overdue, now as int, due_soon_days as int, today_end as int),
        r.duesoon == spec_count(tasks@, FilterModel::DueSoon, now as int, due_soon_days as int, today_end as int),
        r.upcoming == spec_count(tasks@, FilterModel::Upcoming, now as int, due_soon_days as int, today_end as int),
        r.waiting == spec_count(tasks@, FilterModel::Waiting, now as int, due_soon_days as int, today_end as int),
        r.all == tasks@.len(),
        r.blocked == spec_count(tasks@, FilterModel::Blocked, now as int, due_soon_days as int, today_end as int),
        r.blocking == spec_count(tasks@, FilterModel::Blocking, now as int, due_soon_days as int, today_end as int),
{
    SidebarCounts {
        inbox: count_matching(tasks, &SidebarFilter::Inbox, now, due_soon_days, today_end),
        today: count_matching(tasks, &SidebarFilter::Today, now, due_soon_days, today_end),
        todo: count_matching(tasks, &SidebarFilter::Todo, now, due_soon_days, today_end),
        overdue: count_matching(tasks, &SidebarFilter::Overdue, now, due_soon_days, today_end),
        duesoon: count_matching(tasks, &SidebarFilter::DueSoon, now, due_soon_days, today_end),
        upcoming: count_matching(tasks, &SidebarFilter::Upcoming, now, due_soon_days, today_end),
        waiting: count_matching(tasks, &SidebarFilter::Waiting, now, due_soon_days, today_end),
        all: tasks.len(),
        blocked: count_matching(tasks, &SidebarFilter::Blocked, now, due_soon_days, today_end),
        blocking: count_matching(tasks, &SidebarFilter::Blocking, now, due_soon_days, today_end),
    }
}

/// One row of the tag list: the tag and how many tasks carry it.
#[derive(Debug, Clone)]
pub struct TagRow {
    pub name: String,
    pub count: usize,
}

/// The tag list of the sidebar: the tag pool of the active tasks, each with
/// the number of open tasks its tag filter shows (completed ones are not
/// counted; the filter reads neither the time nor the window).
pub fn tag_rows(tasks: &[TaskInfo]) -> (r: Vec<TagRow>)
    ensures
        is_pool_of(Seq::new(r@.len(), |k: int| r@[k].name@), active_tags(tasks@)),
        forall|k: int|
            0 <= k < r@.len() ==> (#[trigger] r@[k]).count == spec_count(
                tasks@,
                FilterModel::Tag(r@[k].name@),
                0,
                0,
                0,
            ),
{
    let names = tags_from(tasks);
    let mut rows: Vec<TagRow> = Vec::new();
    let mut i: usize = 0;
    while i < names.len()
        invariant
            i <= names.len(),
            rows@.len() == i,
            forall|k: int|
                0 <= k < i ==> (#[trigger] rows@[k]).name@ == names.deep_view()[k] && rows@[k].count
                    == spec_count(tasks@, FilterModel::Tag(rows@[k].name@), 0, 0, 0),
        decreases names.len() - i,
    {
        let filter = SidebarFilter::Tag(names[i].clone());
        let count = count_matching(tasks, &filter, 0, 0, 0);
        rows.push(TagRow { name: names[i].clone(), count });
        i = i + 1;
    }
    assert(Seq::new(rows@.len(), |k: int| rows@[k].name@) =~= names.deep_view());
    rows
}

// ─── Stable orders ──────────────────────────────────────────────────────────

/// Orders positions by a key and, where the keys are equal, by position:
/// the order a stable sort leaves them in.
pub open spec fn key_before(ka: int, a: int, kb: int, b: int) -> bool {
    ka < kb || (ka == kb && a < b)
}

/// The working-set key of the dependency picker: tasks without an id last.
pub open spec fn ws_key(t: TaskInfo) -> int {
    match t.working_set_id {
        Some(id) => id as int,
        None => u32::MAX as int,
    }
}

/// `r` lists the positions of the pending tasks, by working-set key and then
/// by position.
pub open spec fn is_picker_order(r: Seq<usize>, ts: Seq<TaskInfo>) -> bool {
    &&& forall|i: int| 0 <= i < ts.len() ==> (r.contains(i as usize) <==> ts[i].status == crate::task::TaskStatus::Pending)
    &&& forall|k: int| 0 <= k < r.len() ==> #[trigger] r[k] < ts.len()
    &&& forall|k: int|
        0 <= k && k + 1 < r.len() ==> key_before(
            ws_key(ts[#[trigger] r[k] as int]),
            r[k] as int,
            ws_key(ts[r[k + 1] as int]),
            r[k + 1] as int,
        )
}

fn picker_before(tasks: &[TaskInfo], a: usize, b: usize) -> (r: bool)
    requires
        a < tasks@.len(),
        b < tasks@.len(),
    ensures
        r == key_before(ws_key(tasks@[a as int]), a as int, ws_key(tasks@[b as int]), b as int),
{
    let ka: u64 = match tasks[a].working_set_id {
        Some(id) => id as u64,
        None => 4294967295u64,
    };
    let kb: u64 = match tasks[b].working_set_id {
        Some(id) => id as u64,
        None => 4294967295u64,
    };
    ka < kb || (ka == kb && a < b)
}

/// The order of the dependency picker: the pending tasks by working-set id
/// (tasks without one last), as positions into `tasks`.
pub fn picker_order(tasks: &[TaskInfo]) -> (r: Vec<usize>)
    ensures
        is_picker_order(r@, tasks@),
{
    broadcast use vstd::seq_lib::group_to_multiset_ensures;
    let mut v: Vec<usize> = Vec::new();
    let mut i: usize = 0;
    while i < tasks.len()
        invariant
            i <= tasks.len(),
            forall|k: int| 0 <= k < v.len() ==> #[trigger] v@[k] < i,
            forall|a: int, b: int| 0 <= a < b < v.len() ==> v@[a] < v@[b],
            forall|m: int| 0 <= m < i ==> (v@.contains(m as usize) <==> tasks@[m].status == crate::task::TaskStatus::Pending),
        decreases tasks.len() - i,
    {
        if tasks[i].status == crate::task::TaskStatus::Pending {
            let ghost before = v@;
            v.push(i);
            proof {
                assert forall|m: int| 0 <= m < i + 1 implies (v@.contains(m as usize) <==> tasks@[m].status
                    == crate::task::TaskStatus::Pending) by {
                    if m < i {
                        if v@.contains(m as usize) {
                            let k = choose|k: int| 0 <= k < v@.len() && v@[k] == m as usize;
                            if k < before.len() {
                                assert(before[k] == m as usize);
                            }
                        }
                        if before.contains(m as usize) {
                            let k = choose|k: int| 0 <= k < before.len() && before[k] == m as usize;
                            assert(v@[k] == m as usize);
                        }
                    } else {
                        assert(v@[before.len() as int] == i);
                    }
                }
            }
        } else {
            proof {
                assert forall|m: int| 0 <= m < i + 1 implies (v@.contains(m as usize) <==> tasks@[m].status
                    == crate::task::TaskStatus::Pending) by {
                    if m == i && v@.contains(m as usize) {
                        let k = choose|k: int| 0 <= k < v@.len() && v@[k] == m as usize;
                        assert(v@[k] < i);
                    }
                }
            }
        }
        i = i + 1;
    }
    let ghost collected = v@;
    let n = v.len();
    if n >= 2 {
        let mut i: usize = 1;
        while i < n
            invariant
                1 <= i <= n,
                v@.len() == n,
                v@.to_multiset() == collected.to_multiset(),
                forall|k: int| 0 <= k < n ==> #[trigger] v@[k] < tasks@.len(),
                forall|k: int|
                    0 <= k && k + 1 < i ==> !key_before(
                        ws_key(tasks@[v@[k + 1] as int]),
                        v@[k + 1] as int,
                        ws_key(tasks@[#[trigger] v@[k] as int]),
                        v@[k] as int,
                    ),
            decreases n - i,
        {
            let ghost d0 = v@;
            let x = v.remove(i);
            let ghost d1 = v@;
            proof {
                vstd::seq_lib::to_multiset_remove(d0, i as int);
            }
            let mut j: usize = i;
            while j > 0 && picker_before(tasks, x, v[j - 1])
                invariant
                    j <= i,
                    i < n,
                    v@ == d1,
                    d1.len() == n - 1,
                    x < tasks@.len(),
                    forall|k: int| 0 <= k < n - 1 ==> #[trigger] d1[k] < tasks@.len(),
                    j < i ==> key_before(
                        ws_key(tasks@[x as int]),
                        x as int,
                        ws_key(tasks@[d1[j as int] as int]),
                        d1[j as int] as int,
                    ),
                decreases j,
            {
                j = j - 1;
            }
            v.insert(j, x);
            proof {
                let d2 = v@;
                vstd::seq_lib::to_multiset_insert(d1, j as int, x);
                assert(d0[i as int] == x);
                assert(d0.contains(x));
                vstd::seq_lib::to_multiset_contains(d0, x);
                broadcast use vstd::multiset::group_multiset_axioms;
                assert(d0.to_multiset().remove(x).insert(x) =~= d0.to_multiset());
                assert forall|k: int| 0 <= k && k + 1 < i + 1 implies !key_before(
                    ws_key(tasks@[d2[k + 1] as int]),
                    d2[k + 1] as int,
                    ws_key(tasks@[#[trigger] d2[k] as int]),
                    d2[k] as int,
                ) by {
                    if k + 1 < j {
                        assert(d2[k] == d0[k] && d2[k + 1] == d0[k + 1]);
                    } else if k + 1 == j {
                        assert(d2[k] == d1[k] && d2[k + 1] == x);
                    } else if k == j {
                        assert(d2[k] == x && d2[k + 1] == d1[j as int]);
                    } else {
                        assert(d2[k] == d0[k - 1] && d2[k + 1] == d0[k]);
                    }
                }
                assert forall|k: int| 0 <= k < n implies #[trigger] d2[k] < tasks@.len() by {
                    if k < j {
                        assert(d2[k] == d1[k]);
                    } else if k == j {
                    } else {
                        assert(d2[k] == d1[k - 1]);
                    }
                }
            }
            i = i + 1;
        }
    }
    proof {
        let d = v@;
        assert(collected.no_duplicates());
        collected.lemma_multiset_has_no_duplicates();
        assert forall|x: usize| d.to_multiset().contains(x) implies d.to_multiset().count(x) == 1 by {
            vstd::seq_lib::to_multiset_contains(d, x);
        }
        d.lemma_multiset_has_no_duplicates_conv();
        assert forall|m: int| 0 <= m < tasks@.len() implies (d.contains(m as usize) <==> tasks@[m].status
            == crate::task::TaskStatus::Pending) by {
            vstd::seq_lib::to_multiset_contains(d, m as usize);
            vstd::seq_lib::to_multiset_contains(collected, m as usize);
        }
        assert forall|k: int| 0 <= k && k + 1 < d.len() implies key_before(
            ws_key(tasks@[#[trigger] d[k] as int]),
            d[k] as int,
            ws_key(tasks@[d[k + 1] as int]),
            d[k + 1] as int,
        ) by {
            assert(d[k] != d[k + 1]);
        }
    }
    v
}

/// Orders two saved searches of the list by name, case-insensitively, and
/// where the names compare equal by position.
pub open spec fn name_before(ss: Seq<SavedSearch>, a: int, b: int) -> bool {
    spec_ci_order(ss[a].name@, ss[b].name@) < 0 || (spec_ci_order(ss[a].name@, ss[b].name@) == 0
        && a < b)
}

/// `r` lists every position of `ss` once, by name and then by position.
pub open spec fn is_name_order(r: Seq<usize>, ss: Seq<SavedSearch>) -> bool {
    &&& r.len() == ss.len()
    &&& forall|i: usize| i < ss.len() ==> #[trigger] r.contains(i)
    &&& forall|k: int| 0 <= k < r.len() ==> #[trigger] r[k] < ss.len()
    &&& forall|k: int| 0 <= k && k + 1 < r.len() ==> name_before(ss, #[trigger] r[k] as int, r[k + 1] as int)
}

fn name_before_exec(ss: &Vec<SavedSearch>, a: usize, b: usize) -> (r: bool)
    requires
        a < ss@.len(),
        b < ss@.len(),
    ensures
        r == name_before(ss@, a as int, b as int),
{
    let c = ci_order(ss[a].name.as_str(), ss[b].name.as_str());
    c < 0 || (c == 0 && a < b)
}

proof fn lemma_name_before_total(ss: Seq<SavedSearch>, a: int, b: int)
    ensures
        name_before(ss, a, b) ==> !name_before(ss, b, a),
        a != b ==> (name_before(ss, a, b) || name_before(ss, b, a)),
{
    lemma_lex_order_antisymmetric(
        crate::text::spec_to_lowercase(ss[a].name@),
        crate::text::spec_to_lowercase(ss[b].name@),
    );
}

/// The order of the saved searches in the sidebar: by name,
/// case-insensitively; equal names keep their order. Positions into
/// `searches`.
pub fn saved_search_order(searches: &Vec<SavedSearch>) -> (r: Vec<usize>)
    ensures
        is_name_order(r@, searches@),
{
    broadcast use vstd::seq_lib::group_to_multiset_ensures;
    let mut v: Vec<usize> = Vec::new();
    let mut i: usize = 0;
    while i < searches.len()
        invariant
            i <= searches.len(),
            v@.len() == i,
            forall|k: int| 0 <= k < i ==> #[trigger] v@[k] == k,
        decreases searches.len() - i,
    {
        v.push(i);
        i = i + 1;
    }
    let ghost collected = v@;
    let n = v.len();
    if n >= 2 {
        let mut i: usize = 1;
        while i < n
            invariant
                1 <= i <= n,
                n == searches@.len(),
                v@.len() == n,
                v@.to_multiset() == collected.to_multiset(),
                forall|k: int| 0 <= k < n ==> #[trigger] v@[k] < n,
                forall|k: int|
                    0 <= k && k + 1 < i ==> !name_before(
                        searches@,
                        v@[k + 1] as int,
                        #[trigger] v@[k] as int,
                    ),
            decreases n - i,
        {
            let ghost d0 = v@;
            let x = v.remove(i);
            let ghost d1 = v@;
            proof {
                vstd::seq_lib::to_multiset_remove(d0, i as int);
            }
            let mut j: usize = i;
            while j > 0 && name_before_exec(searches, x, v[j - 1])
                invariant
                    j <= i,
                    i < n,
                    n == searches@.len(),
                    v@ == d1,
                    d1.len() == n - 1,
                    x < n,
                    forall|k: int| 0 <= k < n - 1 ==> #[trigger] d1[k] < n,
                    j < i ==> name_before(searches@, x as int, d1[j as int] as int),
                decreases j,
            {
                j = j - 1;
            }
            v.insert(j, x);
            proof {
                let d2 = v@;
                vstd::seq_lib::to_multiset_insert(d1, j as int, x);
                assert(d0[i as int] == x);
                assert(d0.contains(x));
                vstd::seq_lib::to_multiset_contains(d0, x);
                broadcast use vstd::multiset::group_multiset_axioms;
                assert(d0.to_multiset().remove(x).insert(x) =~= d0.to_multiset());
                assert forall|k: int| 0 <= k && k + 1 < i + 1 implies !name_before(
                    searches@,
                    d2[k + 1] as int,
                    #[trigger] d2[k] as int,
                ) by {
                    if k + 1 < j {
                        assert(d2[k] == d0[k] && d2[k + 1] == d0[k + 1]);
                    } else if k + 1 == j {
                        assert(d2[k] == d1[k] && d2[k + 1] == x);
                    } else if k == j {
                        assert(d2[k] == x && d2[k + 1] == d1[j as int]);
                        lemma_name_before_total(searches@, x as int, d1[j as int] as int);
                    } else {
                        assert(d2[k] == d0[k - 1] && d2[k + 1] == d0[k]);
                    }
                }
                assert forall|k: int| 0 <= k < n implies #[trigger] d2[k] < n by {
                    if k < j {
                        assert(d2[k] == d1[k]);
                    } else if k == j {
                    } else {
                        assert(d2[k] == d1[k - 1]);
                    }
                }
            }
            i = i + 1;
        }
    }
    proof {
        let d = v@;
        assert forall|a: int, b: int| 0 <= a < b < collected.len() implies collected[a] != collected[b] by {
            assert(collected[a] == a && collected[b] == b);
        }
        collected.lemma_multiset_has_no_duplicates();
        assert forall|x: usize| d.to_multiset().contains(x) implies d.to_multiset().count(x) == 1 by {
            vstd::seq_lib::to_multiset_contains(d, x);
        }
        d.lemma_multiset_has_no_duplicates_conv();
        assert forall|m: usize| m < n implies #[trigger] d.contains(m) by {
            assert(collected[m as int] == m);
            assert(collected.contains(m));
            vstd::seq_lib::to_multiset_contains(d, m);
            vstd::seq_lib::to_multiset_contains(collected, m);
        }
        assert forall|k: int| 0 <= k && k + 1 < d.len() implies name_before(
            searches@,
            #[trigger] d[k] as int,
            d[k + 1] as int,
        ) by {
            assert(d[k] != d[k + 1]);
            lemma_name_before_total(searches@, d[k] as int, d[k + 1] as int);
        }
    }
    v
}

} // verus!
