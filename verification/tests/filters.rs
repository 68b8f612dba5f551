use vergissmeinnicht::filters::{
    ci_contains, compare_tasks, end_of_today_exclusive, start_of_local_day, parse_search_query, project_matches,
    projects_from, query_matches, sort_tasks, tags_from, tokenize_quoted, SidebarFilter,
    SortOrder,
};
use vergissmeinnicht::task::{AnnotationInfo, TaskInfo, TaskStatus};

fn filter_task(status: TaskStatus) -> TaskInfo {
    TaskInfo {
        uuid: "u".into(),
        description: "Test".into(),
        project: None,
        tags: vec![],
        due: None,
        status,
        entry: None,
        working_set_id: None,
        priority: None,
        annotations: vec![],
        wait: None,
        recur: None,
        scheduled: None,
        depends: vec![],
        is_blocked: false,
        is_blocking: false,
        is_recurring_child: false,
        start: None,
        until: None,
        modified: None,
        udas: vec![],
    }
}

const NOW: i64 = 1_800_000_000;

#[test]
fn inbox_requires_no_project_no_tags() {
    let mut t = filter_task(TaskStatus::Pending);
    assert!(SidebarFilter::Inbox.matches(&t, NOW, 7));
    t.project = Some("x".into());
    assert!(!SidebarFilter::Inbox.matches(&t, NOW, 7));
    t.project = None;
    t.tags = vec!["a".into()];
    assert!(!SidebarFilter::Inbox.matches(&t, NOW, 7));
}

#[test]
fn waiting_hides_from_todo_and_inbox() {
    let mut t = filter_task(TaskStatus::Pending);
    t.wait = Some(NOW + 3600);
    assert!(SidebarFilter::Waiting.matches(&t, NOW, 7));
    assert!(!SidebarFilter::Todo.matches(&t, NOW, 7));
    assert!(!SidebarFilter::Inbox.matches(&t, NOW, 7));
    t.wait = Some(NOW - 3600);
    assert!(!SidebarFilter::Waiting.matches(&t, NOW, 7));
    assert!(SidebarFilter::Todo.matches(&t, NOW, 7));
}

#[test]
fn upcoming_hides_from_actionable_views() {
    let mut t = filter_task(TaskStatus::Pending);
    t.scheduled = Some(NOW + 86_400);
    assert!(SidebarFilter::Upcoming.matches(&t, NOW, 7));
    assert!(!SidebarFilter::Todo.matches(&t, NOW, 7));
    assert!(!SidebarFilter::Today.matches(&t, NOW, 7));
    t.due = Some(NOW - 100);
    assert!(!SidebarFilter::Overdue.matches(&t, NOW, 7));
}

#[test]
fn today_includes_overdue_and_scheduled_today() {
    let mut t = filter_task(TaskStatus::Pending);
    t.due = Some(NOW - 100);
    assert!(SidebarFilter::Today.matches(&t, NOW, 7));
    t.due = Some(end_of_today_exclusive(NOW) + 10);
    assert!(!SidebarFilter::Today.matches(&t, NOW, 7));
    t.due = None;
    t.scheduled = Some(NOW - 100);
    assert!(SidebarFilter::Today.matches(&t, NOW, 7));
}

#[test]
fn due_soon_window() {
    let mut t = filter_task(TaskStatus::Pending);
    t.due = Some(NOW + 3 * 86_400);
    assert!(SidebarFilter::DueSoon.matches(&t, NOW, 7));
    assert!(!SidebarFilter::DueSoon.matches(&t, NOW, 2));
    t.due = Some(NOW - 1);
    assert!(!SidebarFilter::DueSoon.matches(&t, NOW, 7));
}

#[test]
fn project_prefix_semantics() {
    assert!(project_matches(Some("Work"), "Work"));
    assert!(project_matches(Some("Work.Sub"), "Work"));
    assert!(!project_matches(Some("Workshop"), "Work"));
    assert!(!project_matches(None, "Work"));
}

#[test]
fn blocked_blocking_unblocked() {
    let mut t = filter_task(TaskStatus::Pending);
    t.is_blocked = true;
    assert!(SidebarFilter::Blocked.matches(&t, NOW, 7));
    assert!(!SidebarFilter::Unblocked.matches(&t, NOW, 7));
    t.is_blocked = false;
    t.is_blocking = true;
    assert!(SidebarFilter::Blocking.matches(&t, NOW, 7));
    assert!(SidebarFilter::Unblocked.matches(&t, NOW, 7));
}

#[test]
fn recurring_visible_only_in_unfiltered_views() {
    let mut t = filter_task(TaskStatus::Recurring);
    t.project = Some("routine".into());
    assert!(SidebarFilter::All.matches(&t, NOW, 7));
    assert!(SidebarFilter::Project("routine".into()).matches(&t, NOW, 7));
    assert!(!SidebarFilter::Todo.matches(&t, NOW, 7));
    assert!(!SidebarFilter::Today.matches(&t, NOW, 7));
}

#[test]
fn filter_key_roundtrip() {
    for f in [
        SidebarFilter::All,
        SidebarFilter::Today,
        SidebarFilter::Inbox,
        SidebarFilter::Project("Mit Leerzeichen".into()),
        SidebarFilter::Tag("dringend".into()),
        SidebarFilter::SavedSearch("abc-123".into()),
    ] {
        assert_eq!(SidebarFilter::from_key(&f.to_key()), f);
    }
}

#[test]
fn filter_keys_have_fixed_spelling() {
    assert_eq!(SidebarFilter::DueSoon.to_key(), "duesoon");
    assert_eq!(SidebarFilter::Project("A.B".into()).to_key(), "project:A.B");
    assert_eq!(SidebarFilter::from_key("unbekannt"), SidebarFilter::Inbox);
    assert_eq!(
        SidebarFilter::from_key("tag:"),
        SidebarFilter::Tag(String::new())
    );
}

#[test]
fn sort_by_id_none_last() {
    let mut a = filter_task(TaskStatus::Pending);
    a.working_set_id = Some(2);
    a.description = "B".into();
    let mut b = filter_task(TaskStatus::Completed);
    b.working_set_id = None;
    b.description = "A".into();
    let mut c = filter_task(TaskStatus::Pending);
    c.working_set_id = Some(1);
    c.description = "C".into();
    let mut v = vec![a, b, c];
    sort_tasks(&mut v, SortOrder::Id, true);
    assert_eq!(
        v.iter().map(|t| t.working_set_id).collect::<Vec<_>>(),
        vec![Some(1), Some(2), None]
    );
}

#[test]
fn sort_entry_newest_first() {
    let mut a = filter_task(TaskStatus::Pending);
    a.entry = Some(100);
    let mut b = filter_task(TaskStatus::Pending);
    b.entry = Some(200);
    let mut v = vec![a, b];
    sort_tasks(&mut v, SortOrder::Entry, true);
    assert_eq!(v[0].entry, Some(200));
}

#[test]
fn sort_descending_reverses_and_equal_dues_tie() {
    let mut a = filter_task(TaskStatus::Pending);
    a.description = "beta".into();
    a.due = Some(10);
    let mut b = filter_task(TaskStatus::Pending);
    b.description = "Alpha".into();
    b.due = Some(10);
    let mut c = filter_task(TaskStatus::Pending);
    c.description = "gamma".into();
    c.due = None;
    assert_eq!(compare_tasks(&b, &a, SortOrder::Due, true), 0);
    assert_eq!(compare_tasks(&a, &c, SortOrder::Due, true), -1);
    let mut v = vec![c.clone(), a.clone(), b.clone()];
    sort_tasks(&mut v, SortOrder::Description, false);
    let names: Vec<String> = v.iter().map(|t| t.description.clone()).collect();
    assert_eq!(names, vec!["gamma", "beta", "Alpha"]);
    assert_eq!(SortOrder::from_key("project"), SortOrder::Project);
    assert_eq!(SortOrder::from_key("quatsch"), SortOrder::Id);
    assert_eq!(SortOrder::Entry.to_key(), "entry");
}

#[test]
fn search_operators_and_quotes() {
    let q = parse_search_query("projekt:Arbeit tag:x status:erledigt \"zwei worte\" rest").unwrap();
    assert_eq!(q.projects, vec!["Arbeit"]);
    assert_eq!(q.tags, vec!["x"]);
    assert_eq!(q.statuses, vec![TaskStatus::Completed]);
    assert_eq!(q.free_terms, vec!["zwei worte", "rest"]);
}

#[test]
fn search_unknown_operator_is_free_text() {
    let q = parse_search_query("foo:bar status:quatsch").unwrap();
    assert_eq!(q.free_terms, vec!["foo:bar", "status:quatsch"]);
}

#[test]
fn search_empty_is_none() {
    assert!(parse_search_query("   ").is_none());
}

#[test]
fn search_tokenizer_keeps_quoted_spaces() {
    assert_eq!(
        tokenize_quoted("a \"b c\"  d\"e f\""),
        vec!["a", "b c", "de f"]
    );
    assert!(ci_contains("Rechnung Schreiben", "schreib"));
    assert!(!ci_contains("Rechnung", "xyz"));
}

#[test]
fn query_matches_all_fields() {
    let mut t = filter_task(TaskStatus::Pending);
    t.description = "Rechnung schreiben".into();
    t.project = Some("Büro".into());
    t.tags = vec!["finanzen".into()];
    t.annotations = vec![AnnotationInfo {
        entry: 1,
        description: "Vorlage im Ordner".into(),
    }];

    let q = parse_search_query("rechnung").unwrap();
    assert!(query_matches(&t, &q));
    let q = parse_search_query("projekt:büro").unwrap();
    assert!(query_matches(&t, &q));
    let q = parse_search_query("tag:finanzen vorlage").unwrap();
    assert!(query_matches(&t, &q));
    let q = parse_search_query("tag:anderes").unwrap();
    assert!(!query_matches(&t, &q));
    let q = parse_search_query("status:erledigt").unwrap();
    assert!(!query_matches(&t, &q));
}

#[test]
fn projects_and_tags_pools_ignore_completed() {
    let mut a = filter_task(TaskStatus::Pending);
    a.project = Some("Aktiv".into());
    a.tags = vec!["t1".into()];
    let mut b = filter_task(TaskStatus::Completed);
    b.project = Some("Fertig".into());
    b.tags = vec!["t2".into()];
    let mut c = filter_task(TaskStatus::Recurring);
    c.project = Some("Routine".into());
    let v = vec![a, b, c];
    assert_eq!(projects_from(&v), vec!["Aktiv", "Routine"]);
    assert_eq!(tags_from(&v), vec!["t1"]);
}

#[test]
fn local_day_start_lies_near_now() {
    for now in [0i64, 1_700_000_000, 1_751_234_567, -86_400 * 400] {
        let start = start_of_local_day(now);
        assert!(start > now - 3 * 86_400 && start < now + 2 * 86_400);
        let end = end_of_today_exclusive(now);
        assert!(end > now && end - start >= 82_800 && end - start <= 90_000);
    }
}

#[test]
fn free_text_folds_german_spelling_and_tolerates_typos() {
    let mut t = filter_task(TaskStatus::Pending);
    t.description = "Antrag prüfen".into();
    let mut s = filter_task(TaskStatus::Pending);
    s.description = "Straße kehren".into();
    let q = parse_search_query("pruefen").unwrap();
    assert!(query_matches(&t, &q));
    let q = parse_search_query("strasse").unwrap();
    assert!(query_matches(&s, &q));
    let q = parse_search_query("prüfem").unwrap();
    assert!(query_matches(&t, &q));
    let q = parse_search_query("PRUFEN").unwrap();
    assert!(query_matches(&t, &q));
    // Three letters or fewer must match exactly.
    let q = parse_search_query("ant").unwrap();
    assert!(query_matches(&t, &q));
    let q = parse_search_query("anx").unwrap();
    assert!(!query_matches(&t, &q));
    // Two edits are too many.
    let q = parse_search_query("prxxen").unwrap();
    assert!(!query_matches(&t, &q));
    // Operators stay exact.
    let mut p = filter_task(TaskStatus::Pending);
    p.project = Some("Garten".into());
    let q = parse_search_query("projekt:garden").unwrap();
    assert!(!query_matches(&p, &q));
}

#[test]
fn sorting_keeps_equal_tasks_in_input_order() {
    let mut v = Vec::new();
    for (uuid, desc) in [("a", "Gleich"), ("b", "anders"), ("c", "gleich"), ("d", "GLEICH")] {
        let mut t = filter_task(TaskStatus::Pending);
        t.uuid = uuid.into();
        t.description = desc.into();
        v.push(t);
    }
    let mut up = v.clone();
    sort_tasks(&mut up, SortOrder::Description, true);
    let ids: Vec<&str> = up.iter().map(|t| t.uuid.as_str()).collect();
    assert_eq!(ids, vec!["b", "a", "c", "d"]);
    let mut down = v.clone();
    sort_tasks(&mut down, SortOrder::Description, false);
    let ids: Vec<&str> = down.iter().map(|t| t.uuid.as_str()).collect();
    assert_eq!(ids, vec!["a", "c", "d", "b"]);
}
