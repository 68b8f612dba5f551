use vergissmeinnicht::config::SavedSearch;
use vergissmeinnicht::sidebar::{
    picker_order, project_tree, project_tree_names, saved_search_order, sidebar_counts, tag_rows,
};
use vergissmeinnicht::task::{TaskInfo, TaskStatus};

fn sidebar_task(uuid: &str, status: TaskStatus) -> TaskInfo {
    TaskInfo {
        uuid: uuid.into(),
        description: uuid.to_uppercase(),
        project: None,
        tags: vec![],
        due: None,
        status,
        entry: None,
        working_set_id: None,
        priority: None,
        annotations: vec![],
        wait: None,
        recur: None,
        scheduled: None,
        depends: vec![],
        is_blocked: false,
        is_blocking: false,
        is_recurring_child: false,
        start: None,
        until: None,
        modified: None,
        udas: vec![],
    }
}

#[test]
fn projects_json_builds_hierarchy_with_implicit_parents() {
    let mut a = sidebar_task("a", TaskStatus::Pending);
    a.project = Some("Work.Sub.Deep".into());
    a.working_set_id = Some(1);
    let mut b = a.clone();
    b.uuid = "b".into();
    b.project = Some("Workshop".into());
    let tasks = vec![a, b];

    let items = project_tree(&tasks);
    let names: Vec<&str> = items.iter().map(|i| i.name.as_str()).collect();
    assert_eq!(names, vec!["Work", "Work.Sub", "Work.Sub.Deep", "Workshop"]);
    assert_eq!(items[0].depth, 0);
    assert!(items[0].has_children);
    assert_eq!(items[0].count, 1);
    assert_eq!(items[2].depth, 2);
    assert_eq!(items[2].label, "Deep");
    assert_eq!(items[3].count, 1);
}

#[test]
fn project_tree_orders_case_insensitively_and_skips_completed() {
    let mut a = sidebar_task("a", TaskStatus::Pending);
    a.project = Some("garten".into());
    let mut b = sidebar_task("b", TaskStatus::Recurring);
    b.project = Some("Büro.Post".into());
    let mut c = sidebar_task("c", TaskStatus::Completed);
    c.project = Some("Alt".into());
    let mut d = sidebar_task("d", TaskStatus::Pending);
    d.project = Some("Garten".into());
    let names = project_tree_names(&[a, b, c, d]);
    assert_eq!(names, vec!["Büro", "Büro.Post", "Garten", "garten"]);
}

#[test]
fn counts_of_the_fixed_entries() {
    let now = 1_800_000_000;
    let mut a = sidebar_task("a", TaskStatus::Pending);
    a.project = Some("privat".into());
    a.tags = vec!["haushalt".into()];
    a.due = Some(now + 86_400);
    let mut w = sidebar_task("w", TaskStatus::Pending);
    w.wait = Some(now + 100);
    let e = sidebar_task("e", TaskStatus::Completed);
    let c = sidebar_counts(&[a, w, e], now, 7, now + 50);
    assert_eq!(c.todo, 1);
    assert_eq!(c.inbox, 0);
    assert_eq!(c.waiting, 1);
    assert_eq!(c.duesoon, 1);
    assert_eq!(c.today, 0);
    assert_eq!(c.all, 3);
}

#[test]
fn tag_rows_count_their_tasks() {
    let mut a = sidebar_task("a", TaskStatus::Pending);
    a.tags = vec!["b".into(), "A".into()];
    let mut b = sidebar_task("b", TaskStatus::Completed);
    b.tags = vec!["b".into()];
    let rows = tag_rows(&[a, b]);
    let flat: Vec<(&str, usize)> = rows.iter().map(|r| (r.name.as_str(), r.count)).collect();
    assert_eq!(flat, vec![("A", 1), ("b", 1)]);
}

#[test]
fn picker_lists_pending_by_working_set_id() {
    let mut a = sidebar_task("a", TaskStatus::Pending);
    a.working_set_id = Some(3);
    let b = sidebar_task("b", TaskStatus::Pending);
    let mut c = sidebar_task("c", TaskStatus::Completed);
    c.working_set_id = Some(1);
    let mut d = sidebar_task("d", TaskStatus::Pending);
    d.working_set_id = Some(2);
    let e = sidebar_task("e", TaskStatus::Pending);
    assert_eq!(picker_order(&[a, b, c, d, e]), vec![3, 0, 1, 4]);
}

#[test]
fn saved_searches_sorted_by_name() {
    let s = |id: &str, name: &str| SavedSearch {
        id: id.into(),
        name: name.into(),
        query: "x".into(),
    };
    let searches = vec![s("1", "zebra"), s("2", "Alpha"), s("3", "beta"), s("4", "alpha")];
    assert_eq!(saved_search_order(&searches), vec![1, 3, 2, 0]);
}

#[test]
fn project_counts_leave_completed_tasks_out() {
    let mut a = sidebar_task("a", TaskStatus::Pending);
    a.project = Some("Work".into());
    let mut b = sidebar_task("b", TaskStatus::Completed);
    b.project = Some("Work".into());
    let mut c = sidebar_task("c", TaskStatus::Recurring);
    c.project = Some("Work.Sub".into());
    let items = project_tree(&[a, b, c]);
    let flat: Vec<(&str, usize)> = items.iter().map(|i| (i.name.as_str(), i.count)).collect();
    assert_eq!(flat, vec![("Work", 2), ("Work.Sub", 1)]);
}
