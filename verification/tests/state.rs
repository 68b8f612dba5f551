use vergissmeinnicht::secrets::{write_request, StoreRequest};
use vergissmeinnicht::backup::{
    backup_file_name, is_backup_file, is_safe_backup_name, rotation_victims,
    sort_backups_newest_first, timestamp_name, BackupEntry, MAX_ROTATED,
};
use vergissmeinnicht::backup::db_path;
use vergissmeinnicht::config::{backup_dir, config_path, data_dir, replica_dir, SavedSearch};
use vergissmeinnicht::filters::{parse_search_query, SidebarFilter};
use vergissmeinnicht::state::{
    add_saved_search, count_matching, delete_saved_search, is_visible, project_affected,
    rename_saved_search, reparatur, save_search, saved_search_query, status_key, tag_affected,
};
use vergissmeinnicht::task::{TaskInfo, TaskStatus};
use vergissmeinnicht::ui::{
    clamp_due_soon_days, clamp_sidebar_width, opt_secs, opt_string, overdue_notification,
    split_tags, sync_action, sync_configured_from, SyncAction,
};

fn state_task(uuid: &str, status: TaskStatus) -> TaskInfo {
    TaskInfo {
        uuid: uuid.into(),
        description: "Test".into(),
        project: None,
        tags: vec![],
        due: None,
        status,
        entry: None,
        working_set_id: None,
        priority: None,
        annotations: vec![],
        wait: None,
        recur: None,
        scheduled: None,
        depends: vec![],
        is_blocked: false,
        is_blocking: false,
        is_recurring_child: false,
        start: None,
        until: None,
        modified: None,
        udas: vec![],
    }
}

const JETZT: i64 = 1_800_000_000;

#[test]
fn saved_search_crud_and_duplicate_detection() {
    let mut suchen: Vec<SavedSearch> = Vec::new();
    let id = add_saved_search(
        &mut suchen,
        "Büro offen",
        "projekt:büro status:offen",
        "id-1".into(),
    )
    .unwrap();
    assert!(
        add_saved_search(&mut suchen, "büro OFFEN", "x", "id-2".into()).is_err(),
        "Duplikat muss abgelehnt werden"
    );
    assert_eq!(
        saved_search_query(&suchen, &id).as_deref(),
        Some("projekt:büro status:offen")
    );
    rename_saved_search(&mut suchen, &id, "Arbeit").unwrap();
    delete_saved_search(&mut suchen, &id);
    assert!(suchen.is_empty());
}

#[test]
fn saved_search_errors() {
    let mut suchen: Vec<SavedSearch> = Vec::new();
    assert_eq!(
        add_saved_search(&mut suchen, "  ", "x", "a".into()),
        Err("Name und Suchanfrage dürfen nicht leer sein".to_string())
    );
    add_saved_search(&mut suchen, " Büro ", " tag:x ", "a".into()).unwrap();
    assert_eq!(suchen[0].name, "Büro");
    assert_eq!(suchen[0].query, "tag:x");
    assert_eq!(
        add_saved_search(&mut suchen, "BÜRO", "y", "b".into()),
        Err("Suche „BÜRO“ existiert bereits".to_string())
    );
    assert_eq!(
        rename_saved_search(&mut suchen, "fehlt", "Neu"),
        Err("Gespeicherte Suche nicht gefunden".to_string())
    );
    assert_eq!(
        rename_saved_search(&mut suchen, "a", " "),
        Err("Name darf nicht leer sein".to_string())
    );
    rename_saved_search(&mut suchen, "a", " Neu ").unwrap();
    assert_eq!(suchen[0].name, "Neu");
    assert_eq!(saved_search_query(&suchen, "fehlt"), None);
}

#[test]
fn visible_list_and_counts() {
    let mut offen = state_task("a", TaskStatus::Pending);
    offen.description = "Rechnung".into();
    let erledigt = state_task("b", TaskStatus::Completed);
    let mut mit_projekt = state_task("c", TaskStatus::Pending);
    mit_projekt.project = Some("Büro".into());
    let alle = vec![offen.clone(), erledigt.clone(), mit_projekt.clone()];

    assert!(is_visible(&offen, &SidebarFilter::Inbox, &None, true, JETZT, 7, JETZT + 10));
    assert!(!is_visible(&erledigt, &SidebarFilter::All, &None, true, JETZT, 7, JETZT + 10));
    assert!(is_visible(&erledigt, &SidebarFilter::All, &None, false, JETZT, 7, JETZT + 10));
    let suche = parse_search_query("rechnung");
    assert!(is_visible(&offen, &SidebarFilter::Todo, &suche, true, JETZT, 7, JETZT + 10));
    assert!(!is_visible(&mit_projekt, &SidebarFilter::All, &suche, false, JETZT, 7, JETZT + 10));

    assert_eq!(count_matching(&alle, &SidebarFilter::Inbox, JETZT, 7, JETZT + 10), 1);
    assert_eq!(count_matching(&alle, &SidebarFilter::Todo, JETZT, 7, JETZT + 10), 2);
    assert_eq!(
        count_matching(&alle, &SidebarFilter::Project("Büro".into()), JETZT, 7, JETZT + 10),
        1
    );
    assert_eq!(status_key(TaskStatus::Recurring), "recurring");
}

#[test]
fn rename_touches_exact_project_and_tag() {
    let mut a = state_task("a", TaskStatus::Pending);
    a.project = Some("Büro".into());
    a.tags = vec!["x".into()];
    let mut b = state_task("b", TaskStatus::Deleted);
    b.project = Some("Büro".into());
    let mut c = state_task("c", TaskStatus::Pending);
    c.project = Some("Büro.Sub".into());
    c.tags = vec!["X".into(), "x".into()];
    let alle = vec![a, b, c];
    assert_eq!(project_affected(&alle, "Büro", true), vec!["a"]);
    assert_eq!(project_affected(&alle, "Büro", false), vec!["a", "b"]);
    assert_eq!(tag_affected(&alle, "x"), vec!["a", "c"]);
}

#[test]
fn legacy_descriptions_are_repaired() {
    let mut t = state_task("a", TaskStatus::Pending);
    t.description = "Milch kaufen +einkauf project:haus priority:h".into();
    t.tags = vec!["alt".into(), "einkauf".into()];
    let r = reparatur(&t).unwrap();
    assert_eq!(r.description, "Milch kaufen");
    assert_eq!(r.project.as_deref(), Some("haus"));
    assert_eq!(r.tags, vec!["alt", "einkauf"]);
    assert_eq!(r.priority.as_deref(), Some("H"));
    assert_eq!(r.due_token, None);

    let mut sauber = state_task("b", TaskStatus::Pending);
    sauber.description = "Nur Text".into();
    assert!(reparatur(&sauber).is_none());
    let mut erledigt = state_task("c", TaskStatus::Completed);
    erledigt.description = "x +tag".into();
    assert!(reparatur(&erledigt).is_none());
}

// ─── Backups ────────────────────────────────────────────────────────────────

#[test]
fn restore_rejects_path_traversal() {
    assert!(!is_safe_backup_name("../evil.sqlite3"));
    assert!(!is_safe_backup_name("sub/datei.sqlite3"));
    assert!(is_safe_backup_name("pre-sync-20260101-120000.sqlite3"));
}

#[test]
fn rotation_keeps_the_newest_ten() {
    let mut namen: Vec<String> = (0..13)
        .map(|i| backup_file_name("pre-sync", &format!("202601{:02}-120000", i + 1)))
        .collect();
    namen.push("manuell-20250101-000000.sqlite3".into());
    namen.push("pre-sync-notiz.txt".into());
    namen.reverse();
    let weg = rotation_victims(&namen, "pre-sync");
    assert_eq!(MAX_ROTATED, 10);
    assert_eq!(
        weg,
        vec![
            "pre-sync-20260101-120000.sqlite3",
            "pre-sync-20260102-120000.sqlite3",
            "pre-sync-20260103-120000.sqlite3",
        ]
    );
    assert!(rotation_victims(&namen[..5].to_vec(), "pre-sync").is_empty());
    assert!(is_backup_file("x.sqlite3"));
    assert!(!is_backup_file("x.sqlite"));
}

#[test]
fn backups_are_listed_newest_first() {
    let eintrag = |name: &str| BackupEntry {
        filename: name.into(),
        size_bytes: 1,
        modified: 0,
    };
    let mut v = vec![
        eintrag("manual-20260101-000000.sqlite3"),
        eintrag("pre-sync-20260301-000000.sqlite3"),
        eintrag("pre-sync-20260201-000000.sqlite3"),
    ];
    sort_backups_newest_first(&mut v);
    let namen: Vec<&str> = v.iter().map(|e| e.filename.as_str()).collect();
    assert_eq!(
        namen,
        vec![
            "pre-sync-20260301-000000.sqlite3",
            "pre-sync-20260201-000000.sqlite3",
            "manual-20260101-000000.sqlite3",
        ]
    );
}

// ─── Interface helpers ──────────────────────────────────────────────────────

#[test]
fn interface_values_are_normalised() {
    assert_eq!(opt_secs(0), None);
    assert_eq!(opt_secs(5), Some(5));
    assert_eq!(opt_string("  "), None);
    assert_eq!(opt_string(" Büro "), Some("Büro".to_string()));
    assert_eq!(split_tags(" +a  b + "), vec!["a", "b"]);
    assert_eq!(clamp_due_soon_days(0), 1);
    assert_eq!(clamp_due_soon_days(90), 60);
    assert_eq!(clamp_due_soon_days(14), 14);
    assert_eq!(clamp_sidebar_width(-3), 0);
    assert_eq!(clamp_sidebar_width(247), 247);
}

#[test]
fn sync_decisions() {
    assert!(sync_configured_from(
        "https://sync.example.com",
        &Ok(Some("id".into())),
        &Ok(Some("geheim".into()))
    ));
    assert!(!sync_configured_from("  ", &Ok(Some("id".into())), &Ok(Some("geheim".into()))));
    assert!(!sync_configured_from(
        "https://sync.example.com",
        &Ok(Some(String::new())),
        &Ok(Some("geheim".into()))
    ));
    assert!(!sync_configured_from(
        "https://sync.example.com",
        &Err("kein Dienst".into()),
        &Ok(Some("geheim".into()))
    ));
    assert_eq!(sync_action(true, true, true, None, None), SyncAction::Ignore);
    assert_eq!(sync_action(false, false, true, None, None), SyncAction::RefreshOnly);
    assert_eq!(
        sync_action(false, true, true, Some("id".into()), Some(String::new())),
        SyncAction::MarkUnconfigured
    );
    assert_eq!(
        sync_action(false, true, true, Some("id".into()), Some("s".into())),
        SyncAction::Sync {
            client_id: "id".into(),
            secret: "s".into()
        }
    );
}

#[test]
fn overdue_notification_does_not_nag() {
    assert_eq!(
        overdue_notification(true, 1, 0),
        Some("1 Aufgabe ist überfällig.".to_string())
    );
    assert_eq!(
        overdue_notification(true, 3, 1),
        Some("3 Aufgaben sind überfällig.".to_string())
    );
    assert_eq!(overdue_notification(true, 3, 3), None);
    assert_eq!(overdue_notification(false, 3, 0), None);
    assert_eq!(overdue_notification(true, 0, -1), None);
}

#[test]
fn db_path_lies_in_the_replica_directory() {
    let dir = std::path::PathBuf::from("/tmp/replica-here");
    assert_eq!(
        db_path(&dir),
        std::path::PathBuf::from("/tmp/replica-here/taskchampion.sqlite3")
    );
}

#[test]
fn data_paths_end_in_the_application_directories() {
    assert!(config_path().ends_with("vergissmeinnicht/config.json"));
    assert!(data_dir().ends_with("vergissmeinnicht"));
    assert!(replica_dir().ends_with("vergissmeinnicht/replica"));
    assert!(backup_dir().ends_with("vergissmeinnicht/backups"));
}

#[test]
fn save_search_gives_a_fresh_uuid() {
    let mut searches: Vec<SavedSearch> = vec![];
    let id = save_search(&mut searches, "  Arbeit ", " project:Work ").unwrap();
    assert_eq!(id.len(), 36);
    assert_eq!(id.chars().filter(|c| *c == '-').count(), 4);
    assert_eq!(searches.len(), 1);
    assert_eq!(searches[0].id, id);
    assert_eq!(searches[0].name, "Arbeit");
    assert_eq!(searches[0].query, "project:Work");
    assert_eq!(
        save_search(&mut searches, "ARBEIT", "x"),
        Err("Suche „ARBEIT“ existiert bereits".to_string())
    );
    let other = save_search(&mut searches, "Privat", "+home").unwrap();
    assert_ne!(other, id);
}

#[test]
fn timestamp_name_is_a_backup_file_of_its_prefix() {
    let name = timestamp_name("auto");
    assert!(name.starts_with("auto-"));
    assert!(name.ends_with(".sqlite3"));
    assert_eq!(name.len(), "auto-20250101-120000.sqlite3".len());
    assert!(is_backup_file(&name));
}

#[test]
fn secret_writes_delete_on_empty_values() {
    match write_request("dienst", "schluessel", "") {
        StoreRequest::Delete { service, key } => {
            assert_eq!(service, "dienst");
            assert_eq!(key, "schluessel");
        }
        other => panic!("unexpected {:?}", other),
    }
    match write_request("dienst", "schluessel", "wert") {
        StoreRequest::Write { service, key, value } => {
            assert_eq!((service.as_str(), key.as_str(), value.as_str()), ("dienst", "schluessel", "wert"));
        }
        other => panic!("unexpected {:?}", other),
    }
}
