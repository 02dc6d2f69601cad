use fast_forward::applications::{ActionType, Applications, IndexType, OsRequest};
use fast_forward::events::App;

fn entry(name: &str, pid: u32, path: &str) -> App {
    App {
        name: String::from(name),
        pid,
        path: String::from(path),
        icon: String::from(""),
    }
}

#[test]
fn upsert_front_replaces_prior_entry() {
    let mut apps = Applications::new();
    let mut query = String::new();
    apps.update_list(vec![
        entry("Safari", 10, "/Applications/Safari.app"),
        entry("Mail", 11, "/Applications/Mail.app"),
    ]);

    let e = entry("Mail", 12, "/Applications/Mail.app");
    apps.update_list_entry(Some(&e), Some(IndexType::Start), false, &mut query);
    let e2 = entry("Mail", 13, "/Applications/Mail.app");
    apps.update_list_entry(Some(&e2), Some(IndexType::Start), false, &mut query);

    let names: Vec<&str> = apps.list.iter().map(|a| a.name.as_str()).collect();
    assert_eq!(names, vec!["Mail", "Safari"]);
    assert_eq!(apps.list.iter().filter(|a| a.name == "Mail").count(), 1);
    assert_eq!(apps.list[0].pid, 13);
}

#[test]
fn upsert_at_end_moves_entry_to_back() {
    let mut apps = Applications::new();
    let mut query = String::new();
    apps.update_list(vec![
        entry("Safari", 10, "/Applications/Safari.app"),
        entry("Mail", 11, "/Applications/Mail.app"),
    ]);

    let e = entry("Safari", 10, "/Applications/Safari.app");
    apps.update_list_entry(Some(&e), Some(IndexType::End), true, &mut query);
    let names: Vec<&str> = apps.list.iter().map(|a| a.name.as_str()).collect();
    assert_eq!(names, vec!["Mail", "Safari"]);
    assert_eq!(apps.index, 0);
}

#[test]
fn close_marks_entry_not_running() {
    let mut apps = Applications::new();
    let mut query = String::new();
    apps.update_list(vec![entry("Mail", 11, "/Applications/Mail.app")]);

    let e = entry("Mail", 11, "/Applications/Mail.app");
    apps.update_list_entry(Some(&e), None, false, &mut query);
    assert_eq!(apps.list.len(), 1);
    assert_eq!(apps.list[0].name, "Mail");
    assert_eq!(apps.list[0].pid, 0);
}

#[test]
fn update_list_replaces_wholesale_and_ends_loading() {
    let mut apps = Applications::new();
    assert!(apps.loading);
    apps.index = 0;
    apps.update_list(vec![entry("Safari", 10, "/Applications/Safari.app")]);
    assert!(!apps.loading);
    assert_eq!(apps.index, 0);
    assert_eq!(apps.list.len(), 1);
}

#[test]
fn navigation_wraps_around() {
    let mut apps = Applications::new();
    let mut _query = String::new();
    apps.update_list(vec![
        entry("A", 1, "/Applications/A.app"),
        entry("B", 2, "/Applications/B.app"),
        entry("C", 3, "/Applications/C.app"),
    ]);

    apps.index = 2;
    apps.update_active_index("", IndexType::Next);
    assert_eq!(apps.index, 0);

    apps.update_active_index("", IndexType::Previous);
    assert_eq!(apps.index, 2);

    apps.update_active_index("", IndexType::Next);
    assert_eq!(apps.index, 0);
    apps.update_active_index("", IndexType::Start);
    assert_eq!(apps.index, 0);
}

#[test]
fn navigation_on_empty_view_stays_at_zero() {
    let mut apps = Applications::new();
    apps.update_list(Vec::new());
    apps.update_active_index("", IndexType::Next);
    assert_eq!(apps.index, 0);
    apps.update_active_index("", IndexType::Previous);
    assert_eq!(apps.index, 0);
}

#[test]
fn get_index_from_type_values() {
    let list = vec![
        entry("A", 1, "/Applications/A.app"),
        entry("B", 2, "/Applications/B.app"),
        entry("C", 3, "/Applications/C.app"),
    ];
    assert_eq!(Applications::get_index_from_type(&list, 1, IndexType::Start), 0);
    assert_eq!(Applications::get_index_from_type(&list, 1, IndexType::End), 3);
    assert_eq!(Applications::get_index_from_type(&list, 1, IndexType::Next), 2);
    assert_eq!(Applications::get_index_from_type(&list, 2, IndexType::Next), 0);
    assert_eq!(Applications::get_index_from_type(&list, 0, IndexType::Previous), 2);
    assert_eq!(Applications::get_index_from_type(&list, 1, IndexType::Previous), 0);
    let empty: Vec<App> = Vec::new();
    assert_eq!(Applications::get_index_from_type(&empty, 0, IndexType::Next), 0);
    assert_eq!(Applications::get_index_from_type(&empty, 0, IndexType::Previous), 0);
}

#[test]
fn activate_running_entry_moves_it_to_front() {
    let mut apps = Applications::new();
    let mut query = String::new();
    apps.update_list(vec![
        entry("Safari", 10, "/Applications/Safari.app"),
        entry("Mail", 11, "/Applications/Mail.app"),
    ]);
    apps.index = 1;

    let r = apps.execute_action(&mut query, ActionType::Activate);
    assert_eq!(
        r,
        Some(OsRequest::ActivateRunning(entry("Mail", 11, "/Applications/Mail.app")))
    );
    let names: Vec<&str> = apps.list.iter().map(|a| a.name.as_str()).collect();
    assert_eq!(names, vec!["Mail", "Safari"]);
    assert_eq!(apps.index, 1);
    assert_eq!(query, "");
}

#[test]
fn activate_non_running_entry_requests_launch() {
    let mut apps = Applications::new();
    let mut query = String::from("no");
    apps.update_list(vec![
        entry("Safari", 10, "/Applications/Safari.app"),
        entry("Notes", 0, "/Applications/Notes.app"),
    ]);

    let r = apps.execute_action(&mut query, ActionType::Activate);
    assert_eq!(
        r,
        Some(OsRequest::Launch(entry("Notes", 0, "/Applications/Notes.app")))
    );
    assert_eq!(apps.index, 0);
    assert_eq!(query, "");
    assert_eq!(apps.list[0].name, "Notes");
}

#[test]
fn hide_and_quit_are_no_ops_for_non_running_entries() {
    let mut apps = Applications::new();
    let mut query = String::from("no");
    apps.update_list(vec![entry("Notes", 0, "/Applications/Notes.app")]);

    assert_eq!(apps.execute_action(&mut query, ActionType::Hide), None);
    assert_eq!(query, "no");
    assert_eq!(apps.execute_action(&mut query, ActionType::Quit), None);
    assert_eq!(apps.list.len(), 1);
}

#[test]
fn quit_marks_running_entry_not_running_and_resets() {
    let mut apps = Applications::new();
    let mut query = String::new();
    apps.update_list(vec![
        entry("Safari", 10, "/Applications/Safari.app"),
        entry("Mail", 11, "/Applications/Mail.app"),
    ]);
    apps.index = 1;

    let r = apps.execute_action(&mut query, ActionType::Quit);
    assert_eq!(
        r,
        Some(OsRequest::QuitRunning(entry("Mail", 11, "/Applications/Mail.app")))
    );
    assert_eq!(apps.list[1].name, "Mail");
    assert_eq!(apps.list[1].pid, 0);
    assert_eq!(apps.index, 0);
}

#[test]
fn execute_action_on_empty_view_does_nothing() {
    let mut apps = Applications::new();
    let mut query = String::new();
    apps.update_list(Vec::new());
    assert_eq!(apps.execute_action(&mut query, ActionType::Activate), None);
}
