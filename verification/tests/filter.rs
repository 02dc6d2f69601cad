use fast_forward::events::App;
use fast_forward::list::List;

fn entry(name: &str, pid: u32, path: &str) -> App {
    App {
        name: String::from(name),
        pid,
        path: String::from(path),
        icon: String::from(""),
    }
}

fn names(list: &[App]) -> Vec<String> {
    list.iter().map(|a| a.name.clone()).collect()
}

#[test]
fn empty_query_suppresses_non_running_entries() {
    let list = vec![
        entry("Safari", 10, "/Applications/Safari.app"),
        entry("Notes", 0, "/Applications/Notes.app"),
        entry("Foo", 0, "/Users/x/Foo.app"),
    ];
    let r = List::filter("", list);
    assert_eq!(names(&r), vec![String::from("Safari")]);
}

#[test]
fn query_keeps_only_fuzzy_matches() {
    let list = vec![
        entry("Safari", 10, "/Applications/Safari.app"),
        entry("Notes", 0, "/Applications/Notes.app"),
        entry("Foo", 0, "/Users/x/Foo.app"),
    ];
    let r = List::filter("no", list);
    assert_eq!(names(&r), vec![String::from("Notes")]);
}

#[test]
fn at_most_three_non_running_entries_in_matched_order() {
    let list = vec![
        entry("app1", 0, "/Users/x/app1.app"),
        entry("app2", 0, "/Users/x/app2.app"),
        entry("app3", 0, "/Users/x/app3.app"),
        entry("app4", 0, "/Users/x/app4.app"),
        entry("app5", 0, "/Users/x/app5.app"),
    ];
    let r = List::filter("app", list);
    assert_eq!(r.len(), 3);
    assert_eq!(
        names(&r),
        vec![String::from("app1"), String::from("app2"), String::from("app3")]
    );
}

#[test]
fn running_entries_precede_non_running_ones() {
    let list = vec![
        entry("app other", 0, "/Users/x/appother.app"),
        entry("app bundled", 0, "/Applications/appbundled.app"),
        entry("app running", 7, "/Applications/apprunning.app"),
    ];
    let r = List::filter("app", list);
    assert_eq!(r.len(), 3);
    assert_eq!(r[0].name, "app running");
    assert_eq!(r[1].name, "app bundled");
    assert_eq!(r[2].name, "app other");
}

#[test]
fn better_match_ranks_higher() {
    let list = vec![
        entry("x y safari", 1, "/Applications/Other.app"),
        entry("Safari", 2, "/Applications/Safari.app"),
    ];
    let r = List::filter("safari", list);
    assert_eq!(r.len(), 2);
    assert_eq!(r[0].name, "Safari");
}

#[test]
fn ties_keep_prior_relative_order() {
    let list = vec![
        entry("same1", 1, "/Applications/A.app"),
        entry("same2", 2, "/Applications/B.app"),
        entry("same3", 3, "/Applications/C.app"),
    ];
    let r = List::filter("same", list);
    assert_eq!(
        names(&r),
        vec![String::from("same1"), String::from("same2"), String::from("same3")]
    );
}
