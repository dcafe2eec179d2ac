use tracky::tracker::{Project, StartedTask, Task, TaskItem, TaskState, TimeTracker};

#[test]
fn started_task_carries_activity_and_start() {
    let t = StartedTask::new("reading", 77);
    assert_eq!("reading", t.activity());
    assert_eq!(77, t.start());
    assert!(matches!(t.state(), TaskState::Started));
}

#[test]
fn start_task_appears_started_and_not_finished() {
    let mut p = Project::new("P");
    p.start_task("a", 5);
    let items = p.all_tasks();
    assert_eq!(1, items.len());
    match &items[0] {
        TaskItem::Started(t) => {
            assert_eq!("a", t.activity());
            assert_eq!(5, t.start());
        },
        TaskItem::Finished(_) => panic!("the new task must be running, not finished"),
    }
}

#[test]
fn finish_task_takes_first_match_in_insertion_order() {
    let mut p = Project::new("P");
    p.start_task("a", 10);
    p.start_task("a", 20);
    p.start_task("b", 30);

    let ft = p.finish_task("a", 40).expect("a running task named a exists");
    assert_eq!("a", ft.activity());
    assert_eq!(10, ft.start());
    assert_eq!(40, ft.end());
    assert_eq!(30, ft.duration());
    assert!(matches!(ft.state(), TaskState::Finished));

    // The second "a" and "b" are still running; the record moved to finished.
    let items = p.all_tasks();
    assert_eq!(3, items.len());
    match &items[0] {
        TaskItem::Started(t) => {
            assert_eq!("a", t.activity());
            assert_eq!(20, t.start());
        },
        _ => panic!("first running task must remain"),
    }
    match &items[2] {
        TaskItem::Finished(t) => assert_eq!(10, t.start()),
        _ => panic!("the finished record must be listed after running tasks"),
    }
}

#[test]
fn finish_task_without_match_changes_nothing() {
    let mut p = Project::new("P");
    p.start_task("a", 10);
    assert!(p.finish_task("zzz", 40).is_none());
    let items = p.all_tasks();
    assert_eq!(1, items.len());
    assert!(matches!(&items[0], TaskItem::Started(_)));
}

#[test]
fn finish_last_task_on_empty_is_absent() {
    let mut p = Project::new("P");
    assert!(p.finish_last_task(40).is_none());
}

#[test]
fn finish_last_task_takes_latest_regardless_of_name() {
    let mut p = Project::new("P");
    p.start_task("a", 10);
    p.start_task("b", 20);
    let ft = p.finish_last_task(50).expect("a running task exists");
    assert_eq!("b", ft.activity());
    assert_eq!(20, ft.start());
    assert_eq!(30, ft.duration());
}

#[test]
fn duration_is_clamped_to_one_second() {
    let mut p = Project::new("P");
    p.start_task("a", 100);
    p.start_task("b", 100);
    p.start_task("c", 100);
    // Finishing at the same instant, or earlier under clock skew,
    // still records one second.
    assert_eq!(1, p.finish_task("a", 100).unwrap().duration());
    assert_eq!(1, p.finish_task("b", 90).unwrap().duration());
    assert_eq!(42, p.finish_task("c", 142).unwrap().duration());
}

#[test]
fn project_name_is_kept() {
    let p = Project::new("Side Quest");
    assert_eq!("Side Quest", p.name());
}

#[test]
fn tracker_add_project_rejects_duplicate_names() {
    let mut tracker = TimeTracker::new();
    assert!(tracker.add_project(Project::new("A")));
    assert!(tracker.add_project(Project::new("B")));
    assert!(!tracker.add_project(Project::new("A")));
    assert_eq!(2, tracker.projects().len());
}

#[test]
fn tracker_find_project_is_by_exact_name() {
    let mut tracker = TimeTracker::new();
    tracker.add_project(Project::new("Alpha"));
    tracker.add_project(Project::new("Beta"));
    assert_eq!(Some(0), tracker.find_project("Alpha"));
    assert_eq!(Some(1), tracker.find_project("Beta"));
    assert_eq!(None, tracker.find_project("alpha"));
    assert_eq!(None, tracker.find_project("Gamma"));
}

#[test]
fn tracker_task_mutation_through_indices() {
    let mut tracker = TimeTracker::new();
    tracker.add_project(Project::new("P"));
    let i = tracker.find_project("P").unwrap();
    tracker.start_task_in(i, "work", 100);
    let ft = tracker.finish_task_in(i, "work", 300).expect("work is running");
    assert_eq!(200, ft.duration());
    assert!(tracker.finish_last_in(i, 300).is_none());
}
