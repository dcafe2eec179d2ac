use tracky::tracker::{Project, Task, TaskItem, TimeTracker};
use tracky::text::u64_to_string;

#[test]
fn numbers_render_in_decimal() {
    assert_eq!("0", u64_to_string(0));
    assert_eq!("7", u64_to_string(7));
    assert_eq!("42", u64_to_string(42));
    assert_eq!("1000000", u64_to_string(1000000));
    assert_eq!("18446744073709551615", u64_to_string(u64::MAX));
}

#[test]
fn empty_tracker_snapshot_is_just_the_count() {
    let tracker = TimeTracker::new();
    assert_eq!("0;", tracker.save());
}

#[test]
fn snapshot_of_one_project_round_trips() {
    let mut tracker = TimeTracker::new();
    tracker.add_project(Project::new("P"));
    let i = tracker.find_project("P").unwrap();
    tracker.start_task_in(i, "work", 100);

    let text = tracker.save();
    let back = TimeTracker::load(&text).expect("a saved snapshot must load");
    assert_eq!(1, back.projects().len());
    assert_eq!("P", back.projects()[0].name());
    let items = back.projects()[0].all_tasks();
    assert_eq!(1, items.len());
    match &items[0] {
        TaskItem::Started(t) => {
            assert_eq!("work", t.activity());
            assert_eq!(100, t.start());
        },
        _ => panic!("the running task must come back running"),
    }
}

#[test]
fn snapshot_round_trip_keeps_names_states_and_durations() {
    let mut tracker = TimeTracker::new();
    tracker.add_project(Project::new("Alpha"));
    tracker.add_project(Project::new("Beta"));
    let a = tracker.find_project("Alpha").unwrap();
    let b = tracker.find_project("Beta").unwrap();
    tracker.start_task_in(a, "read", 10);
    tracker.start_task_in(a, "write", 20);
    tracker.finish_task_in(a, "read", 75);
    tracker.start_task_in(b, "12;34;", 30);
    tracker.finish_last_in(b, 30);

    let text = tracker.save();
    let back = TimeTracker::load(&text).expect("a saved snapshot must load");

    assert_eq!(2, back.projects().len());
    assert_eq!("Alpha", back.projects()[0].name());
    assert_eq!("Beta", back.projects()[1].name());

    let alpha = back.projects()[0].all_tasks();
    assert_eq!(2, alpha.len());
    match &alpha[0] {
        TaskItem::Started(t) => {
            assert_eq!("write", t.activity());
            assert_eq!(20, t.start());
        },
        _ => panic!("write must still be running"),
    }
    match &alpha[1] {
        TaskItem::Finished(t) => {
            assert_eq!("read", t.activity());
            assert_eq!(10, t.start());
            assert_eq!(75, t.end());
            assert_eq!(65, t.duration());
        },
        _ => panic!("read must be finished"),
    }

    // An activity that looks like snapshot syntax survives, because
    // text is length-prefixed.
    let beta = back.projects()[1].all_tasks();
    assert_eq!(1, beta.len());
    match &beta[0] {
        TaskItem::Finished(t) => {
            assert_eq!("12;34;", t.activity());
            assert_eq!(1, t.duration());
        },
        _ => panic!("the Beta task must be finished"),
    }
}

#[test]
fn load_rejects_garbage() {
    assert!(TimeTracker::load("").is_err());
    assert!(TimeTracker::load("hello").is_err());
    assert!(TimeTracker::load(";").is_err());
    assert!(TimeTracker::load("1;").is_err());
    assert!(TimeTracker::load("0").is_err());
    assert_eq!("invalid snapshot", TimeTracker::load("nonsense").unwrap_err());
}

#[test]
fn load_rejects_trailing_text() {
    assert!(TimeTracker::load("0;x").is_err());
}

#[test]
fn load_rejects_numbers_too_large_for_time() {
    // One project, no tasks, but the project count does not fit 64 bits.
    assert!(TimeTracker::load("99999999999999999999999999;").is_err());
}

#[test]
fn load_rejects_ill_formed_trackers() {
    // A project whose name is empty.
    assert!(TimeTracker::load("1;0;;0;0;").is_err());
    // Two projects under the same name.
    let mut tracker = TimeTracker::new();
    tracker.add_project(Project::new("P"));
    let one = tracker.save();
    let project_part = &one[2..];
    let twice = format!("2;{}{}", project_part, project_part);
    assert!(TimeTracker::load(&twice).is_err());
    // A finished task with a zero duration.
    assert!(TimeTracker::load("1;1;P0;1;1;a1;2;0;").is_err());
}

#[test]
fn load_accepts_only_what_save_writes() {
    let mut tracker = TimeTracker::new();
    tracker.add_project(Project::new("P"));
    let text = tracker.save();
    assert_eq!("1;1;P0;0;", text);
    let back = TimeTracker::load(&text).unwrap();
    assert_eq!("P", back.projects()[0].name());
}
