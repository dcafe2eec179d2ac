use tracky::repl::{handle_repl, REPLAction};
use tracky::tracker::{Project, TimeTracker};

fn run(tracker: &mut TimeTracker, line: &str, now: u64) -> (Result<REPLAction, String>, Vec<String>) {
    let mut out: Vec<String> = Vec::new();
    let r = handle_repl(tracker, line, now, &mut out);
    (r, out)
}

#[test]
fn help() {
    let mut tracker = TimeTracker::new();

    let (r, out) = run(&mut tracker, "help", 0);
    assert_eq!(REPLAction::Continue, r.unwrap());
    assert_eq!(8, out.len());
    assert_eq!("Available commands:", out[0]);
}

#[test]
fn list() {
    let mut tracker = TimeTracker::new();

    let (r, out) = run(&mut tracker, "list", 0);
    assert_eq!(REPLAction::Continue, r.unwrap());
    assert_eq!(vec!["No projects found - use add to change this!".to_string()], out);
}

#[test]
fn list_tasks() {
    let mut tracker = TimeTracker::new();

    let (r, _) = run(&mut tracker, "list Test", 0);
    assert_eq!("Project Test not known!", r.unwrap_err());

    tracker.add_project(Project::new("Test"));

    let (r, out) = run(&mut tracker, "list Test", 0);
    assert_eq!(REPLAction::Continue, r.unwrap());
    assert_eq!(vec!["Tasks for project Test".to_string()], out);
}

#[test]
fn list_tasks_unknown_project() {
    let mut tracker = TimeTracker::new();
    let (r, out) = run(&mut tracker, "list Test", 0);
    assert_eq!("Project Test not known!", r.unwrap_err());
    assert!(out.is_empty());
}

#[test]
fn unknown_cmd() {
    let mut tracker = TimeTracker::new();
    let (r, _) = run(&mut tracker, "unknown", 0);
    assert_eq!("Unknown command 'unknown'!", r.unwrap_err());
}

#[test]
fn empty_cmd() {
    let mut tracker = TimeTracker::new();
    let (r, _) = run(&mut tracker, "", 0);
    assert_eq!("Enter a command - use help for a list of commands", r.unwrap_err());
}

#[test]
fn quit_and_exit() {
    let mut tracker = TimeTracker::new();
    let (r, _) = run(&mut tracker, "quit", 0);
    assert_eq!(REPLAction::Quit, r.unwrap());
    let (r, _) = run(&mut tracker, "exit", 0);
    assert_eq!(REPLAction::Quit, r.unwrap());
}

#[test]
fn whitespace_only_line_is_empty_command() {
    let mut tracker = TimeTracker::new();
    let (r, _) = run(&mut tracker, " \t  ", 0);
    assert_eq!("Enter a command - use help for a list of commands", r.unwrap_err());
}

#[test]
fn add_project_reports_and_lists() {
    let mut tracker = TimeTracker::new();

    let (r, out) = run(&mut tracker, "add project Test", 0);
    assert_eq!(REPLAction::Continue, r.unwrap());
    assert_eq!(vec!["Added new project Test".to_string()], out);

    let (r, out) = run(&mut tracker, "list", 0);
    assert_eq!(REPLAction::Continue, r.unwrap());
    assert_eq!(vec!["All projects:".to_string(), " - Test".to_string()], out);
}

#[test]
fn add_task_and_finish_by_activity() {
    let mut tracker = TimeTracker::new();

    run(&mut tracker, "add project P", 0).0.unwrap();
    let (r, out) = run(&mut tracker, "add task P work", 100);
    assert_eq!(REPLAction::Continue, r.unwrap());
    assert_eq!(vec!["Started task work (running)".to_string()], out);

    let (r, out) = run(&mut tracker, "finish P work", 142);
    assert_eq!(REPLAction::Continue, r.unwrap());
    assert_eq!(vec!["Finished work (done) took 42s".to_string()], out);

    let (r, out) = run(&mut tracker, "list P", 142);
    assert_eq!(REPLAction::Continue, r.unwrap());
    assert_eq!(
        vec!["Tasks for project P".to_string(), " - work (done) took 42s".to_string()],
        out
    );
}

#[test]
fn finish_without_activity_takes_latest() {
    let mut tracker = TimeTracker::new();

    run(&mut tracker, "add project P", 0).0.unwrap();
    run(&mut tracker, "add task P first", 10).0.unwrap();
    run(&mut tracker, "add task P second", 20).0.unwrap();

    let (r, out) = run(&mut tracker, "finish P", 25);
    assert_eq!(REPLAction::Continue, r.unwrap());
    assert_eq!(vec!["Finished second (done) took 5s".to_string()], out);

    let (r, out) = run(&mut tracker, "list P", 25);
    assert_eq!(REPLAction::Continue, r.unwrap());
    assert_eq!(
        vec![
            "Tasks for project P".to_string(),
            " - first (running)".to_string(),
            " - second (done) took 5s".to_string(),
        ],
        out
    );
}

#[test]
fn error_sub_command_needed() {
    let mut tracker = TimeTracker::new();
    assert_eq!("Sub-command needed!", run(&mut tracker, "add", 0).0.unwrap_err());
}

#[test]
fn error_unknown_sub_command() {
    let mut tracker = TimeTracker::new();
    assert_eq!(
        "Unknown sub-command 'frobnicate'!",
        run(&mut tracker, "add frobnicate", 0).0.unwrap_err()
    );
}

#[test]
fn error_project_name_required() {
    let mut tracker = TimeTracker::new();
    assert_eq!("New project name required!", run(&mut tracker, "add project", 0).0.unwrap_err());
}

#[test]
fn error_add_task_missing_args() {
    let mut tracker = TimeTracker::new();
    assert_eq!("Project name needed!", run(&mut tracker, "add task", 0).0.unwrap_err());
    assert_eq!("New entry activity needed!", run(&mut tracker, "add task P", 0).0.unwrap_err());
}

#[test]
fn error_add_task_unknown_project() {
    let mut tracker = TimeTracker::new();
    assert_eq!("Project Nope not known!", run(&mut tracker, "add task Nope x", 0).0.unwrap_err());
}

#[test]
fn error_finish_missing_project() {
    let mut tracker = TimeTracker::new();
    assert_eq!("Project name needed!", run(&mut tracker, "finish", 0).0.unwrap_err());
    assert_eq!("Project Nope not known!", run(&mut tracker, "finish Nope", 0).0.unwrap_err());
}

#[test]
fn error_no_tasks_to_finish() {
    let mut tracker = TimeTracker::new();
    run(&mut tracker, "add project P", 0).0.unwrap();
    assert_eq!("No tasks to finish!", run(&mut tracker, "finish P", 0).0.unwrap_err());
    run(&mut tracker, "add task P work", 0).0.unwrap();
    assert_eq!("No tasks to finish!", run(&mut tracker, "finish P other", 0).0.unwrap_err());
}

#[test]
fn error_duplicate_project_name() {
    let mut tracker = TimeTracker::new();
    run(&mut tracker, "add project Test", 0).0.unwrap();
    assert_eq!(
        "Project Test already exists!",
        run(&mut tracker, "add project Test", 0).0.unwrap_err()
    );
    let (r, out) = run(&mut tracker, "list", 0);
    assert_eq!(REPLAction::Continue, r.unwrap());
    assert_eq!(vec!["All projects:".to_string(), " - Test".to_string()], out);
}

#[test]
fn extra_tokens_are_ignored() {
    let mut tracker = TimeTracker::new();
    let (r, _) = run(&mut tracker, "help me please", 0);
    assert_eq!(REPLAction::Continue, r.unwrap());
    let (r, out) = run(&mut tracker, "add project A B", 0);
    assert_eq!(REPLAction::Continue, r.unwrap());
    assert_eq!(vec!["Added new project A".to_string()], out);
}
