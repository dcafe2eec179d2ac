//! The command dispatcher: one line of input maps to exactly one
//! tracker mutation or query, a run of output lines, and either a
//! result or a single error.
//!
//! The grammar is whitespace-tokenized, first token first:
//! `add project <name>`, `add task <project> <activity>`, `list`,
//! `list <project>`, `finish <project> [activity]`, `help`, and
//! `quit` / `exit`.  Timing is injected: the caller hands in the
//! current time, in seconds, with each line.
use vstd::prelude::*;

use crate::text::{dec_digits, spec_tokens, tokenize};
use crate::tracker::{finish_of, first_match, first_project, proj_finish_at, proj_start,
    FinishedTask, FinishedView, Project, ProjectView, StartedView, Task, TaskItem, TaskItemView,
    TimeTracker, TrackerView};

verus! {

/// What the loop around the dispatcher should do next.
#[derive(Clone, Copy, Debug, PartialEq, Eq, Structural)]
pub enum REPLAction {
    Continue,
    Quit,
}

/// The closed set of commands a line can mean.
pub enum Command {
    AddProject(String),
    AddTask(String, String),
    ListProjects,
    ListTasks(String),
    FinishLast(String),
    FinishActivity(String, String),
    Help,
    Quit,
}

/// The value of a command.
#[verifier::ext_equal]
pub ghost enum CommandView {
    AddProject(Seq<char>),
    AddTask(Seq<char>, Seq<char>),
    ListProjects,
    ListTasks(Seq<char>),
    FinishLast(Seq<char>),
    FinishActivity(Seq<char>, Seq<char>),
    Help,
    Quit,
}

impl View for Command {
    type V = CommandView;

    open spec fn view(&self) -> CommandView {
        match self {
            Command::AddProject(n) => CommandView::AddProject(n@),
            Command::AddTask(p, a) => CommandView::AddTask(p@, a@),
            Command::ListProjects => CommandView::ListProjects,
            Command::ListTasks(p) => CommandView::ListTasks(p@),
            Command::FinishLast(p) => CommandView::FinishLast(p@),
            Command::FinishActivity(p, a) => CommandView::FinishActivity(p@, a@),
            Command::Help => CommandView::Help,
            Command::Quit => CommandView::Quit,
        }
    }
}

/// Every name or activity carried by a command is non-empty.
pub open spec fn cmd_wf(c: CommandView) -> bool {
    match c {
        CommandView::AddProject(n) => n.len() > 0,
        CommandView::AddTask(p, a) => p.len() > 0 && a.len() > 0,
        CommandView::ListProjects => true,
        CommandView::ListTasks(p) => p.len() > 0,
        CommandView::FinishLast(p) => p.len() > 0,
        CommandView::FinishActivity(p, a) => p.len() > 0 && a.len() > 0,
        CommandView::Help => true,
        CommandView::Quit => true,
    }
}

// ---------------------------------------------------------------
// The user-facing text
// ---------------------------------------------------------------

/// The error on an empty line.
pub open spec fn msg_enter_command() -> Seq<char> {
    "Enter a command - use help for a list of commands"@
}

/// The error on an unknown first token.
pub open spec fn msg_unknown_command(c: Seq<char>) -> Seq<char> {
    "Unknown command '"@ + c + "'!"@
}

/// The error on an unknown token after `add`.
pub open spec fn msg_unknown_sub(c: Seq<char>) -> Seq<char> {
    "Unknown sub-command '"@ + c + "'!"@
}

/// The error on `add` alone.
pub open spec fn msg_sub_needed() -> Seq<char> {
    "Sub-command needed!"@
}

/// The error on `add project` without a name.
pub open spec fn msg_project_name_required() -> Seq<char> {
    "New project name required!"@
}

/// The error on a command that needs a project name and got none.
pub open spec fn msg_project_needed() -> Seq<char> {
    "Project name needed!"@
}

/// The error on `add task` without an activity.
pub open spec fn msg_activity_needed() -> Seq<char> {
    "New entry activity needed!"@
}

/// The error on a project name the tracker does not know.
pub open spec fn msg_project_not_known(p: Seq<char>) -> Seq<char> {
    "Project "@ + p + " not known!"@
}

/// The error on adding a project under a name already taken.
pub open spec fn msg_project_exists(p: Seq<char>) -> Seq<char> {
    "Project "@ + p + " already exists!"@
}

/// The error on finishing when no running task qualifies.
pub open spec fn msg_no_tasks() -> Seq<char> {
    "No tasks to finish!"@
}

/// How a running task is shown.
pub open spec fn fmt_started(t: StartedView) -> Seq<char> {
    t.activity + " (running)"@
}

/// How a finished task is shown: its activity and how many seconds
/// it took.
pub open spec fn fmt_finished(t: FinishedView) -> Seq<char> {
    t.activity + " (done) took "@ + dec_digits(t.duration as nat) + "s"@
}

/// How a listed task is shown.
pub open spec fn fmt_item(t: TaskItemView) -> Seq<char> {
    match t {
        TaskItemView::Started(x) => fmt_started(x),
        TaskItemView::Finished(x) => fmt_finished(x),
    }
}

/// The line announcing a new project.
pub open spec fn line_added_project(name: Seq<char>) -> Seq<char> {
    "Added new project "@ + name
}

/// The line announcing a started task.
pub open spec fn line_started_task(t: StartedView) -> Seq<char> {
    "Started task "@ + fmt_started(t)
}

/// The line announcing a finished task.
pub open spec fn line_finished(t: FinishedView) -> Seq<char> {
    "Finished "@ + fmt_finished(t)
}

/// The heading over a project's task listing.
pub open spec fn line_tasks_header(name: Seq<char>) -> Seq<char> {
    "Tasks for project "@ + name
}

/// One entry of a task listing.
pub open spec fn line_item(t: TaskItemView) -> Seq<char> {
    " - "@ + fmt_item(t)
}

/// One entry of the project listing.
pub open spec fn line_proj(name: Seq<char>) -> Seq<char> {
    " - "@ + name
}

/// The heading over the project listing.
pub open spec fn line_all_projects() -> Seq<char> {
    "All projects:"@
}

/// The hint shown when no project exists yet.
pub open spec fn line_no_projects() -> Seq<char> {
    "No projects found - use add to change this!"@
}

/// The command summary.
pub open spec fn help_lines() -> Seq<Seq<char>> {
    seq![
        "Available commands:"@,
        "  add                            Add ... to track"@,
        "    project <name>               Add a new project"@,
        "    task <project> <activity>    Add a new task starting now"@,
        "  finish <project> [activity]    Finish activity of project or last activity"@,
        "  list                           List all projects"@,
        "  help                           Displays this help text"@,
        "  quit / exit                    Quit Tracky"@,
    ]
}

// ---------------------------------------------------------------
// What a line means
// ---------------------------------------------------------------

/// Maps the tokens of a line to a command, or to the error the line
/// earns.  Tokens beyond those a command consumes are ignored.
pub open spec fn parse_command(toks: Seq<Seq<char>>) -> Result<CommandView, Seq<char>> {
    if toks.len() == 0 {
        Err(msg_enter_command())
    } else if toks[0] == "add"@ {
        if toks.len() == 1 {
            Err(msg_sub_needed())
        } else if toks[1] == "project"@ {
            if toks.len() < 3 {
                Err(msg_project_name_required())
            } else {
                Ok(CommandView::AddProject(toks[2]))
            }
        } else if toks[1] == "task"@ {
            if toks.len() < 3 {
                Err(msg_project_needed())
            } else if toks.len() < 4 {
                Err(msg_activity_needed())
            } else {
                Ok(CommandView::AddTask(toks[2], toks[3]))
            }
        } else {
            Err(msg_unknown_sub(toks[1]))
        }
    } else if toks[0] == "list"@ {
        if toks.len() == 1 {
            Ok(CommandView::ListProjects)
        } else {
            Ok(CommandView::ListTasks(toks[1]))
        }
    } else if toks[0] == "finish"@ {
        if toks.len() == 1 {
            Err(msg_project_needed())
        } else if toks.len() == 2 {
            Ok(CommandView::FinishLast(toks[1]))
        } else {
            Ok(CommandView::FinishActivity(toks[1], toks[2]))
        }
    } else if toks[0] == "help"@ {
        Ok(CommandView::Help)
    } else if toks[0] == "quit"@ || toks[0] == "exit"@ {
        Ok(CommandView::Quit)
    } else {
        Err(msg_unknown_command(toks[0]))
    }
}

/// What one dispatched line leaves behind: the new tracker state,
/// the output lines, and the result.
#[verifier::ext_equal]
pub ghost struct StepView {
    pub tracker: TrackerView,
    pub output: Seq<Seq<char>>,
    pub result: Result<REPLAction, Seq<char>>,
}

/// Applies one command to the tracker: the single state mutation or
/// query a line maps to.
pub open spec fn apply_command(t: TrackerView, c: CommandView, now: u64) -> StepView {
    match c {
        CommandView::AddProject(name) => {
            if first_project(t.projects, name, 0) is Some {
                StepView { tracker: t, output: Seq::empty(), result: Err(msg_project_exists(name)) }
            } else {
                StepView {
                    tracker: TrackerView {
                        projects: t.projects.push(
                            ProjectView { name, started: Seq::empty(), finished: Seq::empty() },
                        ),
                    },
                    output: seq![line_added_project(name)],
                    result: Ok(REPLAction::Continue),
                }
            }
        },
        CommandView::AddTask(pname, activity) => {
            match first_project(t.projects, pname, 0) {
                None => StepView {
                    tracker: t,
                    output: Seq::empty(),
                    result: Err(msg_project_not_known(pname)),
                },
                Some(i) => StepView {
                    tracker: TrackerView {
                        projects: t.projects.update(i, proj_start(t.projects[i], activity, now)),
                    },
                    output: seq![line_started_task(StartedView { activity, start: now })],
                    result: Ok(REPLAction::Continue),
                },
            }
        },
        CommandView::ListProjects => {
            if t.projects.len() == 0 {
                StepView {
                    tracker: t,
                    output: seq![line_no_projects()],
                    result: Ok(REPLAction::Continue),
                }
            } else {
                StepView {
                    tracker: t,
                    output: seq![line_all_projects()] + Seq::new(
                        t.projects.len(),
                        |k: int| line_proj(t.projects[k].name),
                    ),
                    result: Ok(REPLAction::Continue),
                }
            }
        },
        CommandView::ListTasks(pname) => {
            match first_project(t.projects, pname, 0) {
                None => StepView {
                    tracker: t,
                    output: Seq::empty(),
                    result: Err(msg_project_not_known(pname)),
                },
                Some(i) => {
                    let p = t.projects[i];
                    StepView {
                        tracker: t,
                        output: seq![line_tasks_header(pname)] + Seq::new(
                            p.started.len(),
                            |k: int| line_item(TaskItemView::Started(p.started[k])),
                        ) + Seq::new(
                            p.finished.len(),
                            |k: int| line_item(TaskItemView::Finished(p.finished[k])),
                        ),
                        result: Ok(REPLAction::Continue),
                    }
                },
            }
        },
        CommandView::FinishLast(pname) => {
            match first_project(t.projects, pname, 0) {
                None => StepView {
                    tracker: t,
                    output: Seq::empty(),
                    result: Err(msg_project_not_known(pname)),
                },
                Some(i) => {
                    let p = t.projects[i];
                    if p.started.len() == 0 {
                        StepView { tracker: t, output: Seq::empty(), result: Err(msg_no_tasks()) }
                    } else {
                        let k = p.started.len() - 1;
                        StepView {
                            tracker: TrackerView {
                                projects: t.projects.update(i, proj_finish_at(p, k, now)),
                            },
                            output: seq![line_finished(finish_of(p.started[k], now))],
                            result: Ok(REPLAction::Continue),
                        }
                    }
                },
            }
        },
        CommandView::FinishActivity(pname, activity) => {
            match first_project(t.projects, pname, 0) {
                None => StepView {
                    tracker: t,
                    output: Seq::empty(),
                    result: Err(msg_project_not_known(pname)),
                },
                Some(i) => {
                    let p = t.projects[i];
                    match first_match(p.started, activity, 0) {
                        None => StepView {
                            tracker: t,
                            output: Seq::empty(),
                            result: Err(msg_no_tasks()),
                        },
                        Some(k) => StepView {
                            tracker: TrackerView {
                                projects: t.projects.update(i, proj_finish_at(p, k, now)),
                            },
                            output: seq![line_finished(finish_of(p.started[k], now))],
                            result: Ok(REPLAction::Continue),
                        },
                    }
                },
            }
        },
        CommandView::Help => StepView {
            tracker: t,
            output: help_lines(),
            result: Ok(REPLAction::Continue),
        },
        CommandView::Quit => StepView {
            tracker: t,
            output: Seq::empty(),
            result: Ok(REPLAction::Quit),
        },
    }
}

/// What one line of input does to the tracker, as a pure mapping
/// from the old state, the line and the time to the new state, the
/// output and the result.
pub open spec fn repl_step(t: TrackerView, line: Seq<char>, now: u64) -> StepView {
    match parse_command(spec_tokens(line)) {
        Err(m) => StepView { tracker: t, output: Seq::empty(), result: Err(m) },
        Ok(c) => apply_command(t, c, now),
    }
}

// ---------------------------------------------------------------
// The executable dispatcher
// ---------------------------------------------------------------

/// Decides whether a token equals a keyword.
fn is_tok(t: &String, lit: &str) -> (r: bool)
    ensures
        r == (t@ == lit@),
{
    let l = String::from_str(lit);
    *t == l
}

/// Tokenizes one line and maps it to its command, or to the error
/// the line earns.
pub fn parse_line(line: &str) -> (r: Result<Command, String>)
    ensures
        match parse_command(spec_tokens(line@)) {
            Ok(cv) => r matches Ok(c) && c@ == cv && cmd_wf(cv),
            Err(m) => r matches Err(e) && e@ == m,
        },
{
    let toks = tokenize(line);
    let ghost tv = spec_tokens(line@);
    proof {
        assert(toks@.map_values(|t: String| t@) == tv);
    }
    if toks.len() == 0 {
        return Err(String::from_str("Enter a command - use help for a list of commands"));
    }
    proof {
        assert(toks@[0]@ == tv[0]);
    }
    if is_tok(&toks[0], "add") {
        if toks.len() == 1 {
            return Err(String::from_str("Sub-command needed!"));
        }
        proof {
            assert(toks@[1]@ == tv[1]);
        }
        if is_tok(&toks[1], "project") {
            if toks.len() < 3 {
                return Err(String::from_str("New project name required!"));
            }
            proof {
                assert(toks@[2]@ == tv[2]);
            }
            Ok(Command::AddProject(toks[2].clone()))
        } else if is_tok(&toks[1], "task") {
            if toks.len() < 3 {
                return Err(String::from_str("Project name needed!"));
            }
            if toks.len() < 4 {
                return Err(String::from_str("New entry activity needed!"));
            }
            proof {
                assert(toks@[2]@ == tv[2]);
                assert(toks@[3]@ == tv[3]);
            }
            Ok(Command::AddTask(toks[2].clone(), toks[3].clone()))
        } else {
            Err(String::from_str("Unknown sub-command '").concat(toks[1].as_str()).concat("'!"))
        }
    } else if is_tok(&toks[0], "list") {
        if toks.len() == 1 {
            Ok(Command::ListProjects)
        } else {
            proof {
                assert(toks@[1]@ == tv[1]);
            }
            Ok(Command::ListTasks(toks[1].clone()))
        }
    } else if is_tok(&toks[0], "finish") {
        if toks.len() == 1 {
            Err(String::from_str("Project name needed!"))
        } else if toks.len() == 2 {
            proof {
                assert(toks@[1]@ == tv[1]);
            }
            Ok(Command::FinishLast(toks[1].clone()))
        } else {
            proof {
                assert(toks@[1]@ == tv[1]);
                assert(toks@[2]@ == tv[2]);
            }
            Ok(Command::FinishActivity(toks[1].clone(), toks[2].clone()))
        }
    } else if is_tok(&toks[0], "help") {
        Ok(Command::Help)
    } else if is_tok(&toks[0], "quit") || is_tok(&toks[0], "exit") {
        Ok(Command::Quit)
    } else {
        Err(String::from_str("Unknown command '").concat(toks[0].as_str()).concat("'!"))
    }
}

/// Shows one finished task: its activity and how many seconds it
/// took.
pub fn format_finished(x: &FinishedTask) -> (r: String)
    ensures
        r@ == fmt_finished(x@),
{
    let d = crate::text::u64_to_string(x.duration());
    String::from_str(x.activity()).concat(" (done) took ").concat(d.as_str()).concat("s")
}

/// Shows one listed task, with the "took" phrase for finished ones.
pub fn format_task(t: &TaskItem) -> (r: String)
    ensures
        r@ == fmt_item(t@),
{
    match t {
        TaskItem::Started(x) => String::from_str(x.activity()).concat(" (running)"),
        TaskItem::Finished(x) => format_finished(x),
    }
}

/// Dispatches one line of input against the tracker at time `now`,
/// appending the produced output lines to `out`.
///
/// The whole effect is [`repl_step`] of the old state, the line and
/// the time: the tracker mutation, the output and the result or
/// error, with nothing else changed.
pub fn handle_repl(tracker: &mut TimeTracker, line: &str, now: u64, out: &mut Vec<String>) -> (r:
    Result<REPLAction, String>)
    ensures
        ({
            let step = repl_step(old(tracker)@, line@, now);
            &&& final(tracker)@ == step.tracker
            &&& final(out)@.map_values(|s: String| s@) == old(out)@.map_values(|s: String| s@)
                + step.output
            &&& match step.result {
                Ok(a) => r matches Ok(b) && a == b,
                Err(m) => r matches Err(e) && e@ == m,
            }
        }),
        old(tracker)@.wf() ==> final(tracker)@.wf(),
{
    let ghost t0 = tracker@;
    let ghost base = out@.map_values(|s: String| s@);
    let ghost none: Seq<Seq<char>> = Seq::empty();
    proof {
        assert(base + none =~= base);
    }
    let cmd = match parse_line(line) {
        Err(e) => {
            return Err(e);
        },
        Ok(c) => c,
    };
    match cmd {
        Command::AddProject(name) => {
            match tracker.find_project(name.as_str()) {
                Some(_i) => {
                    Err(
                        String::from_str("Project ").concat(name.as_str()).concat(
                            " already exists!",
                        ),
                    )
                },
                None => {
                    let p = Project::new(name.as_str());
                    let ghost pv = p@;
                    tracker.add_project(p);
                    out.push(String::from_str("Added new project ").concat(name.as_str()));
                    proof {
                        assert(pv =~= (ProjectView {
                            name: name@,
                            started: Seq::empty(),
                            finished: Seq::empty(),
                        }));
                        assert(tracker@ =~= (TrackerView {
                            projects: t0.projects.push(
                                ProjectView {
                                    name: name@,
                                    started: Seq::empty(),
                                    finished: Seq::empty(),
                                },
                            ),
                        }));
                        assert(out@.map_values(|s: String| s@) =~= base + seq![
                            line_added_project(name@),
                        ]);
                    }
                    Ok(REPLAction::Continue)
                },
            }
        },
        Command::AddTask(pname, activity) => {
            match tracker.find_project(pname.as_str()) {
                None => {
                    Err(String::from_str("Project ").concat(pname.as_str()).concat(" not known!"))
                },
                Some(i) => {
                    let _t = tracker.start_task_in(i, activity.as_str(), now);
                    out.push(
                        String::from_str("Started task ").concat(activity.as_str()).concat(
                            " (running)",
                        ),
                    );
                    proof {
                        assert(("Started task "@ + activity@) + " (running)"@ =~= line_started_task(
                            StartedView { activity: activity@, start: now },
                        ));
                        assert(tracker@ =~= (TrackerView {
                            projects: t0.projects.update(
                                i as int,
                                proj_start(t0.projects[i as int], activity@, now),
                            ),
                        }));
                        assert(out@.map_values(|s: String| s@) =~= base + seq![
                            line_started_task(StartedView { activity: activity@, start: now }),
                        ]);
                    }
                    Ok(REPLAction::Continue)
                },
            }
        },
        Command::ListProjects => {
            let total = tracker.projects().len();
            if total == 0 {
                out.push(String::from_str("No projects found - use add to change this!"));
                proof {
                    assert(out@.map_values(|s: String| s@) =~= base + seq![line_no_projects()]);
                }
                Ok(REPLAction::Continue)
            } else {
                out.push(String::from_str("All projects:"));
                let ghost hdr = base + seq![line_all_projects()];
                proof {
                    assert(out@.map_values(|s: String| s@) =~= hdr);
                    assert(Seq::new(0nat, |k: int| line_proj(t0.projects[k].name))
                        =~= Seq::<Seq<char>>::empty());
                    assert(hdr + Seq::new(0nat, |k: int| line_proj(t0.projects[k].name)) =~= hdr);
                }
                let mut i: usize = 0;
                while i < total
                    invariant
                        i <= total,
                        total == t0.projects.len(),
                        t0 == tracker@,
                        out@.map_values(|s: String| s@) == hdr + Seq::new(
                            i as nat,
                            |k: int| line_proj(t0.projects[k].name),
                        ),
                    decreases total - i,
                {
                    let ps = tracker.projects();
                    let ghost prev = out@.map_values(|s: String| s@);
                    out.push(String::from_str(" - ").concat(ps[i].name()));
                    proof {
                        assert(ps@[i as int]@ == t0.projects[i as int]);
                        assert(out@.map_values(|s: String| s@) =~= prev.push(
                            line_proj(t0.projects[i as int].name),
                        ));
                        assert(Seq::new((i + 1) as nat, |k: int| line_proj(t0.projects[k].name))
                            =~= Seq::new(i as nat, |k: int| line_proj(t0.projects[k].name)).push(
                            line_proj(t0.projects[i as int].name),
                        ));
                        assert(out@.map_values(|s: String| s@) =~= hdr + Seq::new(
                            (i + 1) as nat,
                            |k: int| line_proj(t0.projects[k].name),
                        ));
                    }
                    i += 1;
                }
                proof {
                    assert(out@.map_values(|s: String| s@) =~= base + (seq![line_all_projects()]
                        + Seq::new(t0.projects.len(), |k: int| line_proj(t0.projects[k].name))));
                }
                Ok(REPLAction::Continue)
            }
        },
        Command::ListTasks(pname) => {
            match tracker.find_project(pname.as_str()) {
                None => {
                    Err(String::from_str("Project ").concat(pname.as_str()).concat(" not known!"))
                },
                Some(i) => {
                    out.push(String::from_str("Tasks for project ").concat(pname.as_str()));
                    let ghost p = t0.projects[i as int];
                    let ghost hdr = base + seq![line_tasks_header(pname@)];
                    proof {
                        assert(out@.map_values(|s: String| s@) =~= hdr);
                    }
                    let ps = tracker.projects();
                    let pr = &ps[i];
                    proof {
                        assert(pr@ == p);
                    }
                    let items = pr.all_tasks();
                    let ghost iv = items@.map_values(|t: TaskItem| t@);
                    let total = items.len();
                    proof {
                        assert(Seq::new(0nat, |x: int| line_item(iv[x]))
                            =~= Seq::<Seq<char>>::empty());
                        assert(hdr + Seq::new(0nat, |x: int| line_item(iv[x])) =~= hdr);
                    }
                    let mut k: usize = 0;
                    while k < total
                        invariant
                            k <= total,
                            total == iv.len(),
                            iv == items@.map_values(|t: TaskItem| t@),
                            out@.map_values(|s: String| s@) == hdr + Seq::new(
                                k as nat,
                                |x: int| line_item(iv[x]),
                            ),
                        decreases total - k,
                    {
                        let ghost prev = out@.map_values(|s: String| s@);
                        out.push(String::from_str(" - ").concat(format_task(&items[k]).as_str()));
                        proof {
                            assert(iv[k as int] == items@[k as int]@);
                            assert(out@.map_values(|s: String| s@) =~= prev.push(
                                line_item(iv[k as int]),
                            ));
                            assert(Seq::new((k + 1) as nat, |x: int| line_item(iv[x])) =~= Seq::new(
                                k as nat,
                                |x: int| line_item(iv[x]),
                            ).push(line_item(iv[k as int])));
                            assert(out@.map_values(|s: String| s@) =~= hdr + Seq::new(
                                (k + 1) as nat,
                                |x: int| line_item(iv[x]),
                            ));
                        }
                        k += 1;
                    }
                    proof {
                        let ns = p.started.len();
                        let nf = p.finished.len();
                        assert forall|x: int| 0 <= x < ns + nf implies line_item(iv[x]) == (
                        Seq::new(ns, |y: int| line_item(TaskItemView::Started(p.started[y])))
                            + Seq::new(
                            nf,
                            |y: int| line_item(TaskItemView::Finished(p.finished[y])),
                        ))[x] by {
                            assert(iv[x] == items@[x]@);
                            if x < ns {
                                assert(items@[x]@ == TaskItemView::Started(p.started[x]));
                                assert((Seq::new(
                                    ns,
                                    |y: int| line_item(TaskItemView::Started(p.started[y])),
                                ) + Seq::new(
                                    nf,
                                    |y: int| line_item(TaskItemView::Finished(p.finished[y])),
                                ))[x] == line_item(TaskItemView::Started(p.started[x])));
                            } else {
                                let j2 = x - ns;
                                assert(items@[ns + j2]@ == TaskItemView::Finished(p.finished[j2]));
                                assert(ns + j2 == x);
                                assert(items@[x]@ == TaskItemView::Finished(p.finished[x - ns]));
                                assert((Seq::new(
                                    ns,
                                    |y: int| line_item(TaskItemView::Started(p.started[y])),
                                ) + Seq::new(
                                    nf,
                                    |y: int| line_item(TaskItemView::Finished(p.finished[y])),
                                ))[x] == line_item(TaskItemView::Finished(p.finished[x - ns])));
                            }
                        }
                        assert(Seq::new(iv.len(), |x: int| line_item(iv[x])) =~= Seq::new(
                            ns,
                            |y: int| line_item(TaskItemView::Started(p.started[y])),
                        ) + Seq::new(nf, |y: int| line_item(TaskItemView::Finished(p.finished[y]))));
                        assert(out@.map_values(|s: String| s@) =~= base + (seq![
                            line_tasks_header(pname@),
                        ] + Seq::new(ns, |y: int| line_item(TaskItemView::Started(p.started[y])))
                            + Seq::new(
                            nf,
                            |y: int| line_item(TaskItemView::Finished(p.finished[y])),
                        )));
                    }
                    Ok(REPLAction::Continue)
                },
            }
        },
        Command::FinishLast(pname) => {
            match tracker.find_project(pname.as_str()) {
                None => {
                    Err(String::from_str("Project ").concat(pname.as_str()).concat(" not known!"))
                },
                Some(i) => {
                    match tracker.finish_last_in(i, now) {
                        None => Err(String::from_str("No tasks to finish!")),
                        Some(ft) => {
                            let shown = format_finished(&ft);
                            let ghost prev = out@.map_values(|s: String| s@);
                            out.push(String::from_str("Finished ").concat(shown.as_str()));
                            proof {
                                let p = t0.projects[i as int];
                                let k = p.started.len() - 1;
                                assert(out@.map_values(|s: String| s@) =~= prev.push(
                                    line_finished(finish_of(p.started[k], now)),
                                ));
                                assert(tracker@ =~= (TrackerView {
                                    projects: t0.projects.update(
                                        i as int,
                                        proj_finish_at(p, k, now),
                                    ),
                                }));
                                assert(out@.map_values(|s: String| s@) =~= base + seq![
                                    line_finished(finish_of(p.started[k], now)),
                                ]);
                            }
                            Ok(REPLAction::Continue)
                        },
                    }
                },
            }
        },
        Command::FinishActivity(pname, activity) => {
            match tracker.find_project(pname.as_str()) {
                None => {
                    Err(String::from_str("Project ").concat(pname.as_str()).concat(" not known!"))
                },
                Some(i) => {
                    match tracker.finish_task_in(i, activity.as_str(), now) {
                        None => Err(String::from_str("No tasks to finish!")),
                        Some(ft) => {
                            let shown = format_finished(&ft);
                            let ghost prev = out@.map_values(|s: String| s@);
                            out.push(String::from_str("Finished ").concat(shown.as_str()));
                            proof {
                                let p = t0.projects[i as int];
                                let k = first_match(p.started, activity@, 0)->Some_0;
                                assert(out@.map_values(|s: String| s@) =~= prev.push(
                                    line_finished(finish_of(p.started[k], now)),
                                ));
                                assert(tracker@ =~= (TrackerView {
                                    projects: t0.projects.update(
                                        i as int,
                                        proj_finish_at(p, k, now),
                                    ),
                                }));
                                assert(out@.map_values(|s: String| s@) =~= base + seq![
                                    line_finished(finish_of(p.started[k], now)),
                                ]);
                            }
                            Ok(REPLAction::Continue)
                        },
                    }
                },
            }
        },
        Command::Help => {
            out.push(String::from_str("Available commands:"));
            out.push(String::from_str("  add                            Add ... to track"));
            out.push(String::from_str("    project <name>               Add a new project"));
            out.push(
                String::from_str("    task <project> <activity>    Add a new task starting now"),
            );
            out.push(
                String::from_str(
                    "  finish <project> [activity]    Finish activity of project or last activity",
                ),
            );
            out.push(String::from_str("  list                           List all projects"));
            out.push(String::from_str("  help                           Displays this help text"));
            out.push(String::from_str("  quit / exit                    Quit Tracky"));
            proof {
                assert(out@.map_values(|s: String| s@) =~= base + help_lines());
            }
            Ok(REPLAction::Continue)
        },
        Command::Quit => Ok(REPLAction::Quit),
    }
}

} // verus!
