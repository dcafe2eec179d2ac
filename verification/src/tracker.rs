//! The tracker state: projects, their tasks, and the task lifecycle.
//!
//! A task is started with an activity label and a start time, and is
//! finished exactly once, which stamps an end time and a duration of
//! at least one second.  A project keeps its started and finished
//! tasks in insertion order; the tracker keeps its projects in
//! creation order and their names unique.
use vstd::prelude::*;

verus! {

// ---------------------------------------------------------------
// Mathematical views
// ---------------------------------------------------------------

/// The value of a running task.
#[verifier::ext_equal]
pub ghost struct StartedView {
    pub activity: Seq<char>,
    pub start: u64,
}

/// The value of a finished task.
#[verifier::ext_equal]
pub ghost struct FinishedView {
    pub activity: Seq<char>,
    pub start: u64,
    pub end: u64,
    pub duration: u64,
}

/// The value of a project.
#[verifier::ext_equal]
pub ghost struct ProjectView {
    pub name: Seq<char>,
    pub started: Seq<StartedView>,
    pub finished: Seq<FinishedView>,
}

/// The value of the whole tracker.
#[verifier::ext_equal]
pub ghost struct TrackerView {
    pub projects: Seq<ProjectView>,
}

impl StartedView {
    /// A running task carries a non-empty activity label.
    pub open spec fn wf(self) -> bool {
        self.activity.len() > 0
    }
}

impl FinishedView {
    /// A finished task carries a non-empty activity label and a
    /// positive duration.
    pub open spec fn wf(self) -> bool {
        self.activity.len() > 0 && self.duration >= 1
    }
}

impl ProjectView {
    /// A project carries a non-empty name and well-formed tasks.
    pub open spec fn wf(self) -> bool {
        &&& self.name.len() > 0
        &&& forall|i: int| 0 <= i < self.started.len() ==> (#[trigger] self.started[i]).wf()
        &&& forall|i: int| 0 <= i < self.finished.len() ==> (#[trigger] self.finished[i]).wf()
    }
}

impl TrackerView {
    /// The tracker holds well-formed projects under pairwise
    /// distinct names.
    pub open spec fn wf(self) -> bool {
        &&& forall|i: int| 0 <= i < self.projects.len() ==> (#[trigger] self.projects[i]).wf()
        &&& forall|i: int, j: int|
            0 <= i < j < self.projects.len() ==> self.projects[i].name != self.projects[j].name
    }
}

/// A project after starting a task on activity `a` at time `now`.
pub open spec fn proj_start(p: ProjectView, a: Seq<char>, now: u64) -> ProjectView {
    ProjectView {
        name: p.name,
        started: p.started.push(StartedView { activity: a, start: now }),
        finished: p.finished,
    }
}

/// A project after finishing the running task at position `k` at
/// time `now`.
pub open spec fn proj_finish_at(p: ProjectView, k: int, now: u64) -> ProjectView {
    ProjectView {
        name: p.name,
        started: p.started.remove(k),
        finished: p.finished.push(finish_of(p.started[k], now)),
    }
}

/// The one lifecycle transition: finishing a running task at time
/// `now` stamps the end time and a duration of `end - start`,
/// clamped below by one second against clock skew.
pub open spec fn finish_of(t: StartedView, now: u64) -> FinishedView {
    FinishedView {
        activity: t.activity,
        start: t.start,
        end: now,
        duration: if t.start < now {
            (now - t.start) as u64
        } else {
            1u64
        },
    }
}

/// The index of the first running task whose activity equals `a`,
/// searching from position `i`.
pub open spec fn first_match(s: Seq<StartedView>, a: Seq<char>, i: int) -> Option<int>
    decreases s.len() - i,
{
    if i < 0 || i >= s.len() {
        None
    } else if s[i].activity == a {
        Some(i)
    } else {
        first_match(s, a, i + 1)
    }
}

/// The index of the first project named `name`, searching from
/// position `i`.
pub open spec fn first_project(ps: Seq<ProjectView>, name: Seq<char>, i: int) -> Option<int>
    decreases ps.len() - i,
{
    if i < 0 || i >= ps.len() {
        None
    } else if ps[i].name == name {
        Some(i)
    } else {
        first_project(ps, name, i + 1)
    }
}

/// A match at `k`, with no earlier match, is what the search finds.
pub proof fn lemma_first_match_at(s: Seq<StartedView>, a: Seq<char>, l: int, k: int)
    requires
        0 <= l <= k < s.len(),
        s[k].activity == a,
        forall|j: int| l <= j < k ==> (#[trigger] s[j]).activity != a,
    ensures
        first_match(s, a, l) == Some(k),
    decreases k - l,
{
    if l < k {
        lemma_first_match_at(s, a, l + 1, k);
    }
}

/// With no match at or past `l`, the search finds nothing.
pub proof fn lemma_first_match_absent(s: Seq<StartedView>, a: Seq<char>, l: int)
    requires
        0 <= l,
        forall|j: int| l <= j < s.len() ==> (#[trigger] s[j]).activity != a,
    ensures
        first_match(s, a, l) is None,
    decreases s.len() - l,
{
    if l < s.len() {
        lemma_first_match_absent(s, a, l + 1);
    }
}

/// A project named `name` at `k`, with no earlier one, is what the
/// search finds.
pub proof fn lemma_first_project_at(ps: Seq<ProjectView>, name: Seq<char>, l: int, k: int)
    requires
        0 <= l <= k < ps.len(),
        ps[k].name == name,
        forall|j: int| l <= j < k ==> (#[trigger] ps[j]).name != name,
    ensures
        first_project(ps, name, l) == Some(k),
    decreases k - l,
{
    if l < k {
        lemma_first_project_at(ps, name, l + 1, k);
    }
}

/// With no project named `name` at or past `l`, the search finds
/// nothing.
pub proof fn lemma_first_project_absent(ps: Seq<ProjectView>, name: Seq<char>, l: int)
    requires
        0 <= l,
        forall|j: int| l <= j < ps.len() ==> (#[trigger] ps[j]).name != name,
    ensures
        first_project(ps, name, l) is None,
    decreases ps.len() - l,
{
    if l < ps.len() {
        lemma_first_project_absent(ps, name, l + 1);
    }
}

// ---------------------------------------------------------------
// Tasks
// ---------------------------------------------------------------

/// The two lifecycle states a task can be in.
#[derive(Clone, Copy, Debug, PartialEq, Eq, Structural)]
pub enum TaskState {
    Started,
    Finished,
}

/// Read access shared by both task representations.
pub trait Task {
    /// The activity label, as a mathematical value.
    spec fn spec_activity(&self) -> Seq<char>;

    /// The lifecycle state, as a mathematical value.
    spec fn spec_state(&self) -> TaskState;

    /// The activity label of the task.
    fn activity(&self) -> (r: &str)
        ensures
            r@ == self.spec_activity(),
    ;

    /// The lifecycle state of the task.
    fn state(&self) -> (r: TaskState)
        ensures
            r == self.spec_state(),
    ;
}

/// A running task: an activity label and a start time.
#[derive(Debug)]
pub struct StartedTask {
    pub(crate) activity: String,
    pub(crate) start: u64,
}

/// A finished task: the immutable record of a completed activity.
#[derive(Debug)]
pub struct FinishedTask {
    pub(crate) activity: String,
    pub(crate) start: u64,
    pub(crate) end: u64,
    pub(crate) duration: u64,
}

impl View for StartedTask {
    type V = StartedView;

    open(crate) spec fn view(&self) -> StartedView {
        StartedView { activity: self.activity@, start: self.start }
    }
}

impl View for FinishedTask {
    type V = FinishedView;

    open(crate) spec fn view(&self) -> FinishedView {
        FinishedView {
            activity: self.activity@,
            start: self.start,
            end: self.end,
            duration: self.duration,
        }
    }
}

impl StartedTask {
    /// Starts a task on the given activity at time `now`.
    pub fn new(activity: &str, now: u64) -> (t: StartedTask)
        requires
            activity@.len() > 0,
        ensures
            t@ == (StartedView { activity: activity@, start: now }),
    {
        StartedTask { activity: String::from_str(activity), start: now }
    }

    /// The start time of the task.
    pub fn start(&self) -> (r: u64)
        ensures
            r == self@.start,
    {
        self.start
    }

    /// Runs the one lifecycle transition at time `now`.
    fn finish(self, now: u64) -> (t: FinishedTask)
        ensures
            t@ == finish_of(self@, now),
    {
        FinishedTask::new(self, now)
    }

    /// An owned copy of the task.
    pub(crate) fn duplicate(&self) -> (t: StartedTask)
        ensures
            t@ == self@,
    {
        StartedTask { activity: self.activity.clone(), start: self.start }
    }
}

impl Task for StartedTask {
    open spec fn spec_activity(&self) -> Seq<char> {
        self@.activity
    }

    open spec fn spec_state(&self) -> TaskState {
        TaskState::Started
    }

    fn activity(&self) -> (r: &str) {
        self.activity.as_str()
    }

    fn state(&self) -> (r: TaskState) {
        TaskState::Started
    }
}

impl FinishedTask {
    /// Completes a running task at time `now`, computing the clamped
    /// duration.
    fn new(task: StartedTask, now: u64) -> (t: FinishedTask)
        ensures
            t@ == finish_of(task@, now),
    {
        let duration: u64 = if task.start < now {
            now - task.start
        } else {
            1
        };
        FinishedTask { activity: task.activity, start: task.start, end: now, duration }
    }

    /// The start time of the task.
    pub fn start(&self) -> (r: u64)
        ensures
            r == self@.start,
    {
        self.start
    }

    /// The end time of the task.
    pub fn end(&self) -> (r: u64)
        ensures
            r == self@.end,
    {
        self.end
    }

    /// The recorded duration of the task, in seconds.
    pub fn duration(&self) -> (r: u64)
        ensures
            r == self@.duration,
    {
        self.duration
    }

    /// An owned copy of the record.
    pub(crate) fn duplicate(&self) -> (t: FinishedTask)
        ensures
            t@ == self@,
    {
        FinishedTask {
            activity: self.activity.clone(),
            start: self.start,
            end: self.end,
            duration: self.duration,
        }
    }
}

impl Task for FinishedTask {
    open spec fn spec_activity(&self) -> Seq<char> {
        self@.activity
    }

    open spec fn spec_state(&self) -> TaskState {
        TaskState::Finished
    }

    fn activity(&self) -> (r: &str) {
        self.activity.as_str()
    }

    fn state(&self) -> (r: TaskState) {
        TaskState::Finished
    }
}

/// A task of either lifecycle state, for listing a project.
#[derive(Debug)]
pub enum TaskItem {
    Started(StartedTask),
    Finished(FinishedTask),
}

/// The value of a listed task.
#[verifier::ext_equal]
pub ghost enum TaskItemView {
    Started(StartedView),
    Finished(FinishedView),
}

impl View for TaskItem {
    type V = TaskItemView;

    open(crate) spec fn view(&self) -> TaskItemView {
        match self {
            TaskItem::Started(t) => TaskItemView::Started(t@),
            TaskItem::Finished(t) => TaskItemView::Finished(t@),
        }
    }
}

// ---------------------------------------------------------------
// Projects
// ---------------------------------------------------------------

/// A named, ordered collection of tasks, split by lifecycle state.
#[derive(Debug)]
pub struct Project {
    pub(crate) name: String,
    pub(crate) started: Vec<StartedTask>,
    pub(crate) finished: Vec<FinishedTask>,
}

impl View for Project {
    type V = ProjectView;

    open(crate) spec fn view(&self) -> ProjectView {
        ProjectView {
            name: self.name@,
            started: self.started@.map_values(|t: StartedTask| t@),
            finished: self.finished@.map_values(|t: FinishedTask| t@),
        }
    }
}

impl Project {
    /// A project with the given name and no tasks.
    pub fn new(name: &str) -> (p: Project)
        requires
            name@.len() > 0,
        ensures
            p@.name == name@,
            p@.started.len() == 0,
            p@.finished.len() == 0,
            p@.wf(),
    {
        Project { name: String::from_str(name), started: Vec::new(), finished: Vec::new() }
    }

    /// The name of the project.
    pub fn name(&self) -> (r: &str)
        ensures
            r@ == self@.name,
    {
        self.name.as_str()
    }

    /// Starts a new task on the given activity at time `now` and
    /// appends it to the running tasks.
    ///
    /// Right afterwards the project holds a running task on that
    /// activity — the appended one — and the finished tasks are
    /// untouched.
    pub fn start_task(&mut self, activity: &str, now: u64) -> (t: StartedTask)
        requires
            activity@.len() > 0,
        ensures
            final(self)@ == proj_start(old(self)@, activity@, now),
            final(self)@.started.len() > 0,
            final(self)@.started.last() == (StartedView { activity: activity@, start: now }),
            final(self)@.finished == old(self)@.finished,
            t@ == (StartedView { activity: activity@, start: now }),
            old(self)@.wf() ==> final(self)@.wf(),
    {
        let t = StartedTask::new(activity, now);
        let out = t.duplicate();
        let ghost pre = self@;
        self.started.push(t);
        proof {
            let sv = StartedView { activity: activity@, start: now };
            assert(self@.started =~= pre.started.push(sv));
            assert(self@ =~= proj_start(pre, activity@, now));
            if pre.wf() {
                assert forall|i: int| 0 <= i < self@.started.len() implies (
                #[trigger] self@.started[i]).wf() by {
                    if i < pre.started.len() {
                        assert(self@.started[i] == pre.started[i]);
                    }
                }
                assert(self@.wf());
            }
        }
        out
    }

    /// Removes the running task at `idx`, finishes it at time `now`,
    /// and appends the record to the finished tasks.
    fn finish_task_at(&mut self, idx: usize, now: u64) -> (r: FinishedTask)
        requires
            idx < old(self)@.started.len(),
        ensures
            final(self)@ == proj_finish_at(old(self)@, idx as int, now),
            r@ == finish_of(old(self)@.started[idx as int], now),
            old(self)@.wf() ==> final(self)@.wf(),
    {
        let ghost pre = self@;
        let t = self.started.remove(idx);
        let ft = t.finish(now);
        let r = ft.duplicate();
        self.finished.push(ft);
        proof {
            assert(self@.started =~= pre.started.remove(idx as int));
            assert(self@.finished =~= pre.finished.push(finish_of(pre.started[idx as int], now)));
            assert(self@ =~= proj_finish_at(pre, idx as int, now));
            if pre.wf() {
                assert forall|i: int| 0 <= i < self@.started.len() implies (
                #[trigger] self@.started[i]).wf() by {
                    assert(self@.started[i] == pre.started.remove(idx as int)[i]);
                }
                assert forall|i: int| 0 <= i < self@.finished.len() implies (
                #[trigger] self@.finished[i]).wf() by {
                    if i < pre.finished.len() {
                        assert(self@.finished[i] == pre.finished[i]);
                    }
                }
                assert(self@.wf());
            }
        }
        r
    }

    /// Finishes the first running task whose activity equals
    /// `activity`, at time `now`.
    ///
    /// Exactly that task moves from the running to the finished
    /// tasks, with a duration of at least one second; with no match
    /// the call returns nothing and mutates nothing.
    pub fn finish_task(&mut self, activity: &str, now: u64) -> (r: Option<FinishedTask>)
        ensures
            ({
                let m = first_match(old(self)@.started, activity@, 0);
                match m {
                    Some(k) => {
                        &&& r matches Some(ft) && ft@ == finish_of(old(self)@.started[k], now)
                        &&& final(self)@ == proj_finish_at(old(self)@, k, now)
                        &&& finish_of(old(self)@.started[k], now).duration >= 1
                    },
                    None => {
                        &&& r is None
                        &&& *final(self) == *old(self)
                    },
                }
            }),
            old(self)@.wf() ==> final(self)@.wf(),
    {
        let key = String::from_str(activity);
        let mut i: usize = 0;
        while i < self.started.len()
            invariant
                i <= self.started.len(),
                key@ == activity@,
                *self == *old(self),
                forall|j: int| 0 <= j < i ==> (#[trigger] self@.started[j]).activity != activity@,
            decreases self.started.len() - i,
        {
            if self.started[i].activity == key {
                proof {
                    lemma_first_match_at(self@.started, activity@, 0, i as int);
                }
                let ft = self.finish_task_at(i, now);
                return Some(ft);
            }
            i += 1;
        }
        proof {
            lemma_first_match_absent(self@.started, activity@, 0);
        }
        None
    }

    /// Finishes the most recently started running task, whatever its
    /// activity, at time `now`.
    ///
    /// With no running task the call returns nothing and mutates
    /// nothing; otherwise the last-inserted running task moves to
    /// the finished tasks.
    pub fn finish_last_task(&mut self, now: u64) -> (r: Option<FinishedTask>)
        ensures
            old(self)@.started.len() == 0 ==> r is None && *final(self) == *old(self),
            old(self)@.started.len() > 0 ==> ({
                let k = old(self)@.started.len() - 1;
                &&& r matches Some(ft) && ft@ == finish_of(old(self)@.started[k], now)
                &&& final(self)@ == proj_finish_at(old(self)@, k, now)
                &&& final(self)@.started == old(self)@.started.drop_last()
            }),
            old(self)@.wf() ==> final(self)@.wf(),
    {
        if self.started.len() > 0 {
            let idx = self.started.len() - 1;
            let ghost pre = self@;
            let ft = self.finish_task_at(idx, now);
            proof {
                assert(pre.started.remove(pre.started.len() - 1) =~= pre.started.drop_last());
            }
            Some(ft)
        } else {
            None
        }
    }

    /// Decides whether the project is well-formed: a non-empty name,
    /// non-empty activity labels, positive durations.
    pub fn wf_check(&self) -> (r: bool)
        ensures
            r == self@.wf(),
    {
        if self.name.as_str().is_empty() {
            return false;
        }
        let mut i: usize = 0;
        while i < self.started.len()
            invariant
                i <= self.started.len(),
                forall|k: int| 0 <= k < i ==> (#[trigger] self@.started[k]).wf(),
            decreases self.started.len() - i,
        {
            if self.started[i].activity.as_str().is_empty() {
                proof {
                    assert(self@.started[i as int] == self.started@[i as int]@);
                    assert(!self@.started[i as int].wf());
                }
                return false;
            }
            i += 1;
        }
        let mut j: usize = 0;
        while j < self.finished.len()
            invariant
                j <= self.finished.len(),
                forall|k: int| 0 <= k < j ==> (#[trigger] self@.finished[k]).wf(),
            decreases self.finished.len() - j,
        {
            if self.finished[j].activity.as_str().is_empty() || self.finished[j].duration < 1 {
                proof {
                    assert(self@.finished[j as int] == self.finished@[j as int]@);
                    assert(!self@.finished[j as int].wf());
                }
                return false;
            }
            j += 1;
        }
        true
    }

    /// All tasks of the project, running ones first, each group in
    /// insertion order.
    pub fn all_tasks(&self) -> (r: Vec<TaskItem>)
        ensures
            r@.len() == self@.started.len() + self@.finished.len(),
            forall|i: int|
                0 <= i < self@.started.len() ==> (#[trigger] r@[i])@ == TaskItemView::Started(
                    self@.started[i],
                ),
            forall|j: int|
                0 <= j < self@.finished.len() ==> (#[trigger] r@[self@.started.len() + j])@
                    == TaskItemView::Finished(self@.finished[j]),
    {
        let mut r: Vec<TaskItem> = Vec::new();
        let mut i: usize = 0;
        while i < self.started.len()
            invariant
                i <= self.started.len(),
                r@.len() == i,
                forall|k: int|
                    0 <= k < i ==> (#[trigger] r@[k])@ == TaskItemView::Started(self@.started[k]),
            decreases self.started.len() - i,
        {
            r.push(TaskItem::Started(self.started[i].duplicate()));
            i += 1;
        }
        let mut j: usize = 0;
        while j < self.finished.len()
            invariant
                j <= self.finished.len(),
                r@.len() == self@.started.len() + j,
                forall|k: int|
                    0 <= k < self@.started.len() ==> (#[trigger] r@[k])@ == TaskItemView::Started(
                        self@.started[k],
                    ),
                forall|k: int|
                    0 <= k < j ==> (#[trigger] r@[self@.started.len() + k])@
                        == TaskItemView::Finished(self@.finished[k]),
            decreases self.finished.len() - j,
        {
            r.push(TaskItem::Finished(self.finished[j].duplicate()));
            j += 1;
        }
        r
    }
}

// ---------------------------------------------------------------
// The tracker store
// ---------------------------------------------------------------

/// The root state: an ordered collection of projects with pairwise
/// distinct names.
#[derive(Debug)]
pub struct TimeTracker {
    pub(crate) projects: Vec<Project>,
}

impl View for TimeTracker {
    type V = TrackerView;

    open(crate) spec fn view(&self) -> TrackerView {
        TrackerView { projects: self.projects@.map_values(|p: Project| p@) }
    }
}

impl TimeTracker {
    /// An empty tracker.
    pub fn new() -> (t: TimeTracker)
        ensures
            t@.projects.len() == 0,
            t@.wf(),
    {
        TimeTracker { projects: Vec::new() }
    }

    /// The projects of the tracker, in creation order.
    pub fn projects(&self) -> (r: &Vec<Project>)
        ensures
            r@.len() == self@.projects.len(),
            forall|i: int| 0 <= i < r@.len() ==> (#[trigger] r@[i])@ == self@.projects[i],
    {
        &self.projects
    }

    /// Appends a project, unless one of the same name already
    /// exists; says whether it was appended.
    pub fn add_project(&mut self, project: Project) -> (r: bool)
        ensures
            r == (first_project(old(self)@.projects, project@.name, 0) is None),
            r ==> final(self)@.projects == old(self)@.projects.push(project@),
            !r ==> *final(self) == *old(self),
            old(self)@.wf() && project@.wf() ==> final(self)@.wf(),
    {
        let ghost pv = project@;
        let mut i: usize = 0;
        while i < self.projects.len()
            invariant
                i <= self.projects.len(),
                pv == project@,
                forall|j: int| 0 <= j < i ==> (#[trigger] self@.projects[j]).name != pv.name,
            decreases self.projects.len() - i,
        {
            if self.projects[i].name == project.name {
                proof {
                    lemma_first_project_at(self@.projects, pv.name, 0, i as int);
                }
                return false;
            }
            i += 1;
        }
        proof {
            lemma_first_project_absent(self@.projects, pv.name, 0);
        }
        let ghost pre = self@;
        self.projects.push(project);
        proof {
            assert(self@.projects =~= pre.projects.push(pv));
            if pre.wf() && pv.wf() {
                assert forall|a: int, b: int|
                    0 <= a < b < self@.projects.len() implies self@.projects[a].name
                    != self@.projects[b].name by {
                    if b < pre.projects.len() {
                        assert(self@.projects[a] == pre.projects[a]);
                        assert(self@.projects[b] == pre.projects[b]);
                    } else {
                        assert(self@.projects[a] == pre.projects[a]);
                        assert(self@.projects[b] == pv);
                    }
                }
                assert(self@.wf());
            }
        }
        true
    }

    /// The position of the first project with the given name.
    pub fn find_project(&self, name: &str) -> (r: Option<usize>)
        ensures
            r matches Some(i) ==> i < self@.projects.len() && first_project(
                self@.projects,
                name@,
                0,
            ) == Some(i as int),
            r is None ==> first_project(self@.projects, name@, 0) is None,
    {
        let key = String::from_str(name);
        let mut i: usize = 0;
        while i < self.projects.len()
            invariant
                i <= self.projects.len(),
                key@ == name@,
                forall|j: int| 0 <= j < i ==> (#[trigger] self@.projects[j]).name != name@,
            decreases self.projects.len() - i,
        {
            if self.projects[i].name == key {
                proof {
                    lemma_first_project_at(self@.projects, name@, 0, i as int);
                }
                return Some(i);
            }
            i += 1;
        }
        proof {
            lemma_first_project_absent(self@.projects, name@, 0);
        }
        None
    }

    /// Starts a task in the project at position `i`.
    pub fn start_task_in(&mut self, i: usize, activity: &str, now: u64) -> (t: StartedTask)
        requires
            i < old(self)@.projects.len(),
            activity@.len() > 0,
        ensures
            final(self)@.projects == old(self)@.projects.update(
                i as int,
                proj_start(old(self)@.projects[i as int], activity@, now),
            ),
            t@ == (StartedView { activity: activity@, start: now }),
            old(self)@.wf() ==> final(self)@.wf(),
    {
        let ghost pre = self@;
        let p = &mut self.projects[i];
        let t = p.start_task(activity, now);
        proof {
            assert(self@.projects =~= pre.projects.update(
                i as int,
                proj_start(pre.projects[i as int], activity@, now),
            ));
            if pre.wf() {
                Self::lemma_update_same_name_wf(
                    pre,
                    i as int,
                    proj_start(pre.projects[i as int], activity@, now),
                );
            }
        }
        t
    }

    /// Finishes the first matching task in the project at position
    /// `i`, as [`Project::finish_task`] does.
    pub fn finish_task_in(&mut self, i: usize, activity: &str, now: u64) -> (r: Option<
        FinishedTask,
    >)
        requires
            i < old(self)@.projects.len(),
        ensures
            ({
                let p0 = old(self)@.projects[i as int];
                let m = first_match(p0.started, activity@, 0);
                match m {
                    Some(k) => {
                        &&& r matches Some(ft) && ft@ == finish_of(p0.started[k], now)
                        &&& final(self)@.projects == old(self)@.projects.update(
                            i as int,
                            proj_finish_at(p0, k, now),
                        )
                    },
                    None => {
                        &&& r is None
                        &&& final(self)@ == old(self)@
                    },
                }
            }),
            old(self)@.wf() ==> final(self)@.wf(),
    {
        let ghost pre = self@;
        let p = &mut self.projects[i];
        let r = p.finish_task(activity, now);
        proof {
            let p0 = pre.projects[i as int];
            match first_match(p0.started, activity@, 0) {
                Some(k) => {
                    assert(self@.projects =~= pre.projects.update(
                        i as int,
                        proj_finish_at(p0, k, now),
                    ));
                    if pre.wf() {
                        Self::lemma_update_same_name_wf(pre, i as int, proj_finish_at(p0, k, now));
                    }
                },
                None => {
                    assert(self@.projects =~= pre.projects);
                    assert(self@ =~= pre);
                },
            }
        }
        r
    }

    /// Finishes the most recently started task in the project at
    /// position `i`, as [`Project::finish_last_task`] does.
    pub fn finish_last_in(&mut self, i: usize, now: u64) -> (r: Option<FinishedTask>)
        requires
            i < old(self)@.projects.len(),
        ensures
            ({
                let p0 = old(self)@.projects[i as int];
                &&& p0.started.len() == 0 ==> r is None && final(self)@ == old(self)@
                &&& p0.started.len() > 0 ==> ({
                    let k = p0.started.len() - 1;
                    &&& r matches Some(ft) && ft@ == finish_of(p0.started[k], now)
                    &&& final(self)@.projects == old(self)@.projects.update(
                        i as int,
                        proj_finish_at(p0, k, now),
                    )
                })
            }),
            old(self)@.wf() ==> final(self)@.wf(),
    {
        let ghost pre = self@;
        let p = &mut self.projects[i];
        let r = p.finish_last_task(now);
        proof {
            let p0 = pre.projects[i as int];
            if p0.started.len() > 0 {
                let k = p0.started.len() - 1;
                assert(self@.projects =~= pre.projects.update(i as int, proj_finish_at(p0, k, now)));
                if pre.wf() {
                    Self::lemma_update_same_name_wf(pre, i as int, proj_finish_at(p0, k, now));
                }
            } else {
                assert(self@.projects =~= pre.projects);
                assert(self@ =~= pre);
            }
        }
        r
    }

    /// Decides whether the tracker is well-formed: every project
    /// well-formed, all names pairwise distinct.
    pub fn wf_check(&self) -> (r: bool)
        ensures
            r == self@.wf(),
    {
        let mut i: usize = 0;
        while i < self.projects.len()
            invariant
                i <= self.projects.len(),
                forall|k: int| 0 <= k < i ==> (#[trigger] self@.projects[k]).wf(),
                forall|a: int, b: int|
                    0 <= a < b < i ==> self@.projects[a].name != self@.projects[b].name,
            decreases self.projects.len() - i,
        {
            if !self.projects[i].wf_check() {
                proof {
                    assert(self@.projects[i as int] == self.projects@[i as int]@);
                    assert(!self@.projects[i as int].wf());
                }
                return false;
            }
            let mut j: usize = 0;
            while j < i
                invariant
                    j <= i < self.projects.len(),
                    forall|a: int| 0 <= a < j ==> self@.projects[a].name != self@.projects[i as int].name,
            decreases i - j,
            {
                if self.projects[j].name == self.projects[i].name {
                    proof {
                        assert(self@.projects[j as int] == self.projects@[j as int]@);
                        assert(self@.projects[i as int] == self.projects@[i as int]@);
                        assert(self@.projects[j as int].name == self@.projects[i as int].name);
                        assert(!self@.wf());
                    }
                    return false;
                }
                j += 1;
            }
            i += 1;
        }
        true
    }

    /// Replacing a project with a well-formed one of the same name
    /// keeps the tracker well-formed.
    proof fn lemma_update_same_name_wf(t: TrackerView, i: int, p: ProjectView)
        requires
            t.wf(),
            0 <= i < t.projects.len(),
            p.wf(),
            p.name == t.projects[i].name,
        ensures
            (TrackerView { projects: t.projects.update(i, p) }).wf(),
    {
        let u = TrackerView { projects: t.projects.update(i, p) };
        assert forall|a: int, b: int|
            0 <= a < b < u.projects.len() implies u.projects[a].name != u.projects[b].name by {
            assert(t.projects[a].name != t.projects[b].name);
        }
    }
}

} // verus!
