//! A queue of download jobs, one per video address.
//!
//! The queue decides; the caller runs the download tool. A request that is
//! accepted starts at once in the `Running` state. While a job for a video is
//! queued or running, no second job for that video, and no job that writes to
//! the same destination, is accepted. A job ends exactly once: it succeeds, fails
//! or is cancelled, and never runs again; a new request for the same video then
//! replaces the ended job. Cancelling a job leaves whatever the tool already
//! wrote at the destination in place; stopping the tool is the caller's part.
use crate::listing::{clone_opt, opt_view};
use crate::progress::{parse_progress_line, progress_of};
use vstd::prelude::*;

verus! {

/// The state of a download job.
#[derive(Debug, PartialEq, Eq)]
pub enum TaskState {
    Queued,
    Running,
    Succeeded,
    /// The job failed; the reason, with the tool's diagnostics.
    Failed(String),
    Cancelled,
}

impl Clone for TaskState {
    fn clone(&self) -> (r: Self)
        ensures
            r == *self,
    {
        match self {
            TaskState::Queued => TaskState::Queued,
            TaskState::Running => TaskState::Running,
            TaskState::Succeeded => TaskState::Succeeded,
            TaskState::Failed(s) => TaskState::Failed(s.clone()),
            TaskState::Cancelled => TaskState::Cancelled,
        }
    }
}

/// A job is active while it is queued or running.
pub open spec fn is_active(s: TaskState) -> bool {
    s is Queued || s is Running
}

/// One download job.
#[derive(Debug, PartialEq, Eq)]
pub struct DownloadTask {
    /// The video's address, which identifies the job.
    pub id: String,
    pub display_name: String,
    pub filename: String,
    /// The path that the download tool writes to.
    pub destination: String,
    pub state: TaskState,
    /// Progress in thousandths, from 0 to 1000.
    pub progress_permille: u32,
    pub speed: Option<String>,
    pub eta: Option<String>,
}

impl Clone for DownloadTask {
    fn clone(&self) -> (r: Self)
        ensures
            r == *self,
    {
        DownloadTask {
            id: self.id.clone(),
            display_name: self.display_name.clone(),
            filename: self.filename.clone(),
            destination: self.destination.clone(),
            state: self.state.clone(),
            progress_permille: self.progress_permille,
            speed: clone_opt(&self.speed),
            eta: clone_opt(&self.eta),
        }
    }
}

/// What the download tool reported about a job's progress.
#[derive(Debug, PartialEq, Eq)]
pub struct Progress {
    /// Progress in thousandths, from 0 to 1000.
    pub permille: u32,
    pub speed: Option<String>,
    pub eta: Option<String>,
}

/// How a job's download tool ended.
#[derive(Debug, PartialEq, Eq)]
pub struct JobOutcome {
    /// The tool exited with success.
    pub success: bool,
    /// The destination file exists.
    pub destination_exists: bool,
    /// What to report when the job failed.
    pub diagnostics: String,
}

/// Why a request was refused.
#[derive(Debug, PartialEq, Eq)]
pub enum QueueError {
    /// A job for the same video is queued or running.
    AlreadyActive,
    /// A queued or running job writes to the same destination.
    DestinationBusy,
}

/// No two jobs share a video address, and no two active jobs share a destination;
/// every progress is at most 1000.
pub open spec fn tasks_wf(t: Seq<DownloadTask>) -> bool {
    &&& forall|i: int, j: int| 0 <= i < t.len() && 0 <= j < t.len() && i != j ==> t[i].id@ != t[j].id@
    &&& forall|i: int, j: int|
        0 <= i < t.len() && 0 <= j < t.len() && i != j && is_active(t[i].state) && is_active(t[j].state)
            ==> t[i].destination@ != t[j].destination@
    &&& forall|i: int| 0 <= i < t.len() ==> t[i].progress_permille <= 1000
}

/// The position of the job for the video `id`.
pub open spec fn position_of(t: Seq<DownloadTask>, id: Seq<char>) -> Option<int> {
    if exists|i: int| 0 <= i < t.len() && t[i].id@ == id {
        Some(choose|i: int| 0 <= i < t.len() && t[i].id@ == id)
    } else {
        None
    }
}

/// Some active job is for the video `id`.
pub open spec fn has_active_id(t: Seq<DownloadTask>, id: Seq<char>) -> bool {
    exists|i: int| 0 <= i < t.len() && t[i].id@ == id && is_active(t[i].state)
}

/// Some active job writes to `dest`.
pub open spec fn has_active_destination(t: Seq<DownloadTask>, dest: Seq<char>) -> bool {
    exists|i: int| 0 <= i < t.len() && t[i].destination@ == dest && is_active(t[i].state)
}

/// The jobs after `task` is accepted: it takes the place of the ended job for
/// the same video, or comes last.
pub open spec fn with_task(t: Seq<DownloadTask>, task: DownloadTask) -> Seq<DownloadTask> {
    match position_of(t, task.id@) {
        Some(i) => t.update(i, task),
        None => t.push(task),
    }
}

/// The jobs after the job for `id`, if there is one, is given the state `s`.
pub open spec fn with_state(t: Seq<DownloadTask>, id: Seq<char>, s: TaskState) -> Seq<DownloadTask> {
    match position_of(t, id) {
        Some(i) => t.update(i, DownloadTask { state: s, ..t[i] }),
        None => t,
    }
}

/// The state that a running job ends in.
pub open spec fn outcome_state(o: JobOutcome) -> TaskState {
    if o.success && o.destination_exists {
        TaskState::Succeeded
    } else {
        TaskState::Failed(o.diagnostics)
    }
}

/// The download jobs, in the order in which their videos were first requested.
pub struct DownloadQueue {
    tasks: Vec<DownloadTask>,
}

impl View for DownloadQueue {
    type V = Seq<DownloadTask>;

    closed spec fn view(&self) -> Seq<DownloadTask> {
        self.tasks@
    }
}

proof fn lemma_position(t: Seq<DownloadTask>, i: int)
    requires
        tasks_wf(t),
        0 <= i < t.len(),
    ensures
        position_of(t, t[i].id@) == Some(i),
{
}

impl DownloadQueue {
    pub open spec fn wf(&self) -> bool {
        tasks_wf(self@)
    }

    pub fn new() -> (q: Self)
        ensures
            q.wf(),
            q@.len() == 0,
    {
        DownloadQueue { tasks: Vec::new() }
    }

    fn find(&self, id: &String) -> (r: Option<usize>)
        requires
            self.wf(),
        ensures
            match r {
                Some(i) => i < self@.len() && position_of(self@, id@) == Some(i as int),
                None => position_of(self@, id@) is None,
            },
    {
        let mut i: usize = 0;
        while i < self.tasks.len()
            invariant
                self.wf(),
                0 <= i <= self@.len(),
                forall|j: int| 0 <= j < i ==> self@[j].id@ != id@,
            decreases self@.len() - i,
        {
            if self.tasks[i].id == *id {
                proof {
                    lemma_position(self@, i as int);
                }
                return Some(i);
            }
            i = i + 1;
        }
        None
    }

    fn destination_busy(&self, dest: &String) -> (r: bool)
        ensures
            r == has_active_destination(self@, dest@),
    {
        let mut i: usize = 0;
        while i < self.tasks.len()
            invariant
                0 <= i <= self@.len(),
                forall|j: int| 0 <= j < i ==> !(self@[j].destination@ == dest@ && is_active(#[trigger] self@[j].state)),
            decreases self@.len() - i,
        {
            let t = &self.tasks[i];
            let active = match t.state {
                TaskState::Queued | TaskState::Running => true,
                _ => false,
            };
            if active && t.destination == *dest {
                return true;
            }
            i = i + 1;
        }
        false
    }

    /// Accepts a request to download the video at `video_url` into `destination`
    /// and starts it; refuses it while a job for the same video, or one that
    /// writes to the same destination, is queued or running.
    pub fn add_download(&mut self, display_name: String, video_url: String, filename: String, destination: String) -> (r:
        Result<(), QueueError>)
        requires
            old(self).wf(),
        ensures
            final(self).wf(),
            has_active_id(old(self)@, video_url@) ==> r matches Err(QueueError::AlreadyActive),
            !has_active_id(old(self)@, video_url@) && has_active_destination(old(self)@, destination@) ==> r matches Err(
                QueueError::DestinationBusy,
            ),
            r is Err ==> final(self)@ == old(self)@,
            r is Ok ==> has_active_id(final(self)@, video_url@),
            !has_active_id(old(self)@, video_url@) && !has_active_destination(old(self)@, destination@) ==> r is Ok
                && final(self)@ == with_task(
                old(self)@,
                DownloadTask {
                    id: video_url,
                    display_name,
                    filename,
                    destination,
                    state: TaskState::Running,
                    progress_permille: 0,
                    speed: None,
                    eta: None,
                },
            ),
    {
        let ghost old_tasks = self@;
        let pos = self.find(&video_url);
        match pos {
            Some(i) => {
                let active = match self.tasks[i].state {
                    TaskState::Queued | TaskState::Running => true,
                    _ => false,
                };
                if active {
                    return Err(QueueError::AlreadyActive);
                }
            },
            None => {},
        }
        proof {
            if has_active_id(old_tasks, video_url@) {
                let k = choose|k: int| 0 <= k < old_tasks.len() && old_tasks[k].id@ == video_url@ && is_active(old_tasks[k].state);
                lemma_position(old_tasks, k);
            }
        }
        if self.destination_busy(&destination) {
            return Err(QueueError::DestinationBusy);
        }
        let task = DownloadTask {
            id: video_url,
            display_name,
            filename,
            destination,
            state: TaskState::Running,
            progress_permille: 0,
            speed: None,
            eta: None,
        };
        let ghost accepted = task;
        match pos {
            Some(i) => {
                self.tasks.set(i, task);
            },
            None => {
                self.tasks.push(task);
            },
        }
        proof {
            lemma_second_request_refused(old_tasks, accepted);
        }
        Ok(())
    }

    /// Cancels the job for `video_url` when it is queued or running; the answer
    /// says whether it was, and so whether its download tool must be stopped.
    pub fn cancel(&mut self, video_url: &str) -> (r: bool)
        requires
            old(self).wf(),
        ensures
            final(self).wf(),
            r == has_active_id(old(self)@, video_url@),
            r ==> final(self)@ == with_state(old(self)@, video_url@, TaskState::Cancelled),
            !r ==> final(self)@ == old(self)@,
    {
        let id = video_url.to_owned();
        match self.find(&id) {
            Some(i) => {
                let active = match self.tasks[i].state {
                    TaskState::Queued | TaskState::Running => true,
                    _ => false,
                };
                if active {
                    let mut t = self.tasks[i].clone();
                    t.state = TaskState::Cancelled;
                    self.tasks.set(i, t);
                    return true;
                }
                false
            },
            None => false,
        }
    }

    /// Ends the running job for `video_url` as its download tool ended: it
    /// succeeded when the tool succeeded and the destination exists, and failed
    /// otherwise. A job that is not running is left as it is; the answer says
    /// whether the job was running.
    pub fn finish(&mut self, video_url: &str, outcome: JobOutcome) -> (r: bool)
        requires
            old(self).wf(),
        ensures
            final(self).wf(),
            r == (position_of(old(self)@, video_url@) matches Some(i) && old(self)@[i].state is Running),
            r ==> final(self)@ == with_state(old(self)@, video_url@, outcome_state(outcome)),
            !r ==> final(self)@ == old(self)@,
    {
        let id = video_url.to_owned();
        match self.find(&id) {
            Some(i) => {
                let running = match self.tasks[i].state {
                    TaskState::Running => true,
                    _ => false,
                };
                if running {
                    let mut t = self.tasks[i].clone();
                    t.state = if outcome.success && outcome.destination_exists {
                        TaskState::Succeeded
                    } else {
                        TaskState::Failed(outcome.diagnostics)
                    };
                    self.tasks.set(i, t);
                    return true;
                }
                false
            },
            None => false,
        }
    }

    /// Records the progress that the download tool reported for the running job
    /// for `video_url`; a progress above 1000 is taken as 1000. A job that is not
    /// running is left as it is; the answer says whether the job was running.
    pub fn report_progress(&mut self, video_url: &str, progress: Progress) -> (r: bool)
        requires
            old(self).wf(),
        ensures
            final(self).wf(),
            r == (position_of(old(self)@, video_url@) matches Some(i) && old(self)@[i].state is Running),
            r ==> ({
                let i = position_of(old(self)@, video_url@)->0;
                final(self)@ == old(self)@.update(
                    i,
                    DownloadTask {
                        progress_permille: if progress.permille <= 1000 {
                            progress.permille
                        } else {
                            1000
                        },
                        speed: progress.speed,
                        eta: progress.eta,
                        ..old(self)@[i]
                    },
                )
            }),
            !r ==> final(self)@ == old(self)@,
    {
        let id = video_url.to_owned();
        match self.find(&id) {
            Some(i) => {
                let running = match self.tasks[i].state {
                    TaskState::Running => true,
                    _ => false,
                };
                if running {
                    let mut t = self.tasks[i].clone();
                    t.progress_permille = if progress.permille <= 1000 {
                        progress.permille
                    } else {
                        1000
                    };
                    t.speed = progress.speed;
                    t.eta = progress.eta;
                    self.tasks.set(i, t);
                    return true;
                }
                false
            },
            None => false,
        }
    }

    /// Reads a line of the download tool's output for the job for `video_url`:
    /// a progress line updates the progress, speed and time left of the job when
    /// it is running; any other line changes nothing. The answer says whether the
    /// job changed.
    pub fn apply_progress_line(&mut self, video_url: &str, line: &str) -> (r: bool)
        requires
            old(self).wf(),
        ensures
            final(self).wf(),
            progress_of(line@) is None ==> !r,
            r == (progress_of(line@) is Some && (position_of(old(self)@, video_url@) matches Some(i)
                && old(self)@[i].state is Running)),
            !r ==> final(self)@ == old(self)@,
            r ==> ({
                let i = position_of(old(self)@, video_url@)->0;
                let p = progress_of(line@)->0;
                &&& final(self)@.len() == old(self)@.len()
                &&& forall|j: int| 0 <= j < old(self)@.len() && j != i ==> final(self)@[j] == old(self)@[j]
                &&& final(self)@[i] == DownloadTask {
                    progress_permille: final(self)@[i].progress_permille,
                    speed: final(self)@[i].speed,
                    eta: final(self)@[i].eta,
                    ..old(self)@[i]
                }
                &&& final(self)@[i].progress_permille == p.0
                &&& opt_view(final(self)@[i].speed) == p.1
                &&& opt_view(final(self)@[i].eta) == p.2
            }),
    {
        match parse_progress_line(line) {
            Some(p) => self.report_progress(video_url, p),
            None => false,
        }
    }

    /// A copy of every job, in order.
    pub fn get_tasks(&self) -> (r: Vec<DownloadTask>)
        ensures
            r@ == self@,
    {
        let r = self.tasks.clone();
        assert(r@ =~= self@);
        r
    }

    /// A copy of the job for `video_url`, if there is one.
    pub fn task(&self, video_url: &str) -> (r: Option<DownloadTask>)
        requires
            self.wf(),
        ensures
            match position_of(self@, video_url@) {
                Some(i) => r == Some(self@[i]),
                None => r is None,
            },
    {
        let id = video_url.to_owned();
        match self.find(&id) {
            Some(i) => Some(self.tasks[i].clone()),
            None => None,
        }
    }
}

/// In a well-formed queue no two queued or running jobs are for the same video
/// or write to the same destination, so no two download tools ever race on one file.
pub proof fn lemma_single_flight(q: DownloadQueue, i: int, j: int)
    requires
        q.wf(),
        0 <= i < q@.len(),
        0 <= j < q@.len(),
        i != j,
        is_active(q@[i].state),
        is_active(q@[j].state),
    ensures
        q@[i].id@ != q@[j].id@,
        q@[i].destination@ != q@[j].destination@,
{
}

/// Once a request for a video is accepted, the queue holds a running job for
/// that video, so a second request for it is refused until that job ends.
pub proof fn lemma_second_request_refused(before: Seq<DownloadTask>, task: DownloadTask)
    requires
        task.state is Running,
    ensures
        has_active_id(with_task(before, task), task.id@),
{
    let after = with_task(before, task);
    match position_of(before, task.id@) {
        Some(i) => {
            assert(after[i] == task);
        },
        None => {
            assert(after[before.len() as int] == task);
        },
    }
}

} // verus!
