//! Sessions: commands that are carried out turn by turn.
//!
//! A command may need work that only the program can do: run a command line
//! and wait for it, sleep, leave the process. A session holds the steps of one
//! command. Each call of `resume` takes one turn and says what the program
//! does before the next: nothing, or one such piece of work, whose outcome it
//! hands to the next call.

use crate::command_to_run::{rendering, CommandToRun, CommandView};
use crate::machine::{
    is_active, well_formed, Event, READINESS_PAUSE_MILLIS, SCRIPT_STATUS_FAILED,
    SCRIPT_STATUS_FINISHED, SCRIPT_STATUS_INTERRUPTED, SCRIPT_STATUS_KILLED,
    SCRIPT_STATUS_NOT_STARTED, SUPERVISION_PAUSE_MILLIS,
};
use crate::service::{all_idle, opt_command, ServiceView};
use crate::service_manager::{
    advance_outcome, knows_script, lemma_idle_services_stay, lemma_operations_keep_valid,
    lemma_operations_keep_well_formed, manager_valid,
    report, scripts_finished, service_names, services_claimed, services_idle,
    services_well_formed, start_script_outcome, start_service_outcome, stop_script_outcome,
    stop_service_left, stop_service_outcome, up_outcome, ManagerView, Outcome, ServiceManager,
};
use crate::script::ScriptChecker;
use crate::text::{copy_strings, has_char, join, join_strings, lemma_texts_push, texts};
use crate::user_command::WriterWithTCP;
use crate::utilities::{Error, ErrorKind};
use vstd::prelude::*;

verus! {

/// The exit code of a daemon that was shut down by a termination signal.
pub const SIGNAL_EXIT_CODE: i32 = 1;

/// One step of a command.
#[derive(Debug)]
pub enum Step {
    /// Write a line.
    Write(String),
    /// Start the services of a set.
    Up(String),
    /// Start a script, where the name holds a dot, or else a service; the
    /// flag says whether the start is forced.
    Start(String, bool),
    /// Stop a script, where the name holds a dot, or else a service, whose
    /// post-stop command must succeed.
    Stop(String),
    /// Stop a service and take note of its name where that fails.
    StopCollecting(String),
    /// Fail where a name was taken note of.
    CheckStopped,
    /// Wait until no script is starting or running.
    AwaitIdle,
    /// Run a command line and wait for it.
    Run(CommandToRun),
    /// Write the report of all services or of one.
    Report(Option<String>),
    /// Fail where one of the full names leads to no script.
    RequireScripts(Vec<String>),
    /// Wait until every one of the scripts is finished.
    AwaitFinished(Vec<String>),
}

/// What a step holds.
pub enum StepView {
    Write(Seq<char>),
    Up(Seq<char>),
    Start(Seq<char>, bool),
    Stop(Seq<char>),
    StopCollecting(Seq<char>),
    CheckStopped,
    AwaitIdle,
    Run(CommandView),
    Report(Option<Seq<char>>),
    RequireScripts(Seq<Seq<char>>),
    AwaitFinished(Seq<Seq<char>>),
}

impl View for Step {
    type V = StepView;

    open spec fn view(&self) -> StepView {
        match *self {
            Step::Write(s) => StepView::Write(s@),
            Step::Up(s) => StepView::Up(s@),
            Step::Start(s, forced) => StepView::Start(s@, forced),
            Step::Stop(s) => StepView::Stop(s@),
            Step::StopCollecting(s) => StepView::StopCollecting(s@),
            Step::CheckStopped => StepView::CheckStopped,
            Step::AwaitIdle => StepView::AwaitIdle,
            Step::Run(c) => StepView::Run(c@),
            Step::Report(o) => StepView::Report(
                match o {
                    Some(s) => Some(s@),
                    None => None,
                },
            ),
            Step::RequireScripts(v) => StepView::RequireScripts(texts(v@)),
            Step::AwaitFinished(v) => StepView::AwaitFinished(texts(v@)),
        }
    }
}

/// What each of the steps holds.
pub open spec fn step_views(v: Seq<Step>) -> Seq<StepView> {
    Seq::new(v.len(), |i: int| v[i]@)
}

/// What the program reports at the beginning of a turn.
#[derive(Debug)]
pub enum Reply {
    /// Nothing: no work was asked for.
    Go,
    /// The command line ran and succeeded.
    Ran,
    /// The command line could not be run or failed; the text says why.
    Failed(String),
    /// The sleep is over.
    Slept,
}

/// What the program does before the next turn.
#[derive(Debug)]
pub enum Request {
    /// Nothing: take the next turn at once, with `Reply::Go`.
    Continue,
    /// Run the command line, wait for it, and report `Ran` or `Failed`.
    Run(CommandToRun),
    /// Sleep for so many milliseconds and report `Slept`.
    Sleep(u64),
    /// Leave the process with this exit code.
    Exit(i32),
    /// The command is over, with this result.
    Done(Result<(), Error>),
}

/// What a request holds.
pub enum RequestView {
    Continue,
    Run(CommandView),
    Sleep(u64),
    Exit(i32),
    Done(Option<(ErrorKind, Seq<char>)>),
}

impl View for Request {
    type V = RequestView;

    open spec fn view(&self) -> RequestView {
        match *self {
            Request::Continue => RequestView::Continue,
            Request::Run(c) => RequestView::Run(c@),
            Request::Sleep(ms) => RequestView::Sleep(ms),
            Request::Exit(code) => RequestView::Exit(code),
            Request::Done(r) => RequestView::Done(
                match r {
                    Ok(_) => None,
                    Err(e) => Some((e.kind, e.message@)),
                },
            ),
        }
    }
}

/// What a session holds.
pub struct SessionView {
    /// The steps of the command.
    pub steps: Seq<StepView>,
    /// The place of the step that the next turn takes.
    pub next: int,
    /// Whether that step has asked for a command line to be run.
    pub waiting: bool,
    /// The names of the services that could not be stopped.
    pub failed: Seq<Seq<char>>,
    /// Whether command lines are shown and not run.
    pub noexec: bool,
    /// The exit code with which the process is left when the command is over,
    /// where it is to be left.
    pub exit_code: Option<i32>,
    /// The error that has ended the command, if one has.
    pub fault: Option<(ErrorKind, Seq<char>)>,
}

/// How a turn goes on.
pub enum Course {
    /// The step is done.
    Next,
    /// The command fails.
    Failed(ErrorKind, Seq<char>),
    /// The step asks for a command line to be run.
    Wait(CommandView),
    /// The step asks for a sleep and is taken again after it.
    Pause(u64),
    /// The step is done and the service is taken note of.
    Collect(Seq<char>),
}

/// What the step of a turn comes to.
pub struct Verdict {
    pub services: Seq<ServiceView>,
    pub lines: Seq<Seq<char>>,
    pub course: Course,
}

/// The step changes nothing and writes nothing.
pub open spec fn plain(services: Seq<ServiceView>, course: Course) -> Verdict {
    Verdict { services, lines: Seq::empty(), course }
}

/// The verdict of an operation on the services.
pub open spec fn of_outcome(out: Outcome) -> Verdict {
    Verdict {
        services: out.services,
        lines: out.lines,
        course: match out.fault {
            Some((kind, message)) => Course::Failed(kind, message),
            None => Course::Next,
        },
    }
}

/// The place of the first of `names` that leads to no script, or their number
/// where each leads to one.
pub open spec fn first_missing(names: Seq<Seq<char>>, services: Seq<ServiceView>) -> int
    decreases names.len(),
{
    if names.len() == 0 || !knows_script(services, names[0]) {
        0
    } else {
        1 + first_missing(names.skip(1), services)
    }
}

/// A place that leads to no script, with only scripts before it, is
/// `first_missing`; so is the end where every name leads to a script.
pub proof fn lemma_first_missing_is(names: Seq<Seq<char>>, services: Seq<ServiceView>, k: int)
    requires
        0 <= k <= names.len(),
        forall|j: int| 0 <= j < k ==> knows_script(services, #[trigger] names[j]),
        k < names.len() ==> !knows_script(services, names[k]),
    ensures
        first_missing(names, services) == k,
    decreases names.len(),
{
    if names.len() == 0 || !knows_script(services, names[0]) {
        if k > 0 {
            assert(knows_script(services, names[0]));
        }
    } else {
        let t = names.skip(1);
        assert forall|j: int| 0 <= j < k - 1 implies knows_script(services, #[trigger] t[j]) by {
            assert(t[j] == names[j + 1]);
        }
        lemma_first_missing_is(t, services, k - 1);
    }
}

/// The message where services could not be stopped.
pub open spec fn not_stopped_message(failed: Seq<Seq<char>>) -> Seq<char> {
    "could not stop these services: "@ + join(failed, ","@)
}

/// The text of what the program reports of a command line that failed.
pub open spec fn failure_text(reply: Reply) -> Seq<char> {
    match reply {
        Reply::Failed(text) => text@,
        _ => "command was not run"@,
    }
}

/// What the stop of a service comes to. Before the post-stop command was
/// asked for, the scripts are stopped. Once it was asked for, the reply says
/// how it went. Where `collect` holds, a failure does not end the command: the
/// name of the service is taken note of.
pub open spec fn stop_verdict(
    m: ManagerView,
    s: SessionView,
    name: Seq<char>,
    reply: Reply,
    collect: bool,
) -> Verdict {
    if !s.waiting {
        let out = stop_service_outcome(m.services, name, s.noexec);
        match out.fault {
            Some((kind, message)) => Verdict {
                services: out.services,
                lines: out.lines,
                course: if collect {
                    Course::Collect(name)
                } else {
                    Course::Failed(kind, message)
                },
            },
            None => Verdict {
                services: out.services,
                lines: out.lines,
                course: match stop_service_left(m.services, name, s.noexec) {
                    Some(c) => Course::Wait(c),
                    None => Course::Next,
                },
            },
        }
    } else if reply is Ran {
        Verdict {
            services: m.services,
            lines: seq!["Finished post-stop-script for "@ + name],
            course: Course::Next,
        }
    } else if collect {
        plain(m.services, Course::Collect(name))
    } else {
        plain(m.services, Course::Failed(ErrorKind::ProcessError, failure_text(reply)))
    }
}

/// What a step comes to.
pub open spec fn verdict(m: ManagerView, s: SessionView, step: StepView, reply: Reply) -> Verdict {
    match step {
        StepView::Write(line) => Verdict {
            services: m.services,
            lines: seq![line],
            course: Course::Next,
        },
        StepView::Up(name) => of_outcome(up_outcome(m, name, s.noexec)),
        StepView::Start(name, forced) => if name.contains('.') {
            of_outcome(start_script_outcome(m.services, forced, name, s.noexec))
        } else {
            of_outcome(start_service_outcome(m.services, forced, name, s.noexec))
        },
        StepView::Stop(name) => if name.contains('.') {
            of_outcome(stop_script_outcome(m.services, name))
        } else {
            stop_verdict(m, s, name, reply, false)
        },
        StepView::StopCollecting(name) => stop_verdict(m, s, name, reply, true),
        StepView::CheckStopped => if s.failed.len() > 0 {
            plain(m.services, Course::Failed(ErrorKind::Aggregated, not_stopped_message(s.failed)))
        } else {
            plain(m.services, Course::Next)
        },
        StepView::AwaitIdle => if services_idle(m.services) {
            plain(m.services, Course::Next)
        } else {
            plain(m.services, Course::Pause(SUPERVISION_PAUSE_MILLIS))
        },
        StepView::Run(c) => if s.noexec {
            Verdict { services: m.services, lines: seq![rendering(c)], course: Course::Next }
        } else if !s.waiting {
            plain(m.services, Course::Wait(c))
        } else if reply is Ran {
            plain(m.services, Course::Next)
        } else {
            plain(m.services, Course::Failed(ErrorKind::ProcessError, failure_text(reply)))
        },
        StepView::Report(only) => Verdict {
            services: m.services,
            lines: seq![report(m.services, only)],
            course: Course::Next,
        },
        StepView::RequireScripts(names) => if 0 <= first_missing(names, m.services)
            < names.len() {
            plain(
                m.services,
                Course::Failed(
                    ErrorKind::InvalidName,
                    "Script does not exist: "@ + names[first_missing(names, m.services)],
                ),
            )
        } else {
            plain(m.services, Course::Next)
        },
        StepView::AwaitFinished(names) => if scripts_finished(m.services, names) {
            plain(m.services, Course::Next)
        } else {
            plain(m.services, Course::Pause(READINESS_PAUSE_MILLIS))
        },
    }
}

/// What a turn comes to.
pub struct Turn {
    pub services: Seq<ServiceView>,
    pub session: SessionView,
    pub lines: Seq<Seq<char>>,
    pub request: RequestView,
}

/// The session when its command is over.
pub open spec fn over(s: SessionView) -> SessionView {
    SessionView { next: s.steps.len() as int, waiting: false, ..s }
}

/// Whether the command of the session is over.
pub open spec fn is_over(s: SessionView) -> bool {
    s.next < 0 || s.next >= s.steps.len()
}

/// The request that ends a command: to leave the process, where the session
/// asks for that, and else the result.
pub open spec fn last_request(s: SessionView, fault: Option<(ErrorKind, Seq<char>)>) -> RequestView {
    match s.exit_code {
        Some(code) => RequestView::Exit(code),
        None => RequestView::Done(fault),
    }
}

/// What a turn comes to: the command is over where no step is left; else the
/// step at hand is taken. A step that is done makes room for the next one. A
/// failure ends the command, and its message is written. A turn of a command
/// that is over changes nothing and gives the request that ended it again.
pub open spec fn turn(m: ManagerView, s: SessionView, reply: Reply) -> Turn {
    if is_over(s) {
        Turn {
            services: m.services,
            session: over(s),
            lines: Seq::empty(),
            request: last_request(s, s.fault),
        }
    } else {
        let v = verdict(m, s, s.steps[s.next], reply);
        match v.course {
            Course::Next => Turn {
                services: v.services,
                session: SessionView { next: s.next + 1, waiting: false, ..s },
                lines: v.lines,
                request: RequestView::Continue,
            },
            Course::Failed(kind, message) => Turn {
                services: v.services,
                session: SessionView { fault: Some((kind, message)), ..over(s) },
                lines: v.lines.push(message),
                request: last_request(s, Some((kind, message))),
            },
            Course::Wait(c) => Turn {
                services: v.services,
                session: SessionView { waiting: true, ..s },
                lines: v.lines,
                request: RequestView::Run(c),
            },
            Course::Pause(ms) => Turn {
                services: v.services,
                session: s,
                lines: v.lines,
                request: RequestView::Sleep(ms),
            },
            Course::Collect(name) => Turn {
                services: v.services,
                session: SessionView {
                    next: s.next + 1,
                    waiting: false,
                    failed: s.failed.push(name),
                    ..s
                },
                lines: v.lines,
                request: RequestView::Continue,
            },
        }
    }
}

/// The steps that run a command line, with a line before and a line after;
/// none where there is no command line.
pub open spec fn run_steps(command: Option<CommandView>, before: Seq<char>, after: Seq<char>) -> Seq<
    StepView,
> {
    match command {
        Some(c) => seq![StepView::Write(before), StepView::Run(c), StepView::Write(after)],
        None => Seq::empty(),
    }
}

/// The steps that run the init command.
pub open spec fn init_steps(m: ManagerView) -> Seq<StepView> {
    run_steps(m.init_command, "Starting init script..."@, "Finished init script..."@)
}

/// The steps that stop every service: each is stopped, whether or not the
/// one before it could be, and in the end the command fails where one could
/// not.
pub open spec fn stop_all_steps(m: ManagerView) -> Seq<StepView> {
    Seq::new(m.services.len(), |i: int| StepView::StopCollecting(m.services[i].name)).push(
        StepView::CheckStopped,
    )
}

/// The steps of a shutdown: every service is stopped, then every script is
/// waited for, then the shutdown command is run.
pub open spec fn shutdown_steps(m: ManagerView) -> Seq<StepView> {
    stop_all_steps(m) + seq![
        StepView::Write("Waiting for all services to be finished..."@),
        StepView::AwaitIdle,
    ] + run_steps(
        m.shutdown_command,
        "Starting shutdown script..."@,
        "Finished shutdown script..."@,
    )
}

/// The steps that wait for scripts: each must exist, then each must finish.
pub open spec fn wait_steps(names: Seq<Seq<char>>) -> Seq<StepView> {
    seq![StepView::RequireScripts(names), StepView::AwaitFinished(names)]
}

/// A session at its beginning.
pub open spec fn fresh(steps: Seq<StepView>, noexec: bool, exit_code: Option<i32>) -> SessionView {
    SessionView {
        steps,
        next: 0,
        waiting: false,
        failed: Seq::empty(),
        noexec,
        exit_code,
        fault: None,
    }
}

/// What an optional error holds.
pub open spec fn opt_fault(fault: Option<Error>) -> Option<(ErrorKind, Seq<char>)> {
    match fault {
        Some(e) => Some((e.kind, e.message@)),
        None => None,
    }
}

/// The steps of one command, as they are carried out turn by turn.
#[derive(Debug)]
pub struct Session {
    steps: Vec<Step>,
    next: usize,
    waiting: bool,
    failed: Vec<String>,
    noexec: bool,
    exit_code: Option<i32>,
    fault: Option<Error>,
}

impl View for Session {
    type V = SessionView;

    closed spec fn view(&self) -> SessionView {
        SessionView {
            steps: step_views(self.steps@),
            next: self.next as int,
            waiting: self.waiting,
            failed: texts(self.failed@),
            noexec: self.noexec,
            exit_code: self.exit_code,
            fault: opt_fault(self.fault),
        }
    }
}

/// How a turn goes on, as the library holds it.
enum Decision {
    Next,
    Failed(Error),
    Wait(CommandToRun),
    Pause(u64),
    Collect(String),
}

impl View for Decision {
    type V = Course;

    closed spec fn view(&self) -> Course {
        match *self {
            Decision::Next => Course::Next,
            Decision::Failed(e) => Course::Failed(e.kind, e.message@),
            Decision::Wait(c) => Course::Wait(c@),
            Decision::Pause(ms) => Course::Pause(ms),
            Decision::Collect(name) => Course::Collect(name@),
        }
    }
}

fn decide<T>(r: Result<T, Error>) -> (d: Decision)
    ensures
        d@ == match r {
            Ok(_) => Course::Next,
            Err(e) => Course::Failed(e.kind, e.message@),
        },
{
    match r {
        Ok(_) => Decision::Next,
        Err(e) => Decision::Failed(e),
    }
}

fn process_error(reply: &Reply) -> (e: Error)
    ensures
        e.describes(ErrorKind::ProcessError, failure_text(*reply)),
{
    match reply {
        Reply::Failed(text) => Error::new(ErrorKind::ProcessError, text.clone()),
        _ => Error::new(ErrorKind::ProcessError, String::from_str("command was not run")),
    }
}

/// The place of the first of `names` that leads to no script.
fn find_missing(manager: &ServiceManager, names: &Vec<String>) -> (k: usize)
    ensures
        k == first_missing(texts(names@), manager@.services),
        k <= names.len(),
{
    let mut k: usize = 0;
    while k < names.len()
        invariant
            k <= names.len(),
            forall|j: int|
                0 <= j < k ==> knows_script(manager@.services, #[trigger] texts(names@)[j]),
        decreases names.len() - k,
    {
        if !manager.services().script_exists(&names[k]) {
            proof {
                lemma_first_missing_is(texts(names@), manager@.services, k as int);
            }
            return k;
        }
        k += 1;
    }
    proof {
        lemma_first_missing_is(texts(names@), manager@.services, k as int);
    }
    k
}

fn stop_decision(
    manager: &mut ServiceManager,
    waiting: bool,
    noexec: bool,
    name: &String,
    reply: &Reply,
    collect: bool,
    writer: &mut WriterWithTCP,
    s: Ghost<SessionView>,
) -> (d: Decision)
    requires
        s@.waiting == waiting,
        s@.noexec == noexec,
    ensures
        final(manager)@ == (ManagerView {
            services: stop_verdict(old(manager)@, s@, name@, *reply, collect).services,
            ..old(manager)@
        }),
        final(writer)@ == old(writer)@ + stop_verdict(
            old(manager)@,
            s@,
            name@,
            *reply,
            collect,
        ).lines,
        d@ == stop_verdict(old(manager)@, s@, name@, *reply, collect).course,
{
    if !waiting {
        match manager.stop_service(name, noexec, writer) {
            Ok(Some(c)) => Decision::Wait(c),
            Ok(None) => Decision::Next,
            Err(e) => if collect {
                Decision::Collect(name.clone())
            } else {
                Decision::Failed(e)
            },
        }
    } else {
        match reply {
            Reply::Ran => {
                writer.write_pair("Finished post-stop-script for ", name.as_str());
                Decision::Next
            },
            _ => {
                if collect {
                    Decision::Collect(name.clone())
                } else {
                    Decision::Failed(process_error(reply))
                }
            },
        }
    }
}

impl Session {
    /// A session at its beginning.
    pub fn new(steps: Vec<Step>, noexec: bool, exit_code: Option<i32>) -> (r: Session)
        ensures
            r@ == fresh(step_views(steps@), noexec, exit_code),
    {
        let r = Session {
            steps,
            next: 0,
            waiting: false,
            failed: Vec::new(),
            noexec,
            exit_code,
            fault: None,
        };
        assert(texts(r.failed@) =~= Seq::<Seq<char>>::empty());
        r
    }

    /// Whether the command of the session is over.
    pub fn is_over(&self) -> (r: bool)
        ensures
            r == is_over(self@),
    {
        self.next >= self.steps.len()
    }

    /// The same session, which leaves the process with `code` when its command
    /// is over.
    pub fn exiting(self, code: i32) -> (r: Session)
        ensures
            r@ == (SessionView { exit_code: Some(code), ..self@ }),
    {
        Session {
            steps: self.steps,
            next: self.next,
            waiting: self.waiting,
            failed: self.failed,
            noexec: self.noexec,
            exit_code: Some(code),
            fault: self.fault,
        }
    }

    /// Whether the command has ended with an error.
    pub fn has_failed(&self) -> (r: bool)
        ensures
            r == self@.fault is Some,
    {
        self.fault.is_some()
    }

    /// The request that ends the command.
    fn finish(&mut self) -> (request: Request)
        ensures
            final(self)@ == over(old(self)@),
            request@ == last_request(old(self)@, old(self)@.fault),
    {
        self.next = self.steps.len();
        self.waiting = false;
        match self.exit_code {
            Some(code) => Request::Exit(code),
            None => match &self.fault {
                Some(e) => Request::Done(Err(Error::new(e.kind, e.message.clone()))),
                None => Request::Done(Ok(())),
            },
        }
    }

    /// What the step at hand comes to.
    fn decide(&self, manager: &mut ServiceManager, reply: &Reply, writer: &mut WriterWithTCP) -> (d:
        Decision)
        requires
            !is_over(self@),
        ensures
            final(manager)@ == (ManagerView {
                services: verdict(
                    old(manager)@,
                    self@,
                    self@.steps[self@.next],
                    *reply,
                ).services,
                ..old(manager)@
            }),
            final(writer)@ == old(writer)@ + verdict(
                old(manager)@,
                self@,
                self@.steps[self@.next],
                *reply,
            ).lines,
            d@ == verdict(old(manager)@, self@, self@.steps[self@.next], *reply).course,
    {
        let ghost before = writer@;
        let ghost s = self@;
        match &self.steps[self.next] {
            Step::Write(line) => {
                writer.write_string(line.clone());
                Decision::Next
            },
            Step::Up(name) => decide(manager.up(name, self.noexec, writer)),
            Step::Start(name, forced) => {
                if has_char(name.as_str(), '.') {
                    decide(manager.start_script(*forced, name, self.noexec, writer))
                } else {
                    decide(manager.start_service(*forced, name, self.noexec, writer))
                }
            },
            Step::Stop(name) => {
                if has_char(name.as_str(), '.') {
                    decide(manager.stop_script(name, writer))
                } else {
                    stop_decision(
                        manager,
                        self.waiting,
                        self.noexec,
                        name,
                        reply,
                        false,
                        writer,
                        Ghost(s),
                    )
                }
            },
            Step::StopCollecting(name) => stop_decision(
                manager,
                self.waiting,
                self.noexec,
                name,
                reply,
                true,
                writer,
                Ghost(s),
            ),
            Step::CheckStopped => {
                if self.failed.len() > 0 {
                    let mut message = String::from_str("could not stop these services: ");
                    message.append(join_strings(&self.failed, ",").as_str());
                    Decision::Failed(Error::new(ErrorKind::Aggregated, message))
                } else {
                    Decision::Next
                }
            },
            Step::AwaitIdle => {
                if manager.wait_finish() {
                    Decision::Next
                } else {
                    Decision::Pause(SUPERVISION_PAUSE_MILLIS)
                }
            },
            Step::Run(command) => {
                if self.noexec {
                    command.dry_run(writer);
                    Decision::Next
                } else if !self.waiting {
                    Decision::Wait(command.copy())
                } else {
                    match reply {
                        Reply::Ran => Decision::Next,
                        _ => Decision::Failed(process_error(reply)),
                    }
                }
            },
            Step::Report(only) => {
                let text = match only {
                    Some(name) => manager.report_status(Some(name)),
                    None => manager.report_status(None),
                };
                writer.write_string(text);
                Decision::Next
            },
            Step::RequireScripts(names) => {
                let k = find_missing(manager, names);
                if k < names.len() {
                    let mut message = String::from_str("Script does not exist: ");
                    message.append(names[k].as_str());
                    Decision::Failed(Error::new(ErrorKind::InvalidName, message))
                } else {
                    Decision::Next
                }
            },
            Step::AwaitFinished(names) => {
                if manager.services().all_finished(names) {
                    Decision::Next
                } else {
                    Decision::Pause(READINESS_PAUSE_MILLIS)
                }
            },
        }
    }

    /// Takes one turn of the command and says what the program does before
    /// the next. `reply` is the outcome of what the turn before asked for.
    pub fn resume(&mut self, manager: &mut ServiceManager, reply: Reply, writer: &mut WriterWithTCP) -> (request:
        Request)
        ensures
            final(manager)@ == (ManagerView {
                services: turn(old(manager)@, old(self)@, reply).services,
                ..old(manager)@
            }),
            final(self)@ == turn(old(manager)@, old(self)@, reply).session,
            final(writer)@ == old(writer)@ + turn(old(manager)@, old(self)@, reply).lines,
            request@ == turn(old(manager)@, old(self)@, reply).request,
            manager_valid(old(manager)@) ==> manager_valid(final(manager)@),
    {
        proof {
            if manager_valid(manager@) {
                lemma_turn_keeps_valid(manager@, self@, reply);
            }
        }
        let ghost before = writer@;
        if self.next >= self.steps.len() {
            return self.finish();
        }
        let decision = self.decide(manager, &reply, writer);
        match decision {
            Decision::Next => {
                self.next = self.next + 1;
                self.waiting = false;
                Request::Continue
            },
            Decision::Failed(e) => {
                writer.write_string(e.message.clone());
                self.fault = Some(e);
                self.finish()
            },
            Decision::Wait(c) => {
                self.waiting = true;
                Request::Run(c)
            },
            Decision::Pause(ms) => Request::Sleep(ms),
            Decision::Collect(name) => {
                proof {
                    lemma_texts_push(self.failed@, name);
                }
                self.failed.push(name);
                self.next = self.next + 1;
                self.waiting = false;
                Request::Continue
            },
        }
    }
}

/// Adds to `steps` the steps that run a command line, with a line before
/// and a line after; nothing where there is no command line.
fn push_run_steps(steps: &mut Vec<Step>, command: &Option<CommandToRun>, before: &str, after: &str)
    ensures
        step_views(final(steps)@) == step_views(old(steps)@) + run_steps(
            opt_command(*command),
            before@,
            after@,
        ),
{
    match command {
        Some(c) => {
            steps.push(Step::Write(String::from_str(before)));
            steps.push(Step::Run(c.copy()));
            steps.push(Step::Write(String::from_str(after)));
        },
        None => {
        },
    }
}

impl ServiceManager {
    /// The session that runs the init command, where there is one.
    pub fn init(&self, noexec: bool) -> (r: Session)
        ensures
            r@ == fresh(init_steps(self@), noexec, None),
    {
        let mut steps: Vec<Step> = Vec::new();
        push_run_steps(
            &mut steps,
            self.init_command(),
            "Starting init script...",
            "Finished init script...",
        );
        Session::new(steps, noexec, None)
    }

    fn push_stop_all(&self, steps: &mut Vec<Step>)
        ensures
            step_views(final(steps)@) == step_views(old(steps)@) + stop_all_steps(self@),
    {
        let ghost old_views = step_views(steps@);
        let ghost wanted = stop_all_steps(self@);
        let names = self.service_names();
        let mut i: usize = 0;
        assert(texts(names@).len() == names.len());
        while i < names.len()
            invariant
                i <= names.len(),
                names.len() == self@.services.len(),
                texts(names@) == service_names(self@.services),
                wanted == stop_all_steps(self@),
                step_views(steps@) == old_views + wanted.take(i as int),
            decreases names.len() - i,
        {
            let step = Step::StopCollecting(names[i].clone());
            proof {
                assert(texts(names@)[i as int] == names@[i as int]@);
                assert(step_views(steps@.push(step)) =~= step_views(steps@).push(step@));
            }
            steps.push(step);
            i += 1;
        }
        proof {
            assert(step_views(steps@.push(Step::CheckStopped)) =~= step_views(steps@).push(
                StepView::CheckStopped,
            ));
        }
        steps.push(Step::CheckStopped);
    }

    /// The session that stops every service.
    pub fn stop_all(&self, noexec: bool) -> (r: Session)
        ensures
            r@ == fresh(stop_all_steps(self@), noexec, None),
    {
        let mut steps: Vec<Step> = Vec::new();
        self.push_stop_all(&mut steps);
        Session::new(steps, noexec, None)
    }

    /// The session of a shutdown: every service is stopped, every script is
    /// waited for, and the shutdown command is run, where there is one.
    pub fn shutdown(&self, noexec: bool) -> (r: Session)
        ensures
            r@ == fresh(shutdown_steps(self@), noexec, None),
    {
        let mut steps: Vec<Step> = Vec::new();
        self.push_stop_all(&mut steps);
        let ghost stopped = step_views(steps@);
        steps.push(Step::Write(String::from_str("Waiting for all services to be finished...")));
        steps.push(Step::AwaitIdle);
        assert(step_views(steps@) =~= stopped + seq![
            StepView::Write("Waiting for all services to be finished..."@),
            StepView::AwaitIdle,
        ]);
        push_run_steps(
            &mut steps,
            self.shutdown_command(),
            "Starting shutdown script...",
            "Finished shutdown script...",
        );
        Session::new(steps, noexec, None)
    }

    /// The session of the shutdown that a termination signal asks for: when it
    /// is over, the process is left with the exit code of a signal.
    pub fn interrupted(&self, noexec: bool) -> (r: Session)
        ensures
            r@ == fresh(shutdown_steps(self@), noexec, Some(SIGNAL_EXIT_CODE)),
    {
        self.shutdown(noexec).exiting(SIGNAL_EXIT_CODE)
    }

    /// The session that waits for scripts: each must exist, then each must
    /// finish.
    pub fn wait_for_scripts(&self, scripts: &Vec<String>, noexec: bool) -> (r: Session)
        ensures
            r@ == fresh(wait_steps(texts(scripts@)), noexec, None),
    {
        let mut steps: Vec<Step> = Vec::new();
        steps.push(Step::RequireScripts(copy_strings(scripts)));
        steps.push(Step::AwaitFinished(copy_strings(scripts)));
        assert(step_views(steps@) =~= wait_steps(texts(scripts@)));
        Session::new(steps, noexec, None)
    }
}

/// A manager that is as it must be stays so under every turn of every
/// session.
pub proof fn lemma_turn_keeps_valid(m: ManagerView, s: SessionView, reply: Reply)
    requires
        manager_valid(m),
    ensures
        manager_valid(ManagerView { services: turn(m, s, reply).services, ..m }),
{
    assert(ManagerView { services: m.services, ..m } == m);
    if !is_over(s) {
        match s.steps[s.next] {
            StepView::Up(name) => {
                lemma_operations_keep_valid(m, name, Event::Tick, false, s.noexec);
            },
            StepView::Start(name, forced) => {
                lemma_operations_keep_valid(m, name, Event::Tick, forced, s.noexec);
            },
            StepView::Stop(name) => {
                lemma_operations_keep_valid(m, name, Event::Tick, false, s.noexec);
            },
            StepView::StopCollecting(name) => {
                lemma_operations_keep_valid(m, name, Event::Tick, false, s.noexec);
            },
            _ => {},
        }
    }
}

/// What can happen to the services while a session is carried out.
pub enum Move {
    /// A turn of the session, with what the program reports.
    Turn(Reply),
    /// An event from the waiter of a script.
    Event(Seq<char>, Event),
    /// A stop of a script, asked for by someone else.
    StopScript(Seq<char>),
    /// A stop of a service, asked for by someone else.
    StopService(Seq<char>, bool),
    /// The scripts that need a waiter are taken up.
    Claim,
}

/// Where a session and the services stand.
pub struct Progress {
    pub services: Seq<ServiceView>,
    pub session: SessionView,
}

/// Where a session and the services stand after the moves, one after the
/// other.
pub open spec fn progress(m: ManagerView, s: SessionView, moves: Seq<Move>) -> Progress
    decreases moves.len(),
{
    if moves.len() == 0 {
        Progress { services: m.services, session: s }
    } else {
        let p = progress(m, s, moves.drop_last());
        match moves.last() {
            Move::Turn(reply) => Progress {
                services: turn(
                    ManagerView { services: p.services, ..m },
                    p.session,
                    reply,
                ).services,
                session: turn(ManagerView { services: p.services, ..m }, p.session, reply).session,
            },
            Move::Event(name, event) => Progress {
                services: advance_outcome(p.services, name, event).services,
                ..p
            },
            Move::StopScript(name) => Progress {
                services: stop_script_outcome(p.services, name).services,
                ..p
            },
            Move::StopService(name, noexec) => Progress {
                services: stop_service_outcome(p.services, name, noexec).services,
                ..p
            },
            Move::Claim => Progress { services: services_claimed(p.services), ..p },
        }
    }
}

/// The steps of a shutdown, place by place: a stop for each service, the
/// check, a line, the wait, and then only lines and the shutdown command.
pub proof fn lemma_shutdown_steps(m: ManagerView)
    ensures
        shutdown_steps(m).len() >= m.services.len() + 3,
        forall|k: int|
            0 <= k < m.services.len() ==> #[trigger] shutdown_steps(m)[k]
                == StepView::StopCollecting(m.services[k].name),
        shutdown_steps(m)[m.services.len() as int] == StepView::CheckStopped,
        shutdown_steps(m)[m.services.len() as int + 1] is Write,
        shutdown_steps(m)[m.services.len() as int + 2] == StepView::AwaitIdle,
        forall|k: int|
            m.services.len() + 2 < k < shutdown_steps(m).len() ==> #[trigger] shutdown_steps(
                m,
            )[k] is Write || shutdown_steps(m)[k] is Run,
{
}

/// Whether the wait of a shutdown is behind the session and no error has
/// ended it.
pub open spec fn past_the_wait(m: ManagerView, s: SessionView) -> bool {
    s.next > m.services.len() + 2 && s.fault is None
}

/// While a shutdown is carried out, whatever the waiters report and whoever
/// asks for further stops in between: once the session is past its wait
/// without an error, no script is starting or running.
pub proof fn lemma_shutdown_progress(m: ManagerView, noexec: bool, exit_code: Option<i32>, moves: Seq<Move>)
    requires
        services_well_formed(m.services),
    ensures
        ({
            let p = progress(m, fresh(shutdown_steps(m), noexec, exit_code), moves);
            &&& p.session.steps == shutdown_steps(m)
            &&& p.session.next >= 0
            &&& services_well_formed(p.services)
            &&& past_the_wait(m, p.session) ==> services_idle(p.services)
        }),
    decreases moves.len(),
{
    lemma_shutdown_steps(m);
    if moves.len() > 0 {
        let s = fresh(shutdown_steps(m), noexec, exit_code);
        lemma_shutdown_progress(m, noexec, exit_code, moves.drop_last());
        let p = progress(m, s, moves.drop_last());
        let q = progress(m, s, moves);
        match moves.last() {
            Move::Turn(reply) => {
                let now = ManagerView { services: p.services, ..m };
                if !is_over(p.session) {
                    let step = p.session.steps[p.session.next];
                    let v = verdict(now, p.session, step, reply);
                    match step {
                        StepView::StopCollecting(name) => {
                            lemma_operations_keep_well_formed(
                                p.services,
                                name,
                                Event::Tick,
                                false,
                                p.session.noexec,
                            );
                        },
                        _ => {
                            assert(v.services == p.services);
                        },
                    }
                }
            },
            Move::Event(name, event) => {
                lemma_operations_keep_well_formed(p.services, name, event, false, false);
                if past_the_wait(m, p.session) {
                    lemma_idle_services_stay(p.services, name, event, false);
                }
            },
            Move::StopScript(name) => {
                lemma_operations_keep_well_formed(p.services, name, Event::Tick, false, false);
                if past_the_wait(m, p.session) {
                    lemma_idle_services_stay(p.services, name, Event::Tick, false);
                }
            },
            Move::StopService(name, dry) => {
                lemma_operations_keep_well_formed(p.services, name, Event::Tick, false, dry);
                if past_the_wait(m, p.session) {
                    lemma_idle_services_stay(p.services, name, Event::Tick, dry);
                }
            },
            Move::Claim => {
                lemma_operations_keep_well_formed(p.services, Seq::empty(), Event::Tick, false, false);
                if past_the_wait(m, p.session) {
                    lemma_idle_services_stay(p.services, Seq::empty(), Event::Tick, false);
                }
            },
        }
    }
}

/// After a shutdown has returned success, no script is starting or running:
/// every script is finished, failed, killed, interrupted or was never
/// started. This holds whatever the waiters have reported while the shutdown
/// was carried out, and whoever has asked for further stops in between; the
/// one thing that must not have happened is a start.
pub proof fn lemma_shutdown_leaves_no_script_active(m: ManagerView, noexec: bool, moves: Seq<Move>)
    requires
        services_well_formed(m.services),
        moves.len() > 0,
        moves.last() is Turn,
        turn(
            ManagerView {
                services: progress(
                    m,
                    fresh(shutdown_steps(m), noexec, None),
                    moves.drop_last(),
                ).services,
                ..m
            },
            progress(m, fresh(shutdown_steps(m), noexec, None), moves.drop_last()).session,
            moves.last()->Turn_0,
        ).request == RequestView::Done(None),
    ensures
        services_idle(progress(m, fresh(shutdown_steps(m), noexec, None), moves).services),
        forall|i: int, j: int|
            #![trigger progress(m, fresh(shutdown_steps(m), noexec, None), moves).services[i].scripts[j]]
            0 <= i < progress(m, fresh(shutdown_steps(m), noexec, None), moves).services.len()
                && 0 <= j < progress(
                m,
                fresh(shutdown_steps(m), noexec, None),
                moves,
            ).services[i].scripts.len() ==> {
                let status = progress(
                    m,
                    fresh(shutdown_steps(m), noexec, None),
                    moves,
                ).services[i].scripts[j].state.status;
                status == SCRIPT_STATUS_FINISHED || status == SCRIPT_STATUS_FAILED || status
                    == SCRIPT_STATUS_KILLED || status == SCRIPT_STATUS_INTERRUPTED || status
                    == SCRIPT_STATUS_NOT_STARTED
            },
{
    lemma_shutdown_steps(m);
    lemma_shutdown_progress(m, noexec, None, moves.drop_last());
    lemma_shutdown_progress(m, noexec, None, moves);
    let after = progress(m, fresh(shutdown_steps(m), noexec, None), moves).services;
    assert forall|i: int, j: int|
        0 <= i < after.len() && 0 <= j < after[i].scripts.len() implies !is_active(
        #[trigger] after[i].scripts[j].state.status,
    ) && well_formed(after[i].scripts[j].state) by {
        assert(all_idle(after[i].scripts));
    }
}

} // verus!
