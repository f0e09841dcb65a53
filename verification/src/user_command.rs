//! The writer that requests answer through, and the dispatcher of commands.

use crate::service_manager::{ManagerView, ServiceManager};
use crate::session::{fresh, shutdown_steps, step_views, wait_steps, Session, Step, StepView};
use crate::text::{lemma_texts_push, same_text, texts};
use crate::utilities::{Error, ErrorKind};
use vstd::prelude::*;

verus! {

/// The lines written in answer to one request, oldest first.
///
/// The library only collects them. The program around it prints each line
/// and, where the request came over the control socket, sends it to the peer
/// as well.
#[derive(Debug)]
pub struct WriterWithTCP {
    lines: Vec<String>,
}

impl View for WriterWithTCP {
    type V = Seq<Seq<char>>;

    closed spec fn view(&self) -> Seq<Seq<char>> {
        texts(self.lines@)
    }
}

impl WriterWithTCP {
    /// A writer to which nothing was written yet.
    pub fn new() -> (w: WriterWithTCP)
        ensures
            w@ == Seq::<Seq<char>>::empty(),
    {
        let w = WriterWithTCP { lines: Vec::new() };
        w
    }

    /// Writes one line.
    pub fn write_string(&mut self, string: String)
        ensures
            final(self)@ == old(self)@.push(string@),
    {
        proof {
            lemma_texts_push(self.lines@, string);
        }
        self.lines.push(string);
    }

    /// Writes one line.
    pub fn write_str(&mut self, string: &str)
        ensures
            final(self)@ == old(self)@.push(string@),
    {
        self.write_string(String::from_str(string));
    }

    /// Writes `head` and `tail` as one line.
    pub fn write_pair(&mut self, head: &str, tail: &str)
        ensures
            final(self)@ == old(self)@.push(head@ + tail@),
    {
        let mut line = String::from_str(head);
        line.append(tail);
        self.write_string(line);
    }

    /// Writes `head`, `middle` and `tail` as one line.
    pub fn write_triple(&mut self, head: &str, middle: &str, tail: &str)
        ensures
            final(self)@ == old(self)@.push(head@ + middle@ + tail@),
    {
        let mut line = String::from_str(head);
        line.append(middle);
        line.append(tail);
        self.write_string(line);
    }

    /// The lines written so far.
    pub fn lines(&self) -> (l: &Vec<String>)
        ensures
            texts(l@) == self@,
    {
        &self.lines
    }

    /// Hands out the lines written so far and forgets them.
    pub fn take_lines(&mut self) -> (l: Vec<String>)
        ensures
            texts(l@) == old(self)@,
            final(self)@ == Seq::<Seq<char>>::empty(),
    {
        let mut l: Vec<String> = Vec::new();
        std::mem::swap(&mut self.lines, &mut l);
        l
    }
}

/// How std shows a list of strings for debugging: the text that
/// `format!("{:?}", parts)` gives for a `Vec<String>` of these texts. It is
/// the list in square brackets, each string between double quotes, with a
/// comma and a space between two; inside a string a double quote, a
/// backslash and every character that std does not count as printable stand
/// escaped. Which characters those are fills tables, so the text has a name
/// here and no definition.
pub uninterp spec fn debug_text(parts: Seq<Seq<char>>) -> Seq<char>;

/// The list as `format!("{:?}", parts)` shows it, by the impl of
/// `std::fmt::Debug` for `Vec<String>`. Nothing is proved of this function:
/// the contract gives the result its name, on the ground that the formatting
/// depends on the strings alone.
#[verifier::external_body]
fn show(parts: &Vec<String>) -> (r: String)
    ensures
        r@ == debug_text(texts(parts@)),
{
    format!("{:?}", parts)
}

/// What is done with each argument of a command.
#[derive(Clone, Copy, Debug, PartialEq, Eq, Structural)]
pub enum Each {
    /// It is started, with force or without.
    Start(bool),
    /// It is stopped.
    Stop,
    /// It is reported.
    Report,
}

/// The step for one argument.
pub open spec fn each_step(each: Each, name: Seq<char>) -> StepView {
    match each {
        Each::Start(forced) => StepView::Start(name, forced),
        Each::Stop => StepView::Stop(name),
        Each::Report => StepView::Report(Some(name)),
    }
}

/// A step for each argument, in their order.
pub open spec fn each_steps(each: Each, args: Seq<Seq<char>>) -> Seq<StepView> {
    Seq::new(args.len(), |i: int| each_step(each, args[i]))
}

/// The message for a command without a verb.
pub open spec fn empty_command() -> Seq<char> {
    "empty command"@
}

/// The message for a command with the wrong number of arguments.
pub open spec fn invalid_command() -> Seq<char> {
    "invalid command"@
}

/// The message for a command with an unknown verb.
pub open spec fn unknown_command() -> Seq<char> {
    "unknown command"@
}

/// The steps of a command and the exit code with which the process is left
/// after it, if it is; or the message of the failure.
///
/// The first part is the verb, the others are its arguments. `up` takes one
/// argument, `down` and `exit` none, `status` any number, and `start`,
/// `force-start`, `stop` and `wait_for_scripts` one or more. An argument of
/// `start`, `force-start` and `stop` names a script where it holds a dot, and
/// else a service.
pub open spec fn command_steps(m: ManagerView, parts: Seq<Seq<char>>) -> Result<
    (Seq<StepView>, Option<i32>),
    Seq<char>,
> {
    if parts.len() == 0 {
        Err(empty_command())
    } else {
        let verb = parts[0];
        let args = parts.skip(1);
        if verb == "up"@ {
            if args.len() == 1 {
                Ok((seq![StepView::Up(args[0])], None))
            } else {
                Err(invalid_command())
            }
        } else if verb == "down"@ {
            if args.len() == 0 {
                Ok((shutdown_steps(m), None))
            } else {
                Err(invalid_command())
            }
        } else if verb == "start"@ {
            if args.len() >= 1 {
                Ok((each_steps(Each::Start(false), args), None))
            } else {
                Err(invalid_command())
            }
        } else if verb == "force-start"@ {
            if args.len() >= 1 {
                Ok((each_steps(Each::Start(true), args), None))
            } else {
                Err(invalid_command())
            }
        } else if verb == "stop"@ {
            if args.len() >= 1 {
                Ok((each_steps(Each::Stop, args), None))
            } else {
                Err(invalid_command())
            }
        } else if verb == "status"@ {
            if args.len() == 0 {
                Ok((seq![StepView::Report(None)], None))
            } else {
                Ok((each_steps(Each::Report, args), None))
            }
        } else if verb == "wait_for_scripts"@ {
            if args.len() >= 1 {
                Ok((wait_steps(args), None))
            } else {
                Err(invalid_command())
            }
        } else if verb == "exit"@ {
            if args.len() == 0 {
                Ok((shutdown_steps(m), Some(0i32)))
            } else {
                Err(invalid_command())
            }
        } else {
            Err(unknown_command())
        }
    }
}

/// The error for a command with the wrong number of arguments.
pub fn build_invalid_command_error() -> (e: Error)
    ensures
        e.describes(ErrorKind::InvalidCommand, invalid_command()),
{
    Error::new(ErrorKind::InvalidCommand, String::from_str("invalid command"))
}

/// A step for each argument, in their order.
fn steps_for_each(each: Each, args: &Vec<String>) -> (steps: Vec<Step>)
    ensures
        step_views(steps@) == each_steps(each, texts(args@)),
{
    let ghost wanted = each_steps(each, texts(args@));
    let mut steps: Vec<Step> = Vec::new();
    let mut i: usize = 0;
    while i < args.len()
        invariant
            i <= args.len(),
            wanted == each_steps(each, texts(args@)),
            step_views(steps@) == wanted.take(i as int),
        decreases args.len() - i,
    {
        let name = args[i].clone();
        let step = match each {
            Each::Start(forced) => Step::Start(name, forced),
            Each::Stop => Step::Stop(name),
            Each::Report => Step::Report(Some(name)),
        };
        proof {
            assert(step_views(steps@.push(step)) =~= step_views(steps@).push(step@));
        }
        steps.push(step);
        i += 1;
    }
    steps
}

/// The session of a command, which is then carried out turn by turn. That
/// the command is taken up is written first.
///
/// Fails, with the error for an invalid command, where the command has no
/// verb, an unknown verb, or the wrong number of arguments.
pub fn run_user_command(
    parts: Vec<String>,
    manager: &ServiceManager,
    noexec: bool,
    writer: &mut WriterWithTCP,
) -> (r: Result<Session, Error>)
    ensures
        final(writer)@ == old(writer)@.push("Running command "@ + debug_text(texts(parts@))),
        match command_steps(manager@, texts(parts@)) {
            Ok((steps, exit_code)) => r is Ok && r->Ok_0@ == fresh(steps, noexec, exit_code),
            Err(m) => r is Err && r->Err_0.describes(ErrorKind::InvalidCommand, m),
        },
{
    let ghost old_parts = parts@;
    writer.write_pair("Running command ", show(&parts).as_str());
    if parts.len() == 0 {
        return Err(Error::new(ErrorKind::InvalidCommand, String::from_str("empty command")));
    }
    let verb = parts[0].clone();
    let verb = verb.as_str();
    let mut args = parts;
    let _ = args.remove(0);
    assert(texts(args@) =~= texts(old_parts).skip(1));
    if same_text(verb, "up") {
        if args.len() == 1 {
            let mut steps: Vec<Step> = Vec::new();
            steps.push(Step::Up(args[0].clone()));
            assert(step_views(steps@) =~= seq![StepView::Up(texts(args@)[0])]);
            Ok(Session::new(steps, noexec, None))
        } else {
            Err(build_invalid_command_error())
        }
    } else if same_text(verb, "down") {
        if args.len() == 0 {
            Ok(manager.shutdown(noexec))
        } else {
            Err(build_invalid_command_error())
        }
    } else if same_text(verb, "start") {
        if args.len() >= 1 {
            Ok(Session::new(steps_for_each(Each::Start(false), &args), noexec, None))
        } else {
            Err(build_invalid_command_error())
        }
    } else if same_text(verb, "force-start") {
        if args.len() >= 1 {
            Ok(Session::new(steps_for_each(Each::Start(true), &args), noexec, None))
        } else {
            Err(build_invalid_command_error())
        }
    } else if same_text(verb, "stop") {
        if args.len() >= 1 {
            Ok(Session::new(steps_for_each(Each::Stop, &args), noexec, None))
        } else {
            Err(build_invalid_command_error())
        }
    } else if same_text(verb, "status") {
        if args.len() == 0 {
            let mut steps: Vec<Step> = Vec::new();
            steps.push(Step::Report(None));
            assert(step_views(steps@) =~= seq![StepView::Report(None)]);
            Ok(Session::new(steps, noexec, None))
        } else {
            Ok(Session::new(steps_for_each(Each::Report, &args), noexec, None))
        }
    } else if same_text(verb, "wait_for_scripts") {
        if args.len() >= 1 {
            Ok(manager.wait_for_scripts(&args, noexec))
        } else {
            Err(build_invalid_command_error())
        }
    } else if same_text(verb, "exit") {
        if args.len() == 0 {
            Ok(manager.shutdown(noexec).exiting(0))
        } else {
            Err(build_invalid_command_error())
        }
    } else {
        Err(Error::new(ErrorKind::InvalidCommand, String::from_str("unknown command")))
    }
}

/// The session of a command, or nothing where the command is invalid; the
/// message of the error is then written.
pub fn run_user_commands(
    commands: Vec<String>,
    manager: &ServiceManager,
    noexec: bool,
    writer: &mut WriterWithTCP,
) -> (r: Option<Session>)
    ensures
        match command_steps(manager@, texts(commands@)) {
            Ok((steps, exit_code)) => r is Some && r->Some_0@ == fresh(steps, noexec, exit_code)
                && final(writer)@ == old(writer)@.push(
                "Running command "@ + debug_text(texts(commands@)),
            ),
            Err(m) => r is None && final(writer)@ == old(writer)@.push(
                "Running command "@ + debug_text(texts(commands@)),
            ).push(m),
        },
{
    match run_user_command(commands, manager, noexec, writer) {
        Ok(session) => Some(session),
        Err(e) => {
            writer.write_string(e.to_string());
            None
        },
    }
}

} // verus!
