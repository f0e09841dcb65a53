//! The arguments of the program.

use crate::text::{ends_with, has_suffix, lemma_texts_push, same_text, texts};
use vstd::prelude::*;

verus! {

/// What the arguments ask for.
#[derive(Debug)]
pub struct Invocation {
    /// The configuration file.
    pub config_file: Option<String>,
    /// Whether the commands of boot and shutdown are left out.
    pub noinit: bool,
    /// Whether command lines are shown and not run.
    pub noexec: bool,
    /// The parts of the command.
    pub commands: Vec<String>,
}

/// What arguments ask for.
pub struct InvocationView {
    pub config_file: Option<Seq<char>>,
    pub noinit: bool,
    pub noexec: bool,
    pub commands: Seq<Seq<char>>,
}

impl View for Invocation {
    type V = InvocationView;

    open spec fn view(&self) -> InvocationView {
        InvocationView {
            config_file: match self.config_file {
                Some(f) => Some(f@),
                None => None,
            },
            noinit: self.noinit,
            noexec: self.noexec,
            commands: texts(self.commands@),
        }
    }
}

/// What the arguments ask for. The argument at place 0 is the name of the
/// program and counts for nothing. Of the others, `noinit` and `noexec` are
/// flags wherever they stand; the argument at place 1 is the configuration
/// file where it ends with `.yml`; every other argument is a part of the
/// command.
pub open spec fn invoked(args: Seq<Seq<char>>) -> InvocationView
    decreases args.len(),
{
    if args.len() <= 1 {
        InvocationView { config_file: None, noinit: false, noexec: false, commands: Seq::empty() }
    } else {
        let before = invoked(args.drop_last());
        let arg = args.last();
        if arg == "noinit"@ {
            InvocationView { noinit: true, ..before }
        } else if arg == "noexec"@ {
            InvocationView { noexec: true, ..before }
        } else if args.len() == 2 && ends_with(arg, ".yml"@) {
            InvocationView { config_file: Some(arg), ..before }
        } else {
            InvocationView { commands: before.commands.push(arg), ..before }
        }
    }
}

/// What the program does.
#[derive(Clone, Copy, Debug, PartialEq, Eq, Structural)]
pub enum Mode {
    /// It shows how it is used and ends.
    Usage,
    /// It sends the command to the daemon that runs already.
    Client,
    /// It becomes the daemon; a command, where there is one, is carried out
    /// before the control channel is served.
    Daemon,
}

/// What the program does: it is the daemon where a configuration file is
/// given, else the client where a command is given, and else it shows how
/// it is used.
pub open spec fn mode_of(v: InvocationView) -> Mode {
    if v.config_file is Some {
        Mode::Daemon
    } else if v.commands.len() > 0 {
        Mode::Client
    } else {
        Mode::Usage
    }
}

/// What the arguments ask for.
pub fn parse_arguments(args: &Vec<String>) -> (r: Invocation)
    ensures
        r@ == invoked(texts(args@)),
{
    let ghost all = texts(args@);
    let mut r = Invocation { config_file: None, noinit: false, noexec: false, commands: Vec::new() };
    assert(texts(r.commands@) =~= Seq::<Seq<char>>::empty());
    if args.len() <= 1 {
        return r;
    }
    let mut n: usize = 1;
    while n < args.len()
        invariant
            1 <= n <= args.len(),
            all == texts(args@),
            r@ == invoked(all.take(n as int)),
        decreases args.len() - n,
    {
        proof {
            assert(all.take(n + 1).drop_last() =~= all.take(n as int));
        }
        let arg = &args[n];
        if same_text(arg.as_str(), "noinit") {
            r.noinit = true;
        } else if same_text(arg.as_str(), "noexec") {
            r.noexec = true;
        } else if n == 1 && has_suffix(arg.as_str(), ".yml") {
            r.config_file = Some(arg.clone());
        } else {
            let part = arg.clone();
            proof {
                lemma_texts_push(r.commands@, part);
            }
            r.commands.push(part);
        }
        n += 1;
    }
    assert(all.take(args.len() as int) =~= all);
    r
}

impl Invocation {
    /// What the program does.
    pub fn mode(&self) -> (m: Mode)
        ensures
            m == mode_of(self@),
    {
        if self.config_file.is_some() {
            Mode::Daemon
        } else if self.commands.len() > 0 {
            Mode::Client
        } else {
            Mode::Usage
        }
    }
}

} // verus!
