//! A script: one supervised child process, with what it waits for before it
//! is launched.

use crate::command_to_run::{described, rendering, CommandToRun, CommandView, Environment};
pub use crate::machine::{
    SCRIPT_STATUS_FAILED, SCRIPT_STATUS_FINISHED, SCRIPT_STATUS_INTERRUPTED, SCRIPT_STATUS_KILLED,
    SCRIPT_STATUS_NOT_STARTED, SCRIPT_STATUS_RUNNING, SCRIPT_STATUS_STARTING,
};
use crate::machine::{
    claimed, event_text, initial, is_active, next, next_step, start_step, started, stop_state, stopped,
    unattended, well_formed, Action, Event, Note, Phase, RunState,
};
use crate::text::{
    copy_option, integer_of, lemma_texts_push, opt_text, parse_integer, split, split_on, texts,
};
use crate::user_command::WriterWithTCP;
use crate::utilities::{build_invalid_data_error_string, Error, ErrorKind};
use vstd::prelude::*;

verus! {

/// Why a text names no host and port.
pub enum PortFault {
    /// It holds more than one colon.
    TooManyColons,
    /// What stands for the port is not an integer.
    NotANumber,
    /// The port is not between 1 and 65535.
    OutOfRange,
}

/// The host and the port that a text names: `host:port`, or a port alone,
/// which is one of `localhost`.
pub open spec fn host_port(s: Seq<char>) -> Result<(Seq<char>, u16), PortFault> {
    let parts = split_on(s, ':');
    if parts.len() > 2 {
        Err(PortFault::TooManyColons)
    } else {
        let host = if parts.len() == 2 {
            parts[0]
        } else {
            "localhost"@
        };
        match integer_of(parts.last()) {
            None => Err(PortFault::NotANumber),
            Some(p) => if p <= 0 || p > 65535 {
                Err(PortFault::OutOfRange)
            } else {
                Ok((host, p as u16))
            },
        }
    }
}

/// The message for a text that names no host and port, in the script `name`.
pub open spec fn port_fault_message(fault: PortFault, name: Seq<char>) -> Seq<char> {
    match fault {
        PortFault::TooManyColons => "more than one : in wait_for_ports in script "@ + name,
        PortFault::NotANumber => "port number is invalid in wait_for_ports in script "@ + name,
        PortFault::OutOfRange => "port value is out of range is invalid in script "@ + name,
    }
}

/// A configuration error whose message is `head` followed by `tail`.
pub fn config_error(head: &str, tail: &str) -> (e: Error)
    ensures
        e.describes(ErrorKind::ConfigError, head@ + tail@),
{
    let mut message = String::from_str(head);
    message.append(tail);
    build_invalid_data_error_string(message)
}

/// The host and the port that `host_port` names.
///
/// Fails, with a configuration error that names the script, where the text
/// holds more than one colon, where the port is not an integer, and where it
/// is not between 1 and 65535.
pub fn process_host_port(host_port: &str, name: &String) -> (r: Result<(String, u16), Error>)
    ensures
        match self::host_port(host_port@) {
            Ok((host, port)) => r is Ok && r->Ok_0.0@ == host && r->Ok_0.1 == port,
            Err(fault) => r is Err && r->Err_0.describes(
                ErrorKind::ConfigError,
                port_fault_message(fault, name@),
            ),
        },
{
    let parts = split(host_port, ':');
    if parts.len() > 2 {
        return Err(config_error("more than one : in wait_for_ports in script ", name.as_str()));
    }
    let last = parts.len() - 1;
    let host = if parts.len() == 2 {
        parts[0].clone()
    } else {
        String::from_str("localhost")
    };
    match parse_integer(parts[last].as_str()) {
        Some(p) => {
            if p <= 0 || p > 65535 {
                Err(config_error("port value is out of range is invalid in script ", name.as_str()))
            } else {
                Ok((host, p as u16))
            }
        },
        None => Err(
            config_error("port number is invalid in wait_for_ports in script ", name.as_str()),
        ),
    }
}

/// What the configuration says of one script.
#[derive(Debug)]
pub struct ScriptConfig {
    /// The command line.
    pub command: Option<String>,
    /// The directory to run in.
    pub workdir: Option<String>,
    /// The file of environment variables.
    pub env_file: Option<String>,
    /// The file that standard output goes to.
    pub log_file: Option<String>,
    /// The file that standard error goes to.
    pub log_file_err: Option<String>,
    /// The ports to wait for, each `host:port` or a port alone; an entry that
    /// is no text is `None`.
    pub wait_for_ports: Option<Vec<Option<String>>>,
    /// The scripts to wait for, each by its full name, `service.script`.
    pub wait_until_scripts_are_done: Option<Vec<String>>,
    /// The seconds to wait once ports and scripts are ready.
    pub delay: Option<i64>,
}

/// What a script can ask about the other scripts.
pub trait ScriptChecker {
    /// Whether there is a script of this full name.
    spec fn knows(&self, name: Seq<char>) -> bool;

    /// Whether the script of this full name is finished.
    spec fn finished(&self, name: Seq<char>) -> bool;

    /// Whether there is a script of this full name.
    fn script_exists(&self, script_name: &String) -> (r: bool)
        ensures
            r == self.knows(script_name@),
    ;

    /// Whether every one of the scripts is finished.
    fn check_scripts(&self, scripts: &Vec<String>) -> (r: bool)
        ensures
            r == forall|i: int| 0 <= i < scripts.len() ==> self.finished(#[trigger] scripts[i]@),
    ;
}

/// Whether every one of the scripts is finished.
pub open spec fn all_finished<C: ScriptChecker + ?Sized>(checker: &C, names: Seq<Seq<char>>) -> bool {
    forall|i: int| 0 <= i < names.len() ==> checker.finished(#[trigger] names[i])
}

/// A checker for a configuration that is still being read: every name may
/// yet come to be that of a script, and no script is finished.
#[derive(Debug)]
pub struct Unread;

impl ScriptChecker for Unread {
    open spec fn knows(&self, name: Seq<char>) -> bool {
        true
    }

    open spec fn finished(&self, name: Seq<char>) -> bool {
        false
    }

    fn script_exists(&self, script_name: &String) -> (r: bool) {
        true
    }

    fn check_scripts(&self, scripts: &Vec<String>) -> (r: bool) {
        if scripts.len() > 0 {
            assert(!self.finished(scripts[0]@));
        }
        scripts.len() == 0
    }
}

/// Whether a script waits for a script that is not among the known ones.
pub open spec fn is_dangling(known: Set<Seq<char>>) -> spec_fn(ScriptView) -> bool {
    |v: ScriptView| !all_known(known, v.wait_until_scripts_are_done)
}

/// The full names of the scripts that the checker knows.
pub open spec fn known_scripts<C: ScriptChecker + ?Sized>(checker: &C) -> Set<Seq<char>> {
    Set::new(|name: Seq<char>| checker.knows(name))
}

/// Whether every one of the names is among the known ones.
pub open spec fn all_known(known: Set<Seq<char>>, names: Seq<Seq<char>>) -> bool {
    forall|i: int| 0 <= i < names.len() ==> known.contains(#[trigger] names[i])
}

/// The elements of `s` in the order of their first occurrence, each once.
pub open spec fn distinct<T>(s: Seq<T>) -> Seq<T>
    decreases s.len(),
{
    if s.len() == 0 {
        Seq::empty()
    } else if distinct(s.drop_last()).contains(s.last()) {
        distinct(s.drop_last())
    } else {
        distinct(s.drop_last()).push(s.last())
    }
}

/// Nothing occurs twice in `distinct(s)`, and it holds what `s` holds.
pub proof fn lemma_distinct<T>(s: Seq<T>)
    ensures
        distinct(s).no_duplicates(),
        forall|x: T| distinct(s).contains(x) <==> s.contains(x),
    decreases s.len(),
{
    if s.len() > 0 {
        let d = distinct(s.drop_last());
        lemma_distinct(s.drop_last());
        let t = s.drop_last();
        assert forall|x: T| distinct(s).contains(x) <==> s.contains(x) by {
            if s.contains(x) {
                let i = choose|i: int| 0 <= i < s.len() && s[i] == x;
                if i < s.len() - 1 {
                    assert(t[i] == x);
                    assert(t.contains(x));
                    assert(d.contains(x));
                    let j = choose|j: int| 0 <= j < d.len() && d[j] == x;
                    assert(distinct(s)[j] == x);
                } else if !d.contains(s.last()) {
                    assert(distinct(s)[d.len() as int] == x);
                }
            }
            if distinct(s).contains(x) {
                let j = choose|j: int| 0 <= j < distinct(s).len() && distinct(s)[j] == x;
                if j < d.len() {
                    assert(d[j] == x);
                    assert(d.contains(x));
                    assert(t.contains(x));
                    let i = choose|i: int| 0 <= i < t.len() && t[i] == x;
                    assert(s[i] == x);
                } else {
                    assert(s[s.len() - 1] == x);
                }
            }
        }
    }
}

/// The hosts and ports of a list, as texts and numbers.
pub open spec fn port_views(v: Seq<(String, u16)>) -> Seq<(Seq<char>, u16)> {
    Seq::new(v.len(), |i: int| (v[i].0@, v[i].1))
}

/// The texts of the entries of a list, none for an entry that is no text.
pub open spec fn entry_views(v: Seq<Option<String>>) -> Seq<Option<Seq<char>>> {
    Seq::new(v.len(), |i: int| opt_text(v[i]))
}

/// The message for an entry of `wait_for_ports` that is no text.
pub open spec fn port_entry_message(name: Seq<char>) -> Seq<char> {
    "wait_for_ports is invalid in script "@ + name
}

/// The hosts and ports that the entries name, each once, or the message of
/// the first entry that names none.
pub open spec fn ports_described(entries: Seq<Option<Seq<char>>>, name: Seq<char>) -> Result<
    Seq<(Seq<char>, u16)>,
    Seq<char>,
>
    decreases entries.len(),
{
    if entries.len() == 0 {
        Ok(Seq::empty())
    } else {
        match ports_described(entries.drop_last(), name) {
            Err(m) => Err(m),
            Ok(ports) => match entries.last() {
                None => Err(port_entry_message(name)),
                Some(text) => match host_port(text) {
                    Err(fault) => Err(port_fault_message(fault, name)),
                    Ok(pair) => if ports.contains(pair) {
                        Ok(ports)
                    } else {
                        Ok(ports.push(pair))
                    },
                },
            },
        }
    }
}

/// Where one entry names no host and port, the list fails with its message.
pub proof fn lemma_ports_fail(entries: Seq<Option<Seq<char>>>, n: int, name: Seq<char>)
    requires
        0 < n <= entries.len(),
        ports_described(entries.take(n), name) is Err,
    ensures
        ports_described(entries, name) == ports_described(entries.take(n), name),
    decreases entries.len(),
{
    if n < entries.len() {
        assert(entries.drop_last().take(n) =~= entries.take(n));
        lemma_ports_fail(entries.drop_last(), n, name);
    } else {
        assert(entries.take(n) =~= entries);
    }
}

/// What a script holds.
pub struct ScriptView {
    /// The name, unique within its service.
    pub name: Seq<char>,
    /// What to launch.
    pub command: CommandView,
    /// The hosts and ports that must accept a connection first, each once.
    pub wait_for_ports: Seq<(Seq<char>, u16)>,
    /// The full names of the scripts that must be finished first, each once.
    pub wait_until_scripts_are_done: Seq<Seq<char>>,
    /// The seconds to wait once ports and scripts are ready.
    pub delay: Option<u64>,
    /// Status, phase and interrupt.
    pub state: RunState,
}

/// The seconds of a delay: the number as it is, a negative one read as the
/// unsigned number of the same 64 bits.
pub open spec fn delay_seconds(d: Option<i64>) -> Option<u64> {
    match d {
        Some(n) => Some(n as u64),
        None => None,
    }
}

/// The message for a script without a command.
pub open spec fn no_command_message(name: Seq<char>) -> Seq<char> {
    "script "@ + name + " has no command"@
}

/// The message for a script that waits for a script that does not exist.
pub open spec fn unknown_dependency_message(name: Seq<char>) -> Seq<char> {
    "wait_until_scripts_are_done is invalid in script "@ + name
}

/// The texts of the scripts to wait for, each once.
pub open spec fn dependencies(items: ScriptConfig) -> Seq<Seq<char>> {
    match items.wait_until_scripts_are_done {
        Some(v) => distinct(texts(v@)),
        None => Seq::empty(),
    }
}

/// The script that a configuration describes, not started, or the message of
/// the failure. `known` holds the full names of the scripts that exist so far.
pub open spec fn script_described(
    name: Seq<char>,
    items: ScriptConfig,
    known: Set<Seq<char>>,
    env: Environment,
) -> Result<ScriptView, Seq<char>> {
    match items.command {
        None => Err(no_command_message(name)),
        Some(c) => match described(
            c@,
            opt_text(items.log_file),
            opt_text(items.log_file_err),
            opt_text(items.workdir),
            opt_text(items.env_file),
            env,
        ) {
            Err(m) => Err(m),
            Ok(command) => match (match items.wait_for_ports {
                Some(entries) => ports_described(entry_views(entries@), name),
                None => Ok(Seq::empty()),
            }) {
                Err(m) => Err(m),
                Ok(wait_for_ports) => if !all_known(known, dependencies(items)) {
                    Err(unknown_dependency_message(name))
                } else {
                    Ok(
                        ScriptView {
                            name,
                            command,
                            wait_for_ports,
                            wait_until_scripts_are_done: dependencies(items),
                            delay: delay_seconds(items.delay),
                            state: initial(),
                        },
                    )
                },
            },
        },
    }
}

/// The label of a status.
pub open spec fn status_label(status: usize) -> Seq<char> {
    if status == SCRIPT_STATUS_STARTING {
        "starting"@
    } else if status == SCRIPT_STATUS_KILLED {
        "killed"@
    } else if status == SCRIPT_STATUS_FAILED {
        "failed"@
    } else if status == SCRIPT_STATUS_FINISHED {
        "finished"@
    } else if status == SCRIPT_STATUS_NOT_STARTED {
        "not started"@
    } else if status == SCRIPT_STATUS_INTERRUPTED {
        "interrupted"@
    } else if status == SCRIPT_STATUS_RUNNING {
        "running"@
    } else {
        "unknown"@
    }
}

/// The line that reports a script: two spaces, the name, a colon, the label.
pub open spec fn status_line(v: ScriptView) -> Seq<char> {
    "  "@ + v.name + ": "@ + status_label(v.state.status)
}

/// The lines that a note leaves in the log of the script `v`.
pub open spec fn note_lines(note: Note, v: ScriptView, detail: Seq<char>) -> Seq<Seq<char>> {
    match note {
        Note::Nothing => Seq::empty(),
        Note::Started => seq!["Started "@ + v.name + "..."@],
        Note::Finished => seq!["Finished "@ + v.name + " with exitcode "@ + detail],
        Note::DryRun => seq![rendering(v.command), "Finished "@ + v.name + " with noexec"@],
        Note::FailedToStart => seq!["Failed to start "@ + v.name + ": "@ + detail],
        Note::FailedToWait => seq!["Failed to wait "@ + v.name + ": "@ + detail],
    }
}

/// The lines that a start writes: that the script is starting, where it can
/// be started, and what the first step leaves to tell.
pub open spec fn start_lines(v: ScriptView, forced: bool, noexec: bool) -> Seq<Seq<char>> {
    if crate::machine::is_startable(v.state.status) {
        seq!["Starting "@ + v.name + "..."@] + note_lines(
            started(v.state, forced, noexec, v.delay).note,
            v,
            Seq::empty(),
        )
    } else {
        Seq::empty()
    }
}

/// The script after a start.
pub open spec fn script_started(v: ScriptView, forced: bool, noexec: bool) -> ScriptView {
    ScriptView { state: started(v.state, forced, noexec, v.delay).state, ..v }
}

/// The script after a stop.
pub open spec fn script_stopped(v: ScriptView) -> ScriptView {
    ScriptView { state: stopped(v.state), ..v }
}

/// The script after a waiter took it up.
pub open spec fn script_claimed(v: ScriptView) -> ScriptView {
    ScriptView { state: claimed(v.state), ..v }
}

/// The script after an event.
pub open spec fn script_next(v: ScriptView, event: Event, ready: bool) -> ScriptView {
    ScriptView { state: next(v.state, event, ready, v.delay).state, ..v }
}

/// The lines that an event leaves in the log.
pub open spec fn next_lines(v: ScriptView, event: Event, ready: bool) -> Seq<Seq<char>> {
    note_lines(next(v.state, event, ready, v.delay).note, v, event_text(event))
}

/// The line that a stop writes.
pub open spec fn stop_line(v: ScriptView) -> Seq<char> {
    "Stopping "@ + v.name + "..."@
}

/// A script.
#[derive(Debug)]
pub struct Script {
    name: String,
    command: CommandToRun,
    wait_for_ports: Vec<(String, u16)>,
    wait_until_scripts_are_done: Vec<String>,
    delay: Option<u64>,
    state: RunState,
}

impl View for Script {
    type V = ScriptView;

    closed spec fn view(&self) -> ScriptView {
        ScriptView {
            name: self.name@,
            command: self.command@,
            wait_for_ports: port_views(self.wait_for_ports@),
            wait_until_scripts_are_done: texts(self.wait_until_scripts_are_done@),
            delay: self.delay,
            state: self.state,
        }
    }
}

/// Whether `v` holds a string of the text of `s`.
pub fn contains_text(v: &Vec<String>, s: &String) -> (r: bool)
    ensures
        r == texts(v@).contains(s@),
{
    let mut i: usize = 0;
    while i < v.len()
        invariant
            i <= v.len(),
            forall|j: int| 0 <= j < i ==> texts(v@)[j] != s@,
        decreases v.len() - i,
    {
        if v[i] == *s {
            assert(texts(v@)[i as int] == s@);
            return true;
        }
        i += 1;
    }
    false
}

/// Whether the checker knows a script of each of the names.
pub fn all_exist<C: ScriptChecker>(names: &Vec<String>, checker: &C) -> (r: bool)
    ensures
        r == all_known(known_scripts(checker), texts(names@)),
{
    let mut i: usize = 0;
    while i < names.len()
        invariant
            i <= names.len(),
            forall|j: int| 0 <= j < i ==> checker.knows(#[trigger] texts(names@)[j]),
        decreases names.len() - i,
    {
        if !checker.script_exists(&names[i]) {
            assert(!checker.knows(texts(names@)[i as int]));
            return false;
        }
        i += 1;
    }
    true
}

/// Copies of the strings of `v` in the order of their first occurrence, each
/// once.
pub fn distinct_strings(v: &Vec<String>) -> (r: Vec<String>)
    ensures
        texts(r@) == distinct(texts(v@)),
{
    let ghost all = texts(v@);
    let mut r: Vec<String> = Vec::new();
    let mut i: usize = 0;
    while i < v.len()
        invariant
            i <= v.len(),
            all == texts(v@),
            texts(r@) == distinct(all.take(i as int)),
        decreases v.len() - i,
    {
        proof {
            assert(all.take(i + 1).drop_last() =~= all.take(i as int));
        }
        if !contains_text(&r, &v[i]) {
            let s = v[i].clone();
            proof {
                lemma_texts_push(r@, s);
            }
            r.push(s);
        }
        i += 1;
    }
    assert(all.take(v.len() as int) =~= all);
    r
}

fn contains_port(v: &Vec<(String, u16)>, host: &String, port: u16) -> (r: bool)
    ensures
        r == port_views(v@).contains((host@, port)),
{
    let mut i: usize = 0;
    while i < v.len()
        invariant
            i <= v.len(),
            forall|j: int| 0 <= j < i ==> port_views(v@)[j] != (host@, port),
        decreases v.len() - i,
    {
        if v[i].1 == port && v[i].0 == *host {
            assert(port_views(v@)[i as int] == (host@, port));
            return true;
        }
        i += 1;
    }
    false
}

fn write_note(
    note: Note,
    name: &String,
    command: &CommandToRun,
    detail: &str,
    writer: &mut WriterWithTCP,
)
    ensures
        final(writer)@ == old(writer)@ + (match note {
            Note::Nothing => Seq::<Seq<char>>::empty(),
            Note::Started => seq!["Started "@ + name@ + "..."@],
            Note::Finished => seq!["Finished "@ + name@ + " with exitcode "@ + detail@],
            Note::DryRun => seq![rendering(command@), "Finished "@ + name@ + " with noexec"@],
            Note::FailedToStart => seq!["Failed to start "@ + name@ + ": "@ + detail@],
            Note::FailedToWait => seq!["Failed to wait "@ + name@ + ": "@ + detail@],
        }),
{
    match note {
        Note::Nothing => {
        },
        Note::Started => {
            writer.write_triple("Started ", name.as_str(), "...");
        },
        Note::Finished => {
            let mut line = String::from_str("Finished ");
            line.append(name.as_str());
            line.append(" with exitcode ");
            line.append(detail);
            writer.write_string(line);
        },
        Note::DryRun => {
            command.dry_run(writer);
            writer.write_triple("Finished ", name.as_str(), " with noexec");
        },
        Note::FailedToStart => {
            let mut line = String::from_str("Failed to start ");
            line.append(name.as_str());
            line.append(": ");
            line.append(detail);
            writer.write_string(line);
        },
        Note::FailedToWait => {
            let mut line = String::from_str("Failed to wait ");
            line.append(name.as_str());
            line.append(": ");
            line.append(detail);
            writer.write_string(line);
        },
    }
}

impl Script {
    /// The script that a configuration describes. It is not started.
    ///
    /// Fails, with a configuration error, where the script has no command or
    /// an invalid one, where an entry of `wait_for_ports` names no host and
    /// port, and where the script waits for a script that `checker` does not
    /// know.
    #[verifier::loop_isolation(false)]
    pub fn new<C: ScriptChecker>(
        name: String,
        items: &ScriptConfig,
        checker: &C,
        env: &Environment,
    ) -> (r: Result<Script, Error>)
        ensures
            match script_described(name@, *items, known_scripts(checker), *env) {
                Ok(v) => r is Ok && r->Ok_0@ == v,
                Err(m) => r is Err && r->Err_0.describes(ErrorKind::ConfigError, m),
            },
            r is Ok ==> well_formed(r->Ok_0@.state) && r->Ok_0@.wait_for_ports.no_duplicates()
                && r->Ok_0@.wait_until_scripts_are_done.no_duplicates(),
    {
        let command = match &items.command {
            Some(c) => CommandToRun::new(
                c.clone(),
                copy_option(&items.log_file),
                copy_option(&items.log_file_err),
                copy_option(&items.workdir),
                copy_option(&items.env_file),
                env,
            )?,
            None => {
                let mut message = String::from_str("script ");
                message.append(name.as_str());
                message.append(" has no command");
                return Err(build_invalid_data_error_string(message));
            },
        };
        let mut wait_for_ports: Vec<(String, u16)> = Vec::new();
        assert(port_views(wait_for_ports@) =~= Seq::<(Seq<char>, u16)>::empty());
        if let Some(entries) = &items.wait_for_ports {
            let ghost all = entry_views(entries@);
            let mut i: usize = 0;
            while i < entries.len()
                invariant
                    i <= entries.len(),
                    all == entry_views(entries@),
                    ports_described(all.take(i as int), name@) == Ok::<
                        Seq<(Seq<char>, u16)>,
                        Seq<char>,
                    >(port_views(wait_for_ports@)),
                    port_views(wait_for_ports@).no_duplicates(),
                decreases entries.len() - i,
            {
                proof {
                    assert(all.take(i + 1).drop_last() =~= all.take(i as int));
                }
                let pair = match &entries[i] {
                    Some(text) => process_host_port(text.as_str(), &name),
                    None => Err(config_error("wait_for_ports is invalid in script ", name.as_str())),
                };
                match pair {
                    Ok((host, port)) => {
                        if !contains_port(&wait_for_ports, &host, port) {
                            proof {
                                assert(port_views(wait_for_ports@.push((host, port)))
                                    =~= port_views(wait_for_ports@).push((host@, port)));
                            }
                            wait_for_ports.push((host, port));
                        }
                    },
                    Err(e) => {
                        proof {
                            lemma_ports_fail(all, i + 1, name@);
                        }
                        return Err(e);
                    },
                }
                i += 1;
            }
            assert(all.take(entries.len() as int) =~= all);
        }
        let wait_until_scripts_are_done: Vec<String> = match &items.wait_until_scripts_are_done {
            Some(scripts) => distinct_strings(scripts),
            None => Vec::new(),
        };
        proof {
            lemma_distinct(texts(wait_until_scripts_are_done@));
            if items.wait_until_scripts_are_done is Some {
                lemma_distinct(texts(items.wait_until_scripts_are_done->Some_0@));
            } else {
                assert(texts(wait_until_scripts_are_done@) =~= Seq::<Seq<char>>::empty());
            }
        }
        if !all_exist(&wait_until_scripts_are_done, checker) {
            return Err(
                config_error("wait_until_scripts_are_done is invalid in script ", name.as_str()),
            );
        }
        let delay = match items.delay {
            Some(d) => Some(#[verifier::truncate] (d as u64)),
            None => None,
        };
        Ok(
            Script {
                name,
                command,
                wait_for_ports,
                wait_until_scripts_are_done,
                delay,
                state: RunState {
                    status: SCRIPT_STATUS_NOT_STARTED,
                    phase: Phase::Idle,
                    interrupt: false,
                    noexec: false,
                    attended: false,
                },
            },
        )
    }

    /// Starts the script, where it can be started: where it was never started
    /// or its last cycle has ended. On a script that is starting or running
    /// this does nothing.
    ///
    /// A forced start skips ports, scripts and delay. A forced dry run is over
    /// at once: the command is shown and the script is finished.
    pub fn start(&mut self, forced_start: bool, noexec: bool, writer: &mut WriterWithTCP)
        ensures
            final(self)@ == script_started(old(self)@, forced_start, noexec),
            final(writer)@ == old(writer)@ + start_lines(old(self)@, forced_start, noexec),
    {
        let status = self.state.status;
        if status == SCRIPT_STATUS_NOT_STARTED || status == SCRIPT_STATUS_INTERRUPTED || status
            == SCRIPT_STATUS_FINISHED || status == SCRIPT_STATUS_KILLED || status
            == SCRIPT_STATUS_FAILED {
            let step = start_step(self.state, forced_start, noexec, self.delay);
            writer.write_triple("Starting ", self.name.as_str(), "...");
            write_note(step.note, &self.name, &self.command, "", writer);
            self.state = step.state;
        }
    }

    /// Asks the script to stop: writes that it is stopping and, where it is
    /// starting or running, sets the interrupt for its waiter to see. On a
    /// script that is neither, nothing changes.
    pub fn stop(&mut self, writer: &mut WriterWithTCP)
        ensures
            final(self)@ == script_stopped(old(self)@),
            final(writer)@ == old(writer)@.push(stop_line(old(self)@)),
    {
        writer.write_triple("Stopping ", self.name.as_str(), "...");
        self.interrupt();
    }

    /// Sets the interrupt, where the script is starting or running.
    pub fn interrupt(&mut self)
        ensures
            final(self)@ == script_stopped(old(self)@),
    {
        self.state = stop_state(self.state);
    }

    /// Takes the script up for a waiter: `true` where it needs one and none
    /// has taken it up in this cycle.
    pub fn claim(&mut self) -> (r: bool)
        ensures
            r == unattended(old(self)@.state),
            final(self)@ == script_claimed(old(self)@),
    {
        if self.state.phase != Phase::Idle && !self.state.attended {
            self.state = RunState { attended: true, ..self.state };
            true
        } else {
            false
        }
    }

    /// Takes in what the waiter reports and says what it does next. `ready`
    /// says whether every script that this one waits for is finished now.
    pub fn advance(&mut self, event: Event, ready: bool, writer: &mut WriterWithTCP) -> (action:
        Action)
        ensures
            final(self)@ == script_next(old(self)@, event, ready),
            action == next(old(self)@.state, event, ready, old(self)@.delay).action,
            final(writer)@ == old(writer)@ + next_lines(old(self)@, event, ready),
    {
        let step = next_step(self.state, &event, ready, self.delay);
        let detail = match &event {
            Event::SpawnFailed(text) => text.as_str(),
            Event::Exited(text) => text.as_str(),
            Event::PollFailed(text) => text.as_str(),
            _ => "",
        };
        write_note(step.note, &self.name, &self.command, detail, writer);
        self.state = step.state;
        step.action
    }

    /// Whether the checker knows every script that this one waits for.
    pub fn dependencies_exist<C: ScriptChecker>(&self, checker: &C) -> (r: bool)
        ensures
            r == !is_dangling(known_scripts(checker))(self@),
    {
        all_exist(&self.wait_until_scripts_are_done, checker)
    }

    /// The status: one of the seven values.
    pub fn get_status(&self) -> (r: usize)
        ensures
            r == self@.state.status,
    {
        self.state.status
    }

    /// The line that reports the script.
    pub fn get_status_string(&self) -> (r: String)
        ensures
            r@ == status_line(self@),
    {
        let status = self.state.status;
        let label = if status == SCRIPT_STATUS_STARTING {
            "starting"
        } else if status == SCRIPT_STATUS_KILLED {
            "killed"
        } else if status == SCRIPT_STATUS_FAILED {
            "failed"
        } else if status == SCRIPT_STATUS_FINISHED {
            "finished"
        } else if status == SCRIPT_STATUS_NOT_STARTED {
            "not started"
        } else if status == SCRIPT_STATUS_INTERRUPTED {
            "interrupted"
        } else if status == SCRIPT_STATUS_RUNNING {
            "running"
        } else {
            "unknown"
        };
        let mut r = String::from_str("  ");
        r.append(self.name.as_str());
        r.append(": ");
        r.append(label);
        r
    }

    /// Whether the wait for the script is over: whether it is neither starting
    /// nor running. Who waits sleeps and asks again while it is not.
    pub fn wait_finish(&self) -> (r: bool)
        ensures
            r == !is_active(self@.state.status),
    {
        let status = self.get_status();
        status != SCRIPT_STATUS_RUNNING && status != SCRIPT_STATUS_STARTING
    }

    /// The name.
    pub fn name(&self) -> (r: &String)
        ensures
            r@ == self@.name,
    {
        &self.name
    }

    /// What to launch.
    pub fn command(&self) -> (r: &CommandToRun)
        ensures
            r@ == self@.command,
    {
        &self.command
    }

    /// The hosts and ports to probe.
    pub fn wait_for_ports(&self) -> (r: &Vec<(String, u16)>)
        ensures
            port_views(r@) == self@.wait_for_ports,
    {
        &self.wait_for_ports
    }

    /// The full names of the scripts to wait for.
    pub fn wait_until_scripts_are_done(&self) -> (r: &Vec<String>)
        ensures
            texts(r@) == self@.wait_until_scripts_are_done,
    {
        &self.wait_until_scripts_are_done
    }
}

} // verus!
