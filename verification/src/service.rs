//! A service: a named bundle of scripts, with a command to run once they are
//! stopped.

use crate::command_to_run::{described, rendering, CommandToRun, CommandView, Environment};
use crate::machine::{
    is_active, next, unattended, well_formed, Action, Event, SCRIPT_STATUS_NOT_STARTED,
};
use crate::script::{
    is_dangling, known_scripts, next_lines, script_claimed, script_described, script_next, script_started, script_stopped,
    start_lines, status_line, stop_line, Script, ScriptChecker, ScriptConfig, ScriptView,
};
use crate::text::{
    first_index, first_where, join, join_strings, lemma_first_index_is, lemma_first_where_is,
    lemma_texts_push, texts,
};
use crate::user_command::WriterWithTCP;
use crate::utilities::{build_invalid_data_error_string, Error, ErrorKind};
use vstd::prelude::*;

verus! {

/// What the configuration says of one service.
#[derive(Debug)]
pub struct ServiceConfig {
    /// Whether the service is left out.
    pub disabled: Option<bool>,
    /// The command to run once the scripts are stopped.
    pub post_stop_script: Option<String>,
    /// The scripts by name, in the order of the configuration; none where the
    /// configuration holds no mapping of scripts.
    pub scripts: Option<Vec<(String, ScriptConfig)>>,
}

/// What a service holds.
pub struct ServiceView {
    pub name: Seq<char>,
    /// The command to run once the scripts are stopped.
    pub post_stop_script: Option<CommandView>,
    /// The scripts, in the order of the configuration.
    pub scripts: Seq<ScriptView>,
}

/// What each of the scripts holds.
pub open spec fn script_views(v: Seq<Script>) -> Seq<ScriptView> {
    Seq::new(v.len(), |i: int| v[i]@)
}

/// The names of the scripts.
pub open spec fn script_names(v: Seq<ScriptView>) -> Seq<Seq<char>> {
    Seq::new(v.len(), |i: int| v[i].name)
}

/// The place of the script `name` among the scripts, or their number where
/// there is none of that name.
pub open spec fn script_at(scripts: Seq<ScriptView>, name: Seq<char>) -> int {
    first_index(script_names(scripts), name)
}

/// Whether one of the scripts has the name `name`.
pub open spec fn has_script(scripts: Seq<ScriptView>, name: Seq<char>) -> bool {
    0 <= script_at(scripts, name) < scripts.len()
}

/// The scripts with `v` among them: in the place of the script of its name,
/// or at the end where there is none.
pub open spec fn put(scripts: Seq<ScriptView>, v: ScriptView) -> Seq<ScriptView> {
    if has_script(scripts, v.name) {
        scripts.update(script_at(scripts, v.name), v)
    } else {
        scripts.push(v)
    }
}

/// Putting a script among scripts of distinct names leaves the names
/// distinct, and leaves no fewer scripts than there were.
pub proof fn lemma_put_keeps_names_distinct(scripts: Seq<ScriptView>, v: ScriptView)
    requires
        script_names(scripts).no_duplicates(),
    ensures
        script_names(put(scripts, v)).no_duplicates(),
        put(scripts, v).len() >= scripts.len(),
        put(scripts, v).len() > 0,
        has_script(put(scripts, v), v.name),
        put(scripts, v)[script_at(put(scripts, v), v.name)] == v,
{
    let names = script_names(scripts);
    crate::text::lemma_first_index_absent(names, v.name);
    crate::text::lemma_first_index(names, v.name);
    let after = script_names(put(scripts, v));
    if has_script(scripts, v.name) {
        assert(after =~= names);
    } else {
        assert(after =~= names.push(v.name));
        assert forall|i: int, j: int| 0 <= i < after.len() && 0 <= j < after.len() && i
            != j implies after[i] != after[j] by {
            if i == names.len() {
                assert(names.contains(names[j]));
            } else if j == names.len() {
                assert(names.contains(names[i]));
            }
        }
        crate::text::lemma_first_index_is(after, v.name, names.len() as int);
    }
}

/// The scripts that entries describe have distinct names, and there is one
/// at least where there is an entry.
pub proof fn lemma_scripts_described(
    entries: Seq<(Seq<char>, ScriptConfig)>,
    known: Set<Seq<char>>,
    env: Environment,
)
    requires
        scripts_described(entries, known, env) is Ok,
    ensures
        script_names(scripts_described(entries, known, env)->Ok_0).no_duplicates(),
        entries.len() > 0 ==> scripts_described(entries, known, env)->Ok_0.len() > 0,
        forall|j: int|
            0 <= j < scripts_described(entries, known, env)->Ok_0.len() ==> well_formed(
                #[trigger] scripts_described(entries, known, env)->Ok_0[j].state,
            ),
    decreases entries.len(),
{
    if entries.len() > 0 {
        lemma_scripts_described(entries.drop_last(), known, env);
        let before = scripts_described(entries.drop_last(), known, env)->Ok_0;
        let v = script_described(entries.last().0, entries.last().1, known, env)->Ok_0;
        lemma_put_keeps_names_distinct(before, v);
    }
}

/// The names and configurations of a list of scripts.
pub open spec fn script_entries(v: Seq<(String, ScriptConfig)>) -> Seq<(Seq<char>, ScriptConfig)> {
    Seq::new(v.len(), |i: int| (v[i].0@, v[i].1))
}

/// The scripts that the entries describe, or the message of the first
/// failure.
pub open spec fn scripts_described(
    entries: Seq<(Seq<char>, ScriptConfig)>,
    known: Set<Seq<char>>,
    env: Environment,
) -> Result<Seq<ScriptView>, Seq<char>>
    decreases entries.len(),
{
    if entries.len() == 0 {
        Ok(Seq::empty())
    } else {
        match scripts_described(entries.drop_last(), known, env) {
            Err(m) => Err(m),
            Ok(scripts) => match script_described(
                entries.last().0,
                entries.last().1,
                known,
                env,
            ) {
                Err(m) => Err(m),
                Ok(v) => Ok(put(scripts, v)),
            },
        }
    }
}

/// Where one script fails, the list fails with its message.
pub proof fn lemma_scripts_fail(
    entries: Seq<(Seq<char>, ScriptConfig)>,
    n: int,
    known: Set<Seq<char>>,
    env: Environment,
)
    requires
        0 < n <= entries.len(),
        scripts_described(entries.take(n), known, env) is Err,
    ensures
        scripts_described(entries, known, env) == scripts_described(entries.take(n), known, env),
    decreases entries.len(),
{
    if n < entries.len() {
        assert(entries.drop_last().take(n) =~= entries.take(n));
        lemma_scripts_fail(entries.drop_last(), n, known, env);
    } else {
        assert(entries.take(n) =~= entries);
    }
}

/// The message for a service without scripts.
pub open spec fn no_scripts_message(name: Seq<char>) -> Seq<char> {
    "service "@ + name + " has no scripts"@
}

/// The service that a configuration describes, or the message of the
/// failure. `known` holds the full names of the scripts that exist so far.
pub open spec fn service_described(
    name: Seq<char>,
    service: ServiceConfig,
    known: Set<Seq<char>>,
    env: Environment,
) -> Result<ServiceView, Seq<char>> {
    match service.scripts {
        None => Err(no_scripts_message(name)),
        Some(entries) => if entries.len() == 0 {
            Err(no_scripts_message(name))
        } else {
            match (match service.post_stop_script {
                Some(s) => match described(s@, None, None, None, None, env) {
                    Ok(c) => Ok(Some(c)),
                    Err(m) => Err(m),
                },
                None => Ok(None),
            }) {
                Err(m) => Err(m),
                Ok(post_stop_script) => match scripts_described(
                    script_entries(entries@),
                    known,
                    env,
                ) {
                    Err(m) => Err(m),
                    Ok(scripts) => Ok(ServiceView { name, post_stop_script, scripts }),
                },
            }
        },
    }
}

/// Each of the scripts after a start.
pub open spec fn all_started(scripts: Seq<ScriptView>, forced: bool, noexec: bool) -> Seq<
    ScriptView,
> {
    Seq::new(scripts.len(), |i: int| script_started(scripts[i], forced, noexec))
}

/// The lines that the start of each script writes, in the order of the scripts.
pub open spec fn all_start_lines(scripts: Seq<ScriptView>, forced: bool, noexec: bool) -> Seq<
    Seq<char>,
>
    decreases scripts.len(),
{
    if scripts.len() == 0 {
        Seq::empty()
    } else {
        all_start_lines(scripts.drop_last(), forced, noexec) + start_lines(
            scripts.last(),
            forced,
            noexec,
        )
    }
}

/// Each of the scripts after a stop.
pub open spec fn all_stopped(scripts: Seq<ScriptView>) -> Seq<ScriptView> {
    Seq::new(scripts.len(), |i: int| script_stopped(scripts[i]))
}

/// The line that the stop of each script writes.
pub open spec fn all_stop_lines(scripts: Seq<ScriptView>) -> Seq<Seq<char>> {
    Seq::new(scripts.len(), |i: int| stop_line(scripts[i]))
}

/// Each of the scripts after a waiter took it up.
pub open spec fn all_claimed(scripts: Seq<ScriptView>) -> Seq<ScriptView> {
    Seq::new(scripts.len(), |i: int| script_claimed(scripts[i]))
}

/// The full name of a script: the service, a dot, the script.
pub open spec fn full_name(service: Seq<char>, script: Seq<char>) -> Seq<char> {
    service + "."@ + script
}

/// The full names of the scripts that need a waiter, in the order of the
/// scripts.
pub open spec fn unattended_names(service: Seq<char>, scripts: Seq<ScriptView>) -> Seq<Seq<char>>
    decreases scripts.len(),
{
    if scripts.len() == 0 {
        Seq::empty()
    } else if unattended(scripts.last().state) {
        unattended_names(service, scripts.drop_last()).push(
            full_name(service, scripts.last().name),
        )
    } else {
        unattended_names(service, scripts.drop_last())
    }
}

/// Whether none of the scripts is starting or running.
pub open spec fn all_idle(scripts: Seq<ScriptView>) -> bool {
    forall|i: int| 0 <= i < scripts.len() ==> !is_active(#[trigger] scripts[i].state.status)
}

/// The status of the script `name`; not started where there is none of that
/// name.
pub open spec fn status_of(scripts: Seq<ScriptView>, name: Seq<char>) -> usize {
    if has_script(scripts, name) {
        scripts[script_at(scripts, name)].state.status
    } else {
        SCRIPT_STATUS_NOT_STARTED
    }
}

/// The lines that report the scripts, one for each.
pub open spec fn status_lines(scripts: Seq<ScriptView>) -> Seq<Seq<char>> {
    Seq::new(scripts.len(), |i: int| status_line(scripts[i]))
}

/// The lines that a stop of the service writes after those of its scripts.
pub open spec fn post_stop_lines(v: ServiceView, noexec: bool) -> Seq<Seq<char>> {
    match v.post_stop_script {
        None => Seq::empty(),
        Some(c) => if noexec {
            seq![
                "Running post-stop-script for "@ + v.name,
                rendering(c),
                "Finished post-stop-script for "@ + v.name,
            ]
        } else {
            seq!["Running post-stop-script for "@ + v.name]
        },
    }
}

/// The command that is left to run when a stop of the service returns.
pub open spec fn post_stop_left(v: ServiceView, noexec: bool) -> Option<CommandView> {
    if noexec {
        None
    } else {
        v.post_stop_script
    }
}

/// Whether a service is as it must be: it has a script, its scripts have
/// distinct names, and status and phase agree in each.
pub open spec fn service_well_formed(v: ServiceView) -> bool {
    &&& v.scripts.len() > 0
    &&& script_names(v.scripts).no_duplicates()
    &&& forall|j: int| 0 <= j < v.scripts.len() ==> well_formed(#[trigger] v.scripts[j].state)
}

/// The place of the first script of the service that waits for a script that
/// is not among the known ones, or the number of scripts where there is none.
pub open spec fn first_dangling(v: ServiceView, known: Set<Seq<char>>) -> int {
    first_where(v.scripts, is_dangling(known))
}

/// Whether a script of the service waits for a script that is not among the
/// known ones.
pub open spec fn has_dangling(known: Set<Seq<char>>) -> spec_fn(ServiceView) -> bool {
    |v: ServiceView| 0 <= first_dangling(v, known) < v.scripts.len()
}

/// The service after a start of every script.
pub open spec fn service_started(v: ServiceView, forced: bool, noexec: bool) -> ServiceView {
    ServiceView { scripts: all_started(v.scripts, forced, noexec), ..v }
}

/// The service after a stop of every script.
pub open spec fn service_stopped(v: ServiceView) -> ServiceView {
    ServiceView { scripts: all_stopped(v.scripts), ..v }
}

/// The service after every script that needs a waiter got one.
pub open spec fn service_claimed(v: ServiceView) -> ServiceView {
    ServiceView { scripts: all_claimed(v.scripts), ..v }
}

/// The service with `script` in the place `at`.
pub open spec fn service_with(v: ServiceView, at: int, script: ScriptView) -> ServiceView {
    ServiceView { scripts: v.scripts.update(at, script), ..v }
}

/// The lines that a stop of the service writes.
pub open spec fn service_stop_lines(v: ServiceView, noexec: bool) -> Seq<Seq<char>> {
    all_stop_lines(v.scripts) + post_stop_lines(v, noexec)
}

/// The report of the service: its name and a colon, then a line for each
/// script.
pub open spec fn service_report(v: ServiceView) -> Seq<char> {
    v.name + ":\n"@ + join(status_lines(v.scripts), "\n"@)
}

/// The text of the command in an optional descriptor.
pub open spec fn opt_command(o: Option<CommandToRun>) -> Option<CommandView> {
    match o {
        Some(c) => Some(c@),
        None => None,
    }
}

/// A service.
#[derive(Debug)]
pub struct Service {
    name: String,
    post_stop_script: Option<CommandToRun>,
    scripts: Vec<Script>,
}

impl View for Service {
    type V = ServiceView;

    closed spec fn view(&self) -> ServiceView {
        ServiceView {
            name: self.name@,
            post_stop_script: opt_command(self.post_stop_script),
            scripts: script_views(self.scripts@),
        }
    }
}

/// The error for a script name that names no script.
pub fn build_invalid_script_name_error() -> (e: Error)
    ensures
        e.describes(ErrorKind::InvalidName, "invalid script name"@),
{
    Error::new(ErrorKind::InvalidName, String::from_str("invalid script name"))
}

/// The error for a service without scripts.
pub fn build_service_has_no_scripts_error(service_name: &String) -> (e: Error)
    ensures
        e.describes(ErrorKind::ConfigError, no_scripts_message(service_name@)),
{
    let mut message = String::from_str("service ");
    message.append(service_name.as_str());
    message.append(" has no scripts");
    build_invalid_data_error_string(message)
}

impl Service {
    /// The service that a configuration describes, none of its scripts started.
    ///
    /// Fails, with a configuration error, where the service has no scripts,
    /// where its post-stop command is invalid, and where one of its scripts is.
    /// Of two scripts of one name the later one stays.
    #[verifier::loop_isolation(false)]
    pub fn new<C: ScriptChecker>(
        service_name: String,
        service: &ServiceConfig,
        checker: &C,
        env: &Environment,
    ) -> (r: Result<Service, Error>)
        ensures
            match service_described(service_name@, *service, known_scripts(checker), *env) {
                Ok(v) => r is Ok && r->Ok_0@ == v,
                Err(m) => r is Err && r->Err_0.describes(ErrorKind::ConfigError, m),
            },
            r is Ok ==> service_well_formed(r->Ok_0@),
    {
        let entries = match &service.scripts {
            Some(entries) => entries,
            None => {
                return Err(build_service_has_no_scripts_error(&service_name));
            },
        };
        if entries.len() == 0 {
            return Err(build_service_has_no_scripts_error(&service_name));
        }
        let post_stop_script = match &service.post_stop_script {
            Some(s) => Some(CommandToRun::new(s.clone(), None, None, None, None, env)?),
            None => None,
        };
        let ghost all = script_entries(entries@);
        let mut result: Vec<Script> = Vec::new();
        let mut i: usize = 0;
        assert(script_views(result@) =~= Seq::<ScriptView>::empty());
        while i < entries.len()
            invariant
                i <= entries.len(),
                scripts_described(all.take(i as int), known_scripts(checker), *env) == Ok::<
                    Seq<ScriptView>,
                    Seq<char>,
                >(script_views(result@)),
            decreases entries.len() - i,
        {
            proof {
                assert(all.take(i + 1).drop_last() =~= all.take(i as int));
            }
            match Script::new(entries[i].0.clone(), &entries[i].1, checker, env) {
                Ok(script) => {
                    let at = find_script(&result, script.name());
                    let ghost before = script_views(result@);
                    if at < result.len() {
                        result[at] = script;
                        assert(script_views(result@) =~= before.update(at as int, script@));
                    } else {
                        result.push(script);
                        assert(script_views(result@) =~= before.push(script@));
                    }
                },
                Err(e) => {
                    proof {
                        lemma_scripts_fail(all, i + 1, known_scripts(checker), *env);
                    }
                    return Err(e);
                },
            }
            i += 1;
        }
        assert(all.take(entries.len() as int) =~= all);
        proof {
            lemma_scripts_described(all, known_scripts(checker), *env);
        }
        Ok(Service { name: service_name, post_stop_script, scripts: result })
    }

    /// Starts every script of the service, in their order.
    pub fn start(&mut self, forced_start: bool, noexec: bool, writer: &mut WriterWithTCP)
        ensures
            final(self)@ == service_started(old(self)@, forced_start, noexec),
            final(writer)@ == old(writer)@ + all_start_lines(
                old(self)@.scripts,
                forced_start,
                noexec,
            ),
    {
        let ghost before = self@.scripts;
        let ghost lines = writer@;
        let n = self.scripts.len();
        let mut i: usize = 0;
        while i < n
            invariant
                i <= n,
                n == self.scripts.len(),
                n == before.len(),
                self.name == old(self).name,
                self.post_stop_script == old(self).post_stop_script,
                forall|j: int|
                    0 <= j < i ==> #[trigger] self.scripts@[j]@ == script_started(
                        before[j],
                        forced_start,
                        noexec,
                    ),
                forall|j: int| i <= j < n ==> #[trigger] self.scripts@[j]@ == before[j],
                writer@ == lines + all_start_lines(before.take(i as int), forced_start, noexec),
            decreases n - i,
        {
            proof {
                assert(before.take(i + 1).drop_last() =~= before.take(i as int));
            }
            self.scripts[i].start(forced_start, noexec, writer);
            i += 1;
        }
        assert(before.take(n as int) =~= before);
        assert(self@.scripts =~= all_started(before, forced_start, noexec));
    }

    /// Starts the script `script_name` of the service.
    ///
    /// Fails, with the error for an invalid name and nothing changed, where
    /// the service has no script of that name.
    pub fn start_script(
        &mut self,
        script_name: &String,
        forced_start: bool,
        noexec: bool,
        writer: &mut WriterWithTCP,
    ) -> (r: Result<(), Error>)
        ensures
            has_script(old(self)@.scripts, script_name@) ==> r is Ok && final(self)@
                == service_with(
                old(self)@,
                script_at(old(self)@.scripts, script_name@),
                script_started(
                    old(self)@.scripts[script_at(old(self)@.scripts, script_name@)],
                    forced_start,
                    noexec,
                ),
            ) && final(writer)@ == old(writer)@ + start_lines(
                old(self)@.scripts[script_at(old(self)@.scripts, script_name@)],
                forced_start,
                noexec,
            ),
            !has_script(old(self)@.scripts, script_name@) ==> r is Err && r->Err_0.describes(
                ErrorKind::InvalidName,
                "invalid script name"@,
            ) && final(self)@ == old(self)@ && final(writer)@ == old(writer)@,
    {
        let at = find_script(&self.scripts, script_name);
        if at < self.scripts.len() {
            let ghost before = self@.scripts;
            self.scripts[at].start(forced_start, noexec, writer);
            assert(self@.scripts =~= before.update(
                at as int,
                script_started(before[at as int], forced_start, noexec),
            ));
            return Ok(());
        }
        Err(build_invalid_script_name_error())
    }

    /// Asks the script `script_name` of the service to stop.
    ///
    /// Fails, with the error for an invalid name and nothing changed, where
    /// the service has no script of that name.
    pub fn stop_script(&mut self, script_name: &String, writer: &mut WriterWithTCP) -> (r: Result<
        (),
        Error,
    >)
        ensures
            has_script(old(self)@.scripts, script_name@) ==> r is Ok && final(self)@
                == service_with(
                old(self)@,
                script_at(old(self)@.scripts, script_name@),
                script_stopped(old(self)@.scripts[script_at(old(self)@.scripts, script_name@)]),
            ) && final(writer)@ == old(writer)@.push(
                stop_line(old(self)@.scripts[script_at(old(self)@.scripts, script_name@)]),
            ),
            !has_script(old(self)@.scripts, script_name@) ==> r is Err && r->Err_0.describes(
                ErrorKind::InvalidName,
                "invalid script name"@,
            ) && final(self)@ == old(self)@ && final(writer)@ == old(writer)@,
    {
        let at = find_script(&self.scripts, script_name);
        if at < self.scripts.len() {
            let ghost before = self@.scripts;
            self.scripts[at].stop(writer);
            assert(self@.scripts =~= before.update(at as int, script_stopped(before[at as int])));
            return Ok(());
        }
        Err(build_invalid_script_name_error())
    }

    /// Asks every script of the service to stop, in their order, and turns to
    /// the post-stop command.
    ///
    /// Where the service has such a command, this writes that it is running.
    /// In a dry run the command is then shown and written off as finished, and
    /// nothing is left to do. Otherwise the command is returned: the caller
    /// runs it, waits for it, and reports with `post_stop_finished`.
    pub fn stop(&mut self, noexec: bool, writer: &mut WriterWithTCP) -> (r: Option<CommandToRun>)
        ensures
            final(self)@ == service_stopped(old(self)@),
            final(writer)@ == old(writer)@ + service_stop_lines(old(self)@, noexec),
            opt_command(r) == post_stop_left(old(self)@, noexec),
    {
        let ghost before = self@.scripts;
        let ghost lines = writer@;
        let n = self.scripts.len();
        let mut i: usize = 0;
        while i < n
            invariant
                i <= n,
                n == self.scripts.len(),
                n == before.len(),
                self.name == old(self).name,
                self.post_stop_script == old(self).post_stop_script,
                forall|j: int| 0 <= j < i ==> #[trigger] self.scripts@[j]@ == script_stopped(before[j]),
                forall|j: int| i <= j < n ==> #[trigger] self.scripts@[j]@ == before[j],
                writer@ == lines + all_stop_lines(before).take(i as int),
            decreases n - i,
        {
            self.scripts[i].stop(writer);
            i += 1;
        }
        assert(self@.scripts =~= all_stopped(before));
        match &self.post_stop_script {
            Some(script) => {
                writer.write_pair("Running post-stop-script for ", self.name.as_str());
                if noexec {
                    script.dry_run(writer);
                    writer.write_pair("Finished post-stop-script for ", self.name.as_str());
                    None
                } else {
                    Some(script.copy())
                }
            },
            None => {
                None
            },
        }
    }

    /// Writes that the post-stop command of the service has finished.
    pub fn post_stop_finished(&self, writer: &mut WriterWithTCP)
        ensures
            final(writer)@ == old(writer)@.push("Finished post-stop-script for "@ + self@.name),
    {
        writer.write_pair("Finished post-stop-script for ", self.name.as_str());
    }

    /// The name of the first script of the service that waits for a script
    /// that the checker does not know; none where each waits for scripts
    /// that it knows.
    pub fn dangling_script<C: ScriptChecker>(&self, checker: &C) -> (r: Option<String>)
        ensures
            has_dangling(known_scripts(checker))(self@) ==> r is Some && r->Some_0@
                == self@.scripts[first_dangling(self@, known_scripts(checker))].name,
            !has_dangling(known_scripts(checker))(self@) ==> r is None,
    {
        let ghost p = is_dangling(known_scripts(checker));
        let mut j: usize = 0;
        while j < self.scripts.len()
            invariant
                j <= self.scripts.len(),
                p == is_dangling(known_scripts(checker)),
                forall|k: int| 0 <= k < j ==> !p(#[trigger] self@.scripts[k]),
            decreases self.scripts.len() - j,
        {
            if !self.scripts[j].dependencies_exist(checker) {
                proof {
                    lemma_first_where_is(self@.scripts, p, j as int);
                }
                return Some(self.scripts[j].name().clone());
            }
            j += 1;
        }
        proof {
            lemma_first_where_is(self@.scripts, p, j as int);
        }
        None
    }

    /// Whether the service has a script of this name.
    pub fn script_exists(&self, script_name: String) -> (r: bool)
        ensures
            r == has_script(self@.scripts, script_name@),
    {
        find_script(&self.scripts, &script_name) < self.scripts.len()
    }

    /// The status of the script of this name; not started where the service
    /// has none of that name.
    pub fn get_script_status(&self, script_name: &String) -> (r: usize)
        ensures
            r == status_of(self@.scripts, script_name@),
    {
        let at = find_script(&self.scripts, script_name);
        if at < self.scripts.len() {
            self.scripts[at].get_status()
        } else {
            SCRIPT_STATUS_NOT_STARTED
        }
    }

    /// The lines that report the scripts, in their order, with a line feed
    /// between two of them.
    pub fn get_status_string(&self) -> (r: String)
        ensures
            r@ == join(status_lines(self@.scripts), "\n"@),
            self@.name + ":\n"@ + r@ == service_report(self@),
    {
        let mut lines: Vec<String> = Vec::new();
        let mut i: usize = 0;
        while i < self.scripts.len()
            invariant
                i <= self.scripts.len(),
                texts(lines@) == status_lines(self@.scripts).take(i as int),
            decreases self.scripts.len() - i,
        {
            let line = self.scripts[i].get_status_string();
            proof {
                lemma_texts_push(lines@, line);
            }
            lines.push(line);
            i += 1;
        }
        assert(status_lines(self@.scripts).take(self.scripts.len() as int) =~= status_lines(
            self@.scripts,
        ));
        join_strings(&lines, "\n")
    }

    /// Whether the wait for the service is over: whether none of its scripts
    /// is starting or running.
    pub fn wait_finish(&self) -> (r: bool)
        ensures
            r == all_idle(self@.scripts),
    {
        let mut i: usize = 0;
        while i < self.scripts.len()
            invariant
                i <= self.scripts.len(),
                forall|j: int| 0 <= j < i ==> !is_active(#[trigger] self@.scripts[j].state.status),
            decreases self.scripts.len() - i,
        {
            if !self.scripts[i].wait_finish() {
                assert(is_active(self@.scripts[i as int].state.status));
                return false;
            }
            i += 1;
        }
        true
    }

    /// Takes up, for a waiter each, the scripts that need one, and adds their
    /// full names to `names`.
    pub fn claim_waiters(&mut self, names: &mut Vec<String>)
        ensures
            final(self)@ == service_claimed(old(self)@),
            texts(final(names)@) == texts(old(names)@) + unattended_names(
                old(self)@.name,
                old(self)@.scripts,
            ),
    {
        let ghost before = self@.scripts;
        let ghost found = texts(names@);
        let n = self.scripts.len();
        let mut i: usize = 0;
        while i < n
            invariant
                i <= n,
                n == self.scripts.len(),
                n == before.len(),
                self.name == old(self).name,
                self.post_stop_script == old(self).post_stop_script,
                forall|j: int| 0 <= j < i ==> #[trigger] self.scripts@[j]@ == script_claimed(before[j]),
                forall|j: int| i <= j < n ==> #[trigger] self.scripts@[j]@ == before[j],
                texts(names@) == found + unattended_names(self.name@, before.take(i as int)),
            decreases n - i,
        {
            proof {
                assert(before.take(i + 1).drop_last() =~= before.take(i as int));
            }
            if self.scripts[i].claim() {
                let mut name = self.name.clone();
                name.append(".");
                name.append(self.scripts[i].name().as_str());
                proof {
                    lemma_texts_push(names@, name);
                }
                names.push(name);
            }
            i += 1;
        }
        assert(before.take(n as int) =~= before);
        assert(self@.scripts =~= all_claimed(before));
    }

    /// Takes in what the waiter of the script `script_name` reports and says
    /// what it does next.
    ///
    /// Fails, with the error for an invalid name and nothing changed, where
    /// the service has no script of that name.
    pub fn advance(
        &mut self,
        script_name: &String,
        event: Event,
        ready: bool,
        writer: &mut WriterWithTCP,
    ) -> (r: Result<Action, Error>)
        ensures
            has_script(old(self)@.scripts, script_name@) ==> r is Ok && r->Ok_0 == next(
                old(self)@.scripts[script_at(old(self)@.scripts, script_name@)].state,
                event,
                ready,
                old(self)@.scripts[script_at(old(self)@.scripts, script_name@)].delay,
            ).action && final(self)@ == service_with(
                old(self)@,
                script_at(old(self)@.scripts, script_name@),
                script_next(
                    old(self)@.scripts[script_at(old(self)@.scripts, script_name@)],
                    event,
                    ready,
                ),
            ) && final(writer)@ == old(writer)@ + next_lines(
                old(self)@.scripts[script_at(old(self)@.scripts, script_name@)],
                event,
                ready,
            ),
            !has_script(old(self)@.scripts, script_name@) ==> r is Err && r->Err_0.describes(
                ErrorKind::InvalidName,
                "invalid script name"@,
            ) && final(self)@ == old(self)@ && final(writer)@ == old(writer)@,
    {
        let at = find_script(&self.scripts, script_name);
        if at < self.scripts.len() {
            let ghost before = self@.scripts;
            let action = self.scripts[at].advance(event, ready, writer);
            assert(self@.scripts =~= before.update(
                at as int,
                script_next(before[at as int], event, ready),
            ));
            return Ok(action);
        }
        Err(build_invalid_script_name_error())
    }

    /// The name.
    pub fn name(&self) -> (r: &String)
        ensures
            r@ == self@.name,
    {
        &self.name
    }

    /// The script of this name, where the service has one.
    pub fn script(&self, script_name: &String) -> (r: Option<&Script>)
        ensures
            has_script(self@.scripts, script_name@) ==> r is Some && r->Some_0@
                == self@.scripts[script_at(self@.scripts, script_name@)],
            !has_script(self@.scripts, script_name@) ==> r is None,
    {
        let at = find_script(&self.scripts, script_name);
        if at < self.scripts.len() {
            Some(&self.scripts[at])
        } else {
            None
        }
    }
}

/// The place of the script `name` among the scripts, or their number where
/// there is none of that name.
fn find_script(scripts: &Vec<Script>, name: &String) -> (at: usize)
    ensures
        at == script_at(script_views(scripts@), name@),
        at <= scripts.len(),
{
    let mut at: usize = 0;
    while at < scripts.len()
        invariant
            at <= scripts.len(),
            forall|j: int| 0 <= j < at ==> script_names(script_views(scripts@))[j] != name@,
        decreases scripts.len() - at,
    {
        if *scripts[at].name() == *name {
            proof {
                lemma_first_index_is(script_names(script_views(scripts@)), name@, at as int);
            }
            return at;
        }
        at += 1;
    }
    proof {
        lemma_first_index_is(script_names(script_views(scripts@)), name@, at as int);
    }
    at
}

} // verus!
