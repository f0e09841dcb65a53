//! The services of a configuration and their manager.

use crate::command_to_run::{described, CommandToRun, CommandView, Environment};
use crate::machine::{
    claimed, is_active, lemma_idle_stays_idle, lemma_runs_after_dependencies,
    lemma_well_formed_is_kept, next, past_dependencies, started, stopped, well_formed, Action,
    Event, SCRIPT_STATUS_FINISHED, SCRIPT_STATUS_NOT_STARTED, SCRIPT_STATUS_RUNNING,
};
use crate::script::{
    all_known, config_error, is_dangling, known_scripts, next_lines, script_next, script_started, script_stopped, start_lines,
    stop_line, unknown_dependency_message, ScriptChecker, ScriptView, Unread,
};
use crate::service::{
    all_idle, first_dangling, has_dangling, build_invalid_script_name_error, has_script, opt_command, post_stop_left, script_at,
    service_claimed, service_described, service_report, service_started, service_stop_lines,
    service_stopped, service_well_formed, service_with, unattended_names, Service, ServiceConfig,
    ServiceView,
};
use crate::text::{
    first_index, first_where, lemma_first_index, lemma_first_index_absent, lemma_first_where,
    lemma_first_where_is, join, join_strings, lemma_first_index_is, lemma_texts_push, opt_text, split,
    split_on, texts,
};
use crate::user_command::WriterWithTCP;
use crate::utilities::{build_invalid_data_error_string, Error, ErrorKind};
use vstd::prelude::*;

verus! {

/// What each of the services holds.
pub open spec fn service_views(v: Seq<Service>) -> Seq<ServiceView> {
    Seq::new(v.len(), |i: int| v[i]@)
}

/// The names of the services.
pub open spec fn service_names(v: Seq<ServiceView>) -> Seq<Seq<char>> {
    Seq::new(v.len(), |i: int| v[i].name)
}

/// The place of the service `name` among the services, or their number where
/// there is none of that name.
pub open spec fn service_at(services: Seq<ServiceView>, name: Seq<char>) -> int {
    first_index(service_names(services), name)
}

/// Whether one of the services has the name `name`.
pub open spec fn has_service(services: Seq<ServiceView>, name: Seq<char>) -> bool {
    0 <= service_at(services, name) < services.len()
}

/// The services with `v` among them: in the place of the service of its name,
/// or at the end where there is none.
pub open spec fn put_service(services: Seq<ServiceView>, v: ServiceView) -> Seq<ServiceView> {
    if has_service(services, v.name) {
        services.update(service_at(services, v.name), v)
    } else {
        services.push(v)
    }
}

/// Why a full name leads to no script.
pub enum NameFault {
    /// It is not of the form `service.script`, or the service has no script
    /// of that name.
    InvalidScriptName,
    /// There is no service of that name.
    ServiceNotFound,
}

/// The message of a fault in a name.
pub open spec fn name_fault_message(fault: NameFault) -> Seq<char> {
    match fault {
        NameFault::InvalidScriptName => "invalid script name"@,
        NameFault::ServiceNotFound => "service not found"@,
    }
}

/// The place of the service and the name of the script that a full name
/// gives: the text before its one dot names the service, the text after it
/// the script.
pub open spec fn script_service(services: Seq<ServiceView>, full: Seq<char>) -> Result<
    (int, Seq<char>),
    NameFault,
> {
    let parts = split_on(full, '.');
    if parts.len() != 2 {
        Err(NameFault::InvalidScriptName)
    } else if !has_service(services, parts[0]) {
        Err(NameFault::ServiceNotFound)
    } else {
        Ok((service_at(services, parts[0]), parts[1]))
    }
}

/// The places of the service and of the script that a full name leads to.
pub open spec fn located(services: Seq<ServiceView>, full: Seq<char>) -> Result<
    (int, int),
    NameFault,
> {
    match script_service(services, full) {
        Err(fault) => Err(fault),
        Ok((i, name)) => if has_script(services[i].scripts, name) {
            Ok((i, script_at(services[i].scripts, name)))
        } else {
            Err(NameFault::InvalidScriptName)
        },
    }
}

/// Whether a full name leads to a script.
pub open spec fn knows_script(services: Seq<ServiceView>, full: Seq<char>) -> bool {
    located(services, full) is Ok
}

/// The full names that lead to a script.
pub open spec fn script_set(services: Seq<ServiceView>) -> Set<Seq<char>> {
    Set::new(|full: Seq<char>| knows_script(services, full))
}

/// The status of the script that a full name leads to; not started where it
/// leads to none.
pub open spec fn script_status(services: Seq<ServiceView>, full: Seq<char>) -> usize {
    match located(services, full) {
        Ok((i, j)) => services[i].scripts[j].state.status,
        Err(_) => SCRIPT_STATUS_NOT_STARTED,
    }
}

/// Whether every one of the scripts is finished.
pub open spec fn scripts_finished(services: Seq<ServiceView>, names: Seq<Seq<char>>) -> bool {
    forall|k: int|
        0 <= k < names.len() ==> script_status(services, #[trigger] names[k])
            == SCRIPT_STATUS_FINISHED
}

/// Whether no script of any service is starting or running.
pub open spec fn services_idle(services: Seq<ServiceView>) -> bool {
    forall|i: int| 0 <= i < services.len() ==> all_idle(#[trigger] services[i].scripts)
}

/// The names and configurations of a list of services.
pub open spec fn service_entries(v: Seq<(String, ServiceConfig)>) -> Seq<
    (Seq<char>, ServiceConfig),
> {
    Seq::new(v.len(), |i: int| (v[i].0@, v[i].1))
}

/// Whether the configuration leaves the service out.
pub open spec fn is_disabled(service: ServiceConfig) -> bool {
    service.disabled == Some(true)
}

/// The services that the entries describe, those that are disabled left
/// out, or the message of the first failure. What the scripts wait for is
/// not looked at yet.
pub open spec fn services_built(entries: Seq<(Seq<char>, ServiceConfig)>, env: Environment) -> Result<
    Seq<ServiceView>,
    Seq<char>,
>
    decreases entries.len(),
{
    if entries.len() == 0 {
        Ok(Seq::empty())
    } else {
        match services_built(entries.drop_last(), env) {
            Err(m) => Err(m),
            Ok(services) => if is_disabled(entries.last().1) {
                Ok(services)
            } else {
                match service_described(
                    entries.last().0,
                    entries.last().1,
                    Set::full(),
                    env,
                ) {
                    Err(m) => Err(m),
                    Ok(v) => Ok(put_service(services, v)),
                }
            },
        }
    }
}

/// Whether every script waits only for scripts that exist: each full name
/// that a script waits for leads to a script of the services.
#[verifier::opaque]
pub open spec fn dependencies_exist(services: Seq<ServiceView>) -> bool {
    forall|i: int, j: int|
        0 <= i < services.len() && 0 <= j < services[i].scripts.len() ==> all_known(
            script_set(services),
            (#[trigger] services[i].scripts[j]).wait_until_scripts_are_done,
        )
}

/// The place of the first service with a script that waits for a script that
/// does not exist, or the number of services where there is none.
pub open spec fn first_dangling_service(services: Seq<ServiceView>) -> int {
    first_where(services, has_dangling(script_set(services)))
}

/// The services that the entries describe, those that are disabled left
/// out, or the message of the first failure.
///
/// First every service is made. Then what the scripts wait for is held
/// against the scripts of all of them: a script may wait for any script of
/// the configuration, of its own service or of another, declared before it
/// or after it, and for none that does not exist. The message names the
/// first script, in the order of services and scripts, that waits for one
/// that does not.
pub open spec fn services_described(entries: Seq<(Seq<char>, ServiceConfig)>, env: Environment) -> Result<
    Seq<ServiceView>,
    Seq<char>,
> {
    match services_built(entries, env) {
        Err(m) => Err(m),
        Ok(services) => {
            let i = first_dangling_service(services);
            if 0 <= i < services.len() {
                Err(
                    unknown_dependency_message(
                        services[i].scripts[first_dangling(
                            services[i],
                            script_set(services),
                        )].name,
                    ),
                )
            } else {
                Ok(services)
            }
        },
    }
}

/// Where one service fails, the list fails with its message.
pub proof fn lemma_services_fail(entries: Seq<(Seq<char>, ServiceConfig)>, n: int, env: Environment)
    requires
        0 < n <= entries.len(),
        services_built(entries.take(n), env) is Err,
    ensures
        services_built(entries, env) == services_built(entries.take(n), env),
    decreases entries.len(),
{
    if n < entries.len() {
        assert(entries.drop_last().take(n) =~= entries.take(n));
        lemma_services_fail(entries.drop_last(), n, env);
    } else {
        assert(entries.take(n) =~= entries);
    }
}

/// What an operation on the services comes to: the services after it, the
/// lines it writes, and the error it ends with, if any.
pub struct Outcome {
    pub services: Seq<ServiceView>,
    pub lines: Seq<Seq<char>>,
    pub fault: Option<(ErrorKind, Seq<char>)>,
}

/// The operation fails and changes nothing.
pub open spec fn refused(services: Seq<ServiceView>, fault: NameFault) -> Outcome {
    Outcome {
        services,
        lines: Seq::empty(),
        fault: Some((ErrorKind::InvalidName, name_fault_message(fault))),
    }
}

/// Whether a result is the one that a fault asks for.
pub open spec fn agrees<T>(r: Result<T, Error>, fault: Option<(ErrorKind, Seq<char>)>) -> bool {
    match fault {
        Some((kind, message)) => r is Err && r->Err_0.describes(kind, message),
        None => r is Ok,
    }
}

/// What a start of the service `name` comes to.
pub open spec fn start_service_outcome(
    services: Seq<ServiceView>,
    forced: bool,
    name: Seq<char>,
    noexec: bool,
) -> Outcome {
    if has_service(services, name) {
        let i = service_at(services, name);
        Outcome {
            services: services.update(i, service_started(services[i], forced, noexec)),
            lines: crate::service::all_start_lines(services[i].scripts, forced, noexec),
            fault: None,
        }
    } else {
        refused(services, NameFault::ServiceNotFound)
    }
}

/// What a stop of the service `name` comes to.
pub open spec fn stop_service_outcome(services: Seq<ServiceView>, name: Seq<char>, noexec: bool) -> Outcome {
    if has_service(services, name) {
        let i = service_at(services, name);
        Outcome {
            services: services.update(i, service_stopped(services[i])),
            lines: service_stop_lines(services[i], noexec),
            fault: None,
        }
    } else {
        refused(services, NameFault::ServiceNotFound)
    }
}

/// The post-stop command that a stop of the service `name` leaves to run.
pub open spec fn stop_service_left(services: Seq<ServiceView>, name: Seq<char>, noexec: bool) -> Option<
    CommandView,
> {
    if has_service(services, name) {
        post_stop_left(services[service_at(services, name)], noexec)
    } else {
        None
    }
}

/// The services with the script at place `j` of the service at place `i`
/// replaced by `script`.
pub open spec fn with_script(services: Seq<ServiceView>, i: int, j: int, script: ScriptView) -> Seq<
    ServiceView,
> {
    services.update(i, service_with(services[i], j, script))
}

/// What a start of the script `full` comes to.
pub open spec fn start_script_outcome(
    services: Seq<ServiceView>,
    forced: bool,
    full: Seq<char>,
    noexec: bool,
) -> Outcome {
    match located(services, full) {
        Err(fault) => refused(services, fault),
        Ok((i, j)) => Outcome {
            services: with_script(
                services,
                i,
                j,
                script_started(services[i].scripts[j], forced, noexec),
            ),
            lines: start_lines(services[i].scripts[j], forced, noexec),
            fault: None,
        },
    }
}

/// What a stop of the script `full` comes to.
pub open spec fn stop_script_outcome(services: Seq<ServiceView>, full: Seq<char>) -> Outcome {
    match located(services, full) {
        Err(fault) => refused(services, fault),
        Ok((i, j)) => Outcome {
            services: with_script(services, i, j, script_stopped(services[i].scripts[j])),
            lines: seq![stop_line(services[i].scripts[j])],
            fault: None,
        },
    }
}

/// Whether the script at place `j` of the service at place `i` finds every
/// script that it waits for finished.
pub open spec fn is_ready(services: Seq<ServiceView>, i: int, j: int) -> bool {
    scripts_finished(services, services[i].scripts[j].wait_until_scripts_are_done)
}

/// What an event for the script `full` comes to.
pub open spec fn advance_outcome(services: Seq<ServiceView>, full: Seq<char>, event: Event) -> Outcome {
    match located(services, full) {
        Err(fault) => refused(services, fault),
        Ok((i, j)) => Outcome {
            services: with_script(
                services,
                i,
                j,
                script_next(services[i].scripts[j], event, is_ready(services, i, j)),
            ),
            lines: next_lines(services[i].scripts[j], event, is_ready(services, i, j)),
            fault: None,
        },
    }
}

/// What the waiter of the script `full` does after an event.
pub open spec fn advance_action(services: Seq<ServiceView>, full: Seq<char>, event: Event) -> Action {
    match located(services, full) {
        Err(fault) => Action::Done,
        Ok((i, j)) => next(
            services[i].scripts[j].state,
            event,
            is_ready(services, i, j),
            services[i].scripts[j].delay,
        ).action,
    }
}

/// What a start, without force, of each of the services `names` comes to, one
/// after the other; a name of no service is passed over.
pub open spec fn start_all_outcome(services: Seq<ServiceView>, names: Seq<Seq<char>>, noexec: bool) -> Outcome
    decreases names.len(),
{
    if names.len() == 0 {
        Outcome { services, lines: Seq::empty(), fault: None }
    } else {
        let before = start_all_outcome(services, names.drop_last(), noexec);
        let last = start_service_outcome(before.services, false, names.last(), noexec);
        Outcome { services: last.services, lines: before.lines + last.lines, fault: None }
    }
}

/// Every service after every script that needs a waiter got one.
pub open spec fn services_claimed(services: Seq<ServiceView>) -> Seq<ServiceView> {
    Seq::new(services.len(), |i: int| service_claimed(services[i]))
}

/// The full names of the scripts that need a waiter, service by service.
pub open spec fn services_unattended(services: Seq<ServiceView>) -> Seq<Seq<char>>
    decreases services.len(),
{
    if services.len() == 0 {
        Seq::empty()
    } else {
        services_unattended(services.drop_last()) + unattended_names(
            services.last().name,
            services.last().scripts,
        )
    }
}

/// The reports of the services, of all or of those named `only`.
pub open spec fn reports(services: Seq<ServiceView>, only: Option<Seq<char>>) -> Seq<Seq<char>>
    decreases services.len(),
{
    if services.len() == 0 {
        Seq::empty()
    } else if only is None || only == Some(services.last().name) {
        reports(services.drop_last(), only).push(service_report(services.last()))
    } else {
        reports(services.drop_last(), only)
    }
}

/// The report of the services, of all or of those named `only`: the reports
/// of the services, with a line feed between two of them.
pub open spec fn report(services: Seq<ServiceView>, only: Option<Seq<char>>) -> Seq<char> {
    join(reports(services, only), "\n"@)
}

/// The services of a configuration, by name.
#[derive(Debug)]
pub struct Services {
    services: Vec<Service>,
}

impl View for Services {
    type V = Seq<ServiceView>;

    closed spec fn view(&self) -> Seq<ServiceView> {
        service_views(self.services@)
    }
}

impl ScriptChecker for Services {
    open spec fn knows(&self, name: Seq<char>) -> bool {
        knows_script(self@, name)
    }

    open spec fn finished(&self, name: Seq<char>) -> bool {
        script_status(self@, name) == SCRIPT_STATUS_FINISHED
    }

    /// Whether the full name leads to a script.
    fn script_exists(&self, script_name: &String) -> (r: bool) {
        match self.locate(script_name) {
            Ok(_) => true,
            Err(_) => false,
        }
    }

    /// Whether every one of the scripts is finished; a name that leads to no
    /// script counts as not started.
    fn check_scripts(&self, scripts: &Vec<String>) -> (r: bool) {
        let r = self.all_finished(scripts);
        proof {
            if r {
                assert forall|i: int| 0 <= i < scripts.len() implies self.finished(
                    #[trigger] scripts[i]@,
                ) by {
                    assert(texts(scripts@)[i] == scripts[i]@);
                }
            }
        }
        r
    }
}

/// The error for a name of no service.
pub fn build_service_not_found_error() -> (e: Error)
    ensures
        e.describes(ErrorKind::InvalidName, "service not found"@),
{
    Error::new(ErrorKind::InvalidName, String::from_str("service not found"))
}

impl Services {
    /// The services that a configuration describes, those that are disabled
    /// left out, none of their scripts started.
    ///
    /// Fails, with a configuration error, where a service that is not disabled
    /// cannot be made, and where a script waits for a script that is not among
    /// those of the services made. Of two services of one name the later one
    /// stays.
    pub fn new(services: &Vec<(String, ServiceConfig)>, env: &Environment) -> (r: Result<
        Services,
        Error,
    >)
        ensures
            match services_described(service_entries(services@), *env) {
                Ok(v) => r is Ok && r->Ok_0@ == v,
                Err(m) => r is Err && r->Err_0.describes(ErrorKind::ConfigError, m),
            },
            r is Ok ==> services_valid(r->Ok_0@),
    {
        let ghost all = service_entries(services@);
        let mut result = Services { services: Vec::new() };
        let mut i: usize = 0;
        assert(result@ =~= Seq::<ServiceView>::empty());
        while i < services.len()
            invariant
                i <= services.len(),
                all == service_entries(services@),
                services_built(all.take(i as int), *env) == Ok::<Seq<ServiceView>, Seq<char>>(
                    result@,
                ),
            decreases services.len() - i,
        {
            proof {
                assert(all.take(i + 1).drop_last() =~= all.take(i as int));
                assert(known_scripts(&Unread) =~= Set::<Seq<char>>::full());
            }
            let disabled = match services[i].1.disabled {
                Some(d) => d,
                None => false,
            };
            if !disabled {
                match Service::new(services[i].0.clone(), &services[i].1, &Unread, env) {
                    Ok(service) => {
                        let at = result.find(service.name());
                        let ghost before = result@;
                        if at < result.services.len() {
                            result.services[at] = service;
                            assert(result@ =~= before.update(at as int, service@));
                        } else {
                            result.services.push(service);
                            assert(result@ =~= before.push(service@));
                        }
                    },
                    Err(e) => {
                        proof {
                            lemma_services_fail(all, i + 1, *env);
                        }
                        return Err(e);
                    },
                }
            }
            i += 1;
        }
        assert(all.take(services.len() as int) =~= all);
        let ghost p = has_dangling(script_set(result@));
        let mut k: usize = 0;
        while k < result.services.len()
            invariant
                k <= result.services.len(),
                all == service_entries(services@),
                services_built(all, *env) == Ok::<Seq<ServiceView>, Seq<char>>(result@),
                p == has_dangling(script_set(result@)),
                forall|j: int| 0 <= j < k ==> !p(#[trigger] result@[j]),
            decreases result.services.len() - k,
        {
            proof {
                assert(known_scripts(&result) =~= script_set(result@));
            }
            match result.services[k].dangling_script(&result) {
                Some(name) => {
                    proof {
                        lemma_first_where_is(result@, p, k as int);
                    }
                    return Err(
                        config_error(
                            "wait_until_scripts_are_done is invalid in script ",
                            name.as_str(),
                        ),
                    );
                },
                None => {},
            }
            k += 1;
        }
        proof {
            lemma_first_where_is(result@, p, k as int);
            lemma_services_described(all, *env);
        }
        Ok(result)
    }

    /// Whether every one of the scripts is finished; a name that leads to no
    /// script counts as not started.
    pub fn all_finished(&self, scripts: &Vec<String>) -> (r: bool)
        ensures
            r == scripts_finished(self@, texts(scripts@)),
    {
        let mut k: usize = 0;
        while k < scripts.len()
            invariant
                k <= scripts.len(),
                forall|i: int|
                    0 <= i < k ==> script_status(self@, #[trigger] texts(scripts@)[i])
                        == SCRIPT_STATUS_FINISHED,
            decreases scripts.len() - k,
        {
            if self.get_script_status(&scripts[k]) != SCRIPT_STATUS_FINISHED {
                assert(script_status(self@, texts(scripts@)[k as int]) != SCRIPT_STATUS_FINISHED);
                return false;
            }
            k += 1;
        }
        true
    }

    /// The names of the services, in their order.
    pub fn names(&self) -> (r: Vec<String>)
        ensures
            texts(r@) == service_names(self@),
    {
        let mut r: Vec<String> = Vec::new();
        let mut i: usize = 0;
        while i < self.services.len()
            invariant
                i <= self.services.len(),
                texts(r@) == service_names(self@).take(i as int),
            decreases self.services.len() - i,
        {
            let name = self.services[i].name().clone();
            proof {
                lemma_texts_push(r@, name);
            }
            r.push(name);
            i += 1;
        }
        r
    }

    /// The place of the service `name`, or the number of services where there
    /// is none of that name.
    fn find(&self, name: &String) -> (at: usize)
        ensures
            at == service_at(self@, name@),
            at <= self@.len(),
            at <= self.services.len(),
    {
        let mut at: usize = 0;
        while at < self.services.len()
            invariant
                at <= self.services.len(),
                forall|j: int| 0 <= j < at ==> service_names(self@)[j] != name@,
            decreases self.services.len() - at,
        {
            if *self.services[at].name() == *name {
                proof {
                    lemma_first_index_is(service_names(self@), name@, at as int);
                }
                return at;
            }
            at += 1;
        }
        proof {
            lemma_first_index_is(service_names(self@), name@, at as int);
        }
        at
    }

    /// The place of the service and the name of the script that a full name
    /// gives.
    fn script_service_at(&self, script_name: &String) -> (r: Result<(usize, String), Error>)
        ensures
            match script_service(self@, script_name@) {
                Ok((i, name)) => r is Ok && r->Ok_0.0 == i && r->Ok_0.1@ == name && i
                    < self.services.len(),
                Err(fault) => r is Err && r->Err_0.describes(
                    ErrorKind::InvalidName,
                    name_fault_message(fault),
                ),
            },
    {
        let parts = split(script_name.as_str(), '.');
        if parts.len() != 2 {
            return Err(build_invalid_script_name_error());
        }
        let at = self.find(&parts[0]);
        if at >= self.services.len() {
            return Err(build_service_not_found_error());
        }
        Ok((at, parts[1].clone()))
    }

    /// The service and the name of the script that a full name gives.
    ///
    /// Fails, with the error for an invalid name, where the name is not of the
    /// form `service.script`, and where there is no service of that name.
    pub fn get_script_service(&self, script_name: &String) -> (r: Result<(&Service, String), Error>)
        ensures
            match script_service(self@, script_name@) {
                Ok((i, name)) => r is Ok && r->Ok_0.0@ == self@[i] && r->Ok_0.1@ == name,
                Err(fault) => r is Err && r->Err_0.describes(
                    ErrorKind::InvalidName,
                    name_fault_message(fault),
                ),
            },
    {
        let (at, name) = self.script_service_at(script_name)?;
        Ok((&self.services[at], name))
    }

    /// The places of the service and of the script that a full name leads to.
    fn locate(&self, script_name: &String) -> (r: Result<(usize, String), Error>)
        ensures
            match located(self@, script_name@) {
                Ok((i, j)) => r is Ok && r->Ok_0.0 == i && i < self.services.len() && j
                    == script_at(self@[i].scripts, r->Ok_0.1@) && has_script(
                    self@[i].scripts,
                    r->Ok_0.1@,
                ),
                Err(fault) => r is Err && r->Err_0.describes(
                    ErrorKind::InvalidName,
                    name_fault_message(fault),
                ),
            },
    {
        let (at, name) = self.script_service_at(script_name)?;
        if !self.services[at].script_exists(name.clone()) {
            return Err(build_invalid_script_name_error());
        }
        Ok((at, name))
    }

    /// The status of the script that a full name leads to; not started where
    /// it leads to none.
    pub fn get_script_status(&self, script_name: &String) -> (r: usize)
        ensures
            r == script_status(self@, script_name@),
    {
        match self.script_service_at(script_name) {
            Ok((at, name)) => self.services[at].get_script_status(&name),
            Err(_) => SCRIPT_STATUS_NOT_STARTED,
        }
    }

    /// The service of this name.
    ///
    /// Fails, with the error for an invalid name, where there is none.
    pub fn find_service(&self, service_name: &String) -> (r: Result<&Service, Error>)
        ensures
            has_service(self@, service_name@) ==> r is Ok && r->Ok_0@ == self@[service_at(
                self@,
                service_name@,
            )],
            !has_service(self@, service_name@) ==> r is Err && r->Err_0.describes(
                ErrorKind::InvalidName,
                "service not found"@,
            ),
    {
        let at = self.find(service_name);
        if at < self.services.len() {
            Ok(&self.services[at])
        } else {
            Err(build_service_not_found_error())
        }
    }

    /// Succeeds where there is a service of this name.
    ///
    /// Fails, with a configuration error that gives the name, where there is
    /// none.
    pub fn check_service_name(&self, name: &String) -> (r: Result<(), Error>)
        ensures
            has_service(self@, name@) ==> r is Ok,
            !has_service(self@, name@) ==> r is Err && r->Err_0.describes(
                ErrorKind::ConfigError,
                "service does not exists: "@ + name@,
            ),
    {
        if self.find(name) < self.services.len() {
            return Ok(());
        }
        let mut message = String::from_str("service does not exists: ");
        message.append(name.as_str());
        Err(build_invalid_data_error_string(message))
    }

    /// Starts every script of the service `service_name`.
    ///
    /// Fails, with the error for an invalid name and nothing changed, where
    /// there is no service of that name.
    pub fn start_service(
        &mut self,
        forced_start: bool,
        service_name: &String,
        noexec: bool,
        writer: &mut WriterWithTCP,
    ) -> (r: Result<(), Error>)
        ensures
            final(self)@ == start_service_outcome(
                old(self)@,
                forced_start,
                service_name@,
                noexec,
            ).services,
            final(writer)@ == old(writer)@ + start_service_outcome(
                old(self)@,
                forced_start,
                service_name@,
                noexec,
            ).lines,
            agrees(
                r,
                start_service_outcome(old(self)@, forced_start, service_name@, noexec).fault,
            ),
    {
        let at = self.find(service_name);
        if at >= self.services.len() {
            return Err(build_service_not_found_error());
        }
        self.services[at].start(forced_start, noexec, writer);
        Ok(())
    }

    /// Starts the script that the full name `script_name` leads to.
    ///
    /// Fails, with the error for an invalid name and nothing changed, where
    /// the name leads to no script.
    pub fn start_script(
        &mut self,
        forced_start: bool,
        script_name: &String,
        noexec: bool,
        writer: &mut WriterWithTCP,
    ) -> (r: Result<(), Error>)
        ensures
            final(self)@ == start_script_outcome(
                old(self)@,
                forced_start,
                script_name@,
                noexec,
            ).services,
            final(writer)@ == old(writer)@ + start_script_outcome(
                old(self)@,
                forced_start,
                script_name@,
                noexec,
            ).lines,
            agrees(r, start_script_outcome(old(self)@, forced_start, script_name@, noexec).fault),
    {
        let (at, name) = self.locate(script_name)?;
        let r = self.services[at].start_script(&name, forced_start, noexec, writer);
        r
    }

    /// Asks the script that the full name `script_name` leads to to stop.
    ///
    /// Fails, with the error for an invalid name and nothing changed, where
    /// the name leads to no script.
    pub fn stop_script(&mut self, script_name: &String, writer: &mut WriterWithTCP) -> (r: Result<
        (),
        Error,
    >)
        ensures
            final(self)@ == stop_script_outcome(old(self)@, script_name@).services,
            final(writer)@ == old(writer)@ + stop_script_outcome(old(self)@, script_name@).lines,
            agrees(r, stop_script_outcome(old(self)@, script_name@).fault),
    {
        let (at, name) = self.locate(script_name)?;
        let r = self.services[at].stop_script(&name, writer);
        r
    }

    /// Asks every script of the service `service_name` to stop and turns to
    /// its post-stop command, which is returned where it is left to run.
    ///
    /// Fails, with the error for an invalid name and nothing changed, where
    /// there is no service of that name.
    pub fn stop_service(&mut self, service_name: &String, noexec: bool, writer: &mut WriterWithTCP) -> (r:
        Result<Option<CommandToRun>, Error>)
        ensures
            final(self)@ == stop_service_outcome(old(self)@, service_name@, noexec).services,
            final(writer)@ == old(writer)@ + stop_service_outcome(
                old(self)@,
                service_name@,
                noexec,
            ).lines,
            agrees(r, stop_service_outcome(old(self)@, service_name@, noexec).fault),
            r is Ok ==> opt_command(r->Ok_0) == stop_service_left(
                old(self)@,
                service_name@,
                noexec,
            ),
    {
        let at = self.find(service_name);
        if at >= self.services.len() {
            return Err(build_service_not_found_error());
        }
        let left = self.services[at].stop(noexec, writer);
        Ok(left)
    }

    /// Starts, without force, each of the services `services`, one after the
    /// other.
    pub fn start_all(&mut self, services: &Vec<String>, noexec: bool, writer: &mut WriterWithTCP)
        ensures
            final(self)@ == start_all_outcome(old(self)@, texts(services@), noexec).services,
            final(writer)@ == old(writer)@ + start_all_outcome(
                old(self)@,
                texts(services@),
                noexec,
            ).lines,
    {
        let ghost before = self@;
        let ghost lines = writer@;
        let ghost names = texts(services@);
        let mut k: usize = 0;
        while k < services.len()
            invariant
                k <= services.len(),
                names == texts(services@),
                self@ == start_all_outcome(before, names.take(k as int), noexec).services,
                writer@ == lines + start_all_outcome(before, names.take(k as int), noexec).lines,
            decreases services.len() - k,
        {
            proof {
                assert(names.take(k + 1).drop_last() =~= names.take(k as int));
            }
            let _ = self.start_service(false, &services[k], noexec, writer);
            k += 1;
        }
        assert(names.take(services.len() as int) =~= names);
    }

    /// The report of the services, of all or of the one named.
    pub fn report_status(&self, service_name: Option<&String>) -> (r: String)
        ensures
            r@ == report(
                self@,
                match service_name {
                    Some(name) => Some(name@),
                    None => None,
                },
            ),
    {
        let ghost only = match service_name {
            Some(name) => Some(name@),
            None => None,
        };
        let mut blocks: Vec<String> = Vec::new();
        let mut i: usize = 0;
        while i < self.services.len()
            invariant
                i <= self.services.len(),
                only == match service_name {
                    Some(name) => Some(name@),
                    None => None,
                },
                texts(blocks@) == reports(self@.take(i as int), only),
            decreases self.services.len() - i,
        {
            proof {
                assert(self@.take(i + 1).drop_last() =~= self@.take(i as int));
            }
            let wanted = match service_name {
                Some(name) => *self.services[i].name() == *name,
                None => true,
            };
            if wanted {
                let mut block = self.services[i].name().clone();
                block.append(":\n");
                block.append(self.services[i].get_status_string().as_str());
                proof {
                    lemma_texts_push(blocks@, block);
                }
                blocks.push(block);
            }
            i += 1;
        }
        assert(self@.take(self.services.len() as int) =~= self@);
        join_strings(&blocks, "\n")
    }

    /// Whether the wait for the services is over: whether no script is
    /// starting or running. Who waits sleeps and asks again while it is not.
    pub fn wait_finish(&self) -> (r: bool)
        ensures
            r == services_idle(self@),
    {
        let mut i: usize = 0;
        while i < self.services.len()
            invariant
                i <= self.services.len(),
                forall|j: int| 0 <= j < i ==> all_idle(#[trigger] self@[j].scripts),
            decreases self.services.len() - i,
        {
            if !self.services[i].wait_finish() {
                assert(!all_idle(self@[i as int].scripts));
                return false;
            }
            i += 1;
        }
        true
    }

    /// Takes up, for a waiter each, the scripts that need one, and gives their
    /// full names. The program starts one waiter for each name.
    pub fn claim_waiters(&mut self) -> (names: Vec<String>)
        ensures
            final(self)@ == services_claimed(old(self)@),
            texts(names@) == services_unattended(old(self)@),
    {
        let ghost before = self@;
        let mut names: Vec<String> = Vec::new();
        let n = self.services.len();
        let mut i: usize = 0;
        while i < n
            invariant
                i <= n,
                n == self.services.len(),
                n == before.len(),
                forall|j: int| 0 <= j < i ==> #[trigger] self@[j] == service_claimed(before[j]),
                forall|j: int| i <= j < n ==> #[trigger] self@[j] == before[j],
                texts(names@) == services_unattended(before.take(i as int)),
            decreases n - i,
        {
            proof {
                assert(before.take(i + 1).drop_last() =~= before.take(i as int));
            }
            let ghost now = self@;
            assert(now[i as int] == before[i as int]);
            self.services[i].claim_waiters(&mut names);
            assert(self@ =~= now.update(i as int, service_claimed(before[i as int])));
            i += 1;
        }
        assert(before.take(n as int) =~= before);
        names
    }

    /// Takes in what the waiter of the script `script_name` reports and says
    /// what it does next. Whether the scripts that the script waits for are
    /// finished is read off the services as they are now.
    ///
    /// Fails, with the error for an invalid name and nothing changed, where
    /// the name leads to no script.
    pub fn advance(&mut self, script_name: &String, event: Event, writer: &mut WriterWithTCP) -> (r:
        Result<Action, Error>)
        ensures
            final(self)@ == advance_outcome(old(self)@, script_name@, event).services,
            final(writer)@ == old(writer)@ + advance_outcome(old(self)@, script_name@, event).lines,
            agrees(r, advance_outcome(old(self)@, script_name@, event).fault),
            r is Ok ==> r->Ok_0 == advance_action(old(self)@, script_name@, event),
    {
        let ghost before = self@;
        let (at, name) = self.locate(script_name)?;
        let ready = match self.services[at].script(&name) {
            Some(script) => self.all_finished(script.wait_until_scripts_are_done()),
            None => false,
        };
        let r = self.services[at].advance(&name, event, ready, writer);
        r
    }
}

/// What the configuration says of one service set.
#[derive(Debug)]
pub struct ServiceSetConfig {
    /// The sets, declared earlier, whose members the set takes over.
    pub includes: Option<Vec<String>>,
    /// The services of the set itself.
    pub services: Option<Vec<String>>,
}

/// A service set: its name and the names of its members.
pub struct ServiceSetView {
    pub name: Seq<char>,
    /// The members, each once, in the order in which they came in.
    pub members: Seq<Seq<char>>,
}

/// What each of the sets holds.
pub open spec fn set_views(v: Seq<(String, Vec<String>)>) -> Seq<ServiceSetView> {
    Seq::new(v.len(), |i: int| ServiceSetView { name: v[i].0@, members: texts(v[i].1@) })
}

/// The names of the sets.
pub open spec fn set_names(sets: Seq<ServiceSetView>) -> Seq<Seq<char>> {
    Seq::new(sets.len(), |i: int| sets[i].name)
}

/// The place of the set `name` among the sets, or their number where there
/// is none of that name.
pub open spec fn set_at(sets: Seq<ServiceSetView>, name: Seq<char>) -> int {
    first_index(set_names(sets), name)
}

/// Whether one of the sets has the name `name`.
pub open spec fn has_set(sets: Seq<ServiceSetView>, name: Seq<char>) -> bool {
    0 <= set_at(sets, name) < sets.len()
}

/// The sets with `v` among them: in the place of the set of its name, or at
/// the end where there is none.
pub open spec fn put_set(sets: Seq<ServiceSetView>, v: ServiceSetView) -> Seq<ServiceSetView> {
    if has_set(sets, v.name) {
        sets.update(set_at(sets, v.name), v)
    } else {
        sets.push(v)
    }
}

/// The members of the sets that `includes` names, one set after the other,
/// or the message where a name is that of no set declared so far.
pub open spec fn included(includes: Seq<Seq<char>>, sets: Seq<ServiceSetView>) -> Result<
    Seq<Seq<char>>,
    Seq<char>,
>
    decreases includes.len(),
{
    if includes.len() == 0 {
        Ok(Seq::empty())
    } else {
        match included(includes.drop_last(), sets) {
            Err(m) => Err(m),
            Ok(members) => if has_set(sets, includes.last()) {
                Ok(members + sets[set_at(sets, includes.last())].members)
            } else {
                Err("invalid include service name"@)
            },
        }
    }
}

/// The place of the first of `names` that is the name of no service, or
/// their number where each is one.
pub open spec fn first_unknown(names: Seq<Seq<char>>, services: Seq<ServiceView>) -> int
    decreases names.len(),
{
    if names.len() == 0 || !has_service(services, names[0]) {
        0
    } else {
        1 + first_unknown(names.skip(1), services)
    }
}

/// The members that a set takes over from the sets it includes, or the
/// message of the failure.
pub open spec fn set_includes(set: ServiceSetConfig, sets: Seq<ServiceSetView>) -> Result<
    Seq<Seq<char>>,
    Seq<char>,
> {
    match set.includes {
        None => Ok(Seq::empty()),
        Some(list) => if list.len() == 0 {
            Err("empty include directive"@)
        } else {
            included(texts(list@), sets)
        },
    }
}

/// The members of a set, or the message of the failure: what the sets it
/// includes hold, then its own services, each once. `sets` are the sets
/// declared before it.
pub open spec fn set_described(
    set: ServiceSetConfig,
    sets: Seq<ServiceSetView>,
    services: Seq<ServiceView>,
) -> Result<Seq<Seq<char>>, Seq<char>> {
    match set_includes(set, sets) {
        Err(m) => Err(m),
        Ok(taken) => match set.services {
            None => Err("invalid services directive"@),
            Some(list) => if list.len() == 0 {
                Err("empty services directive"@)
            } else if 0 <= first_unknown(texts(list@), services) < list.len() {
                Err(
                    "service does not exists: "@ + texts(list@)[first_unknown(
                        texts(list@),
                        services,
                    )],
                )
            } else {
                Ok(crate::script::distinct(taken + texts(list@)))
            },
        },
    }
}

/// The names and configurations of a list of sets.
pub open spec fn set_entries(v: Seq<(String, ServiceSetConfig)>) -> Seq<
    (Seq<char>, ServiceSetConfig),
> {
    Seq::new(v.len(), |i: int| (v[i].0@, v[i].1))
}

/// The sets that the entries describe, in the order of their declaration, or
/// the message of the first failure.
pub open spec fn sets_described(
    entries: Seq<(Seq<char>, ServiceSetConfig)>,
    services: Seq<ServiceView>,
) -> Result<Seq<ServiceSetView>, Seq<char>>
    decreases entries.len(),
{
    if entries.len() == 0 {
        Ok(Seq::empty())
    } else {
        match sets_described(entries.drop_last(), services) {
            Err(m) => Err(m),
            Ok(sets) => match set_described(entries.last().1, sets, services) {
                Err(m) => Err(m),
                Ok(members) => Ok(
                    put_set(sets, ServiceSetView { name: entries.last().0, members }),
                ),
            },
        }
    }
}

/// Where one set fails, the list fails with its message.
pub proof fn lemma_sets_fail(
    entries: Seq<(Seq<char>, ServiceSetConfig)>,
    n: int,
    services: Seq<ServiceView>,
)
    requires
        0 < n <= entries.len(),
        sets_described(entries.take(n), services) is Err,
    ensures
        sets_described(entries, services) == sets_described(entries.take(n), services),
    decreases entries.len(),
{
    if n < entries.len() {
        assert(entries.drop_last().take(n) =~= entries.take(n));
        lemma_sets_fail(entries.drop_last(), n, services);
    } else {
        assert(entries.take(n) =~= entries);
    }
}

/// Where one include fails, the list of includes fails with its message.
pub proof fn lemma_included_fails(includes: Seq<Seq<char>>, n: int, sets: Seq<ServiceSetView>)
    requires
        0 < n <= includes.len(),
        included(includes.take(n), sets) is Err,
    ensures
        included(includes, sets) == included(includes.take(n), sets),
    decreases includes.len(),
{
    if n < includes.len() {
        assert(includes.drop_last().take(n) =~= includes.take(n));
        lemma_included_fails(includes.drop_last(), n, sets);
    } else {
        assert(includes.take(n) =~= includes);
    }
}

/// What sets that are included hold: every include names a set declared
/// so far, and a service is taken over exactly where one of those sets holds
/// it.
pub proof fn lemma_included(includes: Seq<Seq<char>>, sets: Seq<ServiceSetView>)
    requires
        included(includes, sets) is Ok,
    ensures
        forall|i: int| 0 <= i < includes.len() ==> has_set(sets, #[trigger] includes[i]),
        forall|x: Seq<char>|
            included(includes, sets)->Ok_0.contains(x) <==> exists|i: int|
                0 <= i < includes.len() && #[trigger] sets[set_at(
                    sets,
                    includes[i],
                )].members.contains(x),
    decreases includes.len(),
{
    if includes.len() > 0 {
        let before = includes.drop_last();
        let last = includes.last();
        lemma_included(before, sets);
        let taken = included(before, sets)->Ok_0;
        let own = sets[set_at(sets, last)].members;
        assert forall|i: int| 0 <= i < includes.len() implies has_set(
            sets,
            #[trigger] includes[i],
        ) by {
            if i < includes.len() - 1 {
                assert(before[i] == includes[i]);
            }
        }
        assert forall|x: Seq<char>|
            included(includes, sets)->Ok_0.contains(x) <==> exists|i: int|
                0 <= i < includes.len() && #[trigger] sets[set_at(
                    sets,
                    includes[i],
                )].members.contains(x) by {
            let all = taken + own;
            if all.contains(x) {
                let k = choose|k: int| 0 <= k < all.len() && all[k] == x;
                if k < taken.len() {
                    assert(taken[k] == x);
                    assert(taken.contains(x));
                    let i = choose|i: int|
                        0 <= i < before.len() && #[trigger] sets[set_at(
                            sets,
                            before[i],
                        )].members.contains(x);
                    assert(before[i] == includes[i]);
                    assert(sets[set_at(sets, includes[i])].members.contains(x));
                } else {
                    assert(own[k - taken.len()] == x);
                    assert(own.contains(x));
                    assert(sets[set_at(sets, includes[includes.len() - 1])].members.contains(x));
                }
            }
            if exists|i: int|
                0 <= i < includes.len() && #[trigger] sets[set_at(
                    sets,
                    includes[i],
                )].members.contains(x) {
                let i = choose|i: int|
                    0 <= i < includes.len() && #[trigger] sets[set_at(
                        sets,
                        includes[i],
                    )].members.contains(x);
                if i < includes.len() - 1 {
                    assert(before[i] == includes[i]);
                    assert(sets[set_at(sets, before[i])].members.contains(x));
                    assert(taken.contains(x));
                    let k = choose|k: int| 0 <= k < taken.len() && taken[k] == x;
                    assert(all[k] == x);
                } else {
                    let k = choose|k: int| 0 <= k < own.len() && own[k] == x;
                    assert(all[taken.len() + k] == x);
                }
            }
        }
    }
}

/// The expansion of a service set: each of its includes names a set declared
/// earlier, and its members are, each once, the members of those sets and
/// the services of its own list, and nothing else.
pub proof fn lemma_set_is_union(
    set: ServiceSetConfig,
    sets: Seq<ServiceSetView>,
    services: Seq<ServiceView>,
)
    requires
        set_described(set, sets, services) is Ok,
    ensures
        set.services is Some,
        set.includes is Some ==> forall|i: int|
            0 <= i < set.includes->Some_0.len() ==> has_set(
                sets,
                #[trigger] texts(set.includes->Some_0@)[i],
            ),
        set_described(set, sets, services)->Ok_0.no_duplicates(),
        forall|x: Seq<char>|
            set_described(set, sets, services)->Ok_0.contains(x) <==> texts(
                set.services->Some_0@,
            ).contains(x) || (set.includes is Some && exists|i: int|
                0 <= i < set.includes->Some_0.len() && #[trigger] sets[set_at(
                    sets,
                    texts(set.includes->Some_0@)[i],
                )].members.contains(x)),
{
    let own = texts(set.services->Some_0@);
    let taken = set_includes(set, sets)->Ok_0;
    crate::script::lemma_distinct(taken + own);
    if set.includes is Some {
        lemma_included(texts(set.includes->Some_0@), sets);
    }
    assert forall|x: Seq<char>|
        set_described(set, sets, services)->Ok_0.contains(x) <==> own.contains(x) || (
        set.includes is Some && exists|i: int|
            0 <= i < set.includes->Some_0.len() && #[trigger] sets[set_at(
                sets,
                texts(set.includes->Some_0@)[i],
            )].members.contains(x)) by {
        let all = taken + own;
        if all.contains(x) {
            let k = choose|k: int| 0 <= k < all.len() && all[k] == x;
            if k < taken.len() {
                assert(taken[k] == x);
                assert(taken.contains(x));
            } else {
                assert(own[k - taken.len()] == x);
            }
        }
        if own.contains(x) {
            let k = choose|k: int| 0 <= k < own.len() && own[k] == x;
            assert(all[taken.len() + k] == x);
        }
        if taken.contains(x) {
            let k = choose|k: int| 0 <= k < taken.len() && taken[k] == x;
            assert(all[k] == x);
        }
    }
}

/// A place with no service of its name, and only services before it, is
/// `first_unknown`; so is the end where every name is that of a service.
pub proof fn lemma_first_unknown_is(names: Seq<Seq<char>>, services: Seq<ServiceView>, k: int)
    requires
        0 <= k <= names.len(),
        forall|j: int| 0 <= j < k ==> has_service(services, #[trigger] names[j]),
        k < names.len() ==> !has_service(services, names[k]),
    ensures
        first_unknown(names, services) == k,
    decreases names.len(),
{
    if names.len() == 0 || !has_service(services, names[0]) {
        if k > 0 {
            assert(has_service(services, names[0]));
        }
    } else {
        let t = names.skip(1);
        assert forall|j: int| 0 <= j < k - 1 implies has_service(services, #[trigger] t[j]) by {
            assert(t[j] == names[j + 1]);
        }
        lemma_first_unknown_is(t, services, k - 1);
    }
}

/// Adds copies of the strings of `from` to `to`.
fn append_copies(to: &mut Vec<String>, from: &Vec<String>)
    ensures
        texts(final(to)@) == texts(old(to)@) + texts(from@),
{
    let ghost before = texts(to@);
    let mut i: usize = 0;
    while i < from.len()
        invariant
            i <= from.len(),
            texts(to@) == before + texts(from@).take(i as int),
        decreases from.len() - i,
    {
        let s = from[i].clone();
        proof {
            lemma_texts_push(to@, s);
        }
        to.push(s);
        i += 1;
    }
}

/// The place of the set `name`, or the number of sets where there is none of
/// that name.
fn find_set(sets: &Vec<(String, Vec<String>)>, name: &String) -> (at: usize)
    ensures
        at == set_at(set_views(sets@), name@),
        at <= sets.len(),
{
    let mut at: usize = 0;
    while at < sets.len()
        invariant
            at <= sets.len(),
            forall|j: int| 0 <= j < at ==> set_names(set_views(sets@))[j] != name@,
        decreases sets.len() - at,
    {
        if sets[at].0 == *name {
            proof {
                lemma_first_index_is(set_names(set_views(sets@)), name@, at as int);
            }
            return at;
        }
        at += 1;
    }
    proof {
        lemma_first_index_is(set_names(set_views(sets@)), name@, at as int);
    }
    at
}

/// The members of one set.
#[verifier::loop_isolation(false)]
fn build_service_set(
    set: &ServiceSetConfig,
    sets: &Vec<(String, Vec<String>)>,
    service_list: &Services,
) -> (r: Result<Vec<String>, Error>)
    ensures
        match set_described(*set, set_views(sets@), service_list@) {
            Ok(members) => r is Ok && texts(r->Ok_0@) == members,
            Err(m) => r is Err && r->Err_0.describes(ErrorKind::ConfigError, m),
        },
{
    let mut all: Vec<String> = Vec::new();
    assert(texts(all@) =~= Seq::<Seq<char>>::empty());
    if let Some(includes) = &set.includes {
        if includes.len() == 0 {
            return Err(
                build_invalid_data_error_string(String::from_str("empty include directive")),
            );
        }
        let ghost names = texts(includes@);
        let mut i: usize = 0;
        while i < includes.len()
            invariant
                i <= includes.len(),
                names == texts(includes@),
                included(names.take(i as int), set_views(sets@)) == Ok::<Seq<Seq<char>>, Seq<char>>(
                    texts(all@),
                ),
            decreases includes.len() - i,
        {
            proof {
                assert(names.take(i + 1).drop_last() =~= names.take(i as int));
            }
            let at = find_set(sets, &includes[i]);
            if at >= sets.len() {
                proof {
                    lemma_included_fails(names, i + 1, set_views(sets@));
                }
                return Err(
                    build_invalid_data_error_string(
                        String::from_str("invalid include service name"),
                    ),
                );
            }
            append_copies(&mut all, &sets[at].1);
            i += 1;
        }
        assert(names.take(includes.len() as int) =~= names);
    }
    let list = match &set.services {
        Some(list) => list,
        None => {
            return Err(
                build_invalid_data_error_string(String::from_str("invalid services directive")),
            );
        },
    };
    if list.len() == 0 {
        return Err(build_invalid_data_error_string(String::from_str("empty services directive")));
    }
    let mut k: usize = 0;
    while k < list.len()
        invariant
            k <= list.len(),
            forall|j: int| 0 <= j < k ==> has_service(service_list@, #[trigger] texts(list@)[j]),
        decreases list.len() - k,
    {
        match service_list.check_service_name(&list[k]) {
            Ok(_) => {},
            Err(e) => {
                proof {
                    lemma_first_unknown_is(texts(list@), service_list@, k as int);
                }
                return Err(e);
            },
        }
        k += 1;
    }
    proof {
        lemma_first_unknown_is(texts(list@), service_list@, list.len() as int);
    }
    append_copies(&mut all, list);
    Ok(crate::script::distinct_strings(&all))
}

/// The service sets of a configuration, expanded in the order of their
/// declaration. Of two sets of one name the later one stays.
///
/// Fails, with a configuration error, where a set has an empty list of
/// includes, includes a set that was not declared before it, has no list of
/// services or an empty one, or names a service that does not exist.
pub fn build_service_sets(service_sets: &Vec<(String, ServiceSetConfig)>, service_list: &Services) -> (r:
    Result<Vec<(String, Vec<String>)>, Error>)
    ensures
        match sets_described(set_entries(service_sets@), service_list@) {
            Ok(sets) => r is Ok && set_views(r->Ok_0@) == sets,
            Err(m) => r is Err && r->Err_0.describes(ErrorKind::ConfigError, m),
        },
        r is Ok ==> sets_valid(set_views(r->Ok_0@), service_list@),
{
    let ghost all = set_entries(service_sets@);
    let mut result: Vec<(String, Vec<String>)> = Vec::new();
    let mut i: usize = 0;
    assert(set_views(result@) =~= Seq::<ServiceSetView>::empty());
    while i < service_sets.len()
        invariant
            i <= service_sets.len(),
            all == set_entries(service_sets@),
            sets_described(all.take(i as int), service_list@) == Ok::<
                Seq<ServiceSetView>,
                Seq<char>,
            >(set_views(result@)),
        decreases service_sets.len() - i,
    {
        proof {
            assert(all.take(i + 1).drop_last() =~= all.take(i as int));
        }
        match build_service_set(&service_sets[i].1, &result, service_list) {
            Ok(members) => {
                let name = service_sets[i].0.clone();
                let at = find_set(&result, &name);
                let ghost before = set_views(result@);
                let ghost v = ServiceSetView { name: name@, members: texts(members@) };
                if at < result.len() {
                    result[at] = (name, members);
                    assert(set_views(result@) =~= before.update(at as int, v));
                } else {
                    result.push((name, members));
                    assert(set_views(result@) =~= before.push(v));
                }
            },
            Err(e) => {
                proof {
                    lemma_sets_fail(all, i + 1, service_list@);
                }
                return Err(e);
            },
        }
        i += 1;
    }
    assert(all.take(service_sets.len() as int) =~= all);
    proof {
        lemma_sets_described(all, service_list@);
    }
    Ok(result)
}

/// What a manager holds.
pub struct ManagerView {
    /// The service sets, expanded.
    pub service_sets: Seq<ServiceSetView>,
    /// The services that are not disabled.
    pub services: Seq<ServiceView>,
    /// The command to run when the daemon boots.
    pub init_command: Option<CommandView>,
    /// The command to run when the daemon shuts down.
    pub shutdown_command: Option<CommandView>,
}

/// The descriptor of an optional command line, or the message of the failure.
pub open spec fn command_described(command: Option<Seq<char>>, env: Environment) -> Result<
    Option<CommandView>,
    Seq<char>,
> {
    match command {
        None => Ok(None),
        Some(c) => match described(c, None, None, None, None, env) {
            Ok(v) => Ok(Some(v)),
            Err(m) => Err(m),
        },
    }
}

/// The manager that a configuration describes, or the message of the
/// failure.
pub open spec fn manager_described(
    service_sets: Seq<(Seq<char>, ServiceSetConfig)>,
    services: Seq<(Seq<char>, ServiceConfig)>,
    init_cmd: Option<Seq<char>>,
    shutdown_cmd: Option<Seq<char>>,
    env: Environment,
) -> Result<ManagerView, Seq<char>> {
    match services_described(services, env) {
        Err(m) => Err(m),
        Ok(services) => match command_described(init_cmd, env) {
            Err(m) => Err(m),
            Ok(init_command) => match command_described(shutdown_cmd, env) {
                Err(m) => Err(m),
                Ok(shutdown_command) => match sets_described(service_sets, services) {
                    Err(m) => Err(m),
                    Ok(service_sets) => Ok(
                        ManagerView { service_sets, services, init_command, shutdown_command },
                    ),
                },
            },
        },
    }
}

/// What a configuration file holds.
#[derive(Debug)]
pub struct Configuration {
    /// The services by name, in the order of the file; none where the file
    /// holds no mapping of services.
    pub services: Option<Vec<(String, ServiceConfig)>>,
    /// The service sets by name, in the order of the file; none where the
    /// file holds no mapping of service sets.
    pub service_sets: Option<Vec<(String, ServiceSetConfig)>>,
    /// The command to run when the daemon boots.
    pub init_command: Option<String>,
    /// The command to run when the daemon shuts down.
    pub shutdown_command: Option<String>,
}

/// The message for a configuration without services or without service sets.
pub open spec fn nothing_to_run() -> Seq<char> {
    "could not find any service"@
}

/// The manager that a configuration file describes, or the message of the
/// failure. With `noinit` the commands of boot and shutdown are left out.
pub open spec fn configured(config: Configuration, noinit: bool, env: Environment) -> Result<
    ManagerView,
    Seq<char>,
> {
    match (config.services, config.service_sets) {
        (Some(services), Some(service_sets)) => manager_described(
            set_entries(service_sets@),
            service_entries(services@),
            if noinit {
                None
            } else {
                opt_text(config.init_command)
            },
            if noinit {
                None
            } else {
                opt_text(config.shutdown_command)
            },
            env,
        ),
        _ => Err(nothing_to_run()),
    }
}

/// What a start of the set `name` comes to: its members are started, without
/// force, one after the other.
pub open spec fn up_outcome(m: ManagerView, name: Seq<char>, noexec: bool) -> Outcome {
    if has_set(m.service_sets, name) {
        start_all_outcome(m.services, m.service_sets[set_at(m.service_sets, name)].members, noexec)
    } else {
        Outcome {
            services: m.services,
            lines: Seq::empty(),
            fault: Some((ErrorKind::InvalidName, "invalid service set name"@)),
        }
    }
}

/// The manager: the services, the service sets, and the commands of boot and
/// shutdown.
#[derive(Debug)]
pub struct ServiceManager {
    service_sets: Vec<(String, Vec<String>)>,
    services: Services,
    init_command: Option<CommandToRun>,
    shutdown_command: Option<CommandToRun>,
}

impl View for ServiceManager {
    type V = ManagerView;

    closed spec fn view(&self) -> ManagerView {
        ManagerView {
            service_sets: set_views(self.service_sets@),
            services: self.services@,
            init_command: opt_command(self.init_command),
            shutdown_command: opt_command(self.shutdown_command),
        }
    }
}

impl ServiceManager {
    /// The manager that a configuration describes: first the services, then
    /// the two commands, then the service sets. Nothing is started and nothing
    /// is run.
    ///
    /// Fails, with a configuration error, where one of them cannot be made.
    pub fn new(
        service_sets: &Vec<(String, ServiceSetConfig)>,
        services: &Vec<(String, ServiceConfig)>,
        init_cmd: Option<String>,
        shutdown_cmd: Option<String>,
        env: &Environment,
    ) -> (r: Result<ServiceManager, Error>)
        ensures
            match manager_described(
                set_entries(service_sets@),
                service_entries(services@),
                opt_text(init_cmd),
                opt_text(shutdown_cmd),
                *env,
            ) {
                Ok(v) => r is Ok && r->Ok_0@ == v,
                Err(m) => r is Err && r->Err_0.describes(ErrorKind::ConfigError, m),
            },
            r is Ok ==> manager_valid(r->Ok_0@),
    {
        let services = Services::new(services, env)?;
        let init_command = match init_cmd {
            Some(cmd) => Some(CommandToRun::new(cmd, None, None, None, None, env)?),
            None => None,
        };
        let shutdown_command = match shutdown_cmd {
            Some(cmd) => Some(CommandToRun::new(cmd, None, None, None, None, env)?),
            None => None,
        };
        let service_sets = build_service_sets(service_sets, &services)?;
        Ok(ServiceManager { service_sets, services, init_command, shutdown_command })
    }

    /// The manager that a configuration file describes. With `noinit` the
    /// commands of boot and shutdown are left out.
    ///
    /// Fails, with a configuration error, where the file holds no services or
    /// no service sets, and where the manager cannot be made of them.
    pub fn load(config: &Configuration, noinit: bool, env: &Environment) -> (r: Result<
        ServiceManager,
        Error,
    >)
        ensures
            match configured(*config, noinit, *env) {
                Ok(v) => r is Ok && r->Ok_0@ == v,
                Err(m) => r is Err && r->Err_0.describes(ErrorKind::ConfigError, m),
            },
            r is Ok ==> manager_valid(r->Ok_0@),
    {
        let services = match &config.services {
            Some(services) => services,
            None => {
                return Err(
                    build_invalid_data_error_string(String::from_str("could not find any service")),
                );
            },
        };
        let service_sets = match &config.service_sets {
            Some(service_sets) => service_sets,
            None => {
                return Err(
                    build_invalid_data_error_string(String::from_str("could not find any service")),
                );
            },
        };
        let init_command = match &config.init_command {
            Some(c) => if noinit {
                None
            } else {
                Some(c.clone())
            },
            None => None,
        };
        let shutdown_command = match &config.shutdown_command {
            Some(c) => if noinit {
                None
            } else {
                Some(c.clone())
            },
            None => None,
        };
        ServiceManager::new(service_sets, services, init_command, shutdown_command, env)
    }

    /// Starts, without force, the services of the set `service_set_name`, one
    /// after the other.
    ///
    /// Fails, with the error for an invalid name and nothing changed, where
    /// there is no set of that name.
    pub fn up(&mut self, service_set_name: &String, noexec: bool, writer: &mut WriterWithTCP) -> (r:
        Result<(), Error>)
        ensures
            final(self)@ == (ManagerView {
                services: up_outcome(old(self)@, service_set_name@, noexec).services,
                ..old(self)@
            }),
            final(writer)@ == old(writer)@ + up_outcome(old(self)@, service_set_name@, noexec).lines,
            agrees(r, up_outcome(old(self)@, service_set_name@, noexec).fault),
            manager_valid(old(self)@) ==> manager_valid(final(self)@),
    {
        proof {
            if manager_valid(self@) {
                lemma_operations_keep_valid(self@, service_set_name@, Event::Tick, false, noexec);
            }
        }
        let at = find_set(&self.service_sets, service_set_name);
        if at >= self.service_sets.len() {
            return Err(
                Error::new(ErrorKind::InvalidName, String::from_str("invalid service set name")),
            );
        }
        self.services.start_all(&self.service_sets[at].1, noexec, writer);
        Ok(())
    }

    /// Starts every script of the service `service_name`.
    ///
    /// Fails, with the error for an invalid name and nothing changed, where
    /// there is no service of that name.
    pub fn start_service(
        &mut self,
        forced_start: bool,
        service_name: &String,
        noexec: bool,
        writer: &mut WriterWithTCP,
    ) -> (r: Result<(), Error>)
        ensures
            final(self)@ == (ManagerView {
                services: start_service_outcome(
                    old(self)@.services,
                    forced_start,
                    service_name@,
                    noexec,
                ).services,
                ..old(self)@
            }),
            final(writer)@ == old(writer)@ + start_service_outcome(
                old(self)@.services,
                forced_start,
                service_name@,
                noexec,
            ).lines,
            agrees(
                r,
                start_service_outcome(
                    old(self)@.services,
                    forced_start,
                    service_name@,
                    noexec,
                ).fault,
            ),
            manager_valid(old(self)@) ==> manager_valid(final(self)@),
    {
        proof {
            if manager_valid(self@) {
                lemma_operations_keep_valid(self@, service_name@, Event::Tick, forced_start, noexec);
            }
        }
        self.services.start_service(forced_start, service_name, noexec, writer)
    }

    /// Asks every script of the service `service_name` to stop and turns to
    /// its post-stop command, which is returned where it is left to run.
    ///
    /// Fails, with the error for an invalid name and nothing changed, where
    /// there is no service of that name.
    pub fn stop_service(&mut self, service_name: &String, noexec: bool, writer: &mut WriterWithTCP) -> (r:
        Result<Option<CommandToRun>, Error>)
        ensures
            final(self)@ == (ManagerView {
                services: stop_service_outcome(
                    old(self)@.services,
                    service_name@,
                    noexec,
                ).services,
                ..old(self)@
            }),
            final(writer)@ == old(writer)@ + stop_service_outcome(
                old(self)@.services,
                service_name@,
                noexec,
            ).lines,
            agrees(r, stop_service_outcome(old(self)@.services, service_name@, noexec).fault),
            r is Ok ==> opt_command(r->Ok_0) == stop_service_left(
                old(self)@.services,
                service_name@,
                noexec,
            ),
            manager_valid(old(self)@) ==> manager_valid(final(self)@),
    {
        proof {
            if manager_valid(self@) {
                lemma_operations_keep_valid(self@, service_name@, Event::Tick, false, noexec);
            }
        }
        self.services.stop_service(service_name, noexec, writer)
    }

    /// Starts the script that the full name `script_name` leads to.
    ///
    /// Fails, with the error for an invalid name and nothing changed, where
    /// the name leads to no script.
    pub fn start_script(
        &mut self,
        forced_start: bool,
        script_name: &String,
        noexec: bool,
        writer: &mut WriterWithTCP,
    ) -> (r: Result<(), Error>)
        ensures
            final(self)@ == (ManagerView {
                services: start_script_outcome(
                    old(self)@.services,
                    forced_start,
                    script_name@,
                    noexec,
                ).services,
                ..old(self)@
            }),
            final(writer)@ == old(writer)@ + start_script_outcome(
                old(self)@.services,
                forced_start,
                script_name@,
                noexec,
            ).lines,
            agrees(
                r,
                start_script_outcome(old(self)@.services, forced_start, script_name@, noexec).fault,
            ),
            manager_valid(old(self)@) ==> manager_valid(final(self)@),
    {
        proof {
            if manager_valid(self@) {
                lemma_operations_keep_valid(self@, script_name@, Event::Tick, forced_start, noexec);
            }
        }
        self.services.start_script(forced_start, script_name, noexec, writer)
    }

    /// Asks the script that the full name `script_name` leads to to stop.
    ///
    /// Fails, with the error for an invalid name and nothing changed, where
    /// the name leads to no script.
    pub fn stop_script(&mut self, script_name: &String, writer: &mut WriterWithTCP) -> (r: Result<
        (),
        Error,
    >)
        ensures
            final(self)@ == (ManagerView {
                services: stop_script_outcome(old(self)@.services, script_name@).services,
                ..old(self)@
            }),
            final(writer)@ == old(writer)@ + stop_script_outcome(
                old(self)@.services,
                script_name@,
            ).lines,
            agrees(r, stop_script_outcome(old(self)@.services, script_name@).fault),
            manager_valid(old(self)@) ==> manager_valid(final(self)@),
    {
        proof {
            if manager_valid(self@) {
                lemma_operations_keep_valid(self@, script_name@, Event::Tick, false, false);
            }
        }
        self.services.stop_script(script_name, writer)
    }

    /// The report of the services, of all or of the one named.
    pub fn report_status(&self, service_name: Option<&String>) -> (r: String)
        ensures
            r@ == report(
                self@.services,
                match service_name {
                    Some(name) => Some(name@),
                    None => None,
                },
            ),
    {
        self.services.report_status(service_name)
    }

    /// Whether the wait for the services is over: whether no script is
    /// starting or running.
    pub fn wait_finish(&self) -> (r: bool)
        ensures
            r == services_idle(self@.services),
    {
        self.services.wait_finish()
    }

    /// Takes up, for a waiter each, the scripts that need one, and gives their
    /// full names. The program starts one waiter for each name.
    pub fn claim_waiters(&mut self) -> (names: Vec<String>)
        ensures
            final(self)@ == (ManagerView {
                services: services_claimed(old(self)@.services),
                ..old(self)@
            }),
            texts(names@) == services_unattended(old(self)@.services),
            manager_valid(old(self)@) ==> manager_valid(final(self)@),
    {
        proof {
            if manager_valid(self@) {
                lemma_operations_keep_valid(self@, Seq::empty(), Event::Tick, false, false);
            }
        }
        self.services.claim_waiters()
    }

    /// Takes in what the waiter of the script `script_name` reports and says
    /// what it does next.
    ///
    /// Fails, with the error for an invalid name and nothing changed, where
    /// the name leads to no script.
    pub fn advance(&mut self, script_name: &String, event: Event, writer: &mut WriterWithTCP) -> (r:
        Result<Action, Error>)
        ensures
            final(self)@ == (ManagerView {
                services: advance_outcome(old(self)@.services, script_name@, event).services,
                ..old(self)@
            }),
            final(writer)@ == old(writer)@ + advance_outcome(
                old(self)@.services,
                script_name@,
                event,
            ).lines,
            agrees(r, advance_outcome(old(self)@.services, script_name@, event).fault),
            r is Ok ==> r->Ok_0 == advance_action(old(self)@.services, script_name@, event),
            manager_valid(old(self)@) ==> manager_valid(final(self)@),
    {
        proof {
            if manager_valid(self@) {
                lemma_operations_keep_valid(self@, script_name@, event, false, false);
            }
        }
        self.services.advance(script_name, event, writer)
    }

    /// The services.
    pub fn services(&self) -> (r: &Services)
        ensures
            r@ == self@.services,
    {
        &self.services
    }

    /// The command to run when the daemon boots.
    pub fn init_command(&self) -> (r: &Option<CommandToRun>)
        ensures
            opt_command(*r) == self@.init_command,
    {
        &self.init_command
    }

    /// The command to run when the daemon shuts down.
    pub fn shutdown_command(&self) -> (r: &Option<CommandToRun>)
        ensures
            opt_command(*r) == self@.shutdown_command,
    {
        &self.shutdown_command
    }

    /// The names of the services, in their order.
    pub fn service_names(&self) -> (r: Vec<String>)
        ensures
            texts(r@) == service_names(self@.services),
    {
        self.services.names()
    }
}

/// Whether status and phase agree in every script.
pub open spec fn services_well_formed(services: Seq<ServiceView>) -> bool {
    forall|i: int, j: int|
        0 <= i < services.len() && 0 <= j < services[i].scripts.len() ==> well_formed(
            #[trigger] services[i].scripts[j].state,
        )
}

/// Status and phase agree in every script after every operation on the
/// services, where they agreed before it.
pub proof fn lemma_operations_keep_well_formed(
    services: Seq<ServiceView>,
    name: Seq<char>,
    event: Event,
    forced: bool,
    noexec: bool,
)
    requires
        services_well_formed(services),
    ensures
        services_well_formed(start_service_outcome(services, forced, name, noexec).services),
        services_well_formed(stop_service_outcome(services, name, noexec).services),
        services_well_formed(start_script_outcome(services, forced, name, noexec).services),
        services_well_formed(stop_script_outcome(services, name).services),
        services_well_formed(advance_outcome(services, name, event).services),
        services_well_formed(services_claimed(services)),
{
    assert forall|i: int, j: int|
        0 <= i < services.len() && 0 <= j < services[i].scripts.len() implies well_formed(
        started(services[i].scripts[j].state, forced, noexec, services[i].scripts[j].delay).state,
    ) && well_formed(stopped(services[i].scripts[j].state)) && well_formed(
        claimed(services[i].scripts[j].state),
    ) by {
        lemma_well_formed_is_kept(
            services[i].scripts[j].state,
            event,
            true,
            forced,
            noexec,
            services[i].scripts[j].delay,
        );
    }
    if located(services, name) is Ok {
        let i = located(services, name)->Ok_0.0;
        let j = located(services, name)->Ok_0.1;
        lemma_well_formed_is_kept(
            services[i].scripts[j].state,
            event,
            is_ready(services, i, j),
            forced,
            noexec,
            services[i].scripts[j].delay,
        );
    }
}

/// Status and phase agree in every script after a start of several services.
pub proof fn lemma_start_all_keeps_well_formed(
    services: Seq<ServiceView>,
    names: Seq<Seq<char>>,
    noexec: bool,
)
    requires
        services_well_formed(services),
    ensures
        services_well_formed(start_all_outcome(services, names, noexec).services),
    decreases names.len(),
{
    if names.len() > 0 {
        lemma_start_all_keeps_well_formed(services, names.drop_last(), noexec);
        lemma_operations_keep_well_formed(
            start_all_outcome(services, names.drop_last(), noexec).services,
            names.last(),
            Event::Tick,
            false,
            noexec,
        );
    }
}

/// A script at rest stays at rest until it is started: where no script is
/// starting or running, a stop of a script or of a service, a claim and an
/// event change nothing.
pub proof fn lemma_idle_services_stay(
    services: Seq<ServiceView>,
    name: Seq<char>,
    event: Event,
    noexec: bool,
)
    requires
        services_well_formed(services),
        services_idle(services),
    ensures
        stop_service_outcome(services, name, noexec).services == services,
        stop_script_outcome(services, name).services == services,
        advance_outcome(services, name, event).services == services,
        advance_action(services, name, event) == Action::Done,
        services_claimed(services) == services,
{
    assert forall|i: int, j: int|
        0 <= i < services.len() && 0 <= j < services[i].scripts.len() implies stopped(
        #[trigger] services[i].scripts[j].state,
    ) == services[i].scripts[j].state && claimed(services[i].scripts[j].state)
        == services[i].scripts[j].state by {
        assert(all_idle(services[i].scripts));
        lemma_idle_stays_idle(
            services[i].scripts[j].state,
            event,
            true,
            services[i].scripts[j].delay,
        );
    }
    assert forall|i: int| 0 <= i < services.len() implies service_stopped(services[i])
        == services[i] && service_claimed(services[i]) == services[i] by {
        assert(service_stopped(services[i]).scripts =~= services[i].scripts);
        assert(service_claimed(services[i]).scripts =~= services[i].scripts);
    }
    assert(stop_service_outcome(services, name, noexec).services =~= services);
    assert(services_claimed(services) =~= services);
    if located(services, name) is Ok {
        let i = located(services, name)->Ok_0.0;
        let j = located(services, name)->Ok_0.1;
        assert(all_idle(services[i].scripts));
        lemma_idle_stays_idle(
            services[i].scripts[j].state,
            event,
            is_ready(services, i, j),
            services[i].scripts[j].delay,
        );
        assert(services[i].scripts.update(j, services[i].scripts[j]) =~= services[i].scripts);
        assert(services.update(i, services[i]) =~= services);
    }
}

/// A stop on a script that is neither starting nor running changes nothing,
/// however often it is asked for.
pub proof fn lemma_stop_at_rest_changes_nothing(services: Seq<ServiceView>, full: Seq<char>)
    requires
        located(services, full) is Ok,
        !is_active(script_status(services, full)),
    ensures
        stop_script_outcome(services, full).services == services,
        stop_script_outcome(services, full).fault is None,
{
    let i = located(services, full)->Ok_0.0;
    let j = located(services, full)->Ok_0.1;
    assert(services[i].scripts.update(j, services[i].scripts[j]) =~= services[i].scripts);
    assert(services.update(i, services[i]) =~= services);
}

/// A script passes its dependencies only in a step at which every script
/// that it waits for is finished: there is no way past them, for a script
/// that was started without force, but through an event that finds them so.
pub proof fn lemma_dependencies_hold_the_script(
    services: Seq<ServiceView>,
    full: Seq<char>,
    event: Event,
)
    requires
        services_well_formed(services),
        located(services, full) is Ok,
    ensures
        ({
            let i = located(services, full)->Ok_0.0;
            let j = located(services, full)->Ok_0.1;
            let before = services[i].scripts[j];
            let after = advance_outcome(services, full, event).services[i].scripts[j];
            &&& after == script_next(before, event, is_ready(services, i, j))
            &&& !past_dependencies(before.state.phase) && past_dependencies(after.state.phase)
                ==> scripts_finished(services, before.wait_until_scripts_are_done)
            &&& after.state.status == SCRIPT_STATUS_RUNNING ==> past_dependencies(
                before.state.phase,
            )
        }),
{
    let i = located(services, full)->Ok_0.0;
    let j = located(services, full)->Ok_0.1;
    lemma_runs_after_dependencies(
        services[i].scripts[j].state,
        event,
        is_ready(services, i, j),
        false,
        services[i].scripts[j].delay,
    );
}

/// Whether the names of the services are distinct, and each has a script,
/// scripts of distinct names, and status and phase in agreement.
pub open spec fn services_shaped(services: Seq<ServiceView>) -> bool {
    &&& service_names(services).no_duplicates()
    &&& forall|i: int| 0 <= i < services.len() ==> service_well_formed(#[trigger] services[i])
}

/// Whether the services are as they must be: their names are distinct, each
/// has a script, scripts of distinct names, and status and phase in
/// agreement, and every script waits only for scripts that exist.
pub open spec fn services_valid(services: Seq<ServiceView>) -> bool {
    services_shaped(services) && dependencies_exist(services)
}

/// Whether the sets are as they must be: their names are distinct, and the
/// members of each are distinct names of services.
pub open spec fn sets_valid(sets: Seq<ServiceSetView>, services: Seq<ServiceView>) -> bool {
    &&& set_names(sets).no_duplicates()
    &&& forall|i: int| 0 <= i < sets.len() ==> set_valid(#[trigger] sets[i], services)
}

/// Whether the members of a set are distinct names of services.
pub open spec fn set_valid(set: ServiceSetView, services: Seq<ServiceView>) -> bool {
    &&& set.members.no_duplicates()
    &&& forall|j: int| 0 <= j < set.members.len() ==> has_service(services, #[trigger] set.members[j])
}

/// Whether a manager is as it must be.
pub open spec fn manager_valid(m: ManagerView) -> bool {
    services_valid(m.services) && sets_valid(m.service_sets, m.services)
}

/// Whether `b` differs from `a` in nothing but the status, the phase and the
/// interrupt of scripts.
pub open spec fn same_but_states(a: Seq<ServiceView>, b: Seq<ServiceView>) -> bool {
    &&& a.len() == b.len()
    &&& forall|i: int|
        0 <= i < a.len() ==> (#[trigger] b[i]).name == a[i].name && b[i].post_stop_script
            == a[i].post_stop_script && b[i].scripts.len() == a[i].scripts.len()
    &&& forall|i: int, j: int|
        0 <= i < a.len() && 0 <= j < a[i].scripts.len() ==> (#[trigger] b[i].scripts[j])
            == (ScriptView { state: b[i].scripts[j].state, ..a[i].scripts[j] })
}

/// Services that differ in nothing but the states of scripts have the same
/// names, of services and of scripts.
pub proof fn lemma_same_names(a: Seq<ServiceView>, b: Seq<ServiceView>)
    requires
        same_but_states(a, b),
    ensures
        service_names(b) == service_names(a),
        forall|i: int|
            0 <= i < a.len() ==> crate::service::script_names(#[trigger] b[i].scripts)
                == crate::service::script_names(a[i].scripts),
{
    assert(service_names(b) =~= service_names(a));
    assert forall|i: int| 0 <= i < a.len() implies crate::service::script_names(
        #[trigger] b[i].scripts,
    ) == crate::service::script_names(a[i].scripts) by {
        assert forall|j: int| 0 <= j < a[i].scripts.len() implies b[i].scripts[j].name
            == a[i].scripts[j].name by {
            assert(b[i].scripts[j] == (ScriptView {
                state: b[i].scripts[j].state,
                ..a[i].scripts[j]
            }));
        }
        assert(crate::service::script_names(b[i].scripts) =~= crate::service::script_names(
            a[i].scripts,
        ));
    }
}

/// No operation on the services changes anything but the states of scripts:
/// the services, the scripts, their names and what they launch and wait for
/// stay what the configuration made them.
pub proof fn lemma_operations_change_states_only(
    services: Seq<ServiceView>,
    name: Seq<char>,
    event: Event,
    forced: bool,
    noexec: bool,
)
    ensures
        same_but_states(services, start_service_outcome(services, forced, name, noexec).services),
        same_but_states(services, stop_service_outcome(services, name, noexec).services),
        same_but_states(services, start_script_outcome(services, forced, name, noexec).services),
        same_but_states(services, stop_script_outcome(services, name).services),
        same_but_states(services, advance_outcome(services, name, event).services),
        same_but_states(services, services_claimed(services)),
{
}

/// A start of several services changes nothing but the states of scripts.
pub proof fn lemma_start_all_changes_states_only(
    services: Seq<ServiceView>,
    names: Seq<Seq<char>>,
    noexec: bool,
)
    ensures
        same_but_states(services, start_all_outcome(services, names, noexec).services),
    decreases names.len(),
{
    if names.len() > 0 {
        let before = start_all_outcome(services, names.drop_last(), noexec).services;
        lemma_start_all_changes_states_only(services, names.drop_last(), noexec);
        lemma_operations_change_states_only(before, names.last(), Event::Tick, false, noexec);
        let after = start_all_outcome(services, names, noexec).services;
        assert forall|i: int, j: int|
            0 <= i < services.len() && 0 <= j < services[i].scripts.len() implies (
        #[trigger] after[i].scripts[j]) == (ScriptView {
            state: after[i].scripts[j].state,
            ..services[i].scripts[j]
        }) by {
            assert(before[i].scripts[j] == (ScriptView {
                state: before[i].scripts[j].state,
                ..services[i].scripts[j]
            }));
            assert(after[i].scripts[j] == (ScriptView {
                state: after[i].scripts[j].state,
                ..before[i].scripts[j]
            }));
        }
    }
}

/// Putting a service among services of distinct names leaves the names
/// distinct.
pub proof fn lemma_put_service_keeps_valid(services: Seq<ServiceView>, v: ServiceView)
    requires
        services_shaped(services),
        service_well_formed(v),
    ensures
        services_shaped(put_service(services, v)),
{
    let names = service_names(services);
    crate::text::lemma_first_index_absent(names, v.name);
    crate::text::lemma_first_index(names, v.name);
    let after = service_names(put_service(services, v));
    if has_service(services, v.name) {
        assert(after =~= names);
    } else {
        assert(after =~= names.push(v.name));
        assert forall|i: int, j: int| 0 <= i < after.len() && 0 <= j < after.len() && i
            != j implies after[i] != after[j] by {
            if i == names.len() {
                assert(names.contains(names[j]));
            } else if j == names.len() {
                assert(names.contains(names[i]));
            }
        }
    }
}

/// The services that are made of a configuration have distinct names, and
/// each has a script, scripts of distinct names, and status and phase in
/// agreement.
pub proof fn lemma_services_built(entries: Seq<(Seq<char>, ServiceConfig)>, env: Environment)
    requires
        services_built(entries, env) is Ok,
    ensures
        services_shaped(services_built(entries, env)->Ok_0),
    decreases entries.len(),
{
    if entries.len() > 0 {
        lemma_services_built(entries.drop_last(), env);
        let before = services_built(entries.drop_last(), env)->Ok_0;
        if !is_disabled(entries.last().1) {
            let service = entries.last().1;
            let v = service_described(entries.last().0, service, Set::full(), env)->Ok_0;
            crate::service::lemma_scripts_described(
                crate::service::script_entries(service.scripts->Some_0@),
                Set::full(),
                env,
            );
            lemma_put_service_keeps_valid(before, v);
        }
    }
}

/// The services that a configuration describes are as they must be: among
/// them, every script waits only for scripts that exist.
pub proof fn lemma_services_described(entries: Seq<(Seq<char>, ServiceConfig)>, env: Environment)
    requires
        services_described(entries, env) is Ok,
    ensures
        services_valid(services_described(entries, env)->Ok_0),
{
    reveal(dependencies_exist);
    let services = services_built(entries, env)->Ok_0;
    let known = script_set(services);
    lemma_services_built(entries, env);
    lemma_first_where(services, has_dangling(known));
    assert forall|i: int, j: int|
        0 <= i < services.len() && 0 <= j < services[i].scripts.len() implies all_known(
        known,
        (#[trigger] services[i].scripts[j]).wait_until_scripts_are_done,
    ) by {
        assert(!has_dangling(known)(services[i]));
        lemma_first_where(services[i].scripts, is_dangling(known));
        assert(!is_dangling(known)(services[i].scripts[j]));
    }
}

/// Services that differ in nothing but the states of scripts have the same
/// scripts by name: a full name leads to a script of the ones exactly where
/// it leads to a script of the others.
pub proof fn lemma_same_scripts(a: Seq<ServiceView>, b: Seq<ServiceView>)
    requires
        same_but_states(a, b),
    ensures
        script_set(b) == script_set(a),
        dependencies_exist(a) ==> dependencies_exist(b),
{
    reveal(dependencies_exist);
    lemma_same_names(a, b);
    assert forall|full: Seq<char>| knows_script(b, full) == knows_script(a, full) by {
        if script_service(a, full) is Ok {
            let i = script_service(a, full)->Ok_0.0;
            assert(crate::service::script_names(b[i].scripts) == crate::service::script_names(
                a[i].scripts,
            ));
        }
    }
    assert(script_set(b) =~= script_set(a));
    if dependencies_exist(a) {
        assert forall|i: int, j: int|
            0 <= i < b.len() && 0 <= j < b[i].scripts.len() implies all_known(
            script_set(b),
            (#[trigger] b[i].scripts[j]).wait_until_scripts_are_done,
        ) by {
            assert(b[i].scripts[j] == (ScriptView {
                state: b[i].scripts[j].state,
                ..a[i].scripts[j]
            }));
            assert(all_known(script_set(a), a[i].scripts[j].wait_until_scripts_are_done));
        }
    }
}

/// `first_unknown` is the least place whose name is that of no service.
pub proof fn lemma_first_unknown(names: Seq<Seq<char>>, services: Seq<ServiceView>)
    ensures
        0 <= first_unknown(names, services) <= names.len(),
        forall|j: int|
            0 <= j < first_unknown(names, services) ==> has_service(services, #[trigger] names[j]),
    decreases names.len(),
{
    if names.len() == 0 || !has_service(services, names[0]) {
    } else {
        let t = names.skip(1);
        lemma_first_unknown(t, services);
        assert forall|j: int| 0 <= j < first_unknown(names, services) implies has_service(
            services,
            #[trigger] names[j],
        ) by {
            if j > 0 {
                assert(names[j] == t[j - 1]);
            }
        }
    }
}

/// The members of a set that could be made are distinct names of services,
/// where those of the sets declared before it are.
pub proof fn lemma_set_described_valid(
    name: Seq<char>,
    set: ServiceSetConfig,
    sets: Seq<ServiceSetView>,
    services: Seq<ServiceView>,
)
    requires
        sets_valid(sets, services),
        set_described(set, sets, services) is Ok,
    ensures
        set_valid(
            ServiceSetView { name, members: set_described(set, sets, services)->Ok_0 },
            services,
        ),
{
    let members = set_described(set, sets, services)->Ok_0;
    let own = texts(set.services->Some_0@);
    lemma_set_is_union(set, sets, services);
    lemma_first_unknown(own, services);
    assert forall|j: int| 0 <= j < members.len() implies has_service(
        services,
        #[trigger] members[j],
    ) by {
        let x = members[j];
        assert(members.contains(x));
        if own.contains(x) {
            let k = choose|k: int| 0 <= k < own.len() && own[k] == x;
            assert(has_service(services, own[k]));
        } else {
            let includes = texts(set.includes->Some_0@);
            let i = choose|i: int|
                0 <= i < set.includes->Some_0.len() && #[trigger] sets[set_at(
                    sets,
                    includes[i],
                )].members.contains(x);
            assert(has_set(sets, includes[i]));
            let from = sets[set_at(sets, includes[i])];
            assert(set_valid(from, services));
            let k = choose|k: int| 0 <= k < from.members.len() && from.members[k] == x;
            assert(has_service(services, from.members[k]));
        }
    }
}

/// Putting a set among sets of distinct names leaves the names distinct.
pub proof fn lemma_put_set_keeps_valid(
    sets: Seq<ServiceSetView>,
    v: ServiceSetView,
    services: Seq<ServiceView>,
)
    requires
        sets_valid(sets, services),
        set_valid(v, services),
    ensures
        sets_valid(put_set(sets, v), services),
{
    let names = set_names(sets);
    crate::text::lemma_first_index_absent(names, v.name);
    crate::text::lemma_first_index(names, v.name);
    let after = set_names(put_set(sets, v));
    if has_set(sets, v.name) {
        assert(after =~= names);
    } else {
        assert(after =~= names.push(v.name));
        assert forall|i: int, j: int| 0 <= i < after.len() && 0 <= j < after.len() && i
            != j implies after[i] != after[j] by {
            if i == names.len() {
                assert(names.contains(names[j]));
            } else if j == names.len() {
                assert(names.contains(names[i]));
            }
        }
    }
}

/// The sets that a configuration describes are as they must be: every
/// service that a set refers to exists.
pub proof fn lemma_sets_described(
    entries: Seq<(Seq<char>, ServiceSetConfig)>,
    services: Seq<ServiceView>,
)
    requires
        sets_described(entries, services) is Ok,
    ensures
        sets_valid(sets_described(entries, services)->Ok_0, services),
    decreases entries.len(),
{
    if entries.len() > 0 {
        lemma_sets_described(entries.drop_last(), services);
        let before = sets_described(entries.drop_last(), services)->Ok_0;
        let members = set_described(entries.last().1, before, services)->Ok_0;
        lemma_set_described_valid(entries.last().0, entries.last().1, before, services);
        lemma_put_set_keeps_valid(
            before,
            ServiceSetView { name: entries.last().0, members },
            services,
        );
    }
}

/// Services that are as they must be stay so under every change that
/// touches nothing but the states of scripts and keeps status and phase in
/// agreement; and the sets that refer to them stay valid.
pub proof fn lemma_valid_is_kept(m: ManagerView, after: Seq<ServiceView>)
    requires
        manager_valid(m),
        same_but_states(m.services, after),
        services_well_formed(after),
    ensures
        manager_valid(ManagerView { services: after, ..m }),
{
    lemma_same_names(m.services, after);
    lemma_same_scripts(m.services, after);
    assert forall|i: int| 0 <= i < after.len() implies service_well_formed(
        #[trigger] after[i],
    ) by {
        assert(service_well_formed(m.services[i]));
        assert forall|j: int| 0 <= j < after[i].scripts.len() implies well_formed(
            #[trigger] after[i].scripts[j].state,
        ) by {}
    }
    assert forall|i: int| 0 <= i < m.service_sets.len() implies set_valid(
        #[trigger] m.service_sets[i],
        after,
    ) by {
        assert(set_valid(m.service_sets[i], m.services));
    }
}

/// A manager that is as it must be stays so under every operation on its
/// services.
pub proof fn lemma_operations_keep_valid(
    m: ManagerView,
    name: Seq<char>,
    event: Event,
    forced: bool,
    noexec: bool,
)
    requires
        manager_valid(m),
    ensures
        manager_valid(
            ManagerView {
                services: start_service_outcome(m.services, forced, name, noexec).services,
                ..m
            },
        ),
        manager_valid(
            ManagerView { services: stop_service_outcome(m.services, name, noexec).services, ..m },
        ),
        manager_valid(
            ManagerView {
                services: start_script_outcome(m.services, forced, name, noexec).services,
                ..m
            },
        ),
        manager_valid(
            ManagerView { services: stop_script_outcome(m.services, name).services, ..m },
        ),
        manager_valid(
            ManagerView { services: advance_outcome(m.services, name, event).services, ..m },
        ),
        manager_valid(ManagerView { services: services_claimed(m.services), ..m }),
        manager_valid(ManagerView { services: up_outcome(m, name, noexec).services, ..m }),
{
    lemma_valid_means_well_formed(m.services);
    lemma_operations_keep_well_formed(m.services, name, event, forced, noexec);
    lemma_operations_change_states_only(m.services, name, event, forced, noexec);
    lemma_valid_is_kept(m, start_service_outcome(m.services, forced, name, noexec).services);
    lemma_valid_is_kept(m, stop_service_outcome(m.services, name, noexec).services);
    lemma_valid_is_kept(m, start_script_outcome(m.services, forced, name, noexec).services);
    lemma_valid_is_kept(m, stop_script_outcome(m.services, name).services);
    lemma_valid_is_kept(m, advance_outcome(m.services, name, event).services);
    lemma_valid_is_kept(m, services_claimed(m.services));
    if has_set(m.service_sets, name) {
        let members = m.service_sets[set_at(m.service_sets, name)].members;
        lemma_start_all_keeps_well_formed(m.services, members, noexec);
        lemma_start_all_changes_states_only(m.services, members, noexec);
        lemma_valid_is_kept(m, start_all_outcome(m.services, members, noexec).services);
    } else {
        assert(ManagerView { services: m.services, ..m } == m);
    }
}

/// In services that are as they must be, status and phase agree in every
/// script.
pub proof fn lemma_valid_means_well_formed(services: Seq<ServiceView>)
    requires
        services_valid(services),
    ensures
        services_well_formed(services),
{
    assert forall|i: int, j: int|
        0 <= i < services.len() && 0 <= j < services[i].scripts.len() implies well_formed(
        #[trigger] services[i].scripts[j].state,
    ) by {
        assert(service_well_formed(services[i]));
    }
}

/// The names of the entries of a list of sets.
pub open spec fn entry_names(entries: Seq<(Seq<char>, ServiceSetConfig)>) -> Seq<Seq<char>> {
    Seq::new(entries.len(), |i: int| entries[i].0)
}

/// The sets that a set includes, by name; none where it has no list of them.
pub open spec fn includes_of(set: ServiceSetConfig) -> Seq<Seq<char>> {
    match set.includes {
        Some(list) => texts(list@),
        None => Seq::empty(),
    }
}

/// The services of a set's own list; none where it has no list.
pub open spec fn own_of(set: ServiceSetConfig) -> Seq<Seq<char>> {
    match set.services {
        Some(list) => texts(list@),
        None => Seq::empty(),
    }
}

/// Whether a configuration of sets is in order: the names of the sets are
/// distinct; every set has a list of services that is not empty and names
/// services that exist; and a list of includes, where a set has one, is not
/// empty and names only sets declared earlier.
pub open spec fn sets_in_order(
    entries: Seq<(Seq<char>, ServiceSetConfig)>,
    services: Seq<ServiceView>,
) -> bool {
    &&& entry_names(entries).no_duplicates()
    &&& forall|e: int|
        0 <= e < entries.len() ==> (#[trigger] entries[e]).1.services is Some && own_of(
            entries[e].1,
        ).len() > 0
    &&& forall|e: int, j: int|
        0 <= e < entries.len() && 0 <= j < own_of(entries[e].1).len() ==> has_service(
            services,
            #[trigger] own_of(entries[e].1)[j],
        )
    &&& forall|e: int|
        0 <= e < entries.len() && (#[trigger] entries[e]).1.includes is Some ==> includes_of(
            entries[e].1,
        ).len() > 0
    &&& forall|e: int, j: int|
        0 <= e < entries.len() && 0 <= j < includes_of(entries[e].1).len()
            ==> entry_names(entries).take(e).contains(#[trigger] includes_of(entries[e].1)[j])
}

/// Whether `x` is a member of one of the sets that `includes` names.
pub open spec fn taken_from(sets: Seq<ServiceSetView>, includes: Seq<Seq<char>>, x: Seq<char>) -> bool {
    exists|j: int|
        0 <= j < includes.len() && #[trigger] sets[set_at(sets, includes[j])].members.contains(x)
}

/// Includes that each name a set are taken over without failure.
pub proof fn lemma_included_ok(includes: Seq<Seq<char>>, sets: Seq<ServiceSetView>)
    requires
        forall|j: int| 0 <= j < includes.len() ==> has_set(sets, #[trigger] includes[j]),
    ensures
        included(includes, sets) is Ok,
    decreases includes.len(),
{
    if includes.len() > 0 {
        assert forall|j: int| 0 <= j < includes.drop_last().len() implies has_set(
            sets,
            #[trigger] includes.drop_last()[j],
        ) by {
            assert(includes.drop_last()[j] == includes[j]);
        }
        lemma_included_ok(includes.drop_last(), sets);
        assert(has_set(sets, includes[includes.len() - 1]));
    }
}

/// A set that is added at the end leaves every set before it in its place.
pub proof fn lemma_set_stays(sets: Seq<ServiceSetView>, v: ServiceSetView, name: Seq<char>)
    requires
        has_set(sets, name),
    ensures
        set_at(sets.push(v), name) == set_at(sets, name),
        sets.push(v)[set_at(sets.push(v), name)] == sets[set_at(sets, name)],
{
    let names = set_names(sets);
    let after = set_names(sets.push(v));
    lemma_first_index(names, name);
    assert(after =~= names.push(v.name));
    assert forall|j: int| 0 <= j < set_at(sets, name) implies after[j] != name by {
        assert(after[j] == names[j]);
    }
    assert(after[set_at(sets, name)] == names[set_at(sets, name)]);
    lemma_first_index_is(after, name, set_at(sets, name));
}

/// Every declared set of a configuration that is in order is accepted and
/// keeps its members: the sets come out one for each that was declared, in
/// the order and under the names of their declaration, and the members of
/// each are the services of its own list and the members of the sets it
/// includes, and nothing else.
pub proof fn lemma_sets_in_order_are_accepted(
    entries: Seq<(Seq<char>, ServiceSetConfig)>,
    services: Seq<ServiceView>,
)
    requires
        sets_in_order(entries, services),
    ensures
        sets_described(entries, services) is Ok,
        set_names(sets_described(entries, services)->Ok_0) == entry_names(entries),
        forall|e: int, x: Seq<char>|
            0 <= e < entries.len() ==> ((#[trigger] sets_described(
                entries,
                services,
            )->Ok_0[e].members.contains(x)) <==> own_of(entries[e].1).contains(x) || taken_from(
                sets_described(entries, services)->Ok_0,
                includes_of(entries[e].1),
                x,
            )),
    decreases entries.len(),
{
    if entries.len() == 0 {
        assert(set_names(Seq::<ServiceSetView>::empty()) =~= entry_names(entries));
    } else {
        let n = entries.len() - 1;
        let before = entries.drop_last();
        let last = entries[n];
        let includes = includes_of(last.1);
        let own = own_of(last.1);
        assert(entry_names(before) =~= entry_names(entries).take(n));
        assert forall|e: int, j: int|
            0 <= e < before.len() && 0 <= j < includes_of(before[e].1).len() implies entry_names(
            before,
        ).take(e).contains(#[trigger] includes_of(before[e].1)[j]) by {
            assert(before[e] == entries[e]);
            assert(entry_names(before).take(e) =~= entry_names(entries).take(e));
        }
        assert forall|e: int, j: int|
            0 <= e < before.len() && 0 <= j < own_of(before[e].1).len() implies has_service(
            services,
            #[trigger] own_of(before[e].1)[j],
        ) by {
            assert(before[e] == entries[e]);
        }
        assert(sets_in_order(before, services)) by {
            assert forall|e: int| 0 <= e < before.len() implies (#[trigger] before[e])
                == entries[e] by {}
        }
        lemma_sets_in_order_are_accepted(before, services);
        let sets = sets_described(before, services)->Ok_0;
        assert(sets.len() == set_names(sets).len());
        // every include names a set that is there
        assert forall|j: int| 0 <= j < includes.len() implies has_set(
            sets,
            #[trigger] includes[j],
        ) by {
            assert(entry_names(entries).take(n).contains(includes[j]));
            lemma_first_index_absent(set_names(sets), includes[j]);
        }
        lemma_included_ok(includes, sets);
        // every service of the own list exists
        assert forall|j: int| 0 <= j < own.len() implies has_service(services, #[trigger] own[j]) by {
            assert(own[j] == own_of(entries[n].1)[j]);
        }
        lemma_first_unknown_is(own, services, own.len() as int);
        assert(set_described(last.1, sets, services) is Ok);
        lemma_set_is_union(last.1, sets, services);
        let members = set_described(last.1, sets, services)->Ok_0;
        let v = ServiceSetView { name: last.0, members };
        // the name is new, so the set is added at the end
        assert(!set_names(sets).contains(last.0)) by {
            if set_names(sets).contains(last.0) {
                let d = choose|d: int| 0 <= d < set_names(sets).len() && set_names(sets)[d] == last.0;
                assert(entry_names(entries)[d] == entry_names(entries)[n]);
            }
        }
        lemma_first_index_absent(set_names(sets), last.0);
        let all = sets.push(v);
        assert(sets_described(entries, services) == Ok::<Seq<ServiceSetView>, Seq<char>>(all));
        assert(set_names(all) =~= set_names(sets).push(last.0));
        assert(entry_names(before).push(last.0) =~= entry_names(entries));
        assert(set_names(all) == entry_names(entries));
        assert forall|e: int, x: Seq<char>| 0 <= e < entries.len() implies ((#[trigger] all[e].members.contains(
            x,
        )) <==> own_of(entries[e].1).contains(x) || taken_from(
            all,
            includes_of(entries[e].1),
            x,
        )) by {
            let inc = includes_of(entries[e].1);
            assert forall|j: int| 0 <= j < inc.len() implies all[set_at(all, #[trigger] inc[j])]
                == sets[set_at(sets, inc[j])] by {
                if e < n {
                    assert(entry_names(before).take(e).contains(includes_of(before[e].1)[j]));
                    let d = choose|d: int|
                        0 <= d < e && entry_names(before).take(e)[d] == inc[j];
                    assert(set_names(sets)[d] == inc[j]);
                    assert(set_names(sets).contains(inc[j]));
                    lemma_first_index_absent(set_names(sets), inc[j]);
                } else {
                    assert(has_set(sets, includes[j]));
                }
                lemma_set_stays(sets, v, inc[j]);
            }
            if e < n {
                assert(all[e] == sets[e]);
                assert(before[e] == entries[e]);
                if taken_from(sets, inc, x) {
                    let j = choose|j: int|
                        0 <= j < inc.len() && #[trigger] sets[set_at(sets, inc[j])].members.contains(
                            x,
                        );
                    assert(all[set_at(all, inc[j])].members.contains(x));
                }
                if taken_from(all, inc, x) {
                    let j = choose|j: int|
                        0 <= j < inc.len() && #[trigger] all[set_at(all, inc[j])].members.contains(
                            x,
                        );
                    assert(sets[set_at(sets, inc[j])].members.contains(x));
                }
            } else {
                assert(all[e] == v);
                if last.1.includes is Some && exists|i: int|
                    0 <= i < last.1.includes->Some_0.len() && #[trigger] sets[set_at(
                        sets,
                        texts(last.1.includes->Some_0@)[i],
                    )].members.contains(x) {
                    let i = choose|i: int|
                        0 <= i < last.1.includes->Some_0.len() && #[trigger] sets[set_at(
                            sets,
                            texts(last.1.includes->Some_0@)[i],
                        )].members.contains(x);
                    assert(all[set_at(all, inc[i])].members.contains(x));
                }
                if taken_from(all, inc, x) {
                    let j = choose|j: int|
                        0 <= j < inc.len() && #[trigger] all[set_at(all, inc[j])].members.contains(
                            x,
                        );
                    assert(sets[set_at(sets, inc[j])].members.contains(x));
                    assert(last.1.includes is Some);
                }
            }
        }
    }
}

} // verus!
