use runner::command_to_run::Environment;
use runner::machine::{Action, Event};
use runner::script::{
    ScriptConfig, SCRIPT_STATUS_FAILED, SCRIPT_STATUS_FINISHED, SCRIPT_STATUS_INTERRUPTED,
    SCRIPT_STATUS_NOT_STARTED, SCRIPT_STATUS_RUNNING, SCRIPT_STATUS_STARTING,
};
use runner::service::ServiceConfig;
use runner::service_manager::{ServiceManager, ServiceSetConfig};
use runner::session::{Reply, Request};
use runner::user_command::{run_user_command, WriterWithTCP};
use runner::utilities::ErrorKind;

fn env() -> Environment {
    Environment { current_dir: Some("/cwd".to_string()), home: Some("/home/u".to_string()) }
}

fn script(command: &str) -> ScriptConfig {
    ScriptConfig {
        command: Some(command.to_string()),
        workdir: None,
        env_file: None,
        log_file: None,
        log_file_err: None,
        wait_for_ports: None,
        wait_until_scripts_are_done: None,
        delay: None,
    }
}

fn service(scripts: Vec<(&str, ScriptConfig)>) -> ServiceConfig {
    ServiceConfig {
        disabled: None,
        post_stop_script: None,
        scripts: Some(scripts.into_iter().map(|(n, s)| (n.to_string(), s)).collect()),
    }
}

fn set_of(services: &[&str]) -> ServiceSetConfig {
    ServiceSetConfig {
        includes: None,
        services: Some(services.iter().map(|s| s.to_string()).collect()),
    }
}

fn manager(services: Vec<(&str, ServiceConfig)>, shutdown: Option<&str>) -> ServiceManager {
    let names: Vec<&str> = services.iter().map(|(n, _)| *n).collect();
    let sets = vec![("default".to_string(), set_of(&names))];
    let services: Vec<(String, ServiceConfig)> =
        services.into_iter().map(|(n, s)| (n.to_string(), s)).collect();
    ServiceManager::new(&sets, &services, None, shutdown.map(|s| s.to_string()), &env()).unwrap()
}

fn status(m: &ServiceManager, name: &str) -> usize {
    m.services().get_script_status(&name.to_string())
}

fn event(m: &mut ServiceManager, name: &str, e: Event) -> Action {
    let mut log = WriterWithTCP::new();
    m.advance(&name.to_string(), e, &mut log).unwrap()
}

fn command(m: &mut ServiceManager, line: &str, noexec: bool) -> (Vec<String>, Request) {
    let mut writer = WriterWithTCP::new();
    let parts: Vec<String> = line.split(' ').map(|s| s.to_string()).collect();
    let mut session = run_user_command(parts, m, noexec, &mut writer).unwrap();
    let mut request = session.resume(m, Reply::Go, &mut writer);
    while matches!(request, Request::Continue) {
        request = session.resume(m, Reply::Go, &mut writer);
    }
    (writer.take_lines(), request)
}

#[test]
fn a_single_script_runs_and_finishes() {
    let mut m = manager(vec![("svc", service(vec![("s1", script("/bin/true"))]))], None);
    assert_eq!(status(&m, "svc.s1"), SCRIPT_STATUS_NOT_STARTED);
    let (lines, request) = command(&mut m, "up default", false);
    assert!(matches!(request, Request::Done(Ok(()))));
    assert_eq!(lines, vec!["Running command [\"up\", \"default\"]", "Starting s1..."]);
    assert_eq!(status(&m, "svc.s1"), SCRIPT_STATUS_STARTING);
    assert_eq!(m.claim_waiters(), vec!["svc.s1"]);
    assert!(m.claim_waiters().is_empty());
    assert_eq!(event(&mut m, "svc.s1", Event::Begin), Action::ProbePorts);
    assert_eq!(event(&mut m, "svc.s1", Event::PortsProbed(true)), Action::Spawn);
    assert_eq!(status(&m, "svc.s1"), SCRIPT_STATUS_STARTING);
    assert_eq!(event(&mut m, "svc.s1", Event::Spawned), Action::Poll);
    assert_eq!(status(&m, "svc.s1"), SCRIPT_STATUS_RUNNING);
    assert_eq!(event(&mut m, "svc.s1", Event::Alive), Action::Sleep(100));
    assert_eq!(event(&mut m, "svc.s1", Event::Tick), Action::Poll);
    assert_eq!(event(&mut m, "svc.s1", Event::Exited("exit status: 0".to_string())), Action::Done);
    assert_eq!(status(&m, "svc.s1"), SCRIPT_STATUS_FINISHED);
    let (lines, _) = command(&mut m, "status", false);
    assert_eq!(lines[1], "svc:\n  s1: finished");
}

#[test]
fn a_script_waits_for_its_port() {
    let mut gated = script("/bin/sleep 1");
    gated.wait_for_ports = Some(vec![Some("7777".to_string())]);
    let mut m = manager(vec![("svc", service(vec![("s1", gated)]))], None);
    command(&mut m, "up default", false);
    assert_eq!(m.claim_waiters(), vec!["svc.s1"]);
    let ports = m.services().find_service(&"svc".to_string()).unwrap().script(&"s1".to_string())
        .unwrap().wait_for_ports().clone();
    assert_eq!(ports, vec![("localhost".to_string(), 7777)]);
    assert_eq!(event(&mut m, "svc.s1", Event::Begin), Action::ProbePorts);
    for _ in 0..3 {
        assert_eq!(event(&mut m, "svc.s1", Event::PortsProbed(false)), Action::Sleep(1000));
        assert_eq!(status(&m, "svc.s1"), SCRIPT_STATUS_STARTING);
        assert_eq!(event(&mut m, "svc.s1", Event::Tick), Action::ProbePorts);
        assert_eq!(status(&m, "svc.s1"), SCRIPT_STATUS_STARTING);
    }
    assert_eq!(event(&mut m, "svc.s1", Event::PortsProbed(true)), Action::Spawn);
    assert_eq!(event(&mut m, "svc.s1", Event::Spawned), Action::Poll);
    assert_eq!(status(&m, "svc.s1"), SCRIPT_STATUS_RUNNING);
}

#[test]
fn a_script_waits_for_the_script_it_depends_on() {
    let mut b = script("/bin/true");
    b.wait_until_scripts_are_done = Some(vec!["first.a".to_string()]);
    let mut m = manager(
        vec![
            ("first", service(vec![("a", script("/bin/true"))])),
            ("second", service(vec![("b", b)])),
        ],
        None,
    );
    command(&mut m, "up default", false);
    assert_eq!(m.claim_waiters(), vec!["first.a", "second.b"]);
    assert_eq!(event(&mut m, "second.b", Event::Begin), Action::ProbePorts);
    assert_eq!(event(&mut m, "second.b", Event::PortsProbed(true)), Action::Sleep(1000));
    assert_eq!(event(&mut m, "first.a", Event::PortsProbed(true)), Action::Spawn);
    assert_eq!(event(&mut m, "second.b", Event::Tick), Action::Sleep(1000));
    assert_eq!(event(&mut m, "first.a", Event::Spawned), Action::Poll);
    assert_eq!(status(&m, "first.a"), SCRIPT_STATUS_RUNNING);
    assert_eq!(event(&mut m, "second.b", Event::Tick), Action::Sleep(1000));
    assert_eq!(status(&m, "second.b"), SCRIPT_STATUS_STARTING);
    assert_eq!(event(&mut m, "first.a", Event::Exited("exit status: 0".to_string())), Action::Done);
    assert_eq!(status(&m, "first.a"), SCRIPT_STATUS_FINISHED);
    assert_eq!(event(&mut m, "second.b", Event::Tick), Action::Spawn);
    assert_eq!(event(&mut m, "second.b", Event::Spawned), Action::Poll);
    assert_eq!(status(&m, "second.b"), SCRIPT_STATUS_RUNNING);
}

#[test]
fn a_forced_start_skips_readiness() {
    let mut b = script("/bin/true");
    b.wait_until_scripts_are_done = Some(vec!["first.a".to_string()]);
    b.wait_for_ports = Some(vec![Some("host:1".to_string())]);
    b.delay = Some(5);
    let mut m = manager(
        vec![
            ("first", service(vec![("a", script("/bin/true"))])),
            ("second", service(vec![("b", b)])),
        ],
        None,
    );
    command(&mut m, "force-start second.b", false);
    assert_eq!(m.claim_waiters(), vec!["second.b"]);
    assert_eq!(event(&mut m, "second.b", Event::Begin), Action::Spawn);
    assert_eq!(event(&mut m, "second.b", Event::SpawnFailed("no such file".to_string())), Action::Done);
    assert_eq!(status(&m, "second.b"), SCRIPT_STATUS_FAILED);
}

#[test]
fn the_delay_follows_ports_and_scripts() {
    let mut s = script("/bin/true");
    s.delay = Some(3);
    let mut m = manager(vec![("svc", service(vec![("s1", s)]))], None);
    command(&mut m, "start svc", false);
    m.claim_waiters();
    assert_eq!(event(&mut m, "svc.s1", Event::PortsProbed(true)), Action::Delay(3));
    assert_eq!(event(&mut m, "svc.s1", Event::Tick), Action::Spawn);
}

#[test]
fn an_interrupt_during_readiness_ends_without_a_child() {
    let mut gated = script("/bin/sleep 1");
    gated.wait_for_ports = Some(vec![Some("65534".to_string())]);
    let mut m = manager(vec![("svc", service(vec![("s1", gated)]))], None);
    command(&mut m, "up default", false);
    m.claim_waiters();
    assert_eq!(event(&mut m, "svc.s1", Event::Begin), Action::ProbePorts);
    assert_eq!(event(&mut m, "svc.s1", Event::PortsProbed(false)), Action::Sleep(1000));
    let (lines, request) = command(&mut m, "stop svc.s1", false);
    assert!(matches!(request, Request::Done(Ok(()))));
    assert_eq!(lines[1], "Stopping s1...");
    assert_eq!(status(&m, "svc.s1"), SCRIPT_STATUS_STARTING);
    assert_eq!(event(&mut m, "svc.s1", Event::Tick), Action::Done);
    assert_eq!(status(&m, "svc.s1"), SCRIPT_STATUS_INTERRUPTED);
}

#[test]
fn an_interrupt_kills_a_running_child() {
    let mut m = manager(vec![("svc", service(vec![("s1", script("/bin/sleep 100"))]))], None);
    command(&mut m, "start svc.s1", false);
    m.claim_waiters();
    event(&mut m, "svc.s1", Event::PortsProbed(true));
    event(&mut m, "svc.s1", Event::Spawned);
    assert_eq!(event(&mut m, "svc.s1", Event::Alive), Action::Sleep(100));
    command(&mut m, "stop svc", false);
    assert_eq!(status(&m, "svc.s1"), SCRIPT_STATUS_RUNNING);
    assert_eq!(event(&mut m, "svc.s1", Event::Tick), Action::Kill);
    assert_eq!(status(&m, "svc.s1"), SCRIPT_STATUS_INTERRUPTED);
}

#[test]
fn a_poll_that_fails_kills_the_child() {
    let mut m = manager(vec![("svc", service(vec![("s1", script("/bin/sleep 100"))]))], None);
    command(&mut m, "start svc.s1", false);
    m.claim_waiters();
    event(&mut m, "svc.s1", Event::PortsProbed(true));
    event(&mut m, "svc.s1", Event::Spawned);
    assert_eq!(event(&mut m, "svc.s1", Event::PollFailed("no child".to_string())), Action::Kill);
    assert_eq!(status(&m, "svc.s1"), SCRIPT_STATUS_FAILED);
}

#[test]
fn a_stop_on_a_script_at_rest_changes_nothing() {
    let mut m = manager(vec![("svc", service(vec![("s1", script("/bin/true"))]))], None);
    for _ in 0..2 {
        let (lines, request) = command(&mut m, "stop svc.s1", false);
        assert!(matches!(request, Request::Done(Ok(()))));
        assert_eq!(lines[1], "Stopping s1...");
        assert_eq!(status(&m, "svc.s1"), SCRIPT_STATUS_NOT_STARTED);
    }
    command(&mut m, "start svc.s1", true);
    m.claim_waiters();
    event(&mut m, "svc.s1", Event::PortsProbed(true));
    assert_eq!(status(&m, "svc.s1"), SCRIPT_STATUS_FINISHED);
    command(&mut m, "stop svc.s1", false);
    command(&mut m, "stop svc.s1", false);
    assert_eq!(status(&m, "svc.s1"), SCRIPT_STATUS_FINISHED);
    assert!(m.claim_waiters().is_empty());
    assert_eq!(event(&mut m, "svc.s1", Event::Tick), Action::Done);
    assert_eq!(status(&m, "svc.s1"), SCRIPT_STATUS_FINISHED);
}

#[test]
fn a_start_on_a_running_script_changes_nothing() {
    let mut m = manager(vec![("svc", service(vec![("s1", script("/bin/sleep 9"))]))], None);
    command(&mut m, "start svc.s1", false);
    m.claim_waiters();
    event(&mut m, "svc.s1", Event::PortsProbed(true));
    event(&mut m, "svc.s1", Event::Spawned);
    let (lines, _) = command(&mut m, "start svc.s1", false);
    assert_eq!(lines.len(), 1);
    assert_eq!(status(&m, "svc.s1"), SCRIPT_STATUS_RUNNING);
    assert!(m.claim_waiters().is_empty());
    assert_eq!(event(&mut m, "svc.s1", Event::Begin), Action::Poll);
}

#[test]
fn an_old_interrupt_does_not_reach_the_next_cycle() {
    let mut m = manager(vec![("svc", service(vec![("s1", script("/bin/sleep 9"))]))], None);
    command(&mut m, "start svc.s1", false);
    m.claim_waiters();
    event(&mut m, "svc.s1", Event::PortsProbed(true));
    event(&mut m, "svc.s1", Event::Spawned);
    command(&mut m, "stop svc.s1", false);
    assert_eq!(event(&mut m, "svc.s1", Event::Exited("exit status: 0".to_string())), Action::Done);
    assert_eq!(status(&m, "svc.s1"), SCRIPT_STATUS_FINISHED);
    command(&mut m, "start svc.s1", false);
    assert_eq!(m.claim_waiters(), vec!["svc.s1"]);
    assert_eq!(event(&mut m, "svc.s1", Event::PortsProbed(false)), Action::Sleep(1000));
    assert_eq!(event(&mut m, "svc.s1", Event::Tick), Action::ProbePorts);
    assert_eq!(status(&m, "svc.s1"), SCRIPT_STATUS_STARTING);
}

#[test]
fn a_dry_run_finishes_without_a_child() {
    let mut m = manager(
        vec![("svc", service(vec![("s1", script("/bin/true")), ("s2", script("/bin/echo x"))]))],
        None,
    );
    let (lines, _) = command(&mut m, "up default", true);
    assert_eq!(lines, vec!["Running command [\"up\", \"default\"]", "Starting s1...", "Starting s2..."]);
    let mut log = WriterWithTCP::new();
    for name in m.claim_waiters() {
        let mut action = m.advance(&name, Event::Begin, &mut log).unwrap();
        let mut steps = 0;
        while action != Action::Done {
            assert_ne!(action, Action::Spawn);
            assert_eq!(action, Action::ProbePorts);
            action = m.advance(&name, Event::PortsProbed(true), &mut log).unwrap();
            steps += 1;
            assert!(steps < 10);
        }
    }
    assert_eq!(status(&m, "svc.s1"), SCRIPT_STATUS_FINISHED);
    assert_eq!(status(&m, "svc.s2"), SCRIPT_STATUS_FINISHED);
    assert_eq!(
        log.take_lines(),
        vec![
            "CommandToRun /bin/true parameters=[] log_file_out=None log_file_err=None work_dir=None env_file=None",
            "Finished s1 with noexec",
            "CommandToRun /bin/echo parameters=[\"x\"] log_file_out=None log_file_err=None work_dir=None env_file=None",
            "Finished s2 with noexec",
        ]
    );
}

#[test]
fn a_forced_dry_run_is_over_at_once() {
    let mut m = manager(vec![("svc", service(vec![("s1", script("/bin/true"))]))], None);
    let (lines, _) = command(&mut m, "force-start svc", true);
    assert_eq!(
        lines,
        vec![
            "Running command [\"force-start\", \"svc\"]",
            "Starting s1...",
            "CommandToRun /bin/true parameters=[] log_file_out=None log_file_err=None work_dir=None env_file=None",
            "Finished s1 with noexec",
        ]
    );
    assert_eq!(status(&m, "svc.s1"), SCRIPT_STATUS_FINISHED);
    assert!(m.claim_waiters().is_empty());
}

#[test]
fn a_shutdown_stops_every_script_and_waits_for_them() {
    let mut m = manager(
        vec![
            ("one", service(vec![("a", script("/bin/sleep 100"))])),
            ("two", service(vec![("b", script("/bin/sleep 100"))])),
        ],
        Some("/bin/cleanup now"),
    );
    command(&mut m, "up default", false);
    for name in m.claim_waiters() {
        event(&mut m, &name, Event::PortsProbed(true));
        event(&mut m, &name, Event::Spawned);
        assert_eq!(event(&mut m, &name, Event::Alive), Action::Sleep(100));
    }
    let mut writer = WriterWithTCP::new();
    let mut session = m.interrupted(false);
    let mut reply = Reply::Go;
    let mut sleeps = 0;
    let mut ran: Vec<String> = Vec::new();
    loop {
        match session.resume(&mut m, reply, &mut writer) {
            Request::Continue => reply = Reply::Go,
            Request::Sleep(ms) => {
                assert_eq!(ms, 100);
                assert!(ran.is_empty());
                sleeps += 1;
                if sleeps == 1 {
                    assert_eq!(event(&mut m, "one.a", Event::Tick), Action::Kill);
                    assert!(!m.wait_finish());
                } else {
                    assert_eq!(event(&mut m, "two.b", Event::Tick), Action::Kill);
                    assert!(m.wait_finish());
                }
                reply = Reply::Slept;
            }
            Request::Run(c) => {
                assert_eq!(status(&m, "one.a"), SCRIPT_STATUS_INTERRUPTED);
                assert_eq!(status(&m, "two.b"), SCRIPT_STATUS_INTERRUPTED);
                ran.push(c.to_string());
                reply = Reply::Ran;
            }
            Request::Exit(code) => {
                assert_eq!(code, 1);
                break;
            }
            Request::Done(_) => panic!("the session leaves the process"),
        }
    }
    assert!(session.is_over());
    assert_eq!(sleeps, 2);
    assert_eq!(
        ran,
        vec!["CommandToRun /bin/cleanup parameters=[\"now\"] log_file_out=None log_file_err=None work_dir=None env_file=None"]
    );
    assert_eq!(
        writer.take_lines(),
        vec![
            "Stopping a...",
            "Stopping b...",
            "Waiting for all services to be finished...",
            "Starting shutdown script...",
            "Finished shutdown script...",
        ]
    );
}

#[test]
fn a_shutdown_names_the_services_that_could_not_be_stopped() {
    let mut one = service(vec![("a", script("/bin/true"))]);
    one.post_stop_script = Some("/bin/after one".to_string());
    let mut two = service(vec![("b", script("/bin/true"))]);
    two.post_stop_script = Some("/bin/after two".to_string());
    let three = service(vec![("c", script("/bin/true"))]);
    let mut m = manager(vec![("one", one), ("two", two), ("three", three)], Some("/bin/cleanup"));
    let mut writer = WriterWithTCP::new();
    let mut session = m.shutdown(false);
    let mut reply = Reply::Go;
    let result = loop {
        match session.resume(&mut m, reply, &mut writer) {
            Request::Continue => reply = Reply::Go,
            Request::Run(_) => reply = Reply::Failed("exit status: 1".to_string()),
            Request::Done(result) => break result,
            _ => panic!("nothing to sleep for"),
        }
    };
    let e = result.unwrap_err();
    assert_eq!(e.kind, ErrorKind::Aggregated);
    assert_eq!(e.message, "could not stop these services: one,two");
    assert_eq!(
        writer.take_lines(),
        vec![
            "Stopping a...",
            "Running post-stop-script for one",
            "Stopping b...",
            "Running post-stop-script for two",
            "Stopping c...",
            "could not stop these services: one,two",
        ]
    );
}

#[test]
fn a_stop_of_a_service_runs_its_post_stop_command() {
    let mut one = service(vec![("a", script("/bin/true"))]);
    one.post_stop_script = Some("/bin/after".to_string());
    let mut m = manager(vec![("one", one)], None);
    let (lines, request) = command(&mut m, "stop one", false);
    assert_eq!(lines, vec!["Running command [\"stop\", \"one\"]", "Stopping a...", "Running post-stop-script for one"]);
    match request {
        Request::Run(c) => assert_eq!(c.program(), "/bin/after"),
        _ => panic!("the post-stop command is to be run"),
    }
    let (lines, request) = command(&mut m, "stop one", true);
    assert!(matches!(request, Request::Done(Ok(()))));
    assert_eq!(
        lines,
        vec![
            "Running command [\"stop\", \"one\"]",
            "Stopping a...",
            "Running post-stop-script for one",
            "CommandToRun /bin/after parameters=[] log_file_out=None log_file_err=None work_dir=None env_file=None",
            "Finished post-stop-script for one",
        ]
    );
}

#[test]
fn a_post_stop_command_that_fails_ends_the_stop() {
    let mut one = service(vec![("a", script("/bin/true"))]);
    one.post_stop_script = Some("/bin/after".to_string());
    let mut m = manager(vec![("one", one), ("two", service(vec![("b", script("/bin/true"))]))], None);
    let mut writer = WriterWithTCP::new();
    let parts = vec!["stop".to_string(), "one".to_string(), "two".to_string()];
    let mut session = run_user_command(parts, &m, false, &mut writer).unwrap();
    assert!(matches!(session.resume(&mut m, Reply::Go, &mut writer), Request::Run(_)));
    let request = session.resume(&mut m, Reply::Failed("no such file".to_string()), &mut writer);
    match request {
        Request::Done(Err(e)) => {
            assert_eq!(e.kind, ErrorKind::ProcessError);
            assert_eq!(e.message, "no such file");
        }
        _ => panic!("the command fails"),
    }
    assert!(session.is_over());
    assert_eq!(writer.take_lines().last().unwrap(), "no such file");
}

#[test]
fn a_script_waits_for_a_script_of_its_own_service() {
    let mut b = script("/bin/true");
    b.wait_until_scripts_are_done = Some(vec!["svc.a".to_string()]);
    let mut m = manager(vec![("svc", service(vec![("a", script("/bin/true")), ("b", b)]))], None);
    command(&mut m, "up default", false);
    assert_eq!(m.claim_waiters(), vec!["svc.a", "svc.b"]);
    assert_eq!(event(&mut m, "svc.b", Event::PortsProbed(true)), Action::Sleep(1000));
    assert_eq!(event(&mut m, "svc.a", Event::PortsProbed(true)), Action::Spawn);
    assert_eq!(event(&mut m, "svc.a", Event::Spawned), Action::Poll);
    assert_eq!(event(&mut m, "svc.b", Event::Tick), Action::Sleep(1000));
    assert_eq!(status(&m, "svc.b"), SCRIPT_STATUS_STARTING);
    assert_eq!(event(&mut m, "svc.a", Event::Exited("exit status: 1".to_string())), Action::Done);
    assert_eq!(status(&m, "svc.a"), SCRIPT_STATUS_FINISHED);
    assert_eq!(event(&mut m, "svc.b", Event::Tick), Action::Spawn);
    assert_eq!(event(&mut m, "svc.b", Event::Spawned), Action::Poll);
    assert_eq!(status(&m, "svc.b"), SCRIPT_STATUS_RUNNING);
}

#[test]
fn a_stop_before_a_pause_ends_the_cycle_at_once() {
    let mut gated = script("/bin/sleep 1");
    gated.wait_for_ports = Some(vec![Some("65534".to_string())]);
    let mut m = manager(
        vec![("svc", service(vec![("s1", gated), ("s2", script("/bin/sleep 100"))]))],
        None,
    );
    command(&mut m, "up default", false);
    m.claim_waiters();
    assert_eq!(event(&mut m, "svc.s1", Event::Begin), Action::ProbePorts);
    event(&mut m, "svc.s2", Event::PortsProbed(true));
    assert_eq!(event(&mut m, "svc.s2", Event::Spawned), Action::Poll);
    command(&mut m, "stop svc", false);
    assert_eq!(event(&mut m, "svc.s1", Event::PortsProbed(false)), Action::Done);
    assert_eq!(status(&m, "svc.s1"), SCRIPT_STATUS_INTERRUPTED);
    assert_eq!(event(&mut m, "svc.s2", Event::Alive), Action::Kill);
    assert_eq!(status(&m, "svc.s2"), SCRIPT_STATUS_INTERRUPTED);
}

#[test]
fn the_log_of_a_waiter_holds_what_the_program_reports() {
    let mut m = manager(vec![("svc", service(vec![("s1", script("/bin/x"))]))], None);
    let mut log = WriterWithTCP::new();
    let name = "svc.s1".to_string();
    command(&mut m, "force-start svc.s1", false);
    m.advance(&name, Event::Spawned, &mut log).unwrap();
    m.advance(&name, Event::Exited("exit status: 3".to_string()), &mut log).unwrap();
    command(&mut m, "force-start svc.s1", false);
    m.advance(&name, Event::SpawnFailed("No such file or directory (os error 2)".to_string()), &mut log).unwrap();
    command(&mut m, "force-start svc.s1", false);
    m.advance(&name, Event::Spawned, &mut log).unwrap();
    m.advance(&name, Event::PollFailed("invalid argument".to_string()), &mut log).unwrap();
    assert_eq!(
        log.take_lines(),
        vec![
            "Started s1...",
            "Finished s1 with exitcode exit status: 3",
            "Failed to start s1: No such file or directory (os error 2)",
            "Started s1...",
            "Failed to wait s1: invalid argument",
        ]
    );
}
