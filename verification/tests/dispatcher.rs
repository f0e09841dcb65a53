use runner::cli::{parse_arguments, Mode};
use runner::command_to_run::Environment;
use runner::script::ScriptConfig;
use runner::server::{client_message, request_parts, PORT, REQUEST_LIMIT};
use runner::service::ServiceConfig;
use runner::service_manager::{ServiceManager, ServiceSetConfig};
use runner::session::{Reply, Request, Session, Step};
use runner::user_command::{
    build_invalid_command_error, run_user_command, run_user_commands, WriterWithTCP,
};
use runner::utilities::ErrorKind;

fn strings(items: &[&str]) -> Vec<String> {
    items.iter().map(|s| s.to_string()).collect()
}

fn manager(init: Option<&str>) -> ServiceManager {
    let env = Environment { current_dir: Some("/cwd".to_string()), home: Some("/home/u".to_string()) };
    let script = ScriptConfig {
        command: Some("/bin/true".to_string()),
        workdir: None,
        env_file: None,
        log_file: None,
        log_file_err: None,
        wait_for_ports: None,
        wait_until_scripts_are_done: None,
        delay: None,
    };
    let service = ServiceConfig {
        disabled: None,
        post_stop_script: None,
        scripts: Some(vec![("s1".to_string(), script)]),
    };
    let set = ServiceSetConfig { includes: None, services: Some(strings(&["svc"])) };
    ServiceManager::new(
        &vec![("default".to_string(), set)],
        &vec![("svc".to_string(), service)],
        init.map(|s| s.to_string()),
        None,
        &env,
    )
    .unwrap()
}

fn finish(m: &mut ServiceManager, mut session: Session, writer: &mut WriterWithTCP) -> Request {
    loop {
        match session.resume(m, Reply::Go, writer) {
            Request::Continue => {}
            other => return other,
        }
    }
}

#[test]
fn commands_with_the_wrong_number_of_arguments_are_invalid() {
    let m = manager(None);
    for line in [
        "up", "up a b", "down now", "start", "force-start", "stop", "wait_for_scripts", "exit now",
    ] {
        let mut writer = WriterWithTCP::new();
        let e = run_user_command(strings(&line.split(' ').collect::<Vec<_>>()), &m, false, &mut writer)
            .unwrap_err();
        assert_eq!(e.kind, ErrorKind::InvalidCommand);
        assert_eq!(e.message, "invalid command");
    }
    let e = build_invalid_command_error();
    assert_eq!((e.kind, e.message.as_str()), (ErrorKind::InvalidCommand, "invalid command"));
}

#[test]
fn unknown_and_empty_commands_are_invalid() {
    let m = manager(None);
    let mut writer = WriterWithTCP::new();
    let e = run_user_command(strings(&["restart", "svc"]), &m, false, &mut writer).unwrap_err();
    assert_eq!((e.kind, e.message.as_str()), (ErrorKind::InvalidCommand, "unknown command"));
    let e = run_user_command(vec![], &m, false, &mut writer).unwrap_err();
    assert_eq!((e.kind, e.message.as_str()), (ErrorKind::InvalidCommand, "empty command"));
    assert_eq!(
        writer.take_lines(),
        vec!["Running command [\"restart\", \"svc\"]", "Running command []"]
    );
    assert!(run_user_commands(strings(&["Up", "default"]), &m, false, &mut writer).is_none());
    assert_eq!(writer.take_lines(), vec!["Running command [\"Up\", \"default\"]", "unknown command"]);
    assert!(run_user_commands(strings(&["status"]), &m, false, &mut writer).is_some());
}

#[test]
fn the_parts_of_a_command_are_shown_escaped() {
    let m = manager(None);
    let mut writer = WriterWithTCP::new();
    let _ = run_user_command(vec![], &m, false, &mut writer);
    let _ = run_user_command(strings(&["status"]), &m, false, &mut writer);
    let _ = run_user_command(strings(&["start", "a.b", ""]), &m, false, &mut writer);
    let _ = run_user_command(strings(&["say", "a\"b", "c\\d", "e\nf\tg", "h'i", "\u{7f}"]), &m, false, &mut writer);
    assert_eq!(
        writer.take_lines(),
        vec![
            "Running command []",
            "Running command [\"status\"]",
            "Running command [\"start\", \"a.b\", \"\"]",
            "Running command [\"say\", \"a\\\"b\", \"c\\\\d\", \"e\\nf\\tg\", \"h'i\", \"\\u{7f}\"]",
        ]
    );
}

#[test]
fn an_error_while_a_command_runs_is_written_and_ends_it() {
    let mut m = manager(None);
    let mut writer = WriterWithTCP::new();
    let session =
        run_user_command(strings(&["start", "svc.s1", "nope", "svc"]), &m, false, &mut writer).unwrap();
    match finish(&mut m, session, &mut writer) {
        Request::Done(Err(e)) => {
            assert_eq!((e.kind, e.message.as_str()), (ErrorKind::InvalidName, "service not found"))
        }
        _ => panic!("the command fails"),
    }
    assert_eq!(
        writer.take_lines(),
        vec![
            "Running command [\"start\", \"svc.s1\", \"nope\", \"svc\"]",
            "Starting s1...",
            "service not found"
        ]
    );
    let session = run_user_command(strings(&["up", "nope"]), &m, false, &mut writer).unwrap();
    match finish(&mut m, session, &mut writer) {
        Request::Done(Err(e)) => assert_eq!(e.message, "invalid service set name"),
        _ => panic!("the command fails"),
    }
}

#[test]
fn status_reports_all_services_or_those_named() {
    let mut m = manager(None);
    let mut writer = WriterWithTCP::new();
    let session = run_user_command(strings(&["status"]), &m, false, &mut writer).unwrap();
    assert!(matches!(finish(&mut m, session, &mut writer), Request::Done(Ok(()))));
    let session = run_user_command(strings(&["status", "svc", "nope"]), &m, false, &mut writer).unwrap();
    assert!(matches!(finish(&mut m, session, &mut writer), Request::Done(Ok(()))));
    assert_eq!(
        writer.take_lines(),
        vec![
            "Running command [\"status\"]",
            "svc:\n  s1: not started",
            "Running command [\"status\", \"svc\", \"nope\"]",
            "svc:\n  s1: not started",
            "",
        ]
    );
}

#[test]
fn waiting_for_scripts_needs_them_to_exist_and_polls_until_they_finish() {
    let mut m = manager(None);
    let mut writer = WriterWithTCP::new();
    let session =
        run_user_command(strings(&["wait_for_scripts", "svc.s1", "svc.s2"]), &m, false, &mut writer).unwrap();
    match finish(&mut m, session, &mut writer) {
        Request::Done(Err(e)) => {
            assert_eq!((e.kind, e.message.as_str()), (ErrorKind::InvalidName, "Script does not exist: svc.s2"))
        }
        _ => panic!("the command fails"),
    }
    let mut session = m.wait_for_scripts(&strings(&["svc.s1"]), false);
    assert!(matches!(session.resume(&mut m, Reply::Go, &mut writer), Request::Continue));
    assert!(matches!(session.resume(&mut m, Reply::Go, &mut writer), Request::Sleep(1000)));
    assert!(matches!(session.resume(&mut m, Reply::Slept, &mut writer), Request::Sleep(1000)));
    let mut log = WriterWithTCP::new();
    m.start_script(true, &"svc.s1".to_string(), true, &mut log).unwrap();
    assert!(matches!(session.resume(&mut m, Reply::Slept, &mut writer), Request::Continue));
    assert!(matches!(session.resume(&mut m, Reply::Go, &mut writer), Request::Done(Ok(()))));
    assert!(session.is_over());
}

#[test]
fn exit_shuts_down_and_leaves_with_code_zero() {
    let mut m = manager(None);
    let mut writer = WriterWithTCP::new();
    let session = run_user_command(strings(&["exit"]), &m, false, &mut writer).unwrap();
    assert!(matches!(finish(&mut m, session, &mut writer), Request::Exit(0)));
    let session = run_user_command(strings(&["down"]), &m, false, &mut writer).unwrap();
    assert!(matches!(finish(&mut m, session, &mut writer), Request::Done(Ok(()))));
    assert_eq!(
        writer.take_lines(),
        vec![
            "Running command [\"exit\"]",
            "Stopping s1...",
            "Waiting for all services to be finished...",
            "Running command [\"down\"]",
            "Stopping s1...",
            "Waiting for all services to be finished...",
        ]
    );
}

#[test]
fn the_init_command_is_run_between_two_lines() {
    let mut m = manager(Some("/bin/prepare all"));
    let mut writer = WriterWithTCP::new();
    let mut session = m.init(false);
    assert!(matches!(session.resume(&mut m, Reply::Go, &mut writer), Request::Continue));
    match session.resume(&mut m, Reply::Go, &mut writer) {
        Request::Run(c) => assert_eq!(c.parameters(), &vec!["all"]),
        _ => panic!("the init command is to be run"),
    }
    assert!(matches!(session.resume(&mut m, Reply::Ran, &mut writer), Request::Continue));
    assert!(matches!(session.resume(&mut m, Reply::Go, &mut writer), Request::Continue));
    assert!(matches!(session.resume(&mut m, Reply::Go, &mut writer), Request::Done(Ok(()))));
    assert_eq!(writer.take_lines(), vec!["Starting init script...", "Finished init script..."]);

    let session = m.init(true);
    assert!(matches!(finish(&mut m, session, &mut writer), Request::Done(Ok(()))));
    assert_eq!(
        writer.take_lines(),
        vec![
            "Starting init script...",
            "CommandToRun /bin/prepare parameters=[\"all\"] log_file_out=None log_file_err=None work_dir=None env_file=None",
            "Finished init script...",
        ]
    );

    let mut session = m.init(false);
    session.resume(&mut m, Reply::Go, &mut writer);
    session.resume(&mut m, Reply::Go, &mut writer);
    match session.resume(&mut m, Reply::Failed("exit status: 3".to_string()), &mut writer) {
        Request::Done(Err(e)) => {
            assert_eq!((e.kind, e.message.as_str()), (ErrorKind::ProcessError, "exit status: 3"))
        }
        _ => panic!("the command fails"),
    }

    let mut none = manager(None);
    let session = none.init(false);
    assert!(matches!(finish(&mut none, session, &mut writer), Request::Done(Ok(()))));
    let session = none.stop_all(false);
    assert!(matches!(finish(&mut none, session, &mut writer), Request::Done(Ok(()))));
}

#[test]
fn a_session_of_plain_steps_writes_its_lines() {
    let mut m = manager(None);
    let mut writer = WriterWithTCP::new();
    let session = Session::new(
        vec![Step::Write("one".to_string()), Step::AwaitIdle, Step::CheckStopped, Step::Write("two".to_string())],
        false,
        None,
    );
    assert!(!session.is_over());
    assert!(matches!(finish(&mut m, session, &mut writer), Request::Done(Ok(()))));
    assert_eq!(writer.take_lines(), vec!["one", "two"]);
}

#[test]
fn the_arguments_name_the_configuration_the_flags_and_the_command() {
    let i = parse_arguments(&strings(&["runner", "conf.yml", "noinit", "up", "default", "noexec"]));
    assert_eq!(i.config_file, Some("conf.yml".to_string()));
    assert!(i.noinit && i.noexec);
    assert_eq!(i.commands, strings(&["up", "default"]));
    assert_eq!(i.mode(), Mode::Daemon);

    let i = parse_arguments(&strings(&["runner", "status", "conf.yml"]));
    assert_eq!(i.config_file, None);
    assert!(!i.noinit && !i.noexec);
    assert_eq!(i.commands, strings(&["status", "conf.yml"]));
    assert_eq!(i.mode(), Mode::Client);

    let i = parse_arguments(&strings(&["runner", "noexec", "conf.yml"]));
    assert_eq!(i.config_file, None);
    assert_eq!(i.commands, strings(&["conf.yml"]));

    assert_eq!(parse_arguments(&strings(&["runner"])).mode(), Mode::Usage);
    assert_eq!(parse_arguments(&strings(&["runner", "noinit"])).mode(), Mode::Usage);
    assert_eq!(parse_arguments(&vec![]).mode(), Mode::Usage);
    assert_eq!(parse_arguments(&strings(&["runner", ".yml"])).mode(), Mode::Daemon);
    assert_eq!(parse_arguments(&strings(&["runner", "yml"])).mode(), Mode::Client);
}

#[test]
fn a_request_is_split_at_its_spaces() {
    assert_eq!(request_parts("up default"), strings(&["up", "default"]));
    assert_eq!(request_parts("status"), strings(&["status"]));
    assert_eq!(request_parts("start  a "), strings(&["start", "", "a", ""]));
    assert_eq!(client_message(&strings(&["start", "a.b", "c"])), "start a.b c");
    assert_eq!(request_parts(client_message(&strings(&["stop", "x"])).as_str()), strings(&["stop", "x"]));
    assert_eq!(PORT, 65000);
    assert_eq!(REQUEST_LIMIT, 10000);
}
