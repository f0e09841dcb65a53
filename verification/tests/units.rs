use runner::command_to_run::Environment;
use runner::machine::{
    next_step, pending_action, start_step, stop_state, Action, Event, Note, Phase, RunState,
    READINESS_PAUSE_MILLIS, SUPERVISION_PAUSE_MILLIS,
};
use runner::script::{
    all_exist, contains_text, distinct_strings, Script, ScriptChecker, ScriptConfig, Unread, SCRIPT_STATUS_FAILED,
    SCRIPT_STATUS_FINISHED, SCRIPT_STATUS_INTERRUPTED, SCRIPT_STATUS_KILLED,
    SCRIPT_STATUS_NOT_STARTED, SCRIPT_STATUS_RUNNING, SCRIPT_STATUS_STARTING,
};
use runner::service::{Service, ServiceConfig};
use runner::service_manager::Services;
use runner::text::{copy_option, copy_strings, has_char, has_suffix, same_text, to_chars, white_space};
use runner::tokenizer::blank;
use runner::user_command::WriterWithTCP;

fn env() -> Environment {
    Environment { current_dir: Some("/cwd".to_string()), home: Some("/home/u".to_string()) }
}

fn config(command: &str) -> ScriptConfig {
    ScriptConfig {
        command: Some(command.to_string()),
        workdir: None,
        env_file: None,
        log_file: None,
        log_file_err: None,
        wait_for_ports: None,
        wait_until_scripts_are_done: None,
        delay: None,
    }
}

fn nothing() -> Services {
    Services::new(&vec![], &env()).unwrap()
}

fn state(status: usize, phase: Phase) -> RunState {
    RunState { status, phase, interrupt: false, noexec: false, attended: true }
}

#[test]
fn the_statuses_have_their_numbers() {
    assert_eq!(
        [
            SCRIPT_STATUS_NOT_STARTED,
            SCRIPT_STATUS_STARTING,
            SCRIPT_STATUS_RUNNING,
            SCRIPT_STATUS_INTERRUPTED,
            SCRIPT_STATUS_FINISHED,
            SCRIPT_STATUS_FAILED,
            SCRIPT_STATUS_KILLED,
        ],
        [0, 1, 2, 3, 4, 5, 6]
    );
    assert_eq!(READINESS_PAUSE_MILLIS, 1000);
    assert_eq!(SUPERVISION_PAUSE_MILLIS, 100);
}

#[test]
fn a_start_is_possible_from_rest_only() {
    for status in [
        SCRIPT_STATUS_NOT_STARTED,
        SCRIPT_STATUS_INTERRUPTED,
        SCRIPT_STATUS_FINISHED,
        SCRIPT_STATUS_FAILED,
        SCRIPT_STATUS_KILLED,
    ] {
        let step = start_step(state(status, Phase::Idle), false, false, None);
        assert_eq!(step.state.status, SCRIPT_STATUS_STARTING);
        assert_eq!(step.state.phase, Phase::Ports);
        assert_eq!(step.action, Action::ProbePorts);
        assert!(!step.state.attended && !step.state.interrupt);
        let step = start_step(state(status, Phase::Idle), true, false, Some(9));
        assert_eq!((step.state.status, step.state.phase), (SCRIPT_STATUS_STARTING, Phase::Launch));
        assert_eq!(step.action, Action::Spawn);
        let step = start_step(state(status, Phase::Idle), true, true, None);
        assert_eq!((step.state.status, step.state.phase), (SCRIPT_STATUS_FINISHED, Phase::Idle));
        assert_eq!((step.action, step.note), (Action::Done, Note::DryRun));
    }
    for (status, phase) in [(SCRIPT_STATUS_STARTING, Phase::Ports), (SCRIPT_STATUS_RUNNING, Phase::Poll)] {
        let before = state(status, phase);
        let step = start_step(before, true, true, None);
        assert_eq!(step.state, before);
        assert_eq!(step.note, Note::Nothing);
    }
}

#[test]
fn a_stop_sets_the_interrupt_of_an_active_script_only() {
    for (status, phase) in [(SCRIPT_STATUS_STARTING, Phase::DelayPause), (SCRIPT_STATUS_RUNNING, Phase::PollPause)] {
        let after = stop_state(state(status, phase));
        assert!(after.interrupt);
        assert_eq!((after.status, after.phase), (status, phase));
        assert_eq!(stop_state(after), after);
    }
    for status in [SCRIPT_STATUS_NOT_STARTED, SCRIPT_STATUS_FINISHED, SCRIPT_STATUS_KILLED] {
        let before = state(status, Phase::Idle);
        assert_eq!(stop_state(before), before);
    }
}

#[test]
fn every_phase_has_its_action_in_hand() {
    assert_eq!(pending_action(Phase::Idle, None), Action::Done);
    assert_eq!(pending_action(Phase::Ports, None), Action::ProbePorts);
    assert_eq!(pending_action(Phase::PortsPause, None), Action::Sleep(1000));
    assert_eq!(pending_action(Phase::DependenciesPause, None), Action::Sleep(1000));
    assert_eq!(pending_action(Phase::DelayPause, Some(7)), Action::Delay(7));
    assert_eq!(pending_action(Phase::Launch, None), Action::Spawn);
    assert_eq!(pending_action(Phase::Poll, None), Action::Poll);
    assert_eq!(pending_action(Phase::PollPause, None), Action::Sleep(100));
}

#[test]
fn an_event_that_is_not_awaited_changes_nothing() {
    let before = state(SCRIPT_STATUS_STARTING, Phase::Launch);
    for event in [
        Event::Begin,
        Event::Tick,
        Event::PortsProbed(true),
        Event::Exited("exit status: 0".to_string()),
        Event::Alive,
    ] {
        let step = next_step(before, &event, true, None);
        assert_eq!(step.state, before);
        assert_eq!(step.action, Action::Spawn);
    }
}

#[test]
fn the_interrupt_is_seen_when_a_sleep_is_over() {
    for phase in [Phase::PortsPause, Phase::DependenciesPause, Phase::DelayPause] {
        let mut before = state(SCRIPT_STATUS_STARTING, phase);
        before.interrupt = true;
        let step = next_step(before, &Event::Tick, true, Some(1));
        assert_eq!(step.state.status, SCRIPT_STATUS_INTERRUPTED);
        assert_eq!(step.state.phase, Phase::Idle);
        assert!(!step.state.interrupt);
        assert_eq!(step.action, Action::Done);
    }
    let mut before = state(SCRIPT_STATUS_STARTING, Phase::Ports);
    before.interrupt = true;
    let step = next_step(before, &Event::PortsProbed(true), true, None);
    assert_eq!((step.state.status, step.action), (SCRIPT_STATUS_STARTING, Action::Spawn));
    assert!(step.state.interrupt);
}

#[test]
fn a_script_is_driven_by_hand() {
    let mut items = config("/bin/run --fast");
    items.delay = Some(-1);
    let mut script = Script::new("job".to_string(), &items, &nothing(), &env()).unwrap();
    let mut writer = WriterWithTCP::new();
    assert!(!script.claim());
    script.stop(&mut writer);
    assert_eq!(script.get_status(), SCRIPT_STATUS_NOT_STARTED);
    script.start(false, false, &mut writer);
    assert_eq!(script.get_status_string(), "  job: starting");
    assert!(!script.wait_finish());
    assert!(script.claim());
    assert!(!script.claim());
    assert_eq!(script.advance(Event::PortsProbed(true), false, &mut writer), Action::Sleep(1000));
    assert_eq!(script.advance(Event::Tick, true, &mut writer), Action::Delay(u64::MAX));
    assert_eq!(script.advance(Event::Tick, false, &mut writer), Action::Spawn);
    assert_eq!(script.advance(Event::Spawned, false, &mut writer), Action::Poll);
    assert_eq!(script.get_status_string(), "  job: running");
    script.interrupt();
    assert_eq!(script.advance(Event::Exited("exit status: 0".to_string()), false, &mut writer), Action::Done);
    assert_eq!(script.get_status_string(), "  job: finished");
    assert!(script.wait_finish());
    script.start(true, false, &mut writer);
    assert_eq!(script.advance(Event::SpawnFailed("no such file".to_string()), false, &mut writer), Action::Done);
    assert_eq!(script.get_status_string(), "  job: failed");
    script.start(true, false, &mut writer);
    script.advance(Event::Spawned, false, &mut writer);
    assert_eq!(script.advance(Event::PollFailed("no child".to_string()), false, &mut writer), Action::Kill);
    assert_eq!(script.get_status_string(), "  job: failed");
    script.start(true, false, &mut writer);
    script.advance(Event::Spawned, false, &mut writer);
    script.advance(Event::Alive, false, &mut writer);
    script.stop(&mut writer);
    assert_eq!(script.advance(Event::Tick, false, &mut writer), Action::Kill);
    assert_eq!(script.get_status_string(), "  job: interrupted");
    assert_eq!(
        writer.take_lines(),
        vec![
            "Stopping job...",
            "Starting job...",
            "Started job...",
            "Finished job with exitcode exit status: 0",
            "Starting job...",
            "Failed to start job: no such file",
            "Starting job...",
            "Started job...",
            "Failed to wait job: no child",
            "Starting job...",
            "Started job...",
            "Stopping job...",
        ]
    );
}

#[test]
fn a_service_starts_and_stops_its_scripts() {
    let items = ServiceConfig {
        disabled: None,
        post_stop_script: Some("/bin/after".to_string()),
        scripts: Some(vec![("a".to_string(), config("/bin/a")), ("b".to_string(), config("/bin/b"))]),
    };
    let mut service = Service::new("svc".to_string(), &items, &nothing(), &env()).unwrap();
    let mut writer = WriterWithTCP::new();
    service.start(false, false, &mut writer);
    assert_eq!(service.get_status_string(), "  a: starting\n  b: starting");
    assert!(!service.wait_finish());
    let mut names = vec!["other.x".to_string()];
    service.claim_waiters(&mut names);
    assert_eq!(names, vec!["other.x", "svc.a", "svc.b"]);
    service.claim_waiters(&mut names);
    assert_eq!(names.len(), 3);
    assert_eq!(
        service.advance(&"b".to_string(), Event::PortsProbed(false), true, &mut writer).unwrap(),
        Action::Sleep(1000)
    );
    assert!(service.advance(&"c".to_string(), Event::Tick, true, &mut writer).is_err());
    assert!(service.start_script(&"c".to_string(), true, true, &mut writer).is_err());
    assert!(service.stop_script(&"c".to_string(), &mut writer).is_err());
    service.stop_script(&"a".to_string(), &mut writer).unwrap();
    let left = service.stop(false, &mut writer).unwrap();
    assert_eq!(left.program(), "/bin/after");
    service.post_stop_finished(&mut writer);
    assert_eq!(service.advance(&"b".to_string(), Event::Tick, true, &mut writer).unwrap(), Action::Done);
    assert_eq!(service.get_status_string(), "  a: starting\n  b: interrupted");
    service.start_script(&"b".to_string(), true, true, &mut writer).unwrap();
    assert_eq!(service.get_script_status(&"b".to_string()), SCRIPT_STATUS_FINISHED);
    assert_eq!(
        writer.take_lines(),
        vec![
            "Starting a...",
            "Starting b...",
            "Stopping a...",
            "Stopping a...",
            "Stopping b...",
            "Running post-stop-script for svc",
            "Finished post-stop-script for svc",
            "Starting b...",
            "CommandToRun /bin/b parameters=[] log_file_out=None log_file_err=None work_dir=None env_file=None",
            "Finished b with noexec",
        ]
    );
}

#[test]
fn the_small_helpers_of_text_do_what_they_say() {
    assert_eq!(to_chars("a\u{e9}b"), vec!['a', '\u{e9}', 'b']);
    assert!(white_space(' ') && white_space('\u{2003}') && !white_space('x') && !white_space('\u{200b}'));
    assert!(blank(' ') && blank('\t') && blank('\n') && blank('\r') && blank('\u{c}'));
    assert!(!blank('\u{b}') && !blank('\u{a0}') && !blank('a'));
    assert!(has_char("a.b", '.') && !has_char("ab", '.'));
    assert!(has_suffix("c.yml", ".yml") && has_suffix(".yml", ".yml"));
    assert!(!has_suffix("yml", ".yml") && !has_suffix("c.yml ", ".yml"));
    assert!(same_text("up", "up") && !same_text("up", "Up") && !same_text("up", "up "));
    assert_eq!(copy_option(&Some("x".to_string())), Some("x".to_string()));
    assert_eq!(copy_option(&None), None);
    let list = vec!["b".to_string(), "a".to_string(), "b".to_string()];
    assert_eq!(copy_strings(&list), list);
    assert_eq!(distinct_strings(&list), vec!["b", "a"]);
    assert!(contains_text(&list, &"a".to_string()) && !contains_text(&list, &"c".to_string()));
}

#[test]
fn a_script_that_was_asked_to_stop_does_not_begin_a_pause() {
    let mut probing = state(SCRIPT_STATUS_STARTING, Phase::Ports);
    probing.interrupt = true;
    let step = next_step(probing, &Event::PortsProbed(false), true, None);
    assert_eq!((step.state.status, step.state.phase), (SCRIPT_STATUS_INTERRUPTED, Phase::Idle));
    assert_eq!(step.action, Action::Done);
    assert!(!step.state.interrupt);
    let step = next_step(probing, &Event::PortsProbed(true), false, None);
    assert_eq!((step.state.status, step.state.phase), (SCRIPT_STATUS_INTERRUPTED, Phase::Idle));
    assert_eq!(step.action, Action::Done);
    let mut polling = state(SCRIPT_STATUS_RUNNING, Phase::Poll);
    polling.interrupt = true;
    let step = next_step(polling, &Event::Alive, true, None);
    assert_eq!((step.state.status, step.state.phase), (SCRIPT_STATUS_INTERRUPTED, Phase::Idle));
    assert_eq!(step.action, Action::Kill);

    let probing = state(SCRIPT_STATUS_STARTING, Phase::Ports);
    let step = next_step(probing, &Event::PortsProbed(false), true, None);
    assert_eq!((step.state.status, step.state.phase), (SCRIPT_STATUS_STARTING, Phase::PortsPause));
    assert_eq!(step.action, Action::Sleep(1000));
    let step = next_step(probing, &Event::PortsProbed(true), false, None);
    assert_eq!((step.state.status, step.state.phase), (SCRIPT_STATUS_STARTING, Phase::DependenciesPause));
    assert_eq!(step.action, Action::Sleep(1000));
    let polling = state(SCRIPT_STATUS_RUNNING, Phase::Poll);
    let step = next_step(polling, &Event::Alive, true, None);
    assert_eq!((step.state.status, step.state.phase), (SCRIPT_STATUS_RUNNING, Phase::PollPause));
    assert_eq!(step.action, Action::Sleep(100));
}

#[test]
fn a_script_without_dependencies_waits_for_nothing() {
    let script = Script::new("job".to_string(), &config("/bin/run"), &Unread, &env()).unwrap();
    assert!(script.dependencies_exist(&nothing()));
    let mut items = config("/bin/run");
    items.wait_until_scripts_are_done = Some(vec!["a.b".to_string()]);
    let script = Script::new("job".to_string(), &items, &Unread, &env()).unwrap();
    assert!(script.dependencies_exist(&Unread));
    assert!(!script.dependencies_exist(&nothing()));
    assert!(Script::new("job".to_string(), &items, &nothing(), &env()).is_err());
    assert!(Unread.script_exists(&"any.thing".to_string()));
    assert!(Unread.check_scripts(&vec![]));
    assert!(!Unread.check_scripts(&vec!["a.b".to_string()]));
    assert!(all_exist(&vec!["a.b".to_string()], &Unread));
    assert!(!all_exist(&vec!["a.b".to_string()], &nothing()));
}
