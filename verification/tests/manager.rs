use runner::command_to_run::Environment;
use runner::script::{Script, ScriptChecker, ScriptConfig, SCRIPT_STATUS_NOT_STARTED};
use runner::service::{
    build_invalid_script_name_error, build_service_has_no_scripts_error, Service, ServiceConfig,
};
use runner::service_manager::{
    build_service_sets, Configuration, ServiceManager, ServiceSetConfig, Services,
};
use runner::user_command::WriterWithTCP;
use runner::utilities::{build_invalid_data_error_string, ErrorKind};

fn env() -> Environment {
    Environment { current_dir: Some("/cwd".to_string()), home: Some("/home/u".to_string()) }
}

fn script(command: &str) -> ScriptConfig {
    ScriptConfig {
        command: Some(command.to_string()),
        workdir: None,
        env_file: None,
        log_file: None,
        log_file_err: None,
        wait_for_ports: None,
        wait_until_scripts_are_done: None,
        delay: None,
    }
}

fn service(scripts: Vec<(&str, ScriptConfig)>) -> ServiceConfig {
    ServiceConfig {
        disabled: None,
        post_stop_script: None,
        scripts: Some(scripts.into_iter().map(|(n, s)| (n.to_string(), s)).collect()),
    }
}

fn strings(items: &[&str]) -> Vec<String> {
    items.iter().map(|s| s.to_string()).collect()
}

fn three_services() -> Services {
    let configs = vec![
        ("db".to_string(), service(vec![("run", script("/bin/db"))])),
        ("web".to_string(), service(vec![("run", script("/bin/web")), ("log", script("/bin/log"))])),
        ("mail".to_string(), service(vec![("run", script("/bin/mail"))])),
    ];
    Services::new(&configs, &env()).unwrap()
}

fn sets(entries: Vec<(&str, Option<&[&str]>, Option<&[&str]>)>) -> Vec<(String, ServiceSetConfig)> {
    entries
        .into_iter()
        .map(|(name, includes, services)| {
            (
                name.to_string(),
                ServiceSetConfig { includes: includes.map(strings), services: services.map(strings) },
            )
        })
        .collect()
}

#[test]
fn a_set_holds_its_includes_and_its_own_services() {
    let services = three_services();
    let built = build_service_sets(
        &sets(vec![
            ("base", None, Some(&["db"])),
            ("front", None, Some(&["web", "db"])),
            ("all", Some(&["base", "front"]), Some(&["mail", "web"])),
        ]),
        &services,
    )
    .unwrap();
    assert_eq!(
        built,
        vec![
            ("base".to_string(), strings(&["db"])),
            ("front".to_string(), strings(&["web", "db"])),
            ("all".to_string(), strings(&["db", "web", "mail"])),
        ]
    );
}

#[test]
fn a_set_may_only_include_sets_declared_before_it() {
    let services = three_services();
    let e = build_service_sets(
        &sets(vec![("all", Some(&["base"]), Some(&["mail"])), ("base", None, Some(&["db"]))]),
        &services,
    )
    .unwrap_err();
    assert_eq!(e.kind, ErrorKind::ConfigError);
    assert_eq!(e.message, "invalid include service name");
    let e = build_service_sets(&sets(vec![("me", Some(&["me"]), Some(&["db"]))]), &services)
        .unwrap_err();
    assert_eq!(e.message, "invalid include service name");
}

#[test]
fn a_set_needs_services_that_exist() {
    let services = three_services();
    let e = build_service_sets(&sets(vec![("a", None, None)]), &services).unwrap_err();
    assert_eq!(e.message, "invalid services directive");
    let e = build_service_sets(&sets(vec![("a", None, Some(&[]))]), &services).unwrap_err();
    assert_eq!(e.message, "empty services directive");
    let e = build_service_sets(&sets(vec![("a", Some(&[]), Some(&["db"]))]), &services).unwrap_err();
    assert_eq!(e.message, "empty include directive");
    let e = build_service_sets(&sets(vec![("a", None, Some(&["db", "nope", "nada"]))]), &services)
        .unwrap_err();
    assert_eq!(e.kind, ErrorKind::ConfigError);
    assert_eq!(e.message, "service does not exists: nope");
}

#[test]
fn of_two_sets_of_one_name_the_later_stays() {
    let services = three_services();
    let built = build_service_sets(
        &sets(vec![("a", None, Some(&["db"])), ("b", None, Some(&["web"])), ("a", Some(&["a"]), Some(&["mail"]))]),
        &services,
    )
    .unwrap();
    assert_eq!(
        built,
        vec![("a".to_string(), strings(&["db", "mail"])), ("b".to_string(), strings(&["web"]))]
    );
}

#[test]
fn disabled_services_are_left_out() {
    let mut off = service(vec![("run", script("/bin/off"))]);
    off.disabled = Some(true);
    let mut on = service(vec![("run", script("/bin/on"))]);
    on.disabled = Some(false);
    let configs = vec![("off".to_string(), off), ("on".to_string(), on)];
    let services = Services::new(&configs, &env()).unwrap();
    assert_eq!(services.names(), vec!["on"]);
    assert!(services.find_service(&"off".to_string()).is_err());
    assert!(services.check_service_name(&"on".to_string()).is_ok());
    let e = services.check_service_name(&"off".to_string()).unwrap_err();
    assert_eq!(e.kind, ErrorKind::ConfigError);
    assert_eq!(e.message, "service does not exists: off");
}

#[test]
fn a_disabled_service_need_not_be_valid() {
    let off = ServiceConfig { disabled: Some(true), post_stop_script: None, scripts: None };
    let configs = vec![("off".to_string(), off), ("on".to_string(), service(vec![("run", script("/bin/on"))]))];
    assert_eq!(Services::new(&configs, &env()).unwrap().names(), vec!["on"]);
}

#[test]
fn names_lead_to_services_and_scripts() {
    let services = three_services();
    let (found, script) = services.get_script_service(&"web.log".to_string()).unwrap();
    assert_eq!(found.name(), "web");
    assert_eq!(script, "log");
    assert!(found.script_exists("log".to_string()));
    assert!(!found.script_exists("nope".to_string()));
    assert_eq!(found.get_script_status(&"log".to_string()), SCRIPT_STATUS_NOT_STARTED);
    assert_eq!(found.get_script_status(&"nope".to_string()), SCRIPT_STATUS_NOT_STARTED);
    let (found, script) = services.get_script_service(&"web.nope".to_string()).unwrap();
    assert_eq!(found.name(), "web");
    assert_eq!(script, "nope");
    for name in ["web", "web.log.x", "", "a.b.c"] {
        let e = services.get_script_service(&name.to_string()).unwrap_err();
        assert_eq!(e.kind, ErrorKind::InvalidName);
        assert_eq!(e.message, "invalid script name");
    }
    let e = services.get_script_service(&"nope.run".to_string()).unwrap_err();
    assert_eq!(e.kind, ErrorKind::InvalidName);
    assert_eq!(e.message, "service not found");
    assert!(services.script_exists(&"web.log".to_string()));
    assert!(!services.script_exists(&"web.nope".to_string()));
    assert!(!services.script_exists(&"nope.run".to_string()));
    assert!(!services.script_exists(&"web".to_string()));
    assert_eq!(services.get_script_status(&"nope.run".to_string()), SCRIPT_STATUS_NOT_STARTED);
    assert!(services.check_scripts(&vec![]));
    assert!(!services.check_scripts(&strings(&["web.log"])));
    assert!(!services.all_finished(&strings(&["nope.run"])));
}

#[test]
fn a_report_lists_services_and_scripts() {
    let services = three_services();
    assert_eq!(
        services.report_status(None),
        "db:\n  run: not started\nweb:\n  run: not started\n  log: not started\nmail:\n  run: not started"
    );
    assert_eq!(services.report_status(Some(&"web".to_string())), "web:\n  run: not started\n  log: not started");
    assert_eq!(services.report_status(Some(&"nope".to_string())), "");
    let web = services.find_service(&"web".to_string()).unwrap();
    assert_eq!(web.get_status_string(), "  run: not started\n  log: not started");
    assert_eq!(web.script(&"log".to_string()).unwrap().get_status_string(), "  log: not started");
    assert_eq!(web.script(&"log".to_string()).unwrap().get_status(), SCRIPT_STATUS_NOT_STARTED);
    assert!(web.script(&"log".to_string()).unwrap().wait_finish());
    assert!(web.wait_finish());
    assert!(services.wait_finish());
}

#[test]
fn a_script_may_wait_for_any_script_of_the_configuration() {
    let mut b = script("/bin/true");
    b.wait_until_scripts_are_done = Some(strings(&["svc.a", "later.run", "svc.a", "svc.b"]));
    let configs = vec![
        ("svc".to_string(), service(vec![("a", script("/bin/true")), ("b", b)])),
        ("later".to_string(), service(vec![("run", script("/bin/late"))])),
    ];
    let services = Services::new(&configs, &env()).unwrap();
    let svc = services.find_service(&"svc".to_string()).unwrap();
    assert_eq!(
        svc.script(&"b".to_string()).unwrap().wait_until_scripts_are_done(),
        &strings(&["svc.a", "later.run", "svc.b"])
    );
    assert_eq!(svc.dangling_script(&services), None);
}

#[test]
fn a_script_may_not_wait_for_a_script_that_does_not_exist() {
    for missing in ["svc.nope", "nope.a", "svc", "svc.a.b", "off.run"] {
        let mut fine = script("/bin/fine");
        fine.wait_until_scripts_are_done = Some(strings(&["svc.a"]));
        let mut waits = script("/bin/waits");
        waits.wait_until_scripts_are_done = Some(strings(&["svc.a", missing]));
        let mut also = script("/bin/also");
        also.wait_until_scripts_are_done = Some(strings(&["nowhere.at_all"]));
        let mut off = service(vec![("run", script("/bin/off"))]);
        off.disabled = Some(true);
        let configs = vec![
            ("svc".to_string(), service(vec![("a", script("/bin/true")), ("fine", fine)])),
            ("off".to_string(), off),
            ("web".to_string(), service(vec![("ok", script("/bin/ok")), ("waits", waits), ("also", also)])),
        ];
        let e = Services::new(&configs, &env()).unwrap_err();
        assert_eq!(e.kind, ErrorKind::ConfigError);
        assert_eq!(e.message, "wait_until_scripts_are_done is invalid in script waits");
    }
}

#[test]
fn an_invalid_service_is_found_before_a_missing_script() {
    let mut waits = script("/bin/waits");
    waits.wait_until_scripts_are_done = Some(strings(&["nope.a"]));
    let configs = vec![
        ("svc".to_string(), service(vec![("waits", waits)])),
        ("empty".to_string(), service(vec![])),
    ];
    let e = Services::new(&configs, &env()).unwrap_err();
    assert_eq!(e.message, "service empty has no scripts");
}

#[test]
fn a_script_needs_a_command_and_valid_ports() {
    let services = three_services();
    let mut none = script("x");
    none.command = None;
    let e = Script::new("s".to_string(), &none, &services, &env()).unwrap_err();
    assert_eq!(e.kind, ErrorKind::ConfigError);
    assert_eq!(e.message, "script s has no command");
    let mut bad = script("/bin/x");
    bad.wait_for_ports = Some(vec![Some("80".to_string()), None]);
    let e = Script::new("s".to_string(), &bad, &services, &env()).unwrap_err();
    assert_eq!(e.message, "wait_for_ports is invalid in script s");
    bad.wait_for_ports = Some(vec![Some("80".to_string()), Some("a:b:c".to_string())]);
    let e = Script::new("s".to_string(), &bad, &services, &env()).unwrap_err();
    assert_eq!(e.message, "more than one : in wait_for_ports in script s");
    let mut good = script("/bin/x -v");
    good.wait_for_ports =
        Some(vec![Some("80".to_string()), Some("h:81".to_string()), Some("localhost:80".to_string())]);
    good.delay = Some(2);
    let made = Script::new("s".to_string(), &good, &services, &env()).unwrap();
    assert_eq!(made.name(), "s");
    assert_eq!(made.command().program(), "/bin/x");
    assert_eq!(made.wait_for_ports(), &vec![("localhost".to_string(), 80), ("h".to_string(), 81)]);
    assert_eq!(made.get_status(), SCRIPT_STATUS_NOT_STARTED);
}

#[test]
fn a_service_needs_scripts() {
    let services = three_services();
    for config in [
        ServiceConfig { disabled: None, post_stop_script: None, scripts: None },
        ServiceConfig { disabled: None, post_stop_script: None, scripts: Some(vec![]) },
    ] {
        let e = Service::new("svc".to_string(), &config, &services, &env()).unwrap_err();
        assert_eq!(e.kind, ErrorKind::ConfigError);
        assert_eq!(e.message, "service svc has no scripts");
    }
    let mut broken = service(vec![("a", script("/bin/a"))]);
    broken.post_stop_script = Some("".to_string());
    let e = Service::new("svc".to_string(), &broken, &services, &env()).unwrap_err();
    assert_eq!(e.message, "command is empty");
    let twice = service(vec![("a", script("/bin/one")), ("b", script("/bin/b")), ("a", script("/bin/two"))]);
    let made = Service::new("svc".to_string(), &twice, &services, &env()).unwrap();
    assert_eq!(made.get_status_string(), "  a: not started\n  b: not started");
    assert_eq!(made.script(&"a".to_string()).unwrap().command().program(), "/bin/two");
}

#[test]
fn the_builders_of_errors_give_their_messages() {
    let e = build_invalid_script_name_error();
    assert_eq!((e.kind, e.message.as_str()), (ErrorKind::InvalidName, "invalid script name"));
    let e = build_service_has_no_scripts_error(&"x".to_string());
    assert_eq!((e.kind, e.message.as_str()), (ErrorKind::ConfigError, "service x has no scripts"));
    let e = build_invalid_data_error_string("broken".to_string());
    assert_eq!((e.kind, e.to_string()), (ErrorKind::ConfigError, "broken".to_string()));
}

#[test]
fn a_manager_is_made_of_services_commands_and_sets() {
    let configs = vec![("db".to_string(), service(vec![("run", script("/bin/db"))]))];
    let m = ServiceManager::new(
        &sets(vec![("default", None, Some(&["db"]))]),
        &configs,
        Some("/bin/init a".to_string()),
        Some("/bin/down".to_string()),
        &env(),
    )
    .unwrap();
    assert_eq!(m.service_names(), vec!["db"]);
    assert_eq!(m.init_command().as_ref().unwrap().program(), "/bin/init");
    assert_eq!(m.shutdown_command().as_ref().unwrap().program(), "/bin/down");
    assert_eq!(m.report_status(None), "db:\n  run: not started");
    assert!(m.wait_finish());
    let e = ServiceManager::new(&sets(vec![("default", None, Some(&["web"]))]), &configs, None, None, &env())
        .unwrap_err();
    assert_eq!(e.message, "service does not exists: web");
    let e = ServiceManager::new(&sets(vec![]), &configs, Some("".to_string()), None, &env()).unwrap_err();
    assert_eq!(e.message, "command is empty");
}

#[test]
fn names_that_lead_nowhere_are_refused_and_change_nothing() {
    let configs = vec![("db".to_string(), service(vec![("run", script("/bin/db"))]))];
    let mut m = ServiceManager::new(&sets(vec![("default", None, Some(&["db"]))]), &configs, None, None, &env())
        .unwrap();
    let mut w = WriterWithTCP::new();
    let e = m.up(&"nope".to_string(), false, &mut w).unwrap_err();
    assert_eq!((e.kind, e.message.as_str()), (ErrorKind::InvalidName, "invalid service set name"));
    let e = m.start_service(false, &"nope".to_string(), false, &mut w).unwrap_err();
    assert_eq!((e.kind, e.message.as_str()), (ErrorKind::InvalidName, "service not found"));
    let e = m.stop_service(&"nope".to_string(), false, &mut w).unwrap_err();
    assert_eq!((e.kind, e.message.as_str()), (ErrorKind::InvalidName, "service not found"));
    let e = m.start_script(false, &"db.nope".to_string(), false, &mut w).unwrap_err();
    assert_eq!((e.kind, e.message.as_str()), (ErrorKind::InvalidName, "invalid script name"));
    let e = m.stop_script(&"nope.run".to_string(), &mut w).unwrap_err();
    assert_eq!((e.kind, e.message.as_str()), (ErrorKind::InvalidName, "service not found"));
    let e = m.advance(&"db".to_string(), runner::machine::Event::Tick, &mut w).unwrap_err();
    assert_eq!((e.kind, e.message.as_str()), (ErrorKind::InvalidName, "invalid script name"));
    assert!(w.lines().is_empty());
    assert_eq!(m.report_status(None), "db:\n  run: not started");
    assert!(m.claim_waiters().is_empty());
}

#[test]
fn a_configuration_needs_services_and_sets() {
    let full = || Configuration {
        services: Some(vec![("db".to_string(), service(vec![("run", script("/bin/db"))]))]),
        service_sets: Some(sets(vec![("default", None, Some(&["db"]))])),
        init_command: Some("/bin/init".to_string()),
        shutdown_command: Some("/bin/down".to_string()),
    };
    let m = ServiceManager::load(&full(), false, &env()).unwrap();
    assert_eq!(m.init_command().as_ref().unwrap().program(), "/bin/init");
    assert_eq!(m.shutdown_command().as_ref().unwrap().program(), "/bin/down");
    let m = ServiceManager::load(&full(), true, &env()).unwrap();
    assert!(m.init_command().is_none());
    assert!(m.shutdown_command().is_none());
    let mut none = full();
    none.services = None;
    let e = ServiceManager::load(&none, false, &env()).unwrap_err();
    assert_eq!((e.kind, e.message.as_str()), (ErrorKind::ConfigError, "could not find any service"));
    let mut none = full();
    none.service_sets = None;
    let e = ServiceManager::load(&none, false, &env()).unwrap_err();
    assert_eq!((e.kind, e.message.as_str()), (ErrorKind::ConfigError, "could not find any service"));
    let mut broken = full();
    broken.init_command = Some("".to_string());
    assert!(ServiceManager::load(&broken, false, &env()).is_err());
    assert!(ServiceManager::load(&broken, true, &env()).is_ok());
}

#[test]
fn an_included_set_hands_on_its_members() {
    let configs = vec![
        ("s1".to_string(), service(vec![("run", script("/bin/one"))])),
        ("s2".to_string(), service(vec![("run", script("/bin/two"))])),
    ];
    let services = Services::new(&configs, &env()).unwrap();
    let built = build_service_sets(
        &sets(vec![("a", None, Some(&["s1"])), ("b", Some(&["a"]), Some(&["s2"]))]),
        &services,
    )
    .unwrap();
    assert_eq!(
        built,
        vec![("a".to_string(), strings(&["s1"])), ("b".to_string(), strings(&["s1", "s2"]))]
    );
}
