use devendra::agent::{
    agent_can_run,
    api_url, apply_update_outcome, command_outcome, configuration_plan, dependency_install_outcome,
    disk_usage_from_stats, execute_commands_for_stage, first_present, execute_configuration, hostname_or_unknown,
    install_dependencies, package_manager_candidates, perform_service_actions,
    registered_agent_config, registration_request, service_action_name, service_action_outcome,
    service_command, telemetry_report, ExecutionError, RunAction, RunEvent, Step,
};
use devendra::common::{
    ApplicationStatus, CommandStage, Configuration, ConfigurationUpdate, DiskUsage, RebootStrategy,
    RegistrationResponse, ServiceAction,
};
use devendra::keys::agent_keys;
use devendra::name_map::NameMap;

fn s(x: &str) -> String {
    x.to_string()
}

fn strings(xs: &[&str]) -> Vec<String> {
    xs.iter().map(|x| x.to_string()).collect()
}

fn empty_config(reboot: RebootStrategy) -> Configuration {
    Configuration {
        desc: s("test"),
        variable_map: None,
        file_map: None,
        template_map: None,
        commands: None,
        services: None,
        dependency_map: None,
        reboot,
    }
}

fn full_config() -> Configuration {
    Configuration {
        desc: s("web server"),
        variable_map: Some(vec![(s("port"), s("80"))]),
        file_map: Some(vec![(s("a.conf"), s("/etc/a.conf"))]),
        template_map: Some(vec![(s("b.tmpl"), s("/etc/b"))]),
        commands: Some(vec![
            (CommandStage::After, strings(&["echo after"])),
            (CommandStage::PreDeps, strings(&["echo pre1", "echo pre2"])),
            (CommandStage::PostFiles, strings(&["echo postfiles"])),
            (CommandStage::PostDeps, strings(&["echo postdeps"])),
            (CommandStage::PreFiles, strings(&["echo prefiles"])),
        ]),
        services: Some(vec![(s("nginx"), ServiceAction::Restart), (s("cron"), ServiceAction::EnableNow)]),
        dependency_map: Some(vec![(s("apt"), strings(&["nginx"]))]),
        reboot: RebootStrategy::IfRequested,
    }
}

fn describe(step: &Step) -> String {
    match step {
        Step::RunCommand(c) => format!("run {}", c),
        Step::InstallDependencies(_) => s("install"),
        Step::CopyFiles(_) => s("copy"),
        Step::RenderTemplates { .. } => s("render"),
        Step::ServiceAction(name, action) => format!("service {} {:?}", name, action),
    }
}

#[test]
fn stages_run_in_fixed_order() {
    let plan = configuration_plan(&full_config());
    let steps: Vec<String> = plan.steps.iter().map(describe).collect();
    assert_eq!(
        steps,
        vec![
            "run echo pre1",
            "run echo pre2",
            "install",
            "run echo postdeps",
            "run echo prefiles",
            "copy",
            "render",
            "run echo postfiles",
            "service nginx Restart",
            "service cron EnableNow",
            "run echo after",
        ]
    );
    assert_eq!(plan.reboot, RebootStrategy::IfRequested);
}

#[test]
fn empty_configuration_has_no_steps() {
    let plan = configuration_plan(&empty_config(RebootStrategy::No));
    assert!(plan.steps.is_empty());
}

#[test]
fn render_step_carries_the_variables() {
    let plan = configuration_plan(&full_config());
    match &plan.steps[6] {
        Step::RenderTemplates { templates, variables } => {
            assert_eq!(templates, &vec![(s("b.tmpl"), s("/etc/b"))]);
            assert_eq!(variables, &Some(vec![(s("port"), s("80"))]));
        }
        other => panic!("unexpected step {:?}", other),
    }
}

#[test]
fn commands_for_a_stage() {
    let cmds = vec![(CommandStage::PostDeps, strings(&["a", "b"])), (CommandStage::After, strings(&["c"]))];
    let steps = execute_commands_for_stage(&cmds, CommandStage::PostDeps);
    assert_eq!(steps.iter().map(describe).collect::<Vec<_>>(), vec!["run a", "run b"]);
    assert!(execute_commands_for_stage(&cmds, CommandStage::PreDeps).is_empty());
}

#[test]
fn service_steps_in_order() {
    let services = vec![(s("a"), ServiceAction::Stop), (s("b"), ServiceAction::Status)];
    let steps = perform_service_actions(&services);
    assert_eq!(steps.iter().map(describe).collect::<Vec<_>>(), vec!["service a Stop", "service b Status"]);
}

fn finish_of(action: RunAction) -> Option<Result<bool, String>> {
    match action {
        RunAction::Finish(Ok(b)) => Some(Ok(b)),
        RunAction::Finish(Err(e)) => Some(Err(e.message())),
        _ => None,
    }
}

#[test]
fn successful_run_visits_every_step_then_decides_reboot() {
    let plan = configuration_plan(&full_config());
    let (mut pos, mut action) = execute_configuration(&plan, 0, RunEvent::Started);
    let mut performed = Vec::new();
    loop {
        match action {
            RunAction::Perform(i) => {
                performed.push(i);
                let next = execute_configuration(&plan, pos, RunEvent::StepSucceeded);
                pos = next.0;
                action = next.1;
            }
            RunAction::CheckRebootRequired => {
                let next = execute_configuration(&plan, pos, RunEvent::RebootRequired(true));
                assert_eq!(finish_of(next.1), Some(Ok(true)));
                break;
            }
            RunAction::Finish(_) => panic!("finished before the reboot check"),
        }
    }
    assert_eq!(performed, (0..plan.steps.len()).collect::<Vec<_>>());
}

#[test]
fn reboot_strategies() {
    let always = configuration_plan(&empty_config(RebootStrategy::Always));
    assert_eq!(finish_of(execute_configuration(&always, 0, RunEvent::Started).1), Some(Ok(true)));
    let never = configuration_plan(&empty_config(RebootStrategy::No));
    assert_eq!(finish_of(execute_configuration(&never, 0, RunEvent::Started).1), Some(Ok(false)));
    let asked = configuration_plan(&empty_config(RebootStrategy::IfRequested));
    assert!(matches!(execute_configuration(&asked, 0, RunEvent::Started).1, RunAction::CheckRebootRequired));
    assert_eq!(finish_of(execute_configuration(&asked, 0, RunEvent::RebootRequired(false)).1), Some(Ok(false)));
}

#[test]
fn first_failure_ends_the_run() {
    let plan = configuration_plan(&full_config());
    let err = ExecutionError::TemplateError(s("bad"));
    let (pos, action) = execute_configuration(&plan, 3, RunEvent::StepFailed(err));
    assert_eq!(pos, 3);
    assert_eq!(finish_of(action), Some(Err(s("Template error: bad"))));
}

#[test]
fn error_messages() {
    assert_eq!(ExecutionError::Io(s("denied")).message(), "IO error: denied");
    assert_eq!(
        ExecutionError::CommandFailed { command: s("false"), exit_code: Some(1), stderr: s("oops") }.message(),
        "Command 'false' failed with exit code Some(1): oops"
    );
    assert_eq!(
        ExecutionError::CommandFailed { command: s("x"), exit_code: Some(-9), stderr: s("") }.message(),
        "Command 'x' failed with exit code Some(-9): "
    );
    assert_eq!(
        ExecutionError::CommandFailed { command: s("x"), exit_code: None, stderr: s("killed") }.message(),
        "Command 'x' failed with exit code None: killed"
    );
    assert_eq!(
        ExecutionError::DependencyInstallFailed { package: s("a, b"), error: s("e") }.message(),
        "Failed to install package 'a, b': e"
    );
    assert_eq!(
        ExecutionError::ServiceActionFailed { service: s("nginx"), action: s("enable --now"), error: s("e") }
            .message(),
        "Failed to enable --now service 'nginx': e"
    );
    assert_eq!(ExecutionError::TemplateError(s("t")).message(), "Template error: t");
    assert_eq!(
        ExecutionError::UnsupportedPackageManager(s("pkg")).message(),
        "Unsupported package manager: pkg"
    );
}

#[test]
fn package_managers_in_order() {
    assert_eq!(package_manager_candidates(), strings(&["apt", "dnf", "yum", "zypper", "pacman", "brew"]));
}

#[test]
fn install_commands_by_manager() {
    let table = vec![
        (s("apt"), strings(&["nginx", "curl"])),
        (s("yum"), strings(&["httpd"])),
        (s("pacman"), strings(&["vim"])),
        (s("brew"), strings(&["wget"])),
        (s("zypper"), strings(&["git"])),
        (s("dnf"), strings(&["tmux"])),
        (s("other"), strings(&["x"])),
    ];
    let argv = |pm: &str| install_dependencies(&table, &Some(s(pm))).ok().unwrap().unwrap().argv;
    assert_eq!(argv("apt"), strings(&["sudo", "apt-get", "install", "-y", "nginx", "curl"]));
    assert_eq!(argv("yum"), strings(&["sudo", "yum", "install", "-y", "httpd"]));
    assert_eq!(argv("dnf"), strings(&["sudo", "dnf", "install", "-y", "tmux"]));
    assert_eq!(argv("zypper"), strings(&["sudo", "zypper", "install", "-y", "git"]));
    assert_eq!(argv("pacman"), strings(&["sudo", "pacman", "-S", "--noconfirm", "vim"]));
    assert_eq!(argv("brew"), strings(&["sudo", "brew", "install", "wget"]));
    let plan = install_dependencies(&table, &Some(s("apt"))).ok().unwrap().unwrap();
    assert_eq!(plan.packages, strings(&["nginx", "curl"]));
    match install_dependencies(&table, &Some(s("other"))) {
        Err(e) => assert_eq!(e.message(), "Unsupported package manager: other"),
        Ok(_) => panic!("unknown manager accepted"),
    }
}

#[test]
fn no_packages_for_the_manager_means_nothing_to_install() {
    let table = vec![(s("apt"), strings(&["nginx"]))];
    assert!(matches!(install_dependencies(&table, &Some(s("brew"))), Ok(None)));
}

#[test]
fn no_package_manager_found() {
    let table = vec![(s("apt"), strings(&["nginx"]))];
    match install_dependencies(&table, &None) {
        Err(ExecutionError::UnsupportedPackageManager(m)) => assert_eq!(m, "No supported package manager found"),
        _ => panic!("expected an error"),
    }
}

#[test]
fn install_failure_names_the_packages() {
    let r = dependency_install_outcome(&strings(&["a", "b"]), false, s("no space"));
    match r {
        Err(ExecutionError::DependencyInstallFailed { package, error }) => {
            assert_eq!(package, "a, b");
            assert_eq!(error, "no space");
        }
        _ => panic!("expected a failure"),
    }
    assert!(dependency_install_outcome(&strings(&["a"]), true, s("")).is_ok());
}

#[test]
fn command_outcomes() {
    assert!(command_outcome("true", true, Some(0), s("")).is_ok());
    match command_outcome("false", false, Some(1), s("err")) {
        Err(ExecutionError::CommandFailed { command, exit_code, stderr }) => {
            assert_eq!(command, "false");
            assert_eq!(exit_code, Some(1));
            assert_eq!(stderr, "err");
        }
        _ => panic!("expected a failure"),
    }
}

#[test]
fn service_commands() {
    assert_eq!(service_command(&s("nginx"), ServiceAction::Restart), strings(&["sudo", "systemctl", "restart", "nginx"]));
    assert_eq!(
        service_command(&s("cron"), ServiceAction::DisableNow),
        strings(&["sudo", "systemctl", "disable", "--now", "cron"])
    );
    assert_eq!(service_action_name(ServiceAction::EnableNow), "enable --now");
    assert_eq!(service_action_name(ServiceAction::Status), "status");
}

#[test]
fn status_never_fails() {
    assert!(service_action_outcome(&s("x"), ServiceAction::Status, false, s("inactive")).is_ok());
    match service_action_outcome(&s("x"), ServiceAction::Start, false, s("denied")) {
        Err(ExecutionError::ServiceActionFailed { service, action, error }) => {
            assert_eq!((service.as_str(), action.as_str(), error.as_str()), ("x", "start", "denied"));
        }
        _ => panic!("expected a failure"),
    }
    assert!(service_action_outcome(&s("x"), ServiceAction::Start, true, s("")).is_ok());
}

#[test]
fn update_outcomes_are_recorded() {
    let mut revisions: NameMap<String> = NameMap::new();
    let update = ConfigurationUpdate {
        configuration_name: s("web"),
        new_revision: s("abc123"),
        configuration: empty_config(RebootStrategy::No),
    };
    let failed = apply_update_outcome(&mut revisions, 7, &update, &Err(ExecutionError::TemplateError(s("t"))), 100);
    assert_eq!(failed.status, ApplicationStatus::Failed);
    assert_eq!(failed.error_message, Some(s("Template error: t")));
    assert_eq!(failed.retry_count, 0);
    assert_eq!(revisions.get(&s("web")), None);
    let ok = apply_update_outcome(&mut revisions, 7, &update, &Ok(false), 101);
    assert_eq!(ok.status, ApplicationStatus::Success);
    assert_eq!(ok.error_message, None);
    assert_eq!((ok.agent_id, ok.timestamp, ok.configuration_name.as_str()), (7, 101, "web"));
    assert_eq!(revisions.get(&s("web")), Some(&s("abc123")));
}

#[test]
fn disk_usage_formula() {
    let d = disk_usage_from_stats(4096, 1000, 250, 200);
    assert_eq!(d, DiskUsage { total_bytes: 4_096_000, used_bytes: 3_072_000, available_bytes: 819_200 });
}

#[test]
fn hostnames() {
    assert_eq!(hostname_or_unknown(None), "unknown");
    assert_eq!(hostname_or_unknown(Some(s("box"))), "box");
    let t = telemetry_report(9, None, DiskUsage { total_bytes: 1, used_bytes: 0, available_bytes: 1 }, 50, 60);
    assert_eq!((t.agent_id, t.hostname.as_str(), t.uptime_secs, t.timestamp), (9, "unknown", 50, 60));
}

#[test]
fn keys_follow_rfc8032() {
    let secret: [u8; 32] = [
        157, 97, 177, 157, 239, 253, 90, 96, 186, 132, 74, 244, 146, 236, 44, 196, 68, 73, 197, 105, 123, 50, 105,
        25, 112, 59, 172, 3, 28, 174, 127, 96,
    ];
    let keys = agent_keys(&secret);
    assert_eq!(keys.private_key, "nWGxne/9WmC6hEr0kuwsxERJxWl7MmkZcDusAxyuf2A=");
    assert_eq!(keys.public_key, "11qYAYKxCrfVS/7TyWQHOg7hcvPapiMlrwIaaPcHURo=");
}

#[test]
fn registration_messages() {
    let req = registration_request("tok", &s("PUB"), None, "web");
    assert_eq!(
        (req.token.as_str(), req.public_key.as_str(), req.hostname.as_str(), req.persona_name.as_str()),
        ("tok", "PUB", "unknown", "web")
    );
    let cfg = registered_agent_config(
        5,
        "http://server:8080",
        s("PRIV"),
        RegistrationResponse { auth_token: s("auth"), agent_id: 6 },
        "web",
    );
    assert_eq!(cfg.id, 5);
    assert_eq!(cfg.auth_token, Some(s("auth")));
    assert_eq!((cfg.poll_interval_secs, cfg.max_retry_attempts), (300, 3));
    assert_eq!(cfg.server_url, "http://server:8080");
    assert_eq!(api_url("http://server:8080", "register"), "http://server:8080/api/register");
}

#[test]
fn first_present_candidate() {
    let c = strings(&["apt", "dnf", "yum"]);
    assert_eq!(first_present(&c, &vec![false, true, true]), Some(s("dnf")));
    assert_eq!(first_present(&c, &vec![false, false]), None);
    assert_eq!(first_present(&c, &vec![]), None);
    assert_eq!(first_present(&c, &vec![true]), Some(s("apt")));
}

#[test]
fn well_formed_configurations() {
    assert!(full_config().is_well_formed());
    assert!(empty_config(RebootStrategy::No).is_well_formed());
    let mut twice = empty_config(RebootStrategy::No);
    twice.commands = Some(vec![(CommandStage::After, strings(&["a"])), (CommandStage::After, strings(&["b"]))]);
    assert!(!twice.is_well_formed());
}

#[test]
fn poll_keeps_the_last_successful_revision() {
    let mut revisions: NameMap<String> = NameMap::new();
    revisions.insert(s("db"), s("r0"));
    let update = |name: &str, rev: &str| ConfigurationUpdate {
        configuration_name: s(name),
        new_revision: s(rev),
        configuration: empty_config(RebootStrategy::No),
    };
    let fail = || Err(ExecutionError::TemplateError(s("t")));
    apply_update_outcome(&mut revisions, 1, &update("web", "r1"), &Ok(false), 0);
    apply_update_outcome(&mut revisions, 1, &update("web", "r2"), &Ok(true), 0);
    apply_update_outcome(&mut revisions, 1, &update("web", "r3"), &fail(), 0);
    apply_update_outcome(&mut revisions, 1, &update("db", "r9"), &fail(), 0);
    apply_update_outcome(&mut revisions, 1, &update("new", "n1"), &fail(), 0);
    assert_eq!(revisions.get(&s("web")), Some(&s("r2")));
    assert_eq!(revisions.get(&s("db")), Some(&s("r0")));
    assert_eq!(revisions.get(&s("new")), None);
}

#[test]
fn run_stops_at_first_failed_command() {
    let mut config = empty_config(RebootStrategy::Always);
    config.commands = Some(vec![(CommandStage::PreDeps, strings(&["a", "b", "c"]))]);
    let plan = configuration_plan(&config);
    let (mut pos, mut action) = execute_configuration(&plan, 0, RunEvent::Started);
    let mut performed = Vec::new();
    let result = loop {
        match action {
            RunAction::Perform(i) => {
                performed.push(i);
                let event = if i == 1 {
                    RunEvent::StepFailed(ExecutionError::CommandFailed { command: s("b"), exit_code: Some(2), stderr: s("") })
                } else {
                    RunEvent::StepSucceeded
                };
                let next = execute_configuration(&plan, pos, event);
                pos = next.0;
                action = next.1;
            }
            other => break finish_of(other),
        }
    };
    assert_eq!(performed, vec![0, 1]);
    assert_eq!(result, Some(Err(s("Command 'b' failed with exit code Some(2): "))));
}

#[test]
fn agent_runs_only_with_a_token() {
    let mut cfg = registered_agent_config(
        1,
        "http://s",
        s("k"),
        RegistrationResponse { auth_token: s("t"), agent_id: 2 },
        "p",
    );
    assert!(agent_can_run(&cfg));
    cfg.auth_token = None;
    assert!(!agent_can_run(&cfg));
}

#[test]
fn variables_do_not_change_copy_steps() {
    let mut other = full_config();
    other.variable_map = Some(vec![(s("port"), s("8080")), (s("x"), s("y"))]);
    let a = configuration_plan(&full_config());
    let b = configuration_plan(&other);
    assert_eq!(a.steps.len(), b.steps.len());
    for (x, y) in a.steps.iter().zip(b.steps.iter()) {
        match (x, y) {
            (Step::RenderTemplates { templates: t1, .. }, Step::RenderTemplates { templates: t2, variables }) => {
                assert_eq!(t1, t2);
                assert_eq!(variables, &other.variable_map);
            }
            _ => assert_eq!(describe(x), describe(y)),
        }
    }
    match (&a.steps[5], &b.steps[5]) {
        (Step::CopyFiles(f1), Step::CopyFiles(f2)) => assert_eq!(f1, f2),
        _ => panic!("expected copy steps"),
    }
}
